//! Entity tags (`ETag`, `If-Match`, `If-None-Match`).

use vstd::prelude::*;

use crate::cache::weight::{add_weights, saturated, text_length, text_weight, CacheWeight};
use crate::selector::{spec_parse_selector, Selection, Selector};
use crate::text::{chars_of, split_on, split_str, trim, trim_str, views};

verus! {

/// The tag and weakness that `representation` denotes: after trimming whitespace, `"tag"` or
/// `W/"tag"`, where the tag holds no `"`.
pub open spec fn spec_parse_etag(representation: Seq<char>) -> Option<(Seq<char>, bool)> {
    let t = trim(representation);
    if t.len() >= 1 && t.last() == '"' {
        let u = t.drop_last();
        if u.len() >= 3 && u[0] == 'W' && u[1] == '/' && u[2] == '"' {
            if u.skip(3).contains('"') {
                None
            } else {
                Some((u.skip(3), true))
            }
        } else if u.len() >= 1 && u[0] == '"' {
            if u.skip(1).contains('"') {
                None
            } else {
                Some((u.skip(1), false))
            }
        } else {
            None
        }
    } else {
        None
    }
}

/// Why a text that is no entity tag fails to parse: no closing `"`, else a `"` inside the
/// tag when it opens with `"` or `W/"`, else no opening.
pub open spec fn spec_etag_error(representation: Seq<char>) -> ParseError {
    let t = trim(representation);
    if !(t.len() >= 1 && t.last() == '"') {
        ParseError::MissingEnd
    } else {
        let u = t.drop_last();
        if (u.len() >= 3 && u[0] == 'W' && u[1] == '/' && u[2] == '"') || (u.len() >= 1 && u[0]
            == '"') {
            ParseError::ContainsQuote
        } else {
            ParseError::MissingStart
        }
    }
}

/// The text of an entity tag: `"tag"`, or `W/"tag"` if weak.
pub open spec fn etag_text(etag: (Seq<char>, bool)) -> Seq<char> {
    if etag.1 {
        seq!['W', '/', '"'] + etag.0 + seq!['"']
    } else {
        seq!['"'] + etag.0 + seq!['"']
    }
}

/// The entity tags of a comma-separated list, skipping pieces that do not parse.
pub open spec fn etags_of(representation: Seq<char>) -> Seq<(Seq<char>, bool)> {
    split_on(representation, ',').filter_map(etag_parser())
}

/// [spec_parse_etag] as a function value.
pub open spec fn etag_parser() -> spec_fn(Seq<char>) -> Option<(Seq<char>, bool)> {
    |piece: Seq<char>| spec_parse_etag(piece)
}

/// ETag value in HTTP headers.
#[derive(Clone, Debug, PartialEq, Eq, Hash)]
pub struct ETag {
    /// Tag.
    pub tag: String,
    /// Weak.
    pub weak: bool,
}

impl View for ETag {
    type V = (Seq<char>, bool);

    open spec fn view(&self) -> (Seq<char>, bool) {
        (self.tag@, self.weak)
    }
}

/// An error of parsing a header value.
#[derive(Clone, Debug, PartialEq, Eq)]
pub enum ParseError {
    /// The closing `"` is missing.
    MissingEnd,
    /// The opening `"` (or `W/"`) is missing.
    MissingStart,
    /// The tag holds a `"`.
    ContainsQuote,
    /// The list holds no tag.
    NoTags,
    /// The `/` between media type segments is missing.
    MissingSlash,
}

fn contains_quote(chars: &Vec<char>, from: usize, to: usize) -> (r: bool)
    requires
        from <= to <= chars@.len(),
    ensures
        r == chars@.subrange(from as int, to as int).contains('"'),
{
    let mut i: usize = from;
    while i < to
        invariant
            from <= i <= to,
            to <= chars@.len(),
            forall|j: int| from <= j < i ==> #[trigger] chars@[j] != '"',
        decreases to - i,
    {
        if chars[i] == '"' {
            assert(chars@.subrange(from as int, to as int)[i - from] == '"');
            return true;
        }
        i = i + 1;
    }
    assert forall|j: int| 0 <= j < to - from implies chars@.subrange(from as int, to as int)[j]
        != '"' by {
        assert(chars@.subrange(from as int, to as int)[j] == chars@[from + j]);
    }
    false
}

impl ETag {
    /// Constructor.
    pub fn new(tag: String, weak: bool) -> (r: Self)
        ensures
            r.tag == tag,
            r.weak == weak,
    {
        ETag { tag, weak }
    }

    /// Parse `"tag"` or `W/"tag"`.
    pub fn parse(representation: &str) -> (r: Result<Self, ParseError>)
        ensures
            match r {
                Ok(etag) => spec_parse_etag(representation@) == Some(etag@),
                Err(error) => spec_parse_etag(representation@) is None && error == spec_etag_error(
                    representation@,
                ),
            },
    {
        let t = trim_str(representation);
        let chars = chars_of(t);
        let n = chars.len();
        if n == 0 || chars[n - 1] != '"' {
            return Err(ParseError::MissingEnd);
        }
        let ghost u = t@.drop_last();
        if n - 1 >= 3 && chars[0] == 'W' && chars[1] == '/' && chars[2] == '"' {
            assert(u.skip(3) =~= chars@.subrange(3, n - 1));
            if contains_quote(&chars, 3, n - 1) {
                return Err(ParseError::ContainsQuote);
            }
            let tag = t.substring_char(3, n - 1);
            Ok(ETag::new(String::from_str(tag), true))
        } else if n - 1 >= 1 && chars[0] == '"' {
            assert(u.skip(1) =~= chars@.subrange(1, n - 1));
            if contains_quote(&chars, 1, n - 1) {
                return Err(ParseError::ContainsQuote);
            }
            let tag = t.substring_char(1, n - 1);
            Ok(ETag::new(String::from_str(tag), false))
        } else {
            Err(ParseError::MissingStart)
        }
    }

    /// Parse list.
    pub fn parse_list(representation: &str) -> (r: Option<Vec<Self>>)
        ensures
            match r {
                Some(tags) => views(tags@) == etags_of(representation@) && tags@.len() > 0,
                None => etags_of(representation@).len() == 0,
            },
    {
        let tags = parse_etags(representation);
        if tags.len() > 0 {
            Some(tags)
        } else {
            None
        }
    }

    /// The text of this entity tag.
    pub fn to_string(&self) -> (r: String)
        ensures
            r@ == etag_text(self@),
    {
        if self.weak {
            let open = String::from_str("W/\"");
            let with_tag = open.concat(self.tag.as_str());
            proof {
                reveal_strlit("W/\"");
                reveal_strlit("\"");
            }
            with_tag.concat("\"")
        } else {
            let open = String::from_str("\"");
            let with_tag = open.concat(self.tag.as_str());
            proof {
                reveal_strlit("\"");
            }
            with_tag.concat("\"")
        }
    }

    /// Whether both are the same tag with the same weakness.
    pub fn same_as(&self, other: &Self) -> (r: bool)
        ensures
            r == (self@ == other@),
    {
        self.weak == other.weak && self.tag == other.tag
    }
}

fn parse_etags(representation: &str) -> (r: Vec<ETag>)
    ensures
        views(r@) == etags_of(representation@),
{
    let pieces = split_str(representation, ',');
    let ghost ps = views(pieces@);
    let mut tags: Vec<ETag> = Vec::new();
    let mut j: usize = 0;
    while j < pieces.len()
        invariant
            j <= pieces@.len(),
            ps == views(pieces@),
            ps == split_on(representation@, ','),
            views(tags@) == ps.take(j as int).filter_map(etag_parser()),
        decreases pieces@.len() - j,
    {
        let parsed = ETag::parse(pieces[j]);
        proof {
            ps.lemma_filter_map_take_succ(etag_parser(), j as int);
            assert(ps[j as int] == pieces@[j as int]@);
        }
        match parsed {
            Ok(tag) => {
                let ghost before = tags@;
                tags.push(tag);
                assert(views(tags@) =~= views(before) + seq![tag@]);
            },
            Err(_) => {},
        }
        j = j + 1;
    }
    assert(ps.take(ps.len() as int) =~= ps);
    tags
}

/// Parsing the text of an entity tag gives it back, when the tag holds no `"`.
pub proof fn lemma_etag_text_round_trip(etag: (Seq<char>, bool))
    requires
        !etag.0.contains('"'),
    ensures
        spec_parse_etag(etag_text(etag)) == Some(etag),
{
    let s = etag_text(etag);
    crate::text::lemma_trim_unchanged(s);
    let u = s.drop_last();
    if etag.1 {
        assert(u.skip(3) =~= etag.0);
    } else {
        assert(u.skip(1) =~= etag.0);
        assert(u[0] == '"');
    }
}

/// List of [ETag].
#[derive(Clone, Debug, PartialEq, Eq, Hash)]
pub struct ETagList(pub Vec<ETag>);

impl View for ETagList {
    type V = Seq<(Seq<char>, bool)>;

    open spec fn view(&self) -> Seq<(Seq<char>, bool)> {
        views(self.0@)
    }
}

/// The non-empty list of entity tags that `representation` denotes.
pub open spec fn spec_parse_etag_list(representation: Seq<char>) -> Option<Seq<(Seq<char>, bool)>> {
    if etags_of(representation).len() > 0 {
        Some(etags_of(representation))
    } else {
        None
    }
}

impl Selection for ETagList {
    open spec fn spec_parse(representation: Seq<char>) -> Option<Seq<(Seq<char>, bool)>> {
        spec_parse_etag_list(representation)
    }

    fn parse_selection(representation: &str) -> (r: Option<Self>) {
        match ETagList::parse(representation) {
            Ok(list) => Some(list),
            Err(_) => None,
        }
    }

    fn same_as(&self, other: &Self) -> (r: bool) {
        if self.0.len() != other.0.len() {
            assert(self@.len() != other@.len());
            return false;
        }
        let mut i: usize = 0;
        while i < self.0.len()
            invariant
                i <= self.0@.len(),
                self.0@.len() == other.0@.len(),
                forall|j: int| 0 <= j < i ==> self.0@[j]@ == other.0@[j]@,
            decreases self.0@.len() - i,
        {
            if !self.0[i].same_as(&other.0[i]) {
                assert(self@[i as int] != other@[i as int]);
                return false;
            }
            i = i + 1;
        }
        assert(self@ =~= other@);
        true
    }
}

impl ETagList {
    /// Parse a comma-separated list; fails if no tag parses.
    pub fn parse(representation: &str) -> (r: Result<Self, ParseError>)
        ensures
            match r {
                Ok(list) => spec_parse_etag_list(representation@) == Some(list@),
                Err(error) => spec_parse_etag_list(representation@) is None && error
                    == ParseError::NoTags,
            },
    {
        let tags = parse_etags(representation);
        if tags.len() > 0 {
            Ok(ETagList(tags))
        } else {
            Err(ParseError::NoTags)
        }
    }

    /// Whether one of the tags is `etag` (same tag and weakness).
    pub fn contains(&self, etag: &ETag) -> (r: bool)
        ensures
            r == self@.contains(etag@),
    {
        let mut i: usize = 0;
        while i < self.0.len()
            invariant
                i <= self.0@.len(),
                forall|j: int| 0 <= j < i ==> self@[j] != etag@,
            decreases self.0@.len() - i,
        {
            if self.0[i].same_as(etag) {
                assert(self@[i as int] == etag@);
                return true;
            }
            i = i + 1;
        }
        false
    }
}

/// [ETag] matcher.
#[derive(Clone, Debug, PartialEq, Eq, Hash)]
pub struct ETagMatcher(pub Selector<ETagList>);

impl View for ETagMatcher {
    type V = Selector<Seq<(Seq<char>, bool)>>;

    open spec fn view(&self) -> Selector<Seq<(Seq<char>, bool)>> {
        self.0@
    }
}

/// Whether a matcher matches a reference tag: `*` matches anything (even no tag), a list
/// matches a strong tag that it holds, and nothing matches a weak tag.
pub open spec fn spec_etag_matches(
    matcher: Selector<Seq<(Seq<char>, bool)>>,
    reference: Option<(Seq<char>, bool)>,
) -> bool {
    match matcher {
        Selector::Any => true,
        Selector::Specific(tags) => match reference {
            Some(etag) => !etag.1 && tags.contains(etag),
            None => false,
        },
    }
}

impl ETagMatcher {
    /// Whether any one of our tags matches the reference.
    ///
    /// [Any](Selector::Any) will always match. Weak tags will *never* match.
    pub fn matches(&self, reference: Option<&ETag>) -> (r: bool)
        ensures
            r == spec_etag_matches(
                self@,
                match reference {
                    Some(etag) => Some(etag@),
                    None => None,
                },
            ),
    {
        match &self.0 {
            Selector::Any => true,
            Selector::Specific(selector) => {
                if let Some(reference) = reference {
                    if !reference.weak && selector.contains(reference) {
                        return true;
                    }
                }
                false
            },
        }
    }

    /// Parse: `*`, or a list of tags.
    pub fn parse(representation: &str) -> (r: Result<Self, ParseError>)
        ensures
            match r {
                Ok(matcher) => spec_parse_selector::<ETagList>(representation@) == Some(matcher@),
                Err(error) => spec_parse_selector::<ETagList>(representation@) is None && error
                    == ParseError::NoTags,
            },
    {
        match Selector::<ETagList>::parse(representation) {
            Some(selector) => Ok(ETagMatcher(selector)),
            None => Err(ParseError::NoTags),
        }
    }
}

impl CacheWeight for ETag {
    /// Its size and its tag's bytes, saturating.
    fn cache_weight(&self) -> (r: usize)
        ensures
            r == saturated(vstd::layout::size_of::<ETag>() as int + text_length(self.tag@)),
    {
        add_weights(std::mem::size_of::<ETag>(), text_weight(&self.tag))
    }
}

} // verus!
