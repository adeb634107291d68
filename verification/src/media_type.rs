//! Media types (`Content-Type`) and media type selectors (`Accept`).

use vstd::prelude::*;

use crate::cache::weight::{add_weights, saturated, text_length, text_weight, CacheWeight};
use crate::etag::ParseError;
use crate::selector::{
    selector_text, spec_parse_selector, IsSpecific, Selection, SelectionText, Selector,
};
use crate::text::{split_once, split_once_str};

verus! {

/// [MediaType] segment.
#[derive(Clone, Debug, PartialEq, Eq, Hash, PartialOrd, Ord)]
pub struct MediaTypeSegment(pub String);

impl View for MediaTypeSegment {
    type V = Seq<char>;

    open spec fn view(&self) -> Seq<char> {
        self.0@
    }
}

impl MediaTypeSegment {
    /// Constructor.
    pub fn new_owned(segment: String) -> (r: Self)
        ensures
            r@ == segment@,
    {
        MediaTypeSegment(segment)
    }

    /// Constructor.
    pub fn new_fostered(segment: &'static str) -> (r: Self)
        ensures
            r@ == segment@,
    {
        MediaTypeSegment(String::from_str(segment))
    }
}

impl Selection for MediaTypeSegment {
    open spec fn spec_parse(representation: Seq<char>) -> Option<Seq<char>> {
        Some(representation)
    }

    fn parse_selection(representation: &str) -> (r: Option<Self>) {
        Some(MediaTypeSegment(String::from_str(representation)))
    }

    fn same_as(&self, other: &Self) -> (r: bool) {
        self.0 == other.0
    }
}

impl SelectionText for MediaTypeSegment {
    open spec fn spec_text(selection: Seq<char>) -> Seq<char> {
        selection
    }

    fn text(&self) -> (r: String) {
        self.0.clone()
    }
}

/// `main/subtype`.
pub open spec fn slash_join(main: Seq<char>, subtype: Seq<char>) -> Seq<char> {
    main + seq!['/'] + subtype
}

fn slash_joined(main: String, subtype: String) -> (r: String)
    ensures
        r@ == slash_join(main@, subtype@),
{
    let with_slash = main.concat("/");
    proof {
        reveal_strlit("/");
    }
    with_slash.concat(subtype.as_str())
}

/// The main and subtype segments that `representation` denotes: the text before and after
/// the first `/`.
pub open spec fn spec_parse_media_type(representation: Seq<char>) -> Option<(Seq<char>, Seq<char>)> {
    split_once(representation, '/')
}

/// Media type value in HTTP headers.
#[derive(Clone, Debug, PartialEq, Eq, Hash)]
pub struct MediaType {
    /// Main segment.
    pub main: MediaTypeSegment,
    /// Subtype segment.
    pub subtype: MediaTypeSegment,
}

impl View for MediaType {
    type V = (Seq<char>, Seq<char>);

    open spec fn view(&self) -> (Seq<char>, Seq<char>) {
        (self.main@, self.subtype@)
    }
}

impl MediaType {
    /// Constructor.
    pub fn new(main: MediaTypeSegment, subtype: MediaTypeSegment) -> (r: Self)
        ensures
            r.main == main,
            r.subtype == subtype,
    {
        MediaType { main, subtype }
    }

    /// Constructor.
    pub fn new_owned(main: String, subtype: String) -> (r: Self)
        ensures
            r@ == (main@, subtype@),
    {
        MediaType::new(MediaTypeSegment::new_owned(main), MediaTypeSegment::new_owned(subtype))
    }

    /// Constructor.
    pub fn new_fostered(main: &'static str, subtype: &'static str) -> (r: Self)
        ensures
            r@ == (main@, subtype@),
    {
        MediaType::new(MediaTypeSegment::new_fostered(main), MediaTypeSegment::new_fostered(subtype))
    }

    /// Parse `main/subtype`.
    pub fn parse(representation: &str) -> (r: Result<Self, ParseError>)
        ensures
            match r {
                Ok(media_type) => spec_parse_media_type(representation@) == Some(media_type@),
                Err(error) => spec_parse_media_type(representation@) is None && error
                    == ParseError::MissingSlash,
            },
    {
        match split_once_str(representation, '/') {
            Some((main, subtype)) => Ok(
                MediaType::new(
                    MediaTypeSegment(String::from_str(main)),
                    MediaTypeSegment(String::from_str(subtype)),
                ),
            ),
            None => Err(ParseError::MissingSlash),
        }
    }

    /// The text `main/subtype`.
    pub fn to_string(&self) -> (r: String)
        ensures
            r@ == slash_join(self@.0, self@.1),
    {
        slash_joined(self.main.0.clone(), self.subtype.0.clone())
    }
}

/// [MediaType] selector.
///
/// Either of the segments can be [Any](Selector::Any). However, if `main` is [Any](Selector::Any),
/// `subtype` must also be [Any](Selector::Any). Use [Self::is_valid] to check for this.
#[derive(Clone, Debug, PartialEq, Eq, Hash)]
pub struct MediaTypeSelector {
    /// Main segment.
    pub main: Selector<MediaTypeSegment>,
    /// Subtype segment.
    pub subtype: Selector<MediaTypeSegment>,
}

impl View for MediaTypeSelector {
    type V = (Selector<Seq<char>>, Selector<Seq<char>>);

    open spec fn view(&self) -> (Selector<Seq<char>>, Selector<Seq<char>>) {
        (self.main@, self.subtype@)
    }
}

/// The selector that `representation` denotes: the text before and after the first `/`,
/// each `*` or a segment.
pub open spec fn spec_parse_media_type_selector(representation: Seq<char>) -> Option<
    (Selector<Seq<char>>, Selector<Seq<char>>),
> {
    match split_once(representation, '/') {
        Some(parts) => match (
            spec_parse_selector::<MediaTypeSegment>(parts.0),
            spec_parse_selector::<MediaTypeSegment>(parts.1),
        ) {
            (Some(main), Some(subtype)) => Some((main, subtype)),
            _ => None,
        },
        None => None,
    }
}

/// The text `main/subtype` of a selector, with `*` for any segment.
pub open spec fn media_type_selector_text(selector: (Selector<Seq<char>>, Selector<Seq<char>>)) -> Seq<
    char,
> {
    slash_join(
        selector_text::<MediaTypeSegment>(selector.0),
        selector_text::<MediaTypeSegment>(selector.1),
    )
}

impl MediaTypeSelector {
    /// Any (`*/*`).
    pub fn any() -> (r: Self)
        ensures
            r@ == (Selector::<Seq<char>>::Any, Selector::<Seq<char>>::Any),
    {
        MediaTypeSelector::new(Selector::Any, Selector::Any)
    }

    /// Constructor.
    pub fn new(main: Selector<MediaTypeSegment>, subtype: Selector<MediaTypeSegment>) -> (r: Self)
        ensures
            r.main == main,
            r.subtype == subtype,
    {
        MediaTypeSelector { main, subtype }
    }

    /// Constructor.
    pub fn new_owned(main: String, subtype: String) -> (r: Self)
        ensures
            r@ == (Selector::Specific(main@), Selector::Specific(subtype@)),
    {
        MediaTypeSelector::new(
            Selector::Specific(MediaTypeSegment::new_owned(main)),
            Selector::Specific(MediaTypeSegment::new_owned(subtype)),
        )
    }

    /// Constructor.
    pub fn new_fostered(main: &'static str, subtype: &'static str) -> (r: Self)
        ensures
            r@ == (Selector::Specific(main@), Selector::Specific(subtype@)),
    {
        MediaTypeSelector::new(
            Selector::Specific(MediaTypeSegment::new_fostered(main)),
            Selector::Specific(MediaTypeSegment::new_fostered(subtype)),
        )
    }

    /// Whether we are valid.
    ///
    /// If `main` is [Any](Selector::Any), `subtype` must also be [Any](Selector::Any).
    pub fn is_valid(&self) -> (r: bool)
        ensures
            r == (self.main is Any ==> self.subtype is Any),
    {
        self.main.is_specific() || !self.subtype.is_specific()
    }

    /// The selector of exactly `media_type`.
    pub fn from_media_type(media_type: MediaType) -> (r: Self)
        ensures
            r@ == (Selector::Specific(media_type@.0), Selector::Specific(media_type@.1)),
    {
        MediaTypeSelector::new(Selector::Specific(media_type.main), Selector::Specific(media_type.subtype))
    }

    /// Whether both segments are specific and equal to those of `media_type`.
    pub fn eq_media_type(&self, media_type: &MediaType) -> (r: bool)
        ensures
            r == (self@ == (
                Selector::Specific(media_type@.0),
                Selector::Specific(media_type@.1),
            )),
    {
        self.main.is_selection(&media_type.main) && self.subtype.is_selection(&media_type.subtype)
    }

    /// Parse `main/subtype`, where either can be `*`.
    pub fn parse(representation: &str) -> (r: Result<Self, ParseError>)
        ensures
            match r {
                Ok(selector) => spec_parse_media_type_selector(representation@) == Some(selector@),
                Err(error) => spec_parse_media_type_selector(representation@) is None && error
                    == ParseError::MissingSlash,
            },
    {
        match split_once_str(representation, '/') {
            Some((main, subtype)) => {
                let main = Selector::<MediaTypeSegment>::parse(main);
                let subtype = Selector::<MediaTypeSegment>::parse(subtype);
                match (main, subtype) {
                    (Some(main), Some(subtype)) => Ok(MediaTypeSelector::new(main, subtype)),
                    _ => Err(ParseError::MissingSlash),
                }
            },
            None => Err(ParseError::MissingSlash),
        }
    }

    /// The text `main/subtype`.
    pub fn to_string(&self) -> (r: String)
        ensures
            r@ == media_type_selector_text(self@),
    {
        slash_joined(self.main.to_string(), self.subtype.to_string())
    }
}

impl IsSpecific for MediaTypeSelector {
    open spec fn spec_is_specific(&self) -> bool {
        self.main is Specific && self.subtype is Specific
    }

    fn is_specific(&self) -> (r: bool) {
        self.main.is_specific() && self.subtype.is_specific()
    }
}

impl Selection for MediaTypeSelector {
    open spec fn spec_parse(representation: Seq<char>) -> Option<
        (Selector<Seq<char>>, Selector<Seq<char>>),
    > {
        spec_parse_media_type_selector(representation)
    }

    fn parse_selection(representation: &str) -> (r: Option<Self>) {
        match MediaTypeSelector::parse(representation) {
            Ok(selector) => Some(selector),
            Err(_) => None,
        }
    }

    fn same_as(&self, other: &Self) -> (r: bool) {
        self.main.same_as(&other.main) && self.subtype.same_as(&other.subtype)
    }
}

impl SelectionText for MediaTypeSelector {
    open spec fn spec_text(selection: (Selector<Seq<char>>, Selector<Seq<char>>)) -> Seq<char> {
        media_type_selector_text(selection)
    }

    fn text(&self) -> (r: String) {
        self.to_string()
    }
}

/// Whether a segment selector's text reads back as itself: a specific segment must not be `*`.
pub open spec fn is_plain_segment(selector: Selector<Seq<char>>, allow_slash: bool) -> bool {
    match selector {
        Selector::Any => true,
        Selector::Specific(segment) => segment != seq!['*'] && (allow_slash || !segment.contains(
            '/',
        )),
    }
}

/// Parsing the text of a media type selector gives it back, when no specific segment is `*`
/// and the main segment holds no `/`.
pub proof fn lemma_media_type_selector_text_round_trip(
    selector: (Selector<Seq<char>>, Selector<Seq<char>>),
)
    requires
        is_plain_segment(selector.0, false),
        is_plain_segment(selector.1, true),
    ensures
        spec_parse_media_type_selector(media_type_selector_text(selector)) == Some(selector),
{
    let main = selector_text::<MediaTypeSegment>(selector.0);
    let subtype = selector_text::<MediaTypeSegment>(selector.1);
    let s = media_type_selector_text(selector);
    assert forall|j: int| 0 <= j < main.len() implies #[trigger] s[j] != '/' by {
        assert(s[j] == main[j]);
        if let Selector::Specific(segment) = selector.0 {
            assert(!segment.contains('/'));
            assert(main[j] == segment[j]);
        }
    }
    assert(s[main.len() as int] == '/');
    crate::text::lemma_find_char(s, '/', main.len() as int);
    assert(s.take(main.len() as int) =~= main);
    assert(s.skip(main.len() as int + 1) =~= subtype);
}

/// The weight of a segment: its size and its bytes.
pub open spec fn segment_weight(segment: Seq<char>) -> int {
    vstd::layout::size_of::<MediaTypeSegment>() as int + text_length(segment)
}

/// The weight of a segment selector: its size, and the segment's bytes if it is specific.
pub open spec fn segment_selector_weight(selector: Selector<Seq<char>>) -> int {
    vstd::layout::size_of::<Selector<MediaTypeSegment>>() as int + match selector {
        Selector::Any => 0,
        Selector::Specific(segment) => segment_weight(segment),
    }
}

impl CacheWeight for MediaTypeSegment {
    /// Its size and its bytes ([segment_weight]), saturating.
    fn cache_weight(&self) -> (r: usize)
        ensures
            r == saturated(segment_weight(self@)),
    {
        add_weights(std::mem::size_of::<MediaTypeSegment>(), text_weight(&self.0))
    }
}

impl CacheWeight for MediaType {
    /// Its size and its segments' weights, saturating.
    fn cache_weight(&self) -> (r: usize)
        ensures
            r == saturated(
                vstd::layout::size_of::<MediaType>() as int + segment_weight(self@.0) + segment_weight(self@.1),
            ),
    {
        add_weights(add_weights(std::mem::size_of::<MediaType>(), self.main.cache_weight()), self.subtype.cache_weight())
    }
}

impl CacheWeight for Selector<MediaTypeSegment> {
    /// Its size and, if specific, its segment's weight ([segment_selector_weight]), saturating.
    fn cache_weight(&self) -> (r: usize)
        ensures
            r == saturated(segment_selector_weight(self@)),
    {
        let size = std::mem::size_of::<Selector<MediaTypeSegment>>();
        match self {
            Selector::Any => size,
            Selector::Specific(segment) => add_weights(size, segment.cache_weight()),
        }
    }
}

impl CacheWeight for MediaTypeSelector {
    /// Its size and its segment selectors' weights, saturating.
    fn cache_weight(&self) -> (r: usize)
        ensures
            r == saturated(
                vstd::layout::size_of::<MediaTypeSelector>() as int + segment_selector_weight(self@.0)
                    + segment_selector_weight(self@.1),
            ),
    {
        add_weights(add_weights(std::mem::size_of::<MediaTypeSelector>(), self.main.cache_weight()), self.subtype.cache_weight())
    }
}

} // verus!
