//! Language tags (`Accept-Language`, `Content-Language`).

use vstd::prelude::*;

use crate::cache::weight::{add_weights, saturated, text_length, text_weight, CacheWeight};
use crate::selector::Selection;
use crate::text::{
    chars_of, lowercase, split_on, split_str, string_from_chars, to_lowercase, trim, trim_str, views,
};

verus! {

/// The subtags of a language tag: the `-`-separated pieces, lowercased.
pub open spec fn spec_parse_language(representation: Seq<char>) -> Seq<Seq<char>> {
    split_on(representation, '-').map_values(lowercaser())
}

/// [lowercase] as a function value.
pub open spec fn lowercaser() -> spec_fn(Seq<char>) -> Seq<char> {
    |subtag: Seq<char>| lowercase(subtag)
}

/// The subtags joined with `-`.
pub open spec fn join_subtags(subtags: Seq<Seq<char>>) -> Seq<char>
    decreases subtags.len(),
{
    if subtags.len() == 0 {
        Seq::empty()
    } else if subtags.len() == 1 {
        subtags[0]
    } else {
        join_subtags(subtags.drop_last()) + seq!['-'] + subtags.last()
    }
}

/// The languages of a comma-separated list (with whitespace around each trimmed).
pub open spec fn languages_of(representation: Seq<char>) -> Seq<Seq<Seq<char>>> {
    split_on(representation, ',').map_values(|piece: Seq<char>| spec_parse_language(trim(piece)))
}

/// Language tag value in HTTP headers, stored as a sequence of lowercased subtags.
///
/// Language tags are case-insensitive in HTTP, so subtags are lowercased for comparison.
#[derive(Clone, Debug, PartialEq, Eq, Hash, PartialOrd, Ord)]
pub struct Language(pub Vec<String>);

impl View for Language {
    type V = Seq<Seq<char>>;

    open spec fn view(&self) -> Seq<Seq<char>> {
        views(self.0@)
    }
}

impl Language {
    /// Parse a language tag; subtags are lowercased.
    pub fn parse(representation: &str) -> (r: Self)
        ensures
            r@ == spec_parse_language(representation@),
    {
        let pieces = split_str(representation, '-');
        let mut subtags: Vec<String> = Vec::new();
        let mut i: usize = 0;
        while i < pieces.len()
            invariant
                i <= pieces@.len(),
                views(pieces@) == split_on(representation@, '-'),
                views(subtags@) == views(pieces@).take(i as int).map_values(lowercaser()),
            decreases pieces@.len() - i,
        {
            let ghost before = subtags@;
            subtags.push(to_lowercase(pieces[i]));
            proof {
                assert(views(pieces@)[i as int] == pieces@[i as int]@);
                assert(views(subtags@) =~= views(before).push(lowercase(pieces@[i as int]@)));
                assert(views(pieces@).take(i + 1).map_values(lowercaser()) =~= views(
                    pieces@,
                ).take(i as int).map_values(lowercaser()).push(lowercase(pieces@[i as int]@)));
            }
            i = i + 1;
        }
        assert(views(pieces@).take(pieces@.len() as int) =~= views(pieces@));
        Language(subtags)
    }

    /// Parse a comma-separated list as a set: each language of the list once.
    pub fn parse_list(representation: &str) -> (r: Option<Vec<Self>>)
        ensures
            r matches Some(list) && views(list@).no_duplicates() && forall|language: Seq<Seq<char>>|
                #[trigger] views(list@).contains(language) <==> languages_of(representation@).contains(
                    language,
                ),
    {
        let pieces = split_str(representation, ',');
        let ghost all = languages_of(representation@);
        let mut list: Vec<Language> = Vec::new();
        let mut i: usize = 0;
        while i < pieces.len()
            invariant
                i <= pieces@.len(),
                views(pieces@) == split_on(representation@, ','),
                all == languages_of(representation@),
                views(list@).no_duplicates(),
                forall|language: Seq<Seq<char>>| #[trigger]
                    views(list@).contains(language) <==> all.take(i as int).contains(language),
            decreases pieces@.len() - i,
        {
            let language = Language::parse(trim_str(pieces[i]));
            proof {
                assert(views(pieces@)[i as int] == pieces@[i as int]@);
                assert(all[i as int] == language@);
                assert forall|l: Seq<Seq<char>>| all.take(i + 1).contains(l) <==> (all.take(
                    i as int,
                ).contains(l) || l == language@) by {
                    if all.take(i + 1).contains(l) {
                        let j = choose|j: int| 0 <= j < i + 1 && #[trigger] all.take(i + 1)[j] == l;
                        if j < i {
                            assert(all.take(i as int)[j] == l);
                        }
                    }
                    if all.take(i as int).contains(l) {
                        let j = choose|j: int| 0 <= j < i && #[trigger] all.take(i as int)[j] == l;
                        assert(all.take(i + 1)[j] == l);
                    }
                    if l == language@ {
                        assert(all.take(i + 1)[i as int] == l);
                    }
                }
            }
            if !contains_language(&list, &language) {
                let ghost before = list@;
                list.push(language);
                proof {
                    assert(views(list@) =~= views(before).push(language@));
                    assert forall|l: Seq<Seq<char>>| #[trigger]
                        views(list@).contains(l) <==> (views(before).contains(l) || l
                            == language@) by {
                        if views(list@).contains(l) {
                            let j = choose|j: int| 0 <= j < views(list@).len() && #[trigger] views(list@)[j] == l;
                            if j < views(before).len() {
                                assert(views(before)[j] == l);
                            }
                        }
                        if views(before).contains(l) {
                            let j = choose|j: int| 0 <= j < views(before).len() && #[trigger] views(before)[j] == l;
                            assert(views(list@)[j] == l);
                        }
                        if l == language@ {
                            assert(views(list@)[views(before).len() as int] == l);
                        }
                    }
                }
            }
            i = i + 1;
        }
        assert(all.take(all.len() as int) =~= all);
        Some(list)
    }

    /// The tag: subtags joined with `-`.
    pub fn to_string(&self) -> (r: String)
        ensures
            r@ == join_subtags(self@),
    {
        let mut chars: Vec<char> = Vec::new();
        let mut i: usize = 0;
        while i < self.0.len()
            invariant
                i <= self.0@.len(),
                chars@ == join_subtags(self@.take(i as int)),
            decreases self.0@.len() - i,
        {
            let ghost before = chars@;
            if i > 0 {
                chars.push('-');
            }
            let subtag = chars_of(self.0[i].as_str());
            let mut j: usize = 0;
            let ghost middle = chars@;
            while j < subtag.len()
                invariant
                    j <= subtag@.len(),
                    chars@ == middle + subtag@.take(j as int),
                decreases subtag@.len() - j,
            {
                chars.push(subtag[j]);
                assert(subtag@.take(j + 1) =~= subtag@.take(j as int).push(subtag@[j as int]));
                j = j + 1;
            }
            proof {
                assert(subtag@.take(subtag@.len() as int) =~= subtag@);
                assert(self@.take(i + 1).drop_last() =~= self@.take(i as int));
                assert(self@[i as int] == self.0@[i as int]@);
                if i == 0 {
                    assert(chars@ =~= self@.take(1)[0]);
                } else {
                    assert(chars@ =~= before + seq!['-'] + self@[i as int]);
                }
            }
            i = i + 1;
        }
        assert(self@.take(self@.len() as int) =~= self@);
        string_from_chars(chars.as_slice())
    }

    /// Whether both have the same subtags.
    pub fn same_as(&self, other: &Self) -> (r: bool)
        ensures
            r == (self@ == other@),
    {
        if self.0.len() != other.0.len() {
            assert(self@.len() != other@.len());
            return false;
        }
        let mut i: usize = 0;
        while i < self.0.len()
            invariant
                i <= self.0@.len(),
                self.0@.len() == other.0@.len(),
                forall|j: int| 0 <= j < i ==> self@[j] == other@[j],
            decreases self.0@.len() - i,
        {
            if self.0[i] != other.0[i] {
                assert(self@[i as int] != other@[i as int]);
                return false;
            }
            i = i + 1;
        }
        assert(self@ =~= other@);
        true
    }
}

fn contains_language(list: &Vec<Language>, language: &Language) -> (r: bool)
    ensures
        r == views(list@).contains(language@),
{
    let mut i: usize = 0;
    while i < list.len()
        invariant
            i <= list@.len(),
            forall|j: int| 0 <= j < i ==> views(list@)[j] != language@,
        decreases list@.len() - i,
    {
        if list[i].same_as(language) {
            assert(views(list@)[i as int] == language@);
            return true;
        }
        i = i + 1;
    }
    false
}

impl Selection for Language {
    open spec fn spec_parse(representation: Seq<char>) -> Option<Seq<Seq<char>>> {
        Some(spec_parse_language(representation))
    }

    fn parse_selection(representation: &str) -> (r: Option<Self>) {
        Some(Language::parse(representation))
    }

    fn same_as(&self, other: &Self) -> (r: bool) {
        Language::same_as(self, other)
    }
}

/// The bytes of subtags, together.
pub open spec fn subtags_length(subtags: Seq<Seq<char>>) -> int
    decreases subtags.len(),
{
    if subtags.len() == 0 {
        0
    } else {
        subtags_length(subtags.drop_last()) + text_length(subtags.last())
    }
}

impl CacheWeight for Language {
    /// Its size and its subtags' bytes, saturating.
    fn cache_weight(&self) -> (r: usize)
        ensures
            r == saturated(vstd::layout::size_of::<Language>() as int + subtags_length(self@)),
    {
        let mut size = std::mem::size_of::<Language>();
        let ghost all = self@;
        let mut i: usize = 0;
        while i < self.0.len()
            invariant
                i <= self.0@.len(),
                all == self@,
                size == saturated(vstd::layout::size_of::<Language>() as int + subtags_length(all.take(i as int))),
            decreases self.0@.len() - i,
        {
            assert(all.take(i + 1).drop_last() =~= all.take(i as int));
            assert(all.take(i + 1).last() == self.0@[i as int]@);
            size = add_weights(size, text_weight(&self.0[i]));
            i = i + 1;
        }
        assert(all.take(self.0@.len() as int) =~= all);
        size
    }
}

} // verus!
