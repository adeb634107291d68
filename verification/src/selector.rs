//! Selectors: "any", or one specific selection.

use vstd::prelude::*;

use crate::text::{chars_of, string_from_chars, views};

verus! {

/// Is specific.
pub trait IsSpecific {
    /// Whether the value is specific.
    spec fn spec_is_specific(&self) -> bool;

    /// True if specific.
    fn is_specific(&self) -> (r: bool)
        ensures
            r == self.spec_is_specific(),
    ;
}

/// A value that can be selected in content negotiation: it has a textual representation
/// that can be parsed and written, and can be compared by its view.
pub trait Selection: Sized + View {
    /// The selection that `representation` denotes, if any.
    spec fn spec_parse(representation: Seq<char>) -> Option<Self::V>;

    /// Parse.
    fn parse_selection(representation: &str) -> (r: Option<Self>)
        ensures
            match r {
                Some(selection) => Self::spec_parse(representation@) == Some(selection@),
                None => Self::spec_parse(representation@) is None,
            },
    ;

    /// Whether both denote the same selection.
    fn same_as(&self, other: &Self) -> (r: bool)
        ensures
            r == (self@ == other@),
    ;
}

/// A [Selection] with a textual representation.
pub trait SelectionText: Selection {
    /// The text of a selection.
    spec fn spec_text(selection: Self::V) -> Seq<char>;

    /// Text.
    fn text(&self) -> (r: String)
        ensures
            r@ == Self::spec_text(self@),
    ;
}

/// Plain text as a selection: a representation denotes itself.
impl Selection for String {
    open spec fn spec_parse(representation: Seq<char>) -> Option<Seq<char>> {
        Some(representation)
    }

    fn parse_selection(representation: &str) -> (r: Option<Self>) {
        Some(String::from_str(representation))
    }

    fn same_as(&self, other: &Self) -> (r: bool) {
        *self == *other
    }
}

impl SelectionText for String {
    open spec fn spec_text(selection: Seq<char>) -> Seq<char> {
        selection
    }

    fn text(&self) -> (r: String) {
        self.clone()
    }
}

/// Selector.
#[derive(Clone, Debug, PartialEq, Eq, Hash)]
pub enum Selector<SelectionT> {
    /// Any.
    Any,
    /// Specific.
    Specific(SelectionT),
}

impl<SelectionT: View> View for Selector<SelectionT> {
    type V = Selector<SelectionT::V>;

    open spec fn view(&self) -> Selector<SelectionT::V> {
        match self {
            Selector::Any => Selector::Any,
            Selector::Specific(selection) => Selector::Specific(selection@),
        }
    }
}

/// Whether one of `candidates` has the view `v`.
pub open spec fn contains_view<SelectionT: View>(candidates: Seq<SelectionT>, v: SelectionT::V) -> bool {
    exists|i: int| 0 <= i < candidates.len() && #[trigger] candidates[i]@ == v
}

/// Whether `selector` selects the view `v` from `candidates`.
pub open spec fn selects<V>(selector: Selector<V>, candidates: Seq<V>, v: V) -> bool {
    candidates.contains(v) && match selector {
        Selector::Any => true,
        Selector::Specific(selection) => selection == v,
    }
}

/// Whether `selector` selects anything from `candidates`.
pub open spec fn selects_some<V>(selector: Selector<V>, candidates: Seq<V>) -> bool {
    match selector {
        Selector::Any => candidates.len() > 0,
        Selector::Specific(selection) => candidates.contains(selection),
    }
}

/// The selector that `representation` denotes: `*` is [Selector::Any], anything else is parsed
/// as a specific selection.
pub open spec fn spec_parse_selector<SelectionT: Selection>(representation: Seq<char>) -> Option<
    Selector<SelectionT::V>,
> {
    if representation == seq!['*'] {
        Some(Selector::Any)
    } else {
        match SelectionT::spec_parse(representation) {
            Some(selection) => Some(Selector::Specific(selection)),
            None => None,
        }
    }
}

/// The text of a selector: `*` for [Selector::Any].
pub open spec fn selector_text<SelectionT: SelectionText>(selector: Selector<SelectionT::V>) -> Seq<
    char,
> {
    match selector {
        Selector::Any => seq!['*'],
        Selector::Specific(selection) => SelectionT::spec_text(selection),
    }
}

impl<SelectionT> IsSpecific for Selector<SelectionT> {
    open spec fn spec_is_specific(&self) -> bool {
        self is Specific
    }

    fn is_specific(&self) -> (r: bool) {
        match self {
            Selector::Any => false,
            Selector::Specific(_) => true,
        }
    }
}

impl<SelectionT: Selection> Selector<SelectionT> {
    /// Select from candidates.
    ///
    /// If we are [Any](Selector::Any) we will select all candidates. Otherwise we will select
    /// either one or none of the candidates.
    pub fn select<'own>(&'own self, candidates: &'own [SelectionT]) -> (r: Vec<&'own SelectionT>)
        ensures
            self is Any ==> r@.len() == candidates@.len() && forall|i: int|
                0 <= i < r@.len() ==> *#[trigger] r@[i] == candidates@[i],
            self matches Selector::Specific(selection) ==> if contains_view(
                candidates@,
                selection@,
            ) {
                r@.len() == 1 && *r@[0] == selection
            } else {
                r@.len() == 0
            },
            forall|v: SelectionT::V| #[trigger]
                views(r@).contains(v) <==> selects(self@, views(candidates@), v),
            r@.len() > 0 <==> selects_some(self@, views(candidates@)),
    {
        match self {
            Selector::Any => {
                let mut r: Vec<&'own SelectionT> = Vec::new();
                let mut i: usize = 0;
                while i < candidates.len()
                    invariant
                        i <= candidates@.len(),
                        r@.len() == i,
                        forall|j: int| 0 <= j < i ==> *#[trigger] r@[j] == candidates@[j],
                    decreases candidates@.len() - i,
                {
                    r.push(&candidates[i]);
                    i = i + 1;
                }
                proof {
                    assert(views(r@) =~= views(candidates@));
                }
                r
            },
            Selector::Specific(selection) => {
                let mut i: usize = 0;
                while i < candidates.len()
                    invariant
                        i <= candidates@.len(),
                        forall|j: int| 0 <= j < i ==> #[trigger] candidates@[j]@ != selection@,
                        *self == Selector::Specific(*selection),
                    decreases candidates@.len() - i,
                {
                    if candidates[i].same_as(selection) {
                        assert(candidates@[i as int]@ == selection@);
                        let mut r: Vec<&'own SelectionT> = Vec::new();
                        r.push(selection);
                        proof {
                            assert(views(r@) =~= seq![selection@]);
                            assert(views(candidates@)[i as int] == selection@);
                            assert forall|v: SelectionT::V| #[trigger]
                                views(r@).contains(v) <==> selects(
                                    self@,
                                    views(candidates@),
                                    v,
                                ) by {
                                if v == selection@ {
                                    assert(views(candidates@).contains(v));
                                    assert(views(r@)[0] == v);
                                } else {
                                    assert(!views(r@).contains(v)) by {
                                        assert(views(r@).len() == 1);
                                        assert(views(r@)[0] != v);
                                    }
                                }
                            }
                        }
                        return r;
                    }
                    i = i + 1;
                }
                let r: Vec<&'own SelectionT> = Vec::new();
                proof {
                    assert(views(r@) =~= Seq::<SelectionT::V>::empty());
                    assert forall|j: int| 0 <= j < candidates@.len() implies views(candidates@)[j]
                        != selection@ by {
                        assert(candidates@[j]@ != selection@);
                    }
                }
                r
            },
        }
    }

    /// Parse: `*` is [Any](Selector::Any).
    pub fn parse(representation: &str) -> (r: Option<Self>)
        ensures
            match r {
                Some(selector) => spec_parse_selector::<SelectionT>(representation@) == Some(
                    selector@,
                ),
                None => spec_parse_selector::<SelectionT>(representation@) is None,
            },
    {
        let chars = chars_of(representation);
        if chars.len() == 1 && chars[0] == '*' {
            assert(representation@ =~= seq!['*']);
            Some(Selector::Any)
        } else {
            assert(representation@ != seq!['*']);
            match SelectionT::parse_selection(representation) {
                Some(selection) => Some(Selector::Specific(selection)),
                None => None,
            }
        }
    }

    /// Whether both select the same.
    pub fn same_as(&self, other: &Self) -> (r: bool)
        ensures
            r == (self@ == other@),
    {
        match (self, other) {
            (Selector::Any, Selector::Any) => true,
            (Selector::Specific(a), Selector::Specific(b)) => a.same_as(b),
            _ => false,
        }
    }

    /// Whether we select exactly `selection` (never true for [Any](Selector::Any)).
    pub fn is_selection(&self, selection: &SelectionT) -> (r: bool)
        ensures
            r == (self@ == Selector::Specific(selection@)),
    {
        match self {
            Selector::Any => false,
            Selector::Specific(own) => own.same_as(selection),
        }
    }
}

impl<SelectionT: SelectionText> Selector<SelectionT> {
    /// Text: `*` for [Any](Selector::Any).
    pub fn to_string(&self) -> (r: String)
        ensures
            r@ == selector_text::<SelectionT>(self@),
    {
        match self {
            Selector::Any => {
                let mut chars: Vec<char> = Vec::new();
                chars.push('*');
                assert(chars@ =~= seq!['*']);
                string_from_chars(chars.as_slice())
            },
            Selector::Specific(selection) => selection.text(),
        }
    }
}

} // verus!
