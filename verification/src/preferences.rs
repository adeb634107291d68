//! Weighted preferences of HTTP content negotiation (`Accept`, `Accept-Encoding`, ...).

use vstd::prelude::*;

use crate::selector::{selector_text, selects, selects_some, spec_parse_selector, IsSpecific, Selection, SelectionText, Selector};
use crate::text::{decimal, decimal_chars, digit_char, digit_value, is_digit, views, chars_of, split_on, split_once, split_once_str, split_str, trim_str, lemma_trim_unchanged, string_from_chars, trim, trim_bounds};

verus! {

/// Up to three fractional digits, in thousandths.
pub open spec fn fraction_thousandths(f: Seq<char>) -> int {
    if f.len() == 0 {
        0
    } else if f.len() == 1 {
        100 * digit_value(f[0])
    } else if f.len() == 2 {
        100 * digit_value(f[0]) + 10 * digit_value(f[1])
    } else {
        100 * digit_value(f[0]) + 10 * digit_value(f[1]) + digit_value(f[2])
    }
}

/// The q-value that `representation` denotes, in thousandths: `q=` (or `Q=`), then `0` or `1`,
/// then optionally a decimal point followed by at most three digits, the whole being at most 1.
/// Whitespace around it is ignored.
pub open spec fn spec_parse_weight(representation: Seq<char>) -> Option<u16> {
    let t = trim(representation);
    if t.len() >= 3 && (t[0] == 'q' || t[0] == 'Q') && t[1] == '=' && (t[2] == '0' || t[2]
        == '1') {
        let whole: int = if t[2] == '1' {
            1000
        } else {
            0
        };
        if t.len() == 3 {
            Some(whole as u16)
        } else if t[3] == '.' {
            let f = t.skip(4);
            if f.len() <= 3 && (forall|i: int| 0 <= i < f.len() ==> is_digit(#[trigger] f[i]))
                && whole + fraction_thousandths(f) <= 1000 {
                Some((whole + fraction_thousandths(f)) as u16)
            } else {
                None
            }
        } else {
            None
        }
    } else {
        None
    }
}

/// The three fractional digits of a weight below 1000 thousandths, with trailing zeros
/// dropped (at least one digit stays): 5 gives `005`, 50 gives `05`, 800 gives `8`.
pub open spec fn fraction_digits(w: u16) -> Seq<char> {
    let digits = seq![
        digit_char((w / 100) as int),
        digit_char(((w / 10) % 10) as int),
        digit_char((w % 10) as int),
    ];
    if w % 100 == 0 {
        digits.take(1)
    } else if w % 10 == 0 {
        digits.take(2)
    } else {
        digits
    }
}

/// The text of a weight of `w` thousandths, the q-value form: `q=1`, `q=0`, or `q=0.` followed
/// by the three digits of thousandths with trailing zeros dropped. A weight above 1000 is no
/// q-value; its text is `q=0.` followed by its decimal digits with one or two trailing zeros
/// dropped.
pub open spec fn weight_text(w: u16) -> Seq<char> {
    if w == 1000 {
        seq!['q', '=', '1']
    } else if w == 0 {
        seq!['q', '=', '0']
    } else if w < 1000 {
        seq!['q', '=', '0', '.'] + fraction_digits(w)
    } else {
        let shown: nat = if w % 100 == 0 {
            (w / 100) as nat
        } else if w % 10 == 0 {
            (w / 10) as nat
        } else {
            w as nat
        };
        seq!['q', '=', '0', '.'] + decimal(shown)
    }
}

/// Weight ("q") value in an HTTP header, used to specify quality, priority, etc.
///
/// Stored as an integer number of thousandths (normally from 0 to 1000).
#[derive(Clone, Copy, Debug, PartialEq, Eq, Hash, PartialOrd, Ord)]
pub struct Weight(u16);

impl View for Weight {
    type V = u16;

    closed spec fn view(&self) -> u16 {
        self.0
    }
}

impl Weight {
    /// Constructor.
    pub fn new(weight: u16) -> (r: Self)
        ensures
            r@ == weight,
    {
        Weight(weight)
    }

    /// Maximal weight (1000 thousandths).
    pub fn max() -> (r: Self)
        ensures
            r@ == 1000,
    {
        Weight(1000)
    }

    /// Parse a `q=...` value.
    pub fn parse(representation: &str) -> (r: Option<Self>)
        ensures
            match r {
                Some(w) => spec_parse_weight(representation@) == Some(w@),
                None => spec_parse_weight(representation@) is None,
            },
            r matches Some(w) ==> w@ <= 1000,
    {
        let all = chars_of(representation);
        let (a, b) = trim_bounds(all.as_slice());
        let ghost t = representation@.subrange(a as int, b as int);
        assert(t == trim(representation@));
        if b - a < 3 {
            return None;
        }
        assert(t[0] == all@[a as int] && t[1] == all@[a + 1] && t[2] == all@[a + 2]);
        let c0 = all[a];
        if !(c0 == 'q' || c0 == 'Q') {
            return None;
        }
        if all[a + 1] != '=' {
            return None;
        }
        let c2 = all[a + 2];
        let whole: u16 = if c2 == '0' {
            0
        } else if c2 == '1' {
            1000
        } else {
            return None;
        };
        if b - a == 3 {
            return Some(Weight(whole));
        }
        assert(t[3] == all@[a + 3]);
        if all[a + 3] != '.' {
            return None;
        }
        let ghost f = t.skip(4);
        let mut value: u16 = whole;
        let mut factor: u16 = 100;
        let mut i: usize = a + 4;
        while i < b
            invariant
                a + 4 <= i <= b,
                b <= all@.len(),
                all@ == representation@,
                t == representation@.subrange(a as int, b as int),
                f == t.skip(4),
                t == trim(representation@),
                t.len() >= 4,
                t[0] == 'q' || t[0] == 'Q',
                t[1] == '=',
                t[2] == '0' || t[2] == '1',
                t[3] == '.',
                whole == 0 || whole == 1000,
                t[2] == '1' ==> whole == 1000,
                t[2] == '0' ==> whole == 0,
                i - (a + 4) <= 3,
                factor == (if i - (a + 4) == 0 {
                    100int
                } else if i - (a + 4) == 1 {
                    10int
                } else if i - (a + 4) == 2 {
                    1int
                } else {
                    0int
                }),
                forall|j: int| 0 <= j < i - (a + 4) ==> is_digit(#[trigger] f[j]),
                value == whole + fraction_thousandths(f.take(i - (a + 4))),
            decreases b - i,
        {
            let ghost k: int = i - (a + 4);
            let c = all[i];
            assert(c == f[k]);
            if !('0' <= c && c <= '9') {
                return None;
            }
            if factor < 1 {
                assert(f.len() > 3);
                return None;
            }
            let d: u16 = (c as u32 - 48) as u16;
            assert(d == digit_value(f[k]));
            assert(f.take(k + 1).len() == k + 1);
            assert(forall|j: int| 0 <= j < k ==> f.take(k + 1)[j] == f.take(k)[j]);
            assert(f.take(k + 1)[k] == f[k]);
            value = value + factor * d;
            factor = factor / 10;
            i = i + 1;
        }
        assert(f.take(f.len() as int) =~= f);
        if value <= 1000 {
            Some(Weight(value))
        } else {
            None
        }
    }

    /// The `q=...` text of this weight.
    pub fn to_string(&self) -> (r: String)
        ensures
            r@ == weight_text(self@),
    {
        let mut chars: Vec<char> = Vec::new();
        chars.push('q');
        chars.push('=');
        if self.0 == 1000 {
            chars.push('1');
        } else if self.0 == 0 {
            chars.push('0');
        } else if self.0 < 1000 {
            chars.push('0');
            chars.push('.');
            let w = self.0;
            let d1: char = ((48u16 + w / 100) as u8) as char;
            let d2: char = ((48u16 + (w / 10) % 10) as u8) as char;
            let d3: char = ((48u16 + w % 10) as u8) as char;
            assert(d1 == digit_char((w / 100) as int));
            assert(d2 == digit_char(((w / 10) % 10) as int));
            assert(d3 == digit_char((w % 10) as int));
            chars.push(d1);
            if w % 100 != 0 {
                chars.push(d2);
                if w % 10 != 0 {
                    chars.push(d3);
                }
            }
        } else {
            chars.push('0');
            chars.push('.');
            let shown: u16 = if self.0 % 100 == 0 {
                self.0 / 100
            } else if self.0 % 10 == 0 {
                self.0 / 10
            } else {
                self.0
            };
            let digits = decimal_chars(shown as u64);
            let ghost before = chars@;
            let mut i: usize = 0;
            while i < digits.len()
                invariant
                    i <= digits@.len(),
                    chars@ == before + digits@.take(i as int),
                decreases digits@.len() - i,
            {
                chars.push(digits[i]);
                assert(digits@.take(i + 1) =~= digits@.take(i as int).push(digits@[i as int]));
                i = i + 1;
            }
            assert(digits@.take(digits@.len() as int) =~= digits@);
        }
        assert(chars@ =~= weight_text(self@));
        string_from_chars(chars.as_slice())
    }
}


/// Weighted preference.
#[derive(Clone, Debug)]
pub struct Preference<SelectionT> {
    /// Selector.
    pub selector: Selector<SelectionT>,
    /// Weight.
    pub weight: Weight,
}

impl<SelectionT: View> View for Preference<SelectionT> {
    type V = (Selector<SelectionT::V>, u16);

    open spec fn view(&self) -> (Selector<SelectionT::V>, u16) {
        (self.selector@, self.weight@)
    }
}

impl<SelectionT> Preference<SelectionT> {
    /// Constructor.
    pub fn new(selector: Selector<SelectionT>, weight: Weight) -> (r: Self)
        ensures
            r.selector == selector,
            r.weight == weight,
    {
        Preference { selector, weight }
    }
}


/// The text of a preference: its selector, followed by `;` and its weight unless that is maximal.
pub open spec fn preference_text<SelectionT: SelectionText>(
    preference: (Selector<SelectionT::V>, u16),
) -> Seq<char> {
    if preference.1 == 1000 {
        selector_text::<SelectionT>(preference.0)
    } else {
        selector_text::<SelectionT>(preference.0) + seq![';'] + weight_text(preference.1)
    }
}

impl<SelectionT: SelectionText> Preference<SelectionT> {
    /// The text of this preference.
    pub fn to_string(&self) -> (r: String)
        ensures
            r@ == preference_text::<SelectionT>(self@),
    {
        let selector = self.selector.to_string();
        if self.weight.0 == 1000 {
            selector
        } else {
            let weight = self.weight.to_string();
            let with_separator = selector.concat(";");
            proof {
                reveal_strlit(";");
            }
            with_separator.concat(weight.as_str())
        }
    }
}

/// The preferences of weight `w`, in their order.
pub open spec fn weight_class<SelectionT>(s: Seq<Preference<SelectionT>>, w: u16) -> Seq<
    Preference<SelectionT>,
> {
    s.filter(has_weight(w))
}

/// The predicate "has weight `w`".
pub open spec fn has_weight<SelectionT>(w: u16) -> spec_fn(Preference<SelectionT>) -> bool {
    |p: Preference<SelectionT>| p.weight@ == w
}

proof fn lemma_filter_none<A>(s: Seq<A>, pred: spec_fn(A) -> bool)
    requires
        forall|i: int| 0 <= i < s.len() ==> !pred(#[trigger] s[i]),
    ensures
        s.filter(pred) == Seq::<A>::empty(),
    decreases s.len(),
{
    reveal_with_fuel(Seq::filter, 1);
    if s.len() > 0 {
        lemma_filter_none(s.drop_last(), pred);
        assert(!pred(s[s.len() - 1]));
    }
    assert(s.filter(pred) =~= Seq::<A>::empty());
}

/// Whether the preferences are ordered from highest to lowest weight.
pub open spec fn is_weight_sorted<SelectionT>(s: Seq<Preference<SelectionT>>) -> bool {
    forall|i: int, j: int| 0 <= i < j < s.len() ==> s[i].weight@ >= s[j].weight@
}

/// Whether `output` is `input` sorted from highest to lowest weight, keeping preferences of
/// equal weight in their order (a stable sort).
pub open spec fn is_stable_weight_sort<SelectionT>(
    input: Seq<Preference<SelectionT>>,
    output: Seq<Preference<SelectionT>>,
) -> bool {
    &&& output.len() == input.len()
    &&& is_weight_sorted(output)
    &&& forall|w: u16| #[trigger] weight_class(output, w) == weight_class(input, w)
}

/// Whether preference `k` is the first one to select anything from `allowances`.
pub open spec fn is_first_hit<SelectionT: View>(
    preferences: Seq<Preference<SelectionT>>,
    allowances: Seq<SelectionT::V>,
    k: int,
) -> bool {
    &&& 0 <= k < preferences.len()
    &&& selects_some(preferences[k].selector@, allowances)
    &&& forall|j: int|
        0 <= j < k ==> !selects_some(#[trigger] preferences[j].selector@, allowances)
}

/// Whether preferences `index + 1 ..= j` all have weight `weight`.
pub open spec fn is_tied<SelectionT>(
    preferences: Seq<Preference<SelectionT>>,
    index: int,
    weight: u16,
    j: int,
) -> bool {
    &&& index < j < preferences.len()
    &&& forall|m: int| index < m <= j ==> #[trigger] preferences[m].weight@ == weight
}

/// What the preferences tied with preference `index` (at `weight`) select.
pub open spec fn selected_by_tied<SelectionT: View>(
    preferences: Seq<Preference<SelectionT>>,
    index: int,
    weight: u16,
    allowances: Seq<SelectionT::V>,
    v: SelectionT::V,
) -> bool {
    exists|j: int|
        is_tied(preferences, index, weight, j) && #[trigger] selects(
            preferences[j].selector@,
            allowances,
            v,
        )
}

/// Whether `v` is a candidate when preference `k` is the first hit: it is selected by
/// preference `k`, or, if that one is specific, by a following preference of equal weight.
pub open spec fn is_candidate<SelectionT: View>(
    preferences: Seq<Preference<SelectionT>>,
    allowances: Seq<SelectionT::V>,
    k: int,
    v: SelectionT::V,
) -> bool {
    ||| selects(preferences[k].selector@, allowances, v)
    ||| (preferences[k].selector is Specific && selected_by_tied(
        preferences,
        k,
        preferences[k].weight@,
        allowances,
        v,
    ))
}

/// Whether `v` is the most preferred allowance: the first allowance, in the order of
/// `allowances`, that is a candidate of the first preference that selects anything.
pub open spec fn is_best<SelectionT: View>(
    preferences: Seq<Preference<SelectionT>>,
    allowances: Seq<SelectionT::V>,
    v: SelectionT::V,
) -> bool {
    exists|k: int, i: int|
        #![trigger is_first_hit(preferences, allowances, k), allowances[i]]
        is_first_hit(preferences, allowances, k) && 0 <= i < allowances.len() && allowances[i]
            == v && is_candidate(preferences, allowances, k, v) && forall|i2: int|
            0 <= i2 < i ==> !is_candidate(preferences, allowances, k, #[trigger] allowances[i2])
}

/// Whether `w` is the highest weight of the preferences that select anything from `allowances`.
pub open spec fn is_top_weight<SelectionT: View>(
    preferences: Seq<Preference<SelectionT>>,
    allowances: Seq<SelectionT::V>,
    w: u16,
) -> bool {
    &&& exists|k: int|
        0 <= k < preferences.len() && #[trigger] selects_some(preferences[k].selector@, allowances)
            && preferences[k].weight@ == w
    &&& forall|k: int|
        0 <= k < preferences.len() && #[trigger] selects_some(preferences[k].selector@, allowances)
            ==> preferences[k].weight@ <= w
}

/// Whether a preference of weight `w` selects `v` from `allowances`.
pub open spec fn selected_at_weight<SelectionT: View>(
    preferences: Seq<Preference<SelectionT>>,
    allowances: Seq<SelectionT::V>,
    w: u16,
    v: SelectionT::V,
) -> bool {
    exists|k: int|
        0 <= k < preferences.len() && preferences[k].weight@ == w && #[trigger] selects(
            preferences[k].selector@,
            allowances,
            v,
        )
}

/// For preferences sorted from highest to lowest weight (as [Preferences::parse] gives them),
/// the best allowance is the first allowance, in the order of `allowances`, that a preference of
/// the top weight selects.
pub proof fn lemma_best_is_first_of_top_weight<SelectionT: View>(
    preferences: Seq<Preference<SelectionT>>,
    allowances: Seq<SelectionT::V>,
    w: u16,
    v: SelectionT::V,
)
    requires
        is_weight_sorted(preferences),
        is_top_weight(preferences, allowances, w),
        is_best(preferences, allowances, v),
    ensures
        exists|i: int|
            0 <= i < allowances.len() && allowances[i] == v && selected_at_weight(
                preferences,
                allowances,
                w,
                v,
            ) && forall|i2: int|
                0 <= i2 < i ==> !selected_at_weight(
                    preferences,
                    allowances,
                    w,
                    #[trigger] allowances[i2],
                ),
{
    let (k, i) = choose|k: int, i: int|
        #![trigger is_first_hit(preferences, allowances, k), allowances[i]]
        is_first_hit(preferences, allowances, k) && 0 <= i < allowances.len() && allowances[i]
            == v && is_candidate(preferences, allowances, k, v) && forall|i2: int|
            0 <= i2 < i ==> !is_candidate(preferences, allowances, k, #[trigger] allowances[i2]);
    let top = choose|t: int|
        0 <= t < preferences.len() && #[trigger] selects_some(preferences[t].selector@, allowances)
            && preferences[t].weight@ == w;
    assert(preferences[k].weight@ == w) by {
        if top < k {
            assert(!selects_some(preferences[top].selector@, allowances));
        }
    }
    assert forall|x: SelectionT::V| #[trigger] is_candidate(preferences, allowances, k, x)
        <==> selected_at_weight(preferences, allowances, w, x) by {
        if is_candidate(preferences, allowances, k, x) {
            if !selects(preferences[k].selector@, allowances, x) {
                let j = choose|j: int|
                    is_tied(preferences, k, preferences[k].weight@, j) && #[trigger] selects(
                        preferences[j].selector@,
                        allowances,
                        x,
                    );
                assert(preferences[j].weight@ == w);
            }
        }
        if selected_at_weight(preferences, allowances, w, x) {
            let m = choose|m: int|
                0 <= m < preferences.len() && preferences[m].weight@ == w && #[trigger] selects(
                    preferences[m].selector@,
                    allowances,
                    x,
                );
            assert(selects_some(preferences[m].selector@, allowances));
            if m > k && preferences[k].selector is Specific {
                assert forall|m2: int| k < m2 <= m implies #[trigger] preferences[m2].weight@
                    == w by {
                    assert(preferences[k].weight@ >= preferences[m2].weight@);
                    assert(preferences[m2].weight@ >= preferences[m].weight@);
                }
                assert(is_tied(preferences, k, preferences[k].weight@, m));
            }
        }
    }
    assert(selected_at_weight(preferences, allowances, w, v));
    assert forall|i2: int| 0 <= i2 < i implies !selected_at_weight(
        preferences,
        allowances,
        w,
        #[trigger] allowances[i2],
    ) by {
        assert(!is_candidate(preferences, allowances, k, allowances[i2]));
    }
}

/// Whether no preference selects anything from `allowances`.
pub open spec fn selects_nothing<SelectionT: View>(
    preferences: Seq<Preference<SelectionT>>,
    allowances: Seq<SelectionT::V>,
) -> bool {
    forall|k: int|
        0 <= k < preferences.len() ==> !selects_some(#[trigger] preferences[k].selector@, allowances)
}


/// The predicate "the view has weight `w`".
pub open spec fn view_has_weight<V>(w: u16) -> spec_fn((Selector<V>, u16)) -> bool {
    |p: (Selector<V>, u16)| p.1 == w
}

/// Whether `output` is `input` (views of preferences) sorted from highest to lowest weight,
/// keeping views of equal weight in their order.
pub open spec fn is_stable_weight_sort_of_views<V>(
    input: Seq<(Selector<V>, u16)>,
    output: Seq<(Selector<V>, u16)>,
) -> bool {
    &&& output.len() == input.len()
    &&& forall|i: int, j: int| 0 <= i < j < output.len() ==> output[i].1 >= output[j].1
    &&& forall|w: u16| #[trigger] output.filter(view_has_weight(w)) == input.filter(view_has_weight(w))
}

proof fn lemma_stable_sort_views<SelectionT: View>(
    input: Seq<Preference<SelectionT>>,
    output: Seq<Preference<SelectionT>>,
)
    requires
        is_stable_weight_sort(input, output),
    ensures
        is_stable_weight_sort_of_views(views(input), views(output)),
{
    assert forall|w: u16| #[trigger] views(output).filter(view_has_weight(w)) == views(input).filter(
        view_has_weight(w),
    ) by {
        let p = has_weight::<SelectionT>(w);
        let sp = view_has_weight::<SelectionT::V>(w);
        assert forall|x: Preference<SelectionT>| p(x) <==> sp(x.view()) by {}
        vstd::seq_lib::lemma_filter_view_commute(input, p, sp);
        vstd::seq_lib::lemma_filter_view_commute(output, p, sp);
        assert(views(input) =~= input.map_values(|x: Preference<SelectionT>| x.view()));
        assert(views(output) =~= output.map_values(|x: Preference<SelectionT>| x.view()));
        assert(weight_class(output, w) == weight_class(input, w));
    }
}

/// The preference that a comma-separated piece of a header denotes: a selector, optionally
/// followed by `;` and a weight (the maximal weight if absent). Whitespace around the selector
/// and the weight is ignored. Pieces whose selector or weight do not parse denote nothing.
pub open spec fn spec_parse_preference<SelectionT: Selection>(piece: Seq<char>) -> Option<
    (Selector<SelectionT::V>, u16),
> {
    let selector_text = match split_once(piece, ';') {
        Some(parts) => parts.0,
        None => piece,
    };
    match spec_parse_selector::<SelectionT>(trim(selector_text)) {
        None => None,
        Some(selector) => match split_once(piece, ';') {
            None => Some((selector, 1000u16)),
            Some(parts) => match spec_parse_weight(trim(parts.1)) {
                Some(w) => Some((selector, w)),
                None => None,
            },
        },
    }
}

/// [spec_parse_preference] as a function value.
pub open spec fn preference_parser<SelectionT: Selection>() -> spec_fn(Seq<char>) -> Option<
    (Selector<SelectionT::V>, u16),
> {
    |piece: Seq<char>| spec_parse_preference::<SelectionT>(piece)
}

/// The preferences that a header value denotes: those of its comma-separated pieces that parse,
/// in order.
pub open spec fn preferences_of<SelectionT: Selection>(representation: Seq<char>) -> Seq<
    (Selector<SelectionT::V>, u16),
> {
    split_on(representation, ',').filter_map(preference_parser::<SelectionT>())
}

/// The preferences that several header values denote, in order (before sorting).
pub open spec fn parsed_preferences<SelectionT: Selection>(representations: Seq<Seq<char>>) -> Seq<
    (Selector<SelectionT::V>, u16),
>
    decreases representations.len(),
{
    if representations.len() == 0 {
        Seq::empty()
    } else {
        parsed_preferences::<SelectionT>(representations.drop_last()) + preferences_of::<
            SelectionT,
        >(representations.last())
    }
}

fn parse_preference<SelectionT: Selection>(piece: &str) -> (r: Option<Preference<SelectionT>>)
    ensures
        match r {
            Some(p) => spec_parse_preference::<SelectionT>(piece@) == Some(p@),
            None => spec_parse_preference::<SelectionT>(piece@) is None,
        },
{
    let (selector_text, weight_text) = match split_once_str(piece, ';') {
        Some((before, after)) => (before, Some(after)),
        None => (piece, None),
    };
    let selector = match Selector::<SelectionT>::parse(trim_str(selector_text)) {
        Some(selector) => selector,
        None => return None,
    };
    let weight = match weight_text {
        Some(weight_text) => match Weight::parse(trim_str(weight_text)) {
            Some(weight) => weight,
            None => return None,
        },
        None => Weight::max(),
    };
    Some(Preference::new(selector, weight))
}

/// List of [Preference].
#[derive(Clone, Debug)]
pub struct Preferences<SelectionT>(pub Vec<Preference<SelectionT>>);

proof fn lemma_class_insert<SelectionT>(
    s: Seq<Preference<SelectionT>>,
    pos: int,
    p: Preference<SelectionT>,
    w: u16,
)
    requires
        0 <= pos <= s.len(),
        forall|j: int| pos <= j < s.len() ==> #[trigger] s[j].weight@ < p.weight@,
    ensures
        weight_class(s.insert(pos, p), w) == if w == p.weight@ {
            weight_class(s, w).push(p)
        } else {
            weight_class(s, w)
        },
{
    let pred = has_weight::<SelectionT>(w);
    let a = s.take(pos);
    let b = s.skip(pos);
    assert(s =~= a + b);
    assert(s.insert(pos, p) =~= a + (seq![p] + b));
    Seq::filter_distributes_over_add(a, b, pred);
    Seq::filter_distributes_over_add(a, seq![p] + b, pred);
    Seq::filter_distributes_over_add(seq![p], b, pred);
    reveal_with_fuel(Seq::filter, 2);
    assert(seq![p].drop_last() =~= Seq::<Preference<SelectionT>>::empty());
    if w == p.weight@ {
        assert forall|j: int| 0 <= j < b.len() implies !pred(#[trigger] b[j]) by {
            assert(b[j] == s[pos + j]);
        }
        lemma_filter_none(b, pred);
        assert(weight_class(s, w) =~= a.filter(pred));
        assert(weight_class(s.insert(pos, p), w) =~= a.filter(pred).push(p));
    } else {
        assert(seq![p].filter(pred) =~= Seq::<Preference<SelectionT>>::empty());
        assert(weight_class(s.insert(pos, p), w) =~= a.filter(pred) + b.filter(pred));
    }
}

proof fn lemma_class_push<SelectionT>(s: Seq<Preference<SelectionT>>, p: Preference<SelectionT>, w: u16)
    ensures
        weight_class(s.push(p), w) == if w == p.weight@ {
            weight_class(s, w).push(p)
        } else {
            weight_class(s, w)
        },
{
    reveal_with_fuel(Seq::filter, 1);
    assert(s.push(p).drop_last() =~= s);
}

impl<SelectionT: View> Preferences<SelectionT> {
    /// Sort by weight (highest to lowest), keeping the order of equal weights.
    pub fn sorted(self) -> (r: Self)
        ensures
            is_stable_weight_sort(self.0@, r.0@),
            is_stable_weight_sort_of_views(views(self.0@), views(r.0@)),
    {
        let mut rest = self.0;
        let ghost input = rest@;
        let mut output: Vec<Preference<SelectionT>> = Vec::new();
        while rest.len() > 0
            invariant
                output@.len() + rest@.len() == input.len(),
                rest@ == input.skip(output@.len() as int),
                is_weight_sorted(output@),
                forall|w: u16| #[trigger]
                    weight_class(output@, w) == weight_class(input.take(output@.len() as int), w),
            decreases rest@.len(),
        {
            let ghost k = output@.len() as int;
            let p = rest.remove(0);
            assert(p == input[k]);
            let mut pos: usize = 0;
            while pos < output.len() && output[pos].weight.0 >= p.weight.0
                invariant
                    pos <= output@.len(),
                    forall|j: int| 0 <= j < pos ==> #[trigger] output@[j].weight@ >= p.weight@,
                decreases output@.len() - pos,
            {
                pos = pos + 1;
            }
            proof {
                assert forall|j: int| pos <= j < output@.len() implies #[trigger] output@[j].weight@
                    < p.weight@ by {
                    assert(output@[pos as int].weight@ >= output@[j].weight@);
                }
                assert forall|w: u16| #[trigger]
                    weight_class(output@.insert(pos as int, p), w) == weight_class(
                        input.take(k + 1),
                        w,
                    ) by {
                    lemma_class_insert(output@, pos as int, p, w);
                    assert(input.take(k + 1) =~= input.take(k).push(p));
                    lemma_class_push(input.take(k), p, w);
                }
                assert(rest@ =~= input.skip(k + 1));
            }
            output.insert(pos, p);
        }
        proof {
            assert(input.take(input.len() as int) =~= input);
            lemma_stable_sort_views(input, output@);
        }
        Preferences(output)
    }
}

/// Whether one of `refs` has the view of `x`.
fn contains_selection<SelectionT: Selection>(refs: &Vec<&SelectionT>, x: &SelectionT) -> (r: bool)
    ensures
        r == views(refs@).contains(x@),
{
    let mut i: usize = 0;
    while i < refs.len()
        invariant
            i <= refs@.len(),
            forall|j: int| 0 <= j < i ==> views(refs@)[j] != x@,
        decreases refs@.len() - i,
    {
        if refs[i].same_as(x) {
            assert(views(refs@)[i as int] == x@);
            return true;
        }
        i = i + 1;
    }
    false
}

proof fn lemma_views_append<SelectionT: View>(a: Seq<SelectionT>, b: Seq<SelectionT>)
    ensures
        views(a + b) == views(a) + views(b),
{
    assert(views(a + b) =~= views(a) + views(b));
}

proof fn lemma_contains_append<V>(a: Seq<V>, b: Seq<V>, v: V)
    ensures
        (a + b).contains(v) <==> a.contains(v) || b.contains(v),
{
    if (a + b).contains(v) {
        let i = choose|i: int| 0 <= i < (a + b).len() && (a + b)[i] == v;
        if i < a.len() {
            assert(a[i] == v);
        } else {
            assert(b[i - a.len()] == v);
        }
    }
    if a.contains(v) {
        let i = choose|i: int| 0 <= i < a.len() && a[i] == v;
        assert((a + b)[i] == v);
    }
    if b.contains(v) {
        let i = choose|i: int| 0 <= i < b.len() && b[i] == v;
        assert((a + b)[i + a.len()] == v);
    }
}

proof fn lemma_views_contains<SelectionT: View>(s: Seq<SelectionT>, i: int)
    requires
        0 <= i < s.len(),
    ensures
        views(s).contains(s[i]@),
{
    assert(views(s)[i] == s[i]@);
}

/// The smallest index at which `s` holds `v`.
proof fn first_index_of<V>(s: Seq<V>, v: V) -> (m: int)
    requires
        s.contains(v),
    ensures
        0 <= m < s.len(),
        s[m] == v,
        forall|j: int| 0 <= j < m ==> s[j] != v,
    decreases s.len(),
{
    if s[0] == v {
        0
    } else {
        assert(s.drop_first().contains(v)) by {
            let i = choose|i: int| 0 <= i < s.len() && s[i] == v;
            assert(s.drop_first()[i - 1] == v);
        }
        let m = first_index_of(s.drop_first(), v);
        assert forall|j: int| 0 <= j < m + 1 implies s[j] != v by {
            if j > 0 {
                assert(s[j] == s.drop_first()[j - 1]);
            }
        }
        m + 1
    }
}

impl<SelectionT: Selection> Preferences<SelectionT> {
    /// Parse, combine, and sort.
    pub fn parse(representations: &Vec<&str>) -> (r: Self)
        ensures
            is_stable_weight_sort_of_views(
                parsed_preferences::<SelectionT>(views(representations@)),
                views(r.0@),
            ),
    {
        let ghost reps = views(representations@);
        let mut preferences: Vec<Preference<SelectionT>> = Vec::new();
        let mut i: usize = 0;
        while i < representations.len()
            invariant
                i <= representations@.len(),
                reps == views(representations@),
                views(preferences@) == parsed_preferences::<SelectionT>(reps.take(i as int)),
            decreases representations@.len() - i,
        {
            let pieces = split_str(representations[i], ',');
            let ghost ps = views(pieces@);
            let ghost before = views(preferences@);
            let mut j: usize = 0;
            while j < pieces.len()
                invariant
                    j <= pieces@.len(),
                    ps == views(pieces@),
                    views(preferences@) == before + ps.take(j as int).filter_map(
                        preference_parser::<SelectionT>(),
                    ),
                decreases pieces@.len() - j,
            {
                let parsed = parse_preference::<SelectionT>(pieces[j]);
                proof {
                    ps.lemma_filter_map_take_succ(preference_parser::<SelectionT>(), j as int);
                    assert(ps[j as int] == pieces@[j as int]@);
                }
                match parsed {
                    Some(p) => {
                        let ghost old_prefs = preferences@;
                        preferences.push(p);
                        assert(views(preferences@) =~= views(old_prefs) + seq![p@]);
                    },
                    None => {},
                }
                j = j + 1;
            }
            proof {
                assert(ps.take(ps.len() as int) =~= ps);
                assert(reps.take(i + 1).drop_last() =~= reps.take(i as int));
                assert(reps.take(i + 1).last() == reps[i as int]);
                assert(reps[i as int] == representations@[i as int]@);
            }
            i = i + 1;
        }
        proof {
            assert(reps.take(reps.len() as int) =~= reps);
        }
        Preferences(preferences).sorted()
    }
    // Selections of the preferences right after `index` whose weight equals `weight`.
    fn select_tied<'own>(&'own self, index: usize, weight: Weight, allowances: &'own [SelectionT]) -> (r:
        Vec<&'own SelectionT>)
        requires
            index < self.0@.len(),
        ensures
            forall|v: SelectionT::V| #[trigger]
                views(r@).contains(v) <==> selected_by_tied(
                    self.0@,
                    index as int,
                    weight@,
                    views(allowances@),
                    v,
                ),
    {
        let ghost prefs = self.0@;
        let ghost a = views(allowances@);
        let n = self.0.len();
        let mut tied: Vec<&'own SelectionT> = Vec::new();
        let mut j: usize = index + 1;
        while j < n && self.0[j].weight.0 == weight.0
            invariant
                index < j <= prefs.len(),
                n == prefs.len(),
                prefs == self.0@,
                a == views(allowances@),
                forall|m: int| index < m < j ==> #[trigger] prefs[m].weight@ == weight@,
                forall|v: SelectionT::V| #[trigger]
                    views(tied@).contains(v) <==> exists|m: int|
                        index < m < j && #[trigger] selects(prefs[m].selector@, a, v),
            decreases prefs.len() - j,
        {
            let mut selections = self.0[j].selector.select(allowances);
            let ghost before = tied@;
            let ghost sel = selections@;
            tied.append(&mut selections);
            proof {
                lemma_views_append(before, sel);
                assert forall|v: SelectionT::V| #[trigger]
                    views(tied@).contains(v) <==> exists|m: int|
                        index < m < j + 1 && #[trigger] selects(prefs[m].selector@, a, v) by {
                    lemma_contains_append(views(before), views(sel), v);
                    if views(before).contains(v) {
                        let m = choose|m: int| index < m < j && #[trigger] selects(prefs[m].selector@, a, v);
                        assert(index < m < j + 1 && selects(prefs[m].selector@, a, v));
                    }
                    if views(sel).contains(v) {
                        assert(selects(prefs[j as int].selector@, a, v));
                    }
                    if exists|m: int| index < m < j + 1 && #[trigger] selects(prefs[m].selector@, a, v) {
                        let m = choose|m: int| index < m < j + 1 && #[trigger] selects(prefs[m].selector@, a, v);
                        if m < j {
                            assert(views(before).contains(v));
                        } else {
                            assert(views(sel).contains(v));
                        }
                    }
                }
            }
            j = j + 1;
        }
        proof {
            assert forall|v: SelectionT::V| #[trigger]
                views(tied@).contains(v) <==> selected_by_tied(prefs, index as int, weight@, a, v) by {
                if views(tied@).contains(v) {
                    let m = choose|m: int| index < m < j && #[trigger] selects(prefs[m].selector@, a, v);
                    assert(is_tied(prefs, index as int, weight@, m));
                }
                if selected_by_tied(prefs, index as int, weight@, a, v) {
                    let m = choose|m: int|
                        is_tied(prefs, index as int, weight@, m) && #[trigger] selects(
                            prefs[m].selector@,
                            a,
                            v,
                        );
                    if m >= j {
                        assert(prefs[j as int].weight@ == weight@);
                    }
                }
            }
        }
        tied
    }

    /// Select the most preferred allowance.
    ///
    /// If there is a tie, we will go by the order of allowances.
    pub fn best<'own>(&'own self, allowances: &'own [SelectionT]) -> (r: Option<&'own SelectionT>)
        ensures
            match r {
                Some(selection) => is_best(self.0@, views(allowances@), selection@),
                None => selects_nothing(self.0@, views(allowances@)),
            },
    {
        let ghost prefs = self.0@;
        let ghost a = views(allowances@);
        let n = self.0.len();
        let mut index: usize = 0;
        while index < n
            invariant
                index <= prefs.len(),
                n == prefs.len(),
                prefs == self.0@,
                a == views(allowances@),
                forall|j: int| 0 <= j < index ==> !selects_some(#[trigger] prefs[j].selector@, a),
            decreases prefs.len() - index,
        {
            let preference = &self.0[index];
            let mut candidates = preference.selector.select(allowances);
            if candidates.len() > 0 {
                let ghost k = index as int;
                let ghost sel = candidates@;
                assert(is_first_hit(prefs, a, k));
                if preference.selector.is_specific() {
                    // There might still be more candidates if there are other preferences
                    // of equal weight (and they would be right after us)
                    let mut tied = self.select_tied(index, preference.weight, allowances);
                    let ghost t = tied@;
                    candidates.append(&mut tied);
                    proof {
                        lemma_views_append(sel, t);
                        assert forall|v: SelectionT::V| #[trigger]
                            views(candidates@).contains(v) == is_candidate(prefs, a, k, v) by {
                            lemma_contains_append(views(sel), views(t), v);
                        }
                    }
                } else {
                    proof {
                        assert forall|v: SelectionT::V| #[trigger]
                            views(candidates@).contains(v) == is_candidate(prefs, a, k, v) by {
                            assert(views(candidates@).contains(v) == views(sel).contains(v));
                        }
                    }
                }
                proof {
                    assert forall|v: SelectionT::V| #[trigger]
                        is_candidate(prefs, a, k, v) implies a.contains(v) by {
                        if !selects(prefs[k].selector@, a, v) {
                            let m = choose|m: int|
                                is_tied(prefs, k, prefs[k].weight@, m) && #[trigger] selects(
                                    prefs[m].selector@,
                                    a,
                                    v,
                                );
                        }
                    }
                }
                if candidates.len() == 1 {
                    // No contest
                    let selection = candidates[0];
                    proof {
                        lemma_views_contains(candidates@, 0);
                        let v = selection@;
                        let i = first_index_of(a, v);
                        assert forall|i2: int| 0 <= i2 < i implies !is_candidate(
                            prefs,
                            a,
                            k,
                            #[trigger] a[i2],
                        ) by {
                            if is_candidate(prefs, a, k, a[i2]) {
                                assert(views(candidates@).contains(a[i2]));
                                let c = choose|c: int|
                                    0 <= c < views(candidates@).len() && views(candidates@)[c]
                                        == a[i2];
                                assert(c == 0);
                            }
                        }
                        assert(is_first_hit(prefs, a, k) && a[i] == v);
                    }
                    return Some(selection);
                }
                // Break the tie
                let mut i: usize = 0;
                while i < allowances.len()
                    invariant
                        i <= allowances@.len(),
                        a == views(allowances@),
                        prefs == self.0@,
                        is_first_hit(prefs, a, k),
                        candidates@.len() > 0,
                        forall|v: SelectionT::V| #[trigger]
                            views(candidates@).contains(v) == is_candidate(prefs, a, k, v),
                        forall|i2: int| 0 <= i2 < i ==> !is_candidate(prefs, a, k, #[trigger] a[i2]),
                    decreases allowances@.len() - i,
                {
                    if contains_selection(&candidates, &allowances[i]) {
                        proof {
                            assert(a[i as int] == allowances@[i as int]@);
                            assert(is_first_hit(prefs, a, k));
                        }
                        return Some(&allowances[i]);
                    }
                    proof {
                        assert(a[i as int] == allowances@[i as int]@);
                    }
                    i = i + 1;
                }
                proof {
                    lemma_views_contains(candidates@, 0);
                    let v = views(candidates@)[0];
                    let i0 = choose|i0: int| 0 <= i0 < a.len() && a[i0] == v;
                    assert(!is_candidate(prefs, a, k, a[i0]));
                }
                return None;
            }
            index = index + 1;
        }
        None
    }

    /// Select the most preferred allowance.
    ///
    /// If there is a tie, we will go by the order of allowances.
    ///
    /// If no best preference can be found we'll return the first allowance. `allowances` must not
    /// be empty!
    pub fn best_or_first<'own>(&'own self, allowances: &'own [SelectionT]) -> (r: &'own SelectionT)
        requires
            allowances@.len() > 0,
        ensures
            is_best(self.0@, views(allowances@), r@) || (selects_nothing(
                self.0@,
                views(allowances@),
            ) && *r == allowances@[0]),
    {
        match self.best(allowances) {
            Some(selection) => selection,
            None => &allowances[0],
        }
    }
}

/// Parsing the text of a weight gives that weight back, for every q-value weight (0 to 1000
/// thousandths).
pub proof fn lemma_weight_text_round_trip(w: u16)
    requires
        w <= 1000,
    ensures
        spec_parse_weight(weight_text(w)) == Some(w),
{
    let s = weight_text(w);
    if w != 1000 && w != 0 {
        let f = s.skip(4);
        assert(f =~= fraction_digits(w));
        let a = w / 100;
        let b = (w / 10) % 10;
        let c = w % 10;
        assert(w == 100 * a + 10 * b + c);
        assert(digit_value(digit_char(a as int)) == a);
        assert(digit_value(digit_char(b as int)) == b);
        assert(digit_value(digit_char(c as int)) == c);
        if w % 100 == 0 {
            assert(b == 0 && c == 0);
            assert(fraction_thousandths(f) == 100 * a);
        } else if w % 10 == 0 {
            assert(c == 0);
            assert(fraction_thousandths(f) == 100 * a + 10 * b);
        } else {
            assert(fraction_thousandths(f) == 100 * a + 10 * b + c);
        }
        assert(forall|i: int| 0 <= i < f.len() ==> is_digit(#[trigger] f[i]));
    }
    lemma_trim_unchanged(s);
}

} // verus!
