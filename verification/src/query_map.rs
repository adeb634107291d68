//! Decoded URI queries: maps from names to sets of values, kept in text order.

use vstd::prelude::*;

use crate::cache::key::query_view;
use crate::text::{option_view, views};

verus! {

/// Whether text `a` comes before text `b`: lexicographic order by character. UTF-8 keeps the
/// order of code points, so this is the order of `String`.
pub open spec fn text_before(a: Seq<char>, b: Seq<char>) -> bool
    decreases a.len(),
{
    if a.len() == 0 {
        b.len() > 0
    } else if b.len() == 0 {
        false
    } else if a[0] == b[0] {
        text_before(a.drop_first(), b.drop_first())
    } else {
        (a[0] as u32) < (b[0] as u32)
    }
}

/// No text comes before itself.
pub proof fn lemma_text_before_irreflexive(a: Seq<char>)
    ensures
        !text_before(a, a),
    decreases a.len(),
{
    if a.len() > 0 {
        lemma_text_before_irreflexive(a.drop_first());
    }
}

/// The text order is transitive.
pub proof fn lemma_text_before_transitive(a: Seq<char>, b: Seq<char>, c: Seq<char>)
    requires
        text_before(a, b),
        text_before(b, c),
    ensures
        text_before(a, c),
    decreases a.len(),
{
    if a.len() > 0 && b.len() > 0 && c.len() > 0 && a[0] == b[0] && b[0] == c[0] {
        lemma_text_before_transitive(a.drop_first(), b.drop_first(), c.drop_first());
    }
}

/// Of two different texts, one comes before the other.
pub proof fn lemma_text_before_total(a: Seq<char>, b: Seq<char>)
    ensures
        a == b || text_before(a, b) || text_before(b, a),
    decreases a.len(),
{
    if a.len() == 0 && b.len() == 0 {
        assert(a =~= b);
    } else if a.len() > 0 && b.len() > 0 && a[0] == b[0] {
        lemma_text_before_total(a.drop_first(), b.drop_first());
        if a.drop_first() == b.drop_first() {
            assert(a.drop_first().len() == a.len() - 1);
            assert(b.drop_first().len() == b.len() - 1);
            assert(a.len() == b.len());
            assert forall|i: int| 0 <= i < a.len() implies a[i] == b[i] by {
                if i > 0 {
                    assert(a[i] == a.drop_first()[i - 1]);
                    assert(b[i] == b.drop_first()[i - 1]);
                }
            }
            assert(a =~= b);
        }
    } else if a.len() > 0 && b.len() > 0 {
        vstd::utf8::char_u32_cast(a[0], a[0] as u32);
        vstd::utf8::char_u32_cast(b[0], b[0] as u32);
    }
}

/// Whether `a` comes before `b` in text order.
pub fn text_precedes(a: &str, b: &str) -> (r: bool)
    ensures
        r == text_before(a@, b@),
{
    let a_len = a.unicode_len();
    let b_len = b.unicode_len();
    let mut i: usize = 0;
    assert(a@.skip(0) =~= a@);
    assert(b@.skip(0) =~= b@);
    while i < a_len && i < b_len
        invariant
            a_len == a@.len(),
            b_len == b@.len(),
            i <= a_len,
            i <= b_len,
            text_before(a@, b@) == text_before(a@.skip(i as int), b@.skip(i as int)),
        decreases a_len - i,
    {
        let ca = a.get_char(i);
        let cb = b.get_char(i);
        assert(a@.skip(i as int)[0] == ca);
        assert(b@.skip(i as int)[0] == cb);
        if ca != cb {
            return (ca as u32) < (cb as u32);
        }
        assert(a@.skip(i as int).drop_first() =~= a@.skip(i + 1));
        assert(b@.skip(i as int).drop_first() =~= b@.skip(i + 1));
        i = i + 1;
    }
    i < b_len
}

/// Whether the texts are in strictly increasing text order, so that none occurs twice.
pub open spec fn texts_in_order(s: Seq<Seq<char>>) -> bool {
    forall|i: int, j: int| 0 <= i < j < s.len() ==> text_before(s[i], s[j])
}

/// Inserting `v` at `p` keeps the order when every text before `p` comes before `v` and `v`
/// comes before the text at `p`.
proof fn lemma_insert_in_order(s: Seq<Seq<char>>, p: int, v: Seq<char>)
    requires
        texts_in_order(s),
        0 <= p <= s.len(),
        forall|j: int| 0 <= j < p ==> text_before(#[trigger] s[j], v),
        p < s.len() ==> text_before(v, s[p]),
    ensures
        texts_in_order(s.insert(p, v)),
{
    let t = s.insert(p, v);
    assert forall|i: int, j: int| 0 <= i < j < t.len() implies text_before(t[i], t[j]) by {
        if i == p && j > p + 1 {
            lemma_text_before_transitive(v, s[p], s[j - 1]);
        }
    }
}

/// Texts in order hold no text twice.
proof fn lemma_in_order_no_duplicates(s: Seq<Seq<char>>)
    requires
        texts_in_order(s),
    ensures
        s.no_duplicates(),
{
    assert forall|i: int, j: int| 0 <= i < s.len() && 0 <= j < s.len() && i != j implies s[i]
        != s[j] by {
        if i < j {
            lemma_text_before_irreflexive(s[i]);
        } else {
            lemma_text_before_irreflexive(s[j]);
        }
    }
}

/// The set of a sequence with one more element inserted.
proof fn lemma_insert_to_set<T>(s: Seq<T>, p: int, v: T)
    requires
        0 <= p <= s.len(),
    ensures
        s.insert(p, v).to_set() == s.to_set().insert(v),
{
    let t = s.insert(p, v);
    assert forall|x: T| t.to_set().contains(x) <==> s.to_set().insert(v).contains(x) by {
        if t.contains(x) {
            let i = choose|i: int| 0 <= i < t.len() && t[i] == x;
            if i < p {
                assert(s[i] == x);
            } else if i > p {
                assert(s[i - 1] == x);
            }
        }
        if s.contains(x) {
            let i = choose|i: int| 0 <= i < s.len() && s[i] == x;
            if i < p {
                assert(t[i] == x);
            } else {
                assert(t[i + 1] == x);
            }
        }
        if x == v {
            assert(t[p] == x);
        }
    }
    assert(t.to_set() =~= s.to_set().insert(v));
}

/// Insert a value into values in text order, unless it is there already.
fn insert_value(values: &mut Vec<String>, value: String)
    requires
        texts_in_order(views(old(values)@)),
    ensures
        texts_in_order(views(final(values)@)),
        views(final(values)@).to_set() == views(old(values)@).to_set().insert(value@),
        final(values)@.len() >= old(values)@.len(),
{
    let ghost s = views(values@);
    let n = values.len();
    let mut p: usize = 0;
    loop
        invariant_except_break
            n == values.len(),
            s == views(values@),
            p <= n,
            forall|j: int| 0 <= j < p ==> text_before(#[trigger] s[j], value@),
        ensures
            n == values.len(),
            s == views(values@),
            p <= n,
            forall|j: int| 0 <= j < p ==> text_before(#[trigger] s[j], value@),
            p < n ==> !text_before(s[p as int], value@),
        decreases n - p,
    {
        if p == n {
            break;
        }
        if !text_precedes(values[p].as_str(), value.as_str()) {
            break;
        }
        p = p + 1;
    }
    if p < n && !text_precedes(value.as_str(), values[p].as_str()) {
        proof {
            lemma_text_before_total(s[p as int], value@);
            assert(s.contains(value@));
            assert(s.to_set().insert(value@) =~= s.to_set());
        }
    } else {
        let ghost v = value@;
        values.insert(p, value);
        proof {
            assert(views(values@) =~= s.insert(p as int, v));
            lemma_insert_in_order(s, p as int, v);
            lemma_insert_to_set(s, p as int, v);
        }
    }
}

/// The names of entries.
pub open spec fn entry_names(entries: Seq<(Seq<char>, Seq<Seq<char>>)>) -> Seq<Seq<char>> {
    entries.map_values(|entry: (Seq<char>, Seq<Seq<char>>)| entry.0)
}

/// Whether entries are well formed: names in text order, each with a nonempty list of values in
/// text order.
pub open spec fn entries_in_order(entries: Seq<(Seq<char>, Seq<Seq<char>>)>) -> bool {
    &&& texts_in_order(entry_names(entries))
    &&& forall|i: int|
        0 <= i < entries.len() ==> #[trigger] entries[i].1.len() > 0 && texts_in_order(
            entries[i].1,
        )
}

/// Whether an entry has the name.
pub open spec fn has_name(entries: Seq<(Seq<char>, Seq<Seq<char>>)>, name: Seq<char>) -> bool {
    exists|i: int| 0 <= i < entries.len() && #[trigger] entries[i].0 == name
}

/// The position of the entry with the name, where there is one.
pub open spec fn name_index(entries: Seq<(Seq<char>, Seq<Seq<char>>)>, name: Seq<char>) -> int {
    choose|i: int| 0 <= i < entries.len() && #[trigger] entries[i].0 == name
}

/// The map that entries hold: each name to the set of its values.
pub open spec fn entries_map(entries: Seq<(Seq<char>, Seq<Seq<char>>)>) -> Map<
    Seq<char>,
    Set<Seq<char>>,
> {
    Map::new(
        |name: Seq<char>| has_name(entries, name),
        |name: Seq<char>| entries[name_index(entries, name)].1.to_set(),
    )
}

/// A map with one more value for a name: the value joins the name's set, or the name comes in
/// with that value alone.
pub open spec fn with_value(
    map: Map<Seq<char>, Set<Seq<char>>>,
    name: Seq<char>,
    value: Seq<char>,
) -> Map<Seq<char>, Set<Seq<char>>> {
    map.insert(
        name,
        if map.contains_key(name) {
            map[name].insert(value)
        } else {
            set![value]
        },
    )
}

/// In entries in order, the entry at `i` gives its name's values.
proof fn lemma_entries_map_at(entries: Seq<(Seq<char>, Seq<Seq<char>>)>, i: int, name: Seq<char>)
    requires
        entries_in_order(entries),
        0 <= i < entries.len(),
        entries[i].0 == name,
    ensures
        entries_map(entries).contains_key(name),
        entries_map(entries)[name] == entries[i].1.to_set(),
{
    let names = entry_names(entries);
    assert(names[i] == name);
    assert(has_name(entries, name));
    let c = name_index(entries, name);
    assert(names[c] == name);
    if c < i {
        lemma_text_before_irreflexive(name);
    } else if c > i {
        lemma_text_before_irreflexive(name);
    }
}

/// Add a value for a name to entries in order.
fn insert_entry(entries: &mut Vec<(String, Vec<String>)>, name: String, value: String)
    requires
        entries_in_order(query_view(old(entries)@)),
    ensures
        entries_in_order(query_view(final(entries)@)),
        entries_map(query_view(final(entries)@)) == with_value(
            entries_map(query_view(old(entries)@)),
            name@,
            value@,
        ),
{
    let ghost es = query_view(entries@);
    let ghost names = entry_names(es);
    let n = entries.len();
    let mut p: usize = 0;
    loop
        invariant_except_break
            n == entries.len(),
            es == query_view(entries@),
            names == entry_names(es),
            p <= n,
            forall|j: int| 0 <= j < p ==> text_before(#[trigger] names[j], name@),
        ensures
            n == entries.len(),
            es == query_view(entries@),
            names == entry_names(es),
            p <= n,
            forall|j: int| 0 <= j < p ==> text_before(#[trigger] names[j], name@),
            p < n ==> !text_before(names[p as int], name@),
        decreases n - p,
    {
        if p == n {
            break;
        }
        if !text_precedes(entries[p].0.as_str(), name.as_str()) {
            break;
        }
        p = p + 1;
    }
    let ghost old_map = entries_map(es);
    if p < n && !text_precedes(name.as_str(), entries[p].0.as_str()) {
        proof {
            lemma_text_before_total(names[p as int], name@);
        }
        proof {
            assert(es[p as int].1.len() > 0);
        }
        let (key, mut values) = entries.remove(p);
        assert(views(values@) =~= es[p as int].1);
        insert_value(&mut values, value);
        let ghost entry = (key@, views(values@));
        entries.insert(p, (key, values));
        proof {
            assert(query_view(entries@) =~= es.update(p as int, entry));
            let es2 = es.update(p as int, entry);
            assert(entry_names(es2) =~= names);
            assert forall|i: int| 0 <= i < es2.len() implies #[trigger] es2[i].1.len() > 0
                && texts_in_order(es2[i].1) by {}
            lemma_entries_map_at(es, p as int, name@);
            lemma_entries_map_at(es2, p as int, name@);
            assert forall|k: Seq<char>| #[trigger] entries_map(es2).contains_key(k)
                <==> with_value(old_map, name@, value@).contains_key(k) by {
                if has_name(es2, k) {
                    let i = choose|i: int| 0 <= i < es2.len() && #[trigger] es2[i].0 == k;
                    assert(es[i].0 == k);
                }
                if has_name(es, k) {
                    let i = choose|i: int| 0 <= i < es.len() && #[trigger] es[i].0 == k;
                    assert(es2[i].0 == k);
                }
            }
            assert forall|k: Seq<char>| #[trigger] entries_map(es2).contains_key(k)
                implies entries_map(es2)[k] == with_value(old_map, name@, value@)[k] by {
                if k != name@ {
                    let i = choose|i: int| 0 <= i < es2.len() && #[trigger] es2[i].0 == k;
                    lemma_entries_map_at(es2, i, k);
                    lemma_entries_map_at(es, i, k);
                }
            }
            assert(entries_map(es2) =~= with_value(old_map, name@, value@));
        }
    } else {
        proof {
            if p < n {
                lemma_text_before_total(names[p as int], name@);
            }
        }
        let ghost v = value@;
        let mut values: Vec<String> = Vec::new();
        values.push(value);
        let ghost entry = (name@, views(values@));
        assert(views(values@) =~= seq![v]);
        entries.insert(p, (name, values));
        proof {
            let es2 = es.insert(p as int, entry);
            assert(query_view(entries@) =~= es2);
            assert(entry_names(es2) =~= names.insert(p as int, entry.0));
            lemma_insert_in_order(names, p as int, entry.0);
            assert forall|i: int| 0 <= i < es2.len() implies #[trigger] es2[i].1.len() > 0
                && texts_in_order(es2[i].1) by {
                if i > p {
                    assert(es2[i] == es[i - 1]);
                }
            }
            if has_name(es, name@) {
                let i = choose|i: int| 0 <= i < es.len() && #[trigger] es[i].0 == name@;
                assert(names[i] == name@);
                if i < p {
                    lemma_text_before_irreflexive(name@);
                } else {
                    if i > p {
                        lemma_text_before_transitive(name@, names[p as int], names[i]);
                    }
                    lemma_text_before_irreflexive(name@);
                }
            }
            lemma_entries_map_at(es2, p as int, name@);
            assert(seq![v][0] == v);
            assert(seq![v].to_set() =~= set![v]);
            assert forall|k: Seq<char>| #[trigger] entries_map(es2).contains_key(k)
                <==> with_value(old_map, name@, value@).contains_key(k) by {
                if has_name(es2, k) {
                    let i = choose|i: int| 0 <= i < es2.len() && #[trigger] es2[i].0 == k;
                    if i < p {
                        assert(es[i].0 == k);
                    } else if i > p {
                        assert(es[i - 1].0 == k);
                    }
                }
                if has_name(es, k) {
                    let i = choose|i: int| 0 <= i < es.len() && #[trigger] es[i].0 == k;
                    if i < p {
                        assert(es2[i].0 == k);
                    } else {
                        assert(es2[i + 1].0 == k);
                    }
                }
            }
            assert forall|k: Seq<char>| #[trigger] entries_map(es2).contains_key(k)
                implies entries_map(es2)[k] == with_value(old_map, name@, value@)[k] by {
                if k != name@ {
                    let i = choose|i: int| 0 <= i < es.len() && #[trigger] es[i].0 == k;
                    lemma_entries_map_at(es, i, k);
                    if i < p {
                        lemma_entries_map_at(es2, i, k);
                    } else {
                        assert(es2[i + 1] == es[i]);
                        lemma_entries_map_at(es2, i + 1, k);
                    }
                }
            }
            assert(entries_map(es2) =~= with_value(old_map, name@, value@));
        }
    }
}

/// The views of (name, value) pairs.
pub open spec fn pair_views(pairs: Seq<(String, String)>) -> Seq<(Seq<char>, Seq<char>)> {
    pairs.map_values(|pair: (String, String)| (pair.0@, pair.1@))
}

/// The map that (name, value) pairs make, taken in order: each name to the set of its values.
pub open spec fn pairs_map(pairs: Seq<(Seq<char>, Seq<char>)>) -> Map<Seq<char>, Set<Seq<char>>>
    decreases pairs.len(),
{
    if pairs.len() == 0 {
        Map::empty()
    } else {
        with_value(pairs_map(pairs.drop_last()), pairs.last().0, pairs.last().1)
    }
}

/// URI query as a map from each name to the set of its values. Names, and each name's values,
/// are kept in text order.
#[derive(Debug, PartialEq, Eq, Hash)]
pub struct QueryMap {
    entries: Vec<(String, Vec<String>)>,
}

impl View for QueryMap {
    type V = Map<Seq<char>, Set<Seq<char>>>;

    closed spec fn view(&self) -> Map<Seq<char>, Set<Seq<char>>> {
        entries_map(query_view(self.entries@))
    }
}

impl QueryMap {
    #[verifier::type_invariant]
    spec fn well_formed(self) -> bool {
        entries_in_order(query_view(self.entries@))
    }

    /// An empty map.
    pub fn new() -> (r: Self)
        ensures
            r@ == Map::<Seq<char>, Set<Seq<char>>>::empty(),
    {
        let r = QueryMap { entries: Vec::new() };
        assert(query_view(r.entries@) =~= Seq::empty());
        assert(entries_map(query_view(r.entries@)) =~= Map::empty());
        r
    }

    /// Add a value for a name.
    pub fn insert(&mut self, name: String, value: String)
        ensures
            final(self)@ == with_value(old(self)@, name@, value@),
    {
        proof {
            use_type_invariant(&*self);
        }
        let mut entries: Vec<(String, Vec<String>)> = Vec::new();
        assert(query_view(entries@) =~= Seq::empty());
        std::mem::swap(&mut entries, &mut self.entries);
        insert_entry(&mut entries, name, value);
        self.entries = entries;
    }

    /// The map of (name, value) pairs, taken in order.
    pub fn from_pairs(pairs: Vec<(String, String)>) -> (r: Self)
        ensures
            r@ == pairs_map(pair_views(pairs@)),
    {
        let ghost all = pair_views(pairs@);
        let mut map = QueryMap::new();
        let mut i: usize = 0;
        assert(all.take(0) =~= Seq::empty());
        while i < pairs.len()
            invariant
                i <= pairs.len(),
                all == pair_views(pairs@),
                map@ == pairs_map(all.take(i as int)),
            decreases pairs.len() - i,
        {
            let name = pairs[i].0.clone();
            let value = pairs[i].1.clone();
            map.insert(name, value);
            assert(all.take(i + 1).drop_last() =~= all.take(i as int));
            i = i + 1;
        }
        assert(all.take(pairs.len() as int) =~= all);
        map
    }

    /// The entries: each name with its values, names and values in text order.
    pub fn entries(&self) -> (r: &Vec<(String, Vec<String>)>)
        ensures
            entries_in_order(query_view(r@)),
            entries_map(query_view(r@)) == self@,
    {
        proof {
            use_type_invariant(self);
        }
        &self.entries
    }

    /// The position of the entry with the name, if there is one.
    fn find(&self, name: &str) -> (r: Option<usize>)
        ensures
            match r {
                Some(i) => i < self.entries@.len() && query_view(self.entries@)[i as int].0
                    == name@,
                None => !has_name(query_view(self.entries@), name@),
            },
    {
        proof {
            use_type_invariant(self);
        }
        let ghost es = query_view(self.entries@);
        let ghost names = entry_names(es);
        let n = self.entries.len();
        let mut p: usize = 0;
        loop
            invariant_except_break
                n == self.entries.len(),
                es == query_view(self.entries@),
                names == entry_names(es),
                entries_in_order(es),
                p <= n,
                forall|j: int| 0 <= j < p ==> text_before(#[trigger] names[j], name@),
            ensures
                n == self.entries.len(),
                es == query_view(self.entries@),
                names == entry_names(es),
                entries_in_order(es),
                p <= n,
                forall|j: int| 0 <= j < p ==> text_before(#[trigger] names[j], name@),
                p < n ==> !text_before(names[p as int], name@),
            decreases n - p,
        {
            if p == n {
                break;
            }
            if !text_precedes(self.entries[p].0.as_str(), name) {
                break;
            }
            p = p + 1;
        }
        if p < n && !text_precedes(name, self.entries[p].0.as_str()) {
            proof {
                lemma_text_before_total(names[p as int], name@);
            }
            Some(p)
        } else {
            proof {
                if has_name(es, name@) {
                    let i = choose|i: int| 0 <= i < es.len() && #[trigger] es[i].0 == name@;
                    assert(names[i] == name@);
                    if i < p {
                        lemma_text_before_irreflexive(name@);
                    } else {
                        lemma_text_before_total(names[p as int], name@);
                        if i > p {
                            lemma_text_before_transitive(name@, names[p as int], names[i]);
                        }
                        lemma_text_before_irreflexive(name@);
                    }
                }
            }
            None
        }
    }
}

/// Copies of the texts, in order.
fn clone_texts(texts: &Vec<String>) -> (r: Vec<String>)
    ensures
        r@ == texts@,
{
    let mut r: Vec<String> = Vec::new();
    let mut i: usize = 0;
    while i < texts.len()
        invariant
            i <= texts.len(),
            r@ == texts@.take(i as int),
        decreases texts.len() - i,
    {
        r.push(texts[i].clone());
        assert(texts@.take(i + 1) =~= texts@.take(i as int).push(texts@[i as int]));
        i = i + 1;
    }
    assert(texts@.take(texts.len() as int) =~= texts@);
    r
}

impl Clone for QueryMap {
    /// A copy with the same entries.
    fn clone(&self) -> (r: Self)
        ensures
            r@ == self@,
    {
        proof {
            use_type_invariant(self);
        }
        let mut entries: Vec<(String, Vec<String>)> = Vec::new();
        let mut i: usize = 0;
        while i < self.entries.len()
            invariant
                i <= self.entries.len(),
                entries_in_order(query_view(self.entries@)),
                query_view(entries@) == query_view(self.entries@).take(i as int),
            decreases self.entries.len() - i,
        {
            let name = self.entries[i].0.clone();
            let values = clone_texts(&self.entries[i].1);
            let ghost entry = (name@, views(values@));
            assert(entry == query_view(self.entries@)[i as int]);
            let ghost before = entries@;
            entries.push((name, values));
            assert(query_view(before).len() == i);
            assert(entries@.len() == i + 1);
            assert(entries@[i as int].0@ == entry.0);
            assert(views(entries@[i as int].1@) == entry.1);
            assert(query_view(entries@)[i as int] == entry);
            assert(query_view(entries@) =~= query_view(self.entries@).take(i + 1));
            i = i + 1;
        }
        assert(query_view(self.entries@).take(self.entries.len() as int) =~= query_view(
            self.entries@,
        ));
        QueryMap { entries }
    }
}

/// Query map utilities.
pub trait QueryMapUtilities {
    /// Gets a value for a key *only* if there is a single value.
    fn get_single(&self, key: &str) -> Option<&String>;

    /// Gets a value for a key *only* if there is a single value.
    fn get_single_as_ref(&self, key: &str) -> Option<&str>;
}

impl QueryMapUtilities for QueryMap {
    fn get_single(&self, key: &str) -> (r: Option<&String>)
        ensures
            match r {
                Some(value) => self@.contains_key(key@) && self@[key@] == set![value@],
                None => !self@.contains_key(key@) || self@[key@].len() != 1,
            },
    {
        proof {
            use_type_invariant(self);
        }
        let ghost es = query_view(self.entries@);
        match self.find(key) {
            Some(i) => {
                proof {
                    lemma_entries_map_at(es, i as int, key@);
                    assert(es[i as int].1.len() > 0);
                }
                let values = &self.entries[i].1;
                if values.len() == 1 {
                    proof {
                        let v = es[i as int].1;
                        assert(v =~= seq![values[0]@]);
                        assert(v[0] == values[0]@);
                        assert(v.to_set() =~= set![values[0]@]);
                    }
                    Some(&values[0])
                } else {
                    proof {
                        lemma_in_order_no_duplicates(es[i as int].1);
                        es[i as int].1.unique_seq_to_set();
                    }
                    None
                }
            },
            None => None,
        }
    }

    fn get_single_as_ref(&self, key: &str) -> (r: Option<&str>)
        ensures
            match r {
                Some(value) => self@.contains_key(key@) && self@[key@] == set![value@],
                None => !self@.contains_key(key@) || self@[key@].len() != 1,
            },
    {
        match self.get_single(key) {
            Some(value) => Some(value.as_str()),
            None => None,
        }
    }
}

} // verus!
