//! Targets by name: TLS keys by server name (SNI) and routers by host.

use vstd::prelude::*;

verus! {

/// Whether some entry has name `name`.
pub open spec fn has_name<T>(entries: Seq<(String, T)>, name: Seq<char>) -> bool {
    exists|i: int| 0 <= i < entries.len() && #[trigger] entries[i].0@ == name
}

/// Whether no two entries have the same name.
pub open spec fn distinct_names<T>(entries: Seq<(String, T)>) -> bool {
    forall|i: int, j: int|
        0 <= i < j < entries.len() ==> #[trigger] entries[i].0@ != #[trigger] entries[j].0@
}

/// The entries as a map from name to target.
pub open spec fn name_map<T>(entries: Seq<(String, T)>) -> Map<Seq<char>, T> {
    Map::new(
        |name: Seq<char>| has_name(entries, name),
        |name: Seq<char>|
            entries[choose|i: int| 0 <= i < entries.len() && #[trigger] entries[i].0@ == name].1,
    )
}

/// An entry of distinct names is what the map holds for its name.
proof fn lemma_name_at<T>(entries: Seq<(String, T)>, i: int)
    requires
        distinct_names(entries),
        0 <= i < entries.len(),
    ensures
        name_map(entries).contains_key(entries[i].0@),
        name_map(entries)[entries[i].0@] == entries[i].1,
{
    let name = entries[i].0@;
    assert(has_name(entries, name));
    let j = choose|j: int| 0 <= j < entries.len() && #[trigger] entries[j].0@ == name;
    if j != i {
        if j < i {
            assert(entries[j].0@ != entries[i].0@);
        } else {
            assert(entries[i].0@ != entries[j].0@);
        }
    }
}

/// A name that already has a target.
#[derive(Clone, Debug, PartialEq, Eq)]
pub struct DuplicateName {
    /// The name.
    pub name: String,
}

/// How many targets there are, and the target when there is only one.
pub enum TargetsShape<'a, T> {
    /// No target.
    Empty,
    /// A single target.
    Single(&'a T),
    /// More than one target.
    Many,
}

/// Targets by name, each name at most once.
#[derive(Debug)]
pub struct NamedTargets<T> {
    /// Entries.
    entries: Vec<(String, T)>,
}

impl<T> NamedTargets<T> {
    /// The entries, in the order their names were first added.
    pub closed spec fn entries_view(&self) -> Seq<(String, T)> {
        self.entries@
    }

    #[verifier::type_invariant]
    spec fn well_formed(self) -> bool {
        distinct_names(self.entries@)
    }
}

impl<T> View for NamedTargets<T> {
    type V = Map<Seq<char>, T>;

    open spec fn view(&self) -> Map<Seq<char>, T> {
        name_map(self.entries_view())
    }
}

/// The position of the entry of `name`.
fn find_name<T>(entries: &Vec<(String, T)>, name: &String) -> (r: Option<usize>)
    ensures
        match r {
            Some(i) => i < entries@.len() && entries@[i as int].0@ == name@,
            None => !has_name(entries@, name@),
        },
{
    let mut i: usize = 0;
    while i < entries.len()
        invariant
            i <= entries@.len(),
            forall|j: int| 0 <= j < i ==> #[trigger] entries@[j].0@ != name@,
        decreases entries@.len() - i,
    {
        if entries[i].0 == *name {
            return Some(i);
        }
        i = i + 1;
    }
    None
}

impl<T> NamedTargets<T> {
    /// No targets.
    pub fn new() -> (r: Self)
        ensures
            r@ == Map::<Seq<char>, T>::empty(),
            r.entries_view().len() == 0,
    {
        let r = NamedTargets { entries: Vec::new() };
        assert(r@ =~= Map::<Seq<char>, T>::empty());
        r
    }

    /// True if there are no targets.
    pub fn is_empty(&self) -> (r: bool)
        ensures
            r == (self.entries_view().len() == 0),
            r ==> self@ == Map::<Seq<char>, T>::empty(),
    {
        if self.entries.len() == 0 {
            assert(self@ =~= Map::<Seq<char>, T>::empty());
            true
        } else {
            false
        }
    }

    /// The index of the entry of `name`.
    fn find(&self, name: &String) -> (r: Option<usize>)
        ensures
            match r {
                Some(i) => i < self.entries@.len() && self.entries@[i as int].0@ == name@,
                None => !has_name(self.entries@, name@),
            },
    {
        find_name(&self.entries, name)
    }

    /// Whether `name` has a target.
    pub fn contains(&self, name: &String) -> (r: bool)
        ensures
            r == self@.contains_key(name@),
    {
        self.find(name).is_some()
    }

    /// The target of `name`, if any.
    pub fn get(&self, name: &String) -> (r: Option<&T>)
        ensures
            r is Some <==> self@.contains_key(name@),
            r matches Some(target) ==> *target == self@[name@],
    {
        proof {
            use_type_invariant(self);
        }
        match self.find(name) {
            Some(i) => {
                proof {
                    lemma_name_at(self.entries@, i as int);
                }
                Some(&self.entries[i].1)
            },
            None => None,
        }
    }

    /// The target of `name`, or else that of `fallback` (when there is one).
    pub fn get_or_fallback(&self, name: &String, fallback: &Option<String>) -> (r: Option<&T>)
        ensures
            self@.contains_key(name@) ==> r == Some(&self@[name@]),
            !self@.contains_key(name@) ==> match fallback {
                Some(f) => if self@.contains_key(f@) {
                    r == Some(&self@[f@])
                } else {
                    r is None
                },
                None => r is None,
            },
    {
        match self.get(name) {
            Some(target) => Some(target),
            None => match fallback {
                Some(fallback) => self.get(fallback),
                None => None,
            },
        }
    }

    /// Set the target of `name`, replacing the one it had.
    pub fn insert(&mut self, name: String, target: T)
        ensures
            final(self)@ == old(self)@.insert(name@, target),
    {
        proof {
            use_type_invariant(&*self);
        }
        let mut entries: Vec<(String, T)> = Vec::new();
        std::mem::swap(&mut entries, &mut self.entries);
        let ghost before = entries@;
        let ghost key = name@;
        match find_name(&entries, &name) {
            Some(i) => {
                entries.set(i, (name, target));
                let ghost after = entries@;
                assert(distinct_names(after)) by {
                    assert forall|a: int, b: int| 0 <= a < b < after.len() implies #[trigger] after[a].0@
                        != #[trigger] after[b].0@ by {
                        assert(before[a].0@ != before[b].0@);
                    }
                }
                assert forall|n: Seq<char>| has_name(after, n) <==> has_name(before, n) || n == key by {
                    if has_name(before, n) {
                        let j = choose|j: int| 0 <= j < before.len() && #[trigger] before[j].0@ == n;
                        assert(after[j].0@ == n);
                    }
                    if has_name(after, n) {
                        let j = choose|j: int| 0 <= j < after.len() && #[trigger] after[j].0@ == n;
                        assert(before[j].0@ == n);
                    }
                }
                assert forall|n: Seq<char>| has_name(after, n) implies name_map(after)[n] == name_map(before).insert(
                    key,
                    target,
                )[n] by {
                    let j = choose|j: int| 0 <= j < after.len() && #[trigger] after[j].0@ == n;
                    lemma_name_at(after, j);
                    if n != key {
                        lemma_name_at(before, j);
                    }
                }
                assert(name_map(after) =~= name_map(before).insert(key, target));
            },
            None => {
                entries.push((name, target));
                let ghost after = entries@;
                assert(distinct_names(after)) by {
                    assert forall|a: int, b: int| 0 <= a < b < after.len() implies #[trigger] after[a].0@
                        != #[trigger] after[b].0@ by {
                        if b == before.len() {
                            assert(before[a].0@ == after[a].0@);
                        } else {
                            assert(before[a].0@ != before[b].0@);
                        }
                    }
                }
                assert forall|n: Seq<char>| has_name(after, n) <==> has_name(before, n) || n == key by {
                    if has_name(before, n) {
                        let j = choose|j: int| 0 <= j < before.len() && #[trigger] before[j].0@ == n;
                        assert(after[j].0@ == n);
                    }
                    if n == key {
                        assert(after[before.len() as int].0@ == n);
                    }
                    if has_name(after, n) && n != key {
                        let j = choose|j: int| 0 <= j < after.len() && #[trigger] after[j].0@ == n;
                        assert(before[j].0@ == n);
                    }
                }
                assert forall|n: Seq<char>| has_name(after, n) implies name_map(after)[n] == name_map(before).insert(
                    key,
                    target,
                )[n] by {
                    let j = choose|j: int| 0 <= j < after.len() && #[trigger] after[j].0@ == n;
                    lemma_name_at(after, j);
                    if n != key {
                        lemma_name_at(before, j);
                    }
                }
                assert(name_map(after) =~= name_map(before).insert(key, target));
            },
        }
        self.entries = entries;
    }

    /// Add a target for a name that has none yet; fails, changing nothing, if it has one.
    pub fn add(&mut self, name: String, target: T) -> (r: Result<(), DuplicateName>)
        ensures
            r is Ok <==> !old(self)@.contains_key(name@),
            r is Ok ==> final(self)@ == old(self)@.insert(name@, target),
            r matches Err(error) ==> error.name@ == name@ && final(self)@ == old(self)@,
            r is Err ==> final(self).entries_view() == old(self).entries_view(),
    {
        if self.contains(&name) {
            Err(DuplicateName { name })
        } else {
            self.insert(name, target);
            Ok(())
        }
    }

    /// How many targets there are, with the target when there is only one.
    pub fn shape(&self) -> (r: TargetsShape<'_, T>)
        ensures
            match r {
                TargetsShape::Empty => self.entries_view().len() == 0,
                TargetsShape::Single(target) => self.entries_view().len() == 1 && self@.contains_key(
                    self.entries_view()[0].0@,
                ) && *target == self@[self.entries_view()[0].0@],
                TargetsShape::Many => self.entries_view().len() > 1,
            },
    {
        proof {
            use_type_invariant(self);
        }
        if self.entries.len() == 0 {
            TargetsShape::Empty
        } else if self.entries.len() == 1 {
            proof {
                lemma_name_at(self.entries@, 0);
            }
            TargetsShape::Single(&self.entries[0].1)
        } else {
            TargetsShape::Many
        }
    }
}

impl<T: Clone> Clone for NamedTargets<T> {
    /// A copy with the same names, in the same order, each with a clone of its target.
    fn clone(&self) -> (r: Self)
        ensures
            r.entries_view().len() == self.entries_view().len(),
            forall|i: int|
                0 <= i < self.entries_view().len() ==> #[trigger] r.entries_view()[i].0
                    == self.entries_view()[i].0 && cloned::<T>(
                    self.entries_view()[i].1,
                    r.entries_view()[i].1,
                ),
    {
        proof {
            use_type_invariant(self);
        }
        let mut entries: Vec<(String, T)> = Vec::new();
        let mut i: usize = 0;
        while i < self.entries.len()
            invariant
                i <= self.entries@.len(),
                entries@.len() == i,
                distinct_names(self.entries@),
                forall|j: int|
                    0 <= j < i ==> #[trigger] entries@[j].0 == self.entries@[j].0 && cloned::<T>(
                        self.entries@[j].1,
                        entries@[j].1,
                    ),
            decreases self.entries@.len() - i,
        {
            let name = self.entries[i].0.clone();
            let target = self.entries[i].1.clone();
            entries.push((name, target));
            i = i + 1;
        }
        let ghost a = entries@;
        let ghost b = self.entries@;
        assert(distinct_names(a)) by {
            assert forall|x: int, y: int| 0 <= x < y < a.len() implies #[trigger] a[x].0@
                != #[trigger] a[y].0@ by {
                assert(b[x].0@ != b[y].0@);
            }
        }
        NamedTargets { entries }
    }
}

} // verus!
