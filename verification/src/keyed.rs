//! Small collections that go by names.

use vstd::prelude::*;

use crate::text::same_text;

verus! {

/// Where `name` stands among the names of `entries`.
pub open spec fn entry_of<V>(entries: Seq<(String, V)>, name: Seq<char>) -> int {
    choose|i: int| 0 <= i < entries.len() && (#[trigger] entries[i]).0@ == name
}

/// Whether one of `entries` has this name.
pub open spec fn names_entry<V>(entries: Seq<(String, V)>, name: Seq<char>) -> bool {
    exists|i: int| 0 <= i < entries.len() && (#[trigger] entries[i]).0@ == name
}

/// The map that `entries` stand for.
pub open spec fn entries_map<V>(entries: Seq<(String, V)>) -> Map<Seq<char>, V> {
    Map::new(
        |name: Seq<char>| names_entry(entries, name),
        |name: Seq<char>| entries[entry_of(entries, name)].1,
    )
}

/// Whether no name occurs twice.
pub open spec fn names_are_distinct<V>(entries: Seq<(String, V)>) -> bool {
    forall|i: int, j: int|
        0 <= i < j < entries.len() ==> (#[trigger] entries[i]).0@ != (#[trigger] entries[j]).0@
}

/// A map from names to values.
pub struct NameMap<V> {
    entries: Vec<(String, V)>,
}

impl<V> View for NameMap<V> {
    type V = Map<Seq<char>, V>;

    closed spec fn view(&self) -> Map<Seq<char>, V> {
        entries_map(self.entries@)
    }
}

impl<V> NameMap<V> {
    /// No name is held twice.
    pub closed spec fn wf(self) -> bool {
        names_are_distinct(self.entries@)
    }

    /// The map without names.
    pub fn new() -> (map: Self)
        ensures
            map.wf(),
            map@ == Map::<Seq<char>, V>::empty(),
    {
        let map = NameMap { entries: Vec::new() };
        assert(map@ =~= Map::<Seq<char>, V>::empty());
        map
    }

    /// The place of a name.
    fn find(&self, name: &str) -> (place: Option<usize>)
        ensures
            match place {
                Some(i) => i < self.entries@.len() && self.entries@[i as int].0@ == name@,
                None => !names_entry(self.entries@, name@),
            },
    {
        let mut i: usize = 0;
        while i < self.entries.len()
            invariant
                i <= self.entries@.len(),
                forall|j: int| 0 <= j < i ==> (#[trigger] self.entries@[j]).0@ != name@,
            decreases self.entries@.len() - i,
        {
            if same_text(self.entries[i].0.as_str(), name) {
                return Some(i);
            }
            i += 1;
        }
        None
    }

    /// The value under a name.
    pub fn get(&self, name: &str) -> (value: Option<&V>)
        requires
            self.wf(),
        ensures
            match value {
                Some(value) => self@.contains_key(name@) && *value == self@[name@],
                None => !self@.contains_key(name@),
            },
    {
        match self.find(name) {
            Some(i) => {
                assert(names_entry(self.entries@, name@));
                assert(entry_of(self.entries@, name@) == i);
                Some(&self.entries[i].1)
            },
            None => None,
        }
    }

    /// Whether there is a value under a name.
    pub fn contains(&self, name: &str) -> (held: bool)
        ensures
            held == self@.contains_key(name@),
    {
        match self.find(name) {
            Some(i) => {
                assert(names_entry(self.entries@, name@));
                true
            },
            None => false,
        }
    }

    /// Puts a value under a name, in place of the one that was there.
    pub fn insert(&mut self, name: String, value: V)
        requires
            old(self).wf(),
        ensures
            final(self).wf(),
            final(self)@ == old(self)@.insert(name@, value),
    {
        let ghost before = self.entries@;
        let ghost key = name@;
        match self.find(name.as_str()) {
            Some(i) => {
                self.entries.set(i, (name, value));
                proof {
                    let after = self.entries@;
                    assert(after == before.update(i as int, (name, value)));
                    assert(names_are_distinct(after)) by {
                        assert forall|a: int, b: int| 0 <= a < b < after.len() implies (
                        #[trigger] after[a]).0@ != (#[trigger] after[b]).0@ by {
                            assert(before[a].0@ != before[b].0@);
                        }
                    }
                    lemma_map_after_change(before, after, i as int, key, value);
                }
            },
            None => {
                self.entries.push((name, value));
                proof {
                    let after = self.entries@;
                    assert forall|k: int| 0 <= k < before.len() implies before[k].0@ != key by {
                        assert(names_entry(before, before[k].0@));
                    }
                    assert(names_are_distinct(after));
                    lemma_map_after_change(before, after, before.len() as int, key, value);
                }
            },
        }
    }

    /// Forgets everything.
    pub fn clear(&mut self)
        ensures
            final(self).wf(),
            final(self)@ == Map::<Seq<char>, V>::empty(),
    {
        self.entries.clear();
        assert(self@ =~= Map::<Seq<char>, V>::empty());
    }

    /// How many names there are.
    pub fn len(&self) -> (len: usize)
        requires
            self.wf(),
        ensures
            self@.dom().finite(),
            len == self@.dom().len(),
    {
        proof {
            lemma_distinct_names_count(self.entries@);
        }
        self.entries.len()
    }

    /// Whether there is no name.
    pub fn is_empty(&self) -> (empty: bool)
        ensures
            empty == (self@ == Map::<Seq<char>, V>::empty()),
    {
        let empty = self.entries.len() == 0;
        proof {
            if empty {
                assert(self@ =~= Map::<Seq<char>, V>::empty());
            } else {
                assert(names_entry(self.entries@, self.entries@[0].0@));
                assert(self@.contains_key(self.entries@[0].0@));
            }
        }
        empty
    }
}

/// Entries that differ at one place stand for maps that differ in that name.
proof fn lemma_map_after_change<V>(
    before: Seq<(String, V)>,
    after: Seq<(String, V)>,
    at: int,
    name: Seq<char>,
    value: V,
)
    requires
        names_are_distinct(before),
        names_are_distinct(after),
        0 <= at < after.len(),
        before.len() <= after.len() <= before.len() + 1,
        at < before.len() ==> after.len() == before.len() && before[at].0@ == name,
        at >= before.len() ==> at == before.len() && !names_entry(before, name),
        after[at].0@ == name,
        after[at].1 == value,
        forall|i: int| 0 <= i < before.len() && i != at ==> after[i] == #[trigger] before[i],
    ensures
        entries_map(after) == entries_map(before).insert(name, value),
{
    let m = entries_map(before).insert(name, value);
    assert forall|n: Seq<char>| #[trigger] names_entry(after, n) == m.contains_key(n) by {
        if names_entry(after, n) && n != name {
            let i = entry_of(after, n);
            assert(before[i].0@ == n);
        }
        if names_entry(before, n) && n != name {
            let i = entry_of(before, n);
            assert(after[i].0@ == n);
        }
    }
    assert forall|n: Seq<char>| names_entry(after, n) implies #[trigger] after[entry_of(after, n)].1
        == m[n] by {
        let i = entry_of(after, n);
        if n == name {
            assert(i == at);
        } else {
            assert(before[i].0@ == n);
            assert(entry_of(before, n) == i);
        }
    }
    assert(entries_map(after) =~= m);
}

/// Distinct names are as many as the entries that hold them.
proof fn lemma_distinct_names_count<V>(entries: Seq<(String, V)>)
    requires
        names_are_distinct(entries),
    ensures
        entries_map(entries).dom().finite(),
        entries_map(entries).dom().len() == entries.len(),
    decreases entries.len(),
{
    if entries.len() == 0 {
        assert(entries_map(entries).dom() =~= Set::empty());
    } else {
        let init = entries.drop_last();
        let name = entries.last().0@;
        lemma_distinct_names_count(init);
        assert forall|n: Seq<char>| names_entry(entries, n) == (n == name || names_entry(init, n)) by {
            if names_entry(entries, n) && n != name {
                let i = entry_of(entries, n);
                assert(init[i].0@ == n);
            }
            if names_entry(init, n) {
                let i = entry_of(init, n);
                assert(entries[i].0@ == n);
            }
        }
        if names_entry(init, name) {
            let i = entry_of(init, name);
            assert(entries[i].0@ != entries[entries.len() - 1].0@);
        }
        assert(entries_map(entries).dom() =~= entries_map(init).dom().insert(name));
    }
}

/// A set of names.
pub struct NameSet {
    names: Vec<String>,
}

/// The set that a list of names stands for.
pub open spec fn names_set(names: Seq<String>) -> Set<Seq<char>> {
    Set::new(|name: Seq<char>| exists|i: int| 0 <= i < names.len() && (#[trigger] names[i])@ == name)
}

/// One more name in the list is one more name in the set.
proof fn lemma_names_set_push(names: Seq<String>, name: String)
    ensures
        names_set(names.push(name)) == names_set(names).insert(name@),
{
    let after = names.push(name);
    assert(after[names.len() as int] == name);
    assert forall|n: Seq<char>| #[trigger] names_set(after).contains(n) == names_set(names).insert(
        name@,
    ).contains(n) by {
        if names_set(names).contains(n) {
            let i = choose|i: int| 0 <= i < names.len() && (#[trigger] names[i])@ == n;
            assert(after[i]@ == n);
        }
        if names_set(after).contains(n) && n != name@ {
            let i = choose|i: int| 0 <= i < after.len() && (#[trigger] after[i])@ == n;
            assert(names[i]@ == n);
        }
    }
    assert(names_set(after) =~= names_set(names).insert(name@));
}

impl View for NameSet {
    type V = Set<Seq<char>>;

    closed spec fn view(&self) -> Set<Seq<char>> {
        names_set(self.names@)
    }
}

impl NameSet {
    /// The set without names.
    pub fn new() -> (set: Self)
        ensures
            set@ == Set::<Seq<char>>::empty(),
    {
        let set = NameSet { names: Vec::new() };
        assert(set@ =~= Set::<Seq<char>>::empty());
        set
    }

    /// Whether a name is in the set.
    pub fn contains(&self, name: &str) -> (held: bool)
        ensures
            held == self@.contains(name@),
    {
        let mut i: usize = 0;
        while i < self.names.len()
            invariant
                i <= self.names@.len(),
                forall|j: int| 0 <= j < i ==> (#[trigger] self.names@[j])@ != name@,
            decreases self.names@.len() - i,
        {
            if same_text(self.names[i].as_str(), name) {
                return true;
            }
            i += 1;
        }
        false
    }

    /// Puts a name into the set. Says whether it was not in it before.
    pub fn insert(&mut self, name: String) -> (added: bool)
        ensures
            added == !old(self)@.contains(name@),
            final(self)@ == old(self)@.insert(name@),
    {
        if self.contains(name.as_str()) {
            assert(self@ =~= old(self)@.insert(name@));
            return false;
        }
        proof {
            lemma_names_set_push(self.names@, name);
        }
        self.names.push(name);
        true
    }

    /// Takes a name out of the set.
    pub fn remove(&mut self, name: &str)
        ensures
            final(self)@ == old(self)@.remove(name@),
    {
        let ghost all = self.names@;
        let mut kept: Vec<String> = Vec::new();
        let mut i: usize = 0;
        while i < self.names.len()
            invariant
                i <= self.names@.len(),
                self.names@ == all,
                names_set(kept@) == names_set(all.take(i as int)).remove(name@),
            decreases self.names@.len() - i,
        {
            let ghost seen = all.take(i as int);
            let current = self.names[i].clone();
            proof {
                assert(all.take(i + 1) == seen.push(current));
                lemma_names_set_push(seen, current);
                lemma_names_set_push(kept@, current);
            }
            let ghost wanted = names_set(seen).insert(current@).remove(name@);
            if !same_text(current.as_str(), name) {
                kept.push(current);
            }
            assert(names_set(kept@) =~= wanted);
            i += 1;
        }
        assert(all.take(i as int) == all);
        self.names = kept;
    }

    /// Empties the set.
    pub fn clear(&mut self)
        ensures
            final(self)@ == Set::<Seq<char>>::empty(),
    {
        self.names.clear();
        assert(self@ =~= Set::<Seq<char>>::empty());
    }
}

/// What was put in under a name is found under it, and what is found under any other name is what
/// was found there before.
pub proof fn law_map_gives_back_what_was_put_in<V>(
    map: &mut NameMap<V>,
    name: String,
    value: V,
    other: &str,
    earlier: Option<&V>,
)
    requires
        old(map).wf(),
        call_ensures(NameMap::<V>::insert, (map, name, value), ()),
        call_ensures(NameMap::<V>::get, (&*old(map), other), earlier),
    ensures
        forall|found: Option<&V>| #[trigger]
            call_ensures(NameMap::<V>::get, (&*final(map), other), found) ==> {
                &&& other@ == name@ ==> found is Some && *found->0 == value
                &&& other@ != name@ ==> found is Some == earlier is Some
                &&& other@ != name@ && found is Some ==> *found->0 == *earlier->0
            },
{
}

/// A name is in a set after it was put in, and is not after it was taken out; whether any other name
/// is does not change.
pub proof fn law_set_holds_what_was_put_in(
    put: &mut NameSet,
    taken: &mut NameSet,
    owned: String,
    name: &str,
    added: bool,
    other: &str,
)
    requires
        owned@ == name@,
        call_ensures(NameSet::insert, (put, owned), added),
        call_ensures(NameSet::remove, (taken, name), ()),
    ensures
        added <==> !old(put)@.contains(name@),
        forall|held: bool| #[trigger]
            call_ensures(NameSet::contains, (&*final(put), other), held) ==> held == (other@ == name@ || old(
                put,
            )@.contains(other@)),
        forall|held: bool| #[trigger]
            call_ensures(NameSet::contains, (&*final(taken), other), held) ==> held == (other@ != name@
                && old(taken)@.contains(other@)),
{
}

} // verus!
