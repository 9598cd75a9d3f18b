//! The rewards that a squad's relics can drop.

use vstd::prelude::*;
use vstd::string::StrSliceExecFns;

use crate::reward_choices::RewardNeedle;
use crate::text::{chars_of, copy_texts};
#[allow(unused_imports)]
use crate::text::texts;

verus! {

/// A reward and its worth in ducats.
#[derive(Debug)]
pub struct RewardCatalogEntry {
    pub name: String,
    pub ducats: u32,
}

impl Clone for RewardCatalogEntry {
    fn clone(&self) -> (entry: Self)
        ensures
            entry == *self,
    {
        RewardCatalogEntry { name: self.name.clone(), ducats: self.ducats }
    }
}

/// The names to match cards against, and the relics they come from.
///
/// The relics are what says which fissure a pool describes. Its size does not: a pool is right or
/// wrong depending on whose relics are on screen.
#[derive(Debug)]
pub struct RelicPool {
    relics: Vec<String>,
    entries: Vec<RewardCatalogEntry>,
}

impl Clone for RelicPool {
    fn clone(&self) -> (pool: Self)
        ensures
            pool.relics() == self.relics(),
            pool.rewards() == self.rewards(),
    {
        let mut entries: Vec<RewardCatalogEntry> = Vec::new();
        let mut i: usize = 0;
        while i < self.entries.len()
            invariant
                i <= self.entries@.len(),
                entries@ == self.entries@.take(i as int),
            decreases self.entries@.len() - i,
        {
            entries.push(self.entries[i].clone());
            assert(self.entries@.take(i + 1) =~= self.entries@.take(i as int).push(
                self.entries@[i as int],
            ));
            i += 1;
        }
        assert(self.entries@.take(i as int) =~= self.entries@);
        RelicPool { relics: copy_texts(self.relics.as_slice()), entries }
    }
}

impl Default for RelicPool {
    fn default() -> (pool: Self)
        ensures
            pool.relics().len() == 0,
            pool.rewards().len() == 0,
    {
        RelicPool::new()
    }
}

/// What is noted down of published cards.
pub struct PublishedTrace {
    pub names: Vec<String>,
    pub pool: usize,
    pub relics: Vec<String>,
}

/// What stands behind the last slash.
pub open spec fn last_step(path: Seq<char>) -> Seq<char>
    decreases path.len(),
{
    if path.len() == 0 || path.last() == '/' {
        Seq::empty()
    } else {
        last_step(path.drop_last()).push(path.last())
    }
}

impl RelicPool {
    /// The relics that the pool comes from.
    pub closed spec fn relics(self) -> Seq<String> {
        self.relics@
    }

    /// The rewards in the pool.
    pub closed spec fn rewards(self) -> Seq<RewardCatalogEntry> {
        self.entries@
    }

    /// A pool without rewards.
    pub fn new() -> (pool: Self)
        ensures
            pool.relics().len() == 0,
            pool.rewards().len() == 0,
    {
        RelicPool { relics: Vec::new(), entries: Vec::new() }
    }

    /// Takes on the pool of these relics in place of the one that was here, however large that was.
    pub fn adopt(&mut self, relics: &[String], entries: Vec<RewardCatalogEntry>)
        ensures
            final(self).relics() == relics@,
            final(self).rewards() == entries@,
    {
        self.relics = copy_texts(relics);
        self.entries = entries;
    }

    /// The rewards in the pool.
    pub fn entries(&self) -> (entries: &[RewardCatalogEntry])
        ensures
            entries@ == self.rewards(),
    {
        self.entries.as_slice()
    }

    /// What to note down of cards that were published: they themselves, how many names they were
    /// matched against, and what the relics are called that those come from. The part that all
    /// relic paths share is left out.
    pub fn trace_published(&self, names: &[String]) -> (trace: PublishedTrace)
        ensures
            trace.names@ == names@,
            trace.pool == self.rewards().len(),
            texts(trace.relics@) == texts(self.relics()).map_values(
                |path: Seq<char>| last_step(path),
            ),
    {
        let mut relics: Vec<String> = Vec::new();
        let mut i: usize = 0;
        while i < self.relics.len()
            invariant
                i <= self.relics@.len(),
                relics@.len() == i,
                forall|k: int| 0 <= k < i ==> (#[trigger] relics@[k])@ == last_step(self.relics@[k]@),
            decreases self.relics@.len() - i,
        {
            relics.push(last_step_of(self.relics[i].as_str()));
            i += 1;
        }
        assert(texts(relics@) =~= texts(self.relics()).map_values(
            |path: Seq<char>| last_step(path),
        ));
        PublishedTrace { names: copy_texts(names), pool: self.entries.len(), relics }
    }

    /// How many rewards there are.
    pub fn len(&self) -> (len: usize)
        ensures
            len == self.rewards().len(),
    {
        self.entries.len()
    }

    /// Whether there is no reward.
    pub fn is_empty(&self) -> (empty: bool)
        ensures
            empty == (self.rewards().len() == 0),
    {
        self.entries.len() == 0
    }
}

/// What stands behind the last slash is the end of the path, free of slashes, with a slash or
/// nothing before it.
proof fn lemma_last_step(path: Seq<char>, start: int)
    requires
        0 <= start <= path.len(),
        start == 0 || path[start - 1] == '/',
        forall|k: int| start <= k < path.len() ==> #[trigger] path[k] != '/',
    ensures
        last_step(path) == path.skip(start),
    decreases path.len(),
{
    if path.len() == 0 || path.last() == '/' {
        assert(path.skip(start) =~= Seq::empty());
    } else {
        if start == path.len() {
            assert(path[start - 1] == path.last());
        }
        let init = path.drop_last();
        lemma_last_step(init, start);
        assert(path.skip(start) =~= init.skip(start).push(path.last()));
    }
}

/// What stands behind the last slash.
pub fn last_step_of(path: &str) -> (name: String)
    ensures
        name@ == last_step(path@),
{
    let chars = chars_of(path);
    let mut start: usize = chars.len();
    while start > 0 && chars[start - 1] != '/'
        invariant
            start <= chars@.len(),
            chars@ == path@,
            forall|k: int| start <= k < path@.len() ==> #[trigger] path@[k] != '/',
        decreases start,
    {
        start -= 1;
    }
    proof {
        lemma_last_step(path@, start as int);
    }
    path.substring_char(start, chars.len()).to_owned()
}

/// Whether `matches` finds `name` first at `found` among `entries`, or nowhere.
pub open spec fn finds_entry<F: Fn(&String, &String) -> bool>(
    matches: F,
    entries: Seq<RewardCatalogEntry>,
    name: String,
    found: Option<int>,
) -> bool {
    match found {
        Some(at) => 0 <= at < entries.len() && call_ensures(matches, (&entries[at].name, &name), true)
            && forall|k: int|
            0 <= k < at ==> call_ensures(matches, (&(#[trigger] entries[k]).name, &name), false),
        None => forall|k: int|
            0 <= k < entries.len() ==> call_ensures(
                matches,
                (&(#[trigger] entries[k]).name, &name),
                false,
            ),
    }
}

/// Whether `ducats` is the worth of `name`: that of the first entry that `matches` finds for it,
/// and nothing if it finds none.
pub open spec fn is_worth<F: Fn(&String, &String) -> bool>(
    matches: F,
    entries: Seq<RewardCatalogEntry>,
    name: String,
    ducats: u32,
) -> bool {
    ||| finds_entry(matches, entries, name, None) && ducats == 0
    ||| exists|at: int|
        finds_entry(matches, entries, name, Some(at)) && ducats == (#[trigger] entries[at]).ducats
}

/// The worth of a reward in ducats. `matches` says whether a name in the catalog and the name of a
/// reward mean the same.
pub fn ducats_of<F: Fn(&String, &String) -> bool>(
    matches: &F,
    catalog: &[RewardCatalogEntry],
    name: &String,
) -> (ducats: u32)
    requires
        forall|a: &String, b: &String| call_requires(*matches, (a, b)),
    ensures
        is_worth(*matches, catalog@, *name, ducats),
{
    let mut i: usize = 0;
    while i < catalog.len()
        invariant
            i <= catalog@.len(),
            forall|a: &String, b: &String| call_requires(*matches, (a, b)),
            forall|k: int|
                0 <= k < i ==> call_ensures(*matches, (&(#[trigger] catalog@[k]).name, name), false),
        decreases catalog@.len() - i,
    {
        if matches(&catalog[i].name, name) {
            assert(finds_entry(*matches, catalog@, *name, Some(i as int)));
            return catalog[i].ducats;
        }
        i += 1;
    }
    0
}

/// Whether these entries are the rewards of the candidates: one for each, in their order, under its
/// name and with its worth.
pub open spec fn is_pool_of<F: Fn(&String, &String) -> bool>(
    matches: F,
    catalog: Seq<RewardCatalogEntry>,
    candidates: Seq<RewardNeedle>,
    entries: Seq<RewardCatalogEntry>,
) -> bool {
    entries.len() == candidates.len() && forall|i: int|
        0 <= i < entries.len() ==> (#[trigger] entries[i]).name == candidates[i].choice_name
            && is_worth(matches, catalog, candidates[i].choice_name, entries[i].ducats)
}

/// The rewards that a squad's relics can drop, each under its own name and with its worth from the
/// catalog.
pub fn relic_pool_entries<F: Fn(&String, &String) -> bool>(
    candidates: &[RewardNeedle],
    reward_catalog: &[RewardCatalogEntry],
    matches: &F,
) -> (entries: Vec<RewardCatalogEntry>)
    requires
        forall|a: &String, b: &String| call_requires(*matches, (a, b)),
    ensures
        entries@.len() == candidates@.len(),
        forall|i: int|
            0 <= i < entries@.len() ==> (#[trigger] entries@[i]).name == candidates@[i].choice_name
                && is_worth(
                *matches,
                reward_catalog@,
                candidates@[i].choice_name,
                entries@[i].ducats,
            ),
        is_pool_of(*matches, reward_catalog@, candidates@, entries@),
{
    let mut entries: Vec<RewardCatalogEntry> = Vec::new();
    let mut i: usize = 0;
    while i < candidates.len()
        invariant
            i <= candidates@.len(),
            entries@.len() == i,
            forall|a: &String, b: &String| call_requires(*matches, (a, b)),
            forall|k: int|
                0 <= k < i ==> (#[trigger] entries@[k]).name == candidates@[k].choice_name
                    && is_worth(
                    *matches,
                    reward_catalog@,
                    candidates@[k].choice_name,
                    entries@[k].ducats,
                ),
        decreases candidates@.len() - i,
    {
        let name = candidates[i].choice_name.clone();
        let ducats = ducats_of(matches, reward_catalog, &name);
        entries.push(RewardCatalogEntry { name, ducats });
        i += 1;
    }
    entries
}

/// What stands behind the last slash is the end of the path and holds no slash; before it stands
/// nothing, or something that ends in a slash.
pub proof fn law_last_step_ends_the_path(path: Seq<char>)
    ensures
        ({
            let step = last_step(path);
            &&& step.len() <= path.len()
            &&& path.skip(path.len() - step.len()) == step
            &&& forall|i: int| 0 <= i < step.len() ==> #[trigger] step[i] != '/'
            &&& step.len() < path.len() ==> path[path.len() - step.len() - 1] == '/'
        }),
    decreases path.len(),
{
    let step = last_step(path);
    if path.len() == 0 || path.last() == '/' {
        assert(path.skip(path.len() as int) =~= step);
    } else {
        let init = path.drop_last();
        law_last_step_ends_the_path(init);
        let before = last_step(init);
        assert(path.skip(path.len() - step.len()) =~= step) by {
            assert forall|i: int| 0 <= i < step.len() implies path[path.len() - step.len() + i]
                == step[i] by {
                if i < before.len() {
                    assert(init.skip(init.len() - before.len())[i] == before[i]);
                }
            }
        }
        assert forall|i: int| 0 <= i < step.len() implies #[trigger] step[i] != '/' by {
            if i < before.len() {
                assert(before[i] != '/');
            }
        }
    }
}

/// The worth of a reward is that of the first entry that matches it, whole, and nothing if none
/// does. `matches` is taken to answer the same way every time: yes exactly where `same` holds.
pub proof fn law_worth_is_that_of_the_first_match<F: Fn(&String, &String) -> bool>(
    matches: F,
    same: spec_fn(String, String) -> bool,
    entries: Seq<RewardCatalogEntry>,
    name: String,
    ducats: u32,
)
    requires
        is_worth(matches, entries, name, ducats),
        forall|a: String, b: String, yes: bool| #[trigger]
            call_ensures(matches, (&a, &b), yes) ==> yes == same(a, b),
    ensures
        forall|at: int|
            0 <= at < entries.len() && same((#[trigger] entries[at]).name, name) && (forall|k: int|
                0 <= k < at ==> !same((#[trigger] entries[k]).name, name)) ==> ducats
                == entries[at].ducats,
        (forall|k: int| 0 <= k < entries.len() ==> !same((#[trigger] entries[k]).name, name)) ==> ducats
            == 0,
{
    if finds_entry(matches, entries, name, None) && ducats == 0 {
        assert forall|k: int| 0 <= k < entries.len() implies !same((#[trigger] entries[k]).name, name) by {
            assert(call_ensures(matches, (&entries[k].name, &name), false));
        }
    } else {
        let found = choose|at: int|
            finds_entry(matches, entries, name, Some(at)) && ducats == (#[trigger] entries[at]).ducats;
        assert(call_ensures(matches, (&entries[found].name, &name), true));
        assert(same(entries[found].name, name));
        assert forall|k: int| 0 <= k < found implies !same((#[trigger] entries[k]).name, name) by {
            assert(call_ensures(matches, (&entries[k].name, &name), false));
        }
    }
}

} // verus!
