//! Which prices are asked for, kept and reported.

use vstd::prelude::*;

use crate::keyed::NameMap;
use crate::relic_pool::RewardCatalogEntry;
use crate::text::decimal_text;
#[allow(unused_imports)]
use crate::text::{decimal, opt_text, texts};

verus! {

/// What is recorded of prices.
pub enum PriceNote {
    /// That many rewards on screen are priced, as of that time.
    MarketReady { priced: usize, at: String },
    /// The market could not be asked, for this reason.
    MarketDegraded { reason: String },
    /// The collection is priced: that many items, as of that day.
    CollectionReady { priced: usize, date: String },
    /// The collection is not priced as it should be, for this reason.
    CollectionDegraded { reason: String },
}

/// [`PriceNote`] with its contents as sequences.
pub enum PriceNoteView {
    MarketReady { priced: usize, at: Seq<char> },
    MarketDegraded { reason: Seq<char> },
    CollectionReady { priced: usize, date: Seq<char> },
    CollectionDegraded { reason: Seq<char> },
}

impl View for PriceNote {
    type V = PriceNoteView;

    open spec fn view(&self) -> PriceNoteView {
        match self {
            PriceNote::MarketReady { priced, at } => PriceNoteView::MarketReady {
                priced: *priced,
                at: at@,
            },
            PriceNote::MarketDegraded { reason } => PriceNoteView::MarketDegraded {
                reason: reason@,
            },
            PriceNote::CollectionReady { priced, date } => PriceNoteView::CollectionReady {
                priced: *priced,
                date: date@,
            },
            PriceNote::CollectionDegraded { reason } => PriceNoteView::CollectionDegraded {
                reason: reason@,
            },
        }
    }
}

/// The views of a list of notes.
pub open spec fn price_notes(notes: Seq<PriceNote>) -> Seq<PriceNoteView> {
    notes.map_values(|note: PriceNote| note@)
}

/// The view of a note that may be missing.
pub open spec fn opt_note(note: Option<PriceNote>) -> Option<PriceNoteView> {
    match note {
        Some(note) => Some(note@),
        None => None,
    }
}

/// The prices found for the first names of a list. Of a name that stands there twice the later
/// finding counts.
pub open spec fn found_prices(
    before: Map<Seq<char>, u32>,
    names: Seq<Seq<char>>,
    found: Seq<Option<u32>>,
    n: int,
) -> Map<Seq<char>, u32>
    decreases n,
{
    if n <= 0 {
        before
    } else {
        let earlier = found_prices(before, names, found, n - 1);
        match found[n - 1] {
            Some(price) => earlier.insert(names[n - 1], price),
            None => earlier,
        }
    }
}

/// A name has a price exactly if it had one before or one was found for it: nothing that was found
/// is lost, and nothing is made up.
pub proof fn law_names_are_priced_as_found(
    before: Map<Seq<char>, u32>,
    names: Seq<Seq<char>>,
    found: Seq<Option<u32>>,
    n: int,
    name: Seq<char>,
)
    requires
        0 <= n <= names.len(),
        found.len() == names.len(),
    ensures
        found_prices(before, names, found, n).contains_key(name) == (before.contains_key(name) || exists|
            i: int,
        |
            0 <= i < n && #[trigger] names[i] == name && found[i] is Some),
    decreases n,
{
    if n > 0 {
        law_names_are_priced_as_found(before, names, found, n - 1, name);
        if exists|i: int| 0 <= i < n && #[trigger] names[i] == name && found[i] is Some {
            let i = choose|i: int| 0 <= i < n && #[trigger] names[i] == name && found[i] is Some;
            if i < n - 1 {
                assert(found_prices(before, names, found, n - 1).contains_key(name));
            }
        }
        if found_prices(before, names, found, n).contains_key(name) && !found_prices(
            before,
            names,
            found,
            n - 1,
        ).contains_key(name) {
            assert(names[n - 1] == name);
        }
    }
}

/// Adds what was found for each of these names, in order, to the prices.
pub fn fill_prices(prices: &mut NameMap<u32>, names: &[String], found: &[Option<u32>])
    requires
        old(prices).wf(),
        found@.len() == names@.len(),
    ensures
        final(prices).wf(),
        final(prices)@ == found_prices(
            old(prices)@,
            texts(names@),
            found@,
            names@.len() as int,
        ),
{
    let ghost before = prices@;
    let mut i: usize = 0;
    while i < names.len()
        invariant
            i <= names@.len(),
            found@.len() == names@.len(),
            prices.wf(),
            prices@ == found_prices(before, texts(names@), found@, i as int),
        decreases names@.len() - i,
    {
        if let Some(price) = found[i] {
            prices.insert(names[i].clone(), price);
        }
        i += 1;
    }
}

/// Splits rewards into those whose price is at hand and those whose price has to be asked for.
/// `cached` holds what is at hand for each of the names, in order.
pub fn split_by_cache(names: &[String], cached: &[Option<u32>]) -> (split: (NameMap<u32>, Vec<String>))
    requires
        cached@.len() == names@.len(),
    ensures
        split.0.wf(),
        split.0@ == found_prices(Map::empty(), texts(names@), cached@, names@.len() as int),
        texts(split.1@) == texts(names@).filter(|name: Seq<char>| !split.0@.contains_key(name)),
{
    let mut prices: NameMap<u32> = NameMap::new();
    fill_prices(&mut prices, names, cached);
    let ghost wanted = |name: Seq<char>| !prices@.contains_key(name);
    let mut missing: Vec<String> = Vec::new();
    let mut i: usize = 0;
    proof {
        reveal(Seq::filter);
        assert(texts(missing@) =~= texts(names@).take(0).filter(wanted));
    }
    while i < names.len()
        invariant
            i <= names@.len(),
            prices.wf(),
            wanted == (|name: Seq<char>| !prices@.contains_key(name)),
            texts(missing@) == texts(names@).take(i as int).filter(wanted),
        decreases names@.len() - i,
    {
        let ghost all = texts(names@);
        let ghost held = texts(missing@);
        if !prices.contains(names[i].as_str()) {
            missing.push(names[i].clone());
            assert(texts(missing@) =~= held.push(names@[i as int]@));
        }
        proof {
            reveal(Seq::filter);
            assert(all.take(i + 1).drop_last() =~= all.take(i as int));
            assert(all.take(i + 1).last() == names@[i as int]@);
        }
        i += 1;
    }
    assert(texts(names@).take(i as int) =~= texts(names@));
    (prices, missing)
}

/// The first note on the market after an attempt to price the rewards on screen: why asking failed,
/// or, where nothing was asked and nothing is priced either, that there are no prices. `failure` is
/// what asking says of itself.
pub fn fill_failure(failure: Option<String>, prices: &NameMap<u32>) -> (note: Option<PriceNote>)
    requires
        prices.wf(),
    ensures
        opt_note(note) == (match opt_text(failure) {
            Some(reason) => Some(PriceNoteView::MarketDegraded { reason }),
            None => if prices@ == Map::<Seq<char>, u32>::empty() {
                Some(
                    PriceNoteView::MarketDegraded {
                        reason: "warframe.market pricing is unavailable for these rewards"@,
                    },
                )
            } else {
                None
            },
        }),
{
    match failure {
        Some(reason) => Some(PriceNote::MarketDegraded { reason }),
        None => {
            if prices.is_empty() {
                Some(
                    PriceNote::MarketDegraded {
                        reason: "warframe.market pricing is unavailable for these rewards".to_owned(),
                    },
                )
            } else {
                None
            }
        },
    }
}

/// The second note on the market: how many of the rewards on screen are priced, if any are. Only
/// then are the rewards shown with their prices.
pub fn fill_success(prices: &NameMap<u32>, now: u64) -> (note: Option<PriceNote>)
    requires
        prices.wf(),
    ensures
        opt_note(note) == (if prices@ == Map::<Seq<char>, u32>::empty() {
            None
        } else {
            Some(
                PriceNoteView::MarketReady {
                    priced: prices@.dom().len() as usize,
                    at: decimal(now as nat),
                },
            )
        }),
        prices@.dom().len() <= usize::MAX,
{
    let priced = prices.len();
    if prices.is_empty() {
        None
    } else {
        Some(PriceNote::MarketReady { priced, at: decimal_text(now) })
    }
}

/// The names of the rewards in a pool, if there are any to price ahead of time.
pub fn names_to_warm(pool: &[RewardCatalogEntry]) -> (names: Option<Vec<String>>)
    ensures
        match names {
            Some(names) => pool@.len() > 0 && names@ == pool@.map_values(
                |entry: RewardCatalogEntry| entry.name,
            ),
            None => pool@.len() == 0,
        },
{
    if pool.len() == 0 {
        return None;
    }
    let mut names: Vec<String> = Vec::new();
    let mut i: usize = 0;
    while i < pool.len()
        invariant
            i <= pool@.len(),
            names@.len() == i,
            forall|k: int| 0 <= k < i ==> #[trigger] names@[k] == pool@[k].name,
        decreases pool@.len() - i,
    {
        names.push(pool[i].name.clone());
        i += 1;
    }
    assert(names@ =~= pool@.map_values(|entry: RewardCatalogEntry| entry.name));
    Some(names)
}

/// What asking for prices came to, counted in names.
#[derive(Clone, Copy, Debug, PartialEq, Eq, Structural)]
pub struct WarmOutcome {
    /// Prices that were stored.
    pub stored: usize,
    /// Names that nobody sells.
    pub no_sellers: usize,
    /// Names that could not be asked about.
    pub unavailable: usize,
    /// Answers that were too long.
    pub oversize: usize,
}

/// Whether the counts of two outcomes can be summed up.
pub open spec fn can_sum(a: WarmOutcome, b: WarmOutcome) -> bool {
    &&& a.stored + b.stored <= usize::MAX
    &&& a.no_sellers + b.no_sellers <= usize::MAX
    &&& a.unavailable + b.unavailable <= usize::MAX
    &&& a.oversize + b.oversize <= usize::MAX
}

/// The counts of two outcomes together.
pub open spec fn sum(a: WarmOutcome, b: WarmOutcome) -> WarmOutcome {
    WarmOutcome {
        stored: (a.stored + b.stored) as usize,
        no_sellers: (a.no_sellers + b.no_sellers) as usize,
        unavailable: (a.unavailable + b.unavailable) as usize,
        oversize: (a.oversize + b.oversize) as usize,
    }
}

/// How far asking for prices has come.
#[derive(Clone, Copy, Debug, PartialEq, Eq, Structural)]
pub struct PricingProgress {
    pub done: usize,
    pub total: usize,
}

/// A pass over names whose prices the player asked for, one at a time, so that how far it has come
/// can be shown and each verdict belongs to its name.
pub struct PricingPass {
    names: Vec<String>,
    done: usize,
    total: WarmOutcome,
    unpriced: Vec<String>,
}

/// [`PricingPass`] with its contents as sequences.
#[verifier::ext_equal]
pub struct PassView {
    pub names: Seq<String>,
    pub done: int,
    pub total: WarmOutcome,
    pub unpriced: Seq<String>,
}

impl View for PricingPass {
    type V = PassView;

    closed spec fn view(&self) -> PassView {
        PassView {
            names: self.names@,
            done: self.done as int,
            total: self.total,
            unpriced: self.unpriced@,
        }
    }
}

/// A pass that has not begun.
pub open spec fn pass_begun(names: Seq<String>) -> PassView {
    PassView {
        names,
        done: 0,
        total: WarmOutcome { stored: 0, no_sellers: 0, unavailable: 0, oversize: 0 },
        unpriced: Seq::empty(),
    }
}

/// The pass after asking about its next name came to `one`. A name that nobody sells is noted down;
/// one that could not be asked about is not, since it may be asked about again.
pub open spec fn pass_on(pass: PassView, one: WarmOutcome) -> PassView {
    PassView {
        names: pass.names,
        done: pass.done + 1,
        total: sum(pass.total, one),
        unpriced: if one.no_sellers > 0 {
            pass.unpriced.push(pass.names[pass.done])
        } else {
            pass.unpriced
        },
    }
}

impl PricingPass {
    /// Whether the pass has not run past its names.
    pub closed spec fn wf(self) -> bool {
        self.done <= self.names.len()
    }

    /// A pass over these names.
    pub fn new(names: Vec<String>) -> (pass: Self)
        ensures
            pass.wf(),
            pass@ == pass_begun(names@),
    {
        PricingPass {
            names,
            done: 0,
            total: WarmOutcome { stored: 0, no_sellers: 0, unavailable: 0, oversize: 0 },
            unpriced: Vec::new(),
        }
    }

    /// How far the pass has come, and the name to ask about next; nothing once it is over.
    pub fn next(&self) -> (step: Option<(PricingProgress, &String)>)
        requires
            self.wf(),
        ensures
            match step {
                Some((progress, name)) => self@.done < self@.names.len() && progress.done
                    == self@.done && progress.total == self@.names.len() && *name
                    == self@.names[self@.done],
                None => self@.done == self@.names.len(),
            },
    {
        if self.done < self.names.len() {
            Some(
                (
                    PricingProgress { done: self.done, total: self.names.len() },
                    &self.names[self.done],
                ),
            )
        } else {
            None
        }
    }

    /// Takes in what asking about the next name came to.
    pub fn record(&mut self, one: WarmOutcome)
        requires
            old(self).wf(),
            old(self)@.done < old(self)@.names.len(),
            can_sum(old(self)@.total, one),
        ensures
            final(self).wf(),
            final(self)@ == pass_on(old(self)@, one),
    {
        if one.no_sellers > 0 {
            self.unpriced.push(self.names[self.done].clone());
        }
        self.total = WarmOutcome {
            stored: self.total.stored + one.stored,
            no_sellers: self.total.no_sellers + one.no_sellers,
            unavailable: self.total.unavailable + one.unavailable,
            oversize: self.total.oversize + one.oversize,
        };
        self.done = self.done + 1;
    }

    /// What the pass came to so far.
    pub fn total(&self) -> (total: WarmOutcome)
        ensures
            total == self@.total,
    {
        self.total
    }

    /// The names that nobody sells, so far.
    pub fn unpriced(&self) -> (unpriced: &[String])
        ensures
            unpriced@ == self@.unpriced,
    {
        self.unpriced.as_slice()
    }
}

/// A pass over `names` after asking came to these outcomes, one for each name so far.
pub open spec fn passed(names: Seq<String>, outcomes: Seq<WarmOutcome>) -> PassView
    decreases outcomes.len(),
{
    if outcomes.len() == 0 {
        pass_begun(names)
    } else {
        pass_on(passed(names, outcomes.drop_last()), outcomes.last())
    }
}

/// Whether every count along the way fits.
pub open spec fn all_sums_fit(names: Seq<String>, outcomes: Seq<WarmOutcome>) -> bool {
    forall|n: int|
        0 <= n < outcomes.len() ==> can_sum(
            (#[trigger] passed(names, outcomes.take(n))).total,
            outcomes[n],
        )
}

/// The sum of one of the counts over a number of outcomes.
pub open spec fn count_of(outcomes: Seq<WarmOutcome>, count: spec_fn(WarmOutcome) -> usize) -> int
    decreases outcomes.len(),
{
    if outcomes.len() == 0 {
        0
    } else {
        count_of(outcomes.drop_last(), count) + count(outcomes.last())
    }
}

/// A pass gives the sums of all that asking came to, and notes down a name exactly if the answer to
/// it was that nobody sells it: the `i`th name that was asked about is noted down if and only if its
/// own outcome says so, in the order of asking.
pub proof fn law_pass_attributes_each_answer(names: Seq<String>, outcomes: Seq<WarmOutcome>)
    requires
        outcomes.len() <= names.len(),
        all_sums_fit(names, outcomes),
    ensures
        ({
            let pass = passed(names, outcomes);
            &&& pass.done == outcomes.len()
            &&& pass.total.stored == count_of(outcomes, |o: WarmOutcome| o.stored)
            &&& pass.total.no_sellers == count_of(outcomes, |o: WarmOutcome| o.no_sellers)
            &&& pass.total.unavailable == count_of(outcomes, |o: WarmOutcome| o.unavailable)
            &&& pass.total.oversize == count_of(outcomes, |o: WarmOutcome| o.oversize)
            &&& pass.unpriced == unsold(names, outcomes)
        }),
    decreases outcomes.len(),
{
    if outcomes.len() > 0 {
        let init = outcomes.drop_last();
        assert forall|n: int| 0 <= n < init.len() implies can_sum(
            (#[trigger] passed(names, init.take(n))).total,
            init[n],
        ) by {
            assert(init.take(n) =~= outcomes.take(n));
            assert(can_sum(passed(names, outcomes.take(n)).total, outcomes[n]));
        }
        law_pass_attributes_each_answer(names, init);
        assert(outcomes.take(outcomes.len() - 1) =~= init);
        assert(can_sum(passed(names, init).total, outcomes.last()));
        assert(passed(names, init).names == names) by {
            lemma_pass_keeps_names(names, init);
        }
    }
}

proof fn lemma_pass_keeps_names(names: Seq<String>, outcomes: Seq<WarmOutcome>)
    ensures
        passed(names, outcomes).names == names,
    decreases outcomes.len(),
{
    if outcomes.len() > 0 {
        lemma_pass_keeps_names(names, outcomes.drop_last());
    }
}

/// The names among those asked about that nobody sells.
pub open spec fn unsold(names: Seq<String>, outcomes: Seq<WarmOutcome>) -> Seq<String>
    decreases outcomes.len(),
{
    if outcomes.len() == 0 {
        Seq::empty()
    } else {
        let before = unsold(names, outcomes.drop_last());
        if outcomes.last().no_sellers > 0 {
            before.push(names[outcomes.len() - 1])
        } else {
            before
        }
    }
}

/// One change to the table of prices.
pub enum PriceUpdate {
    /// This price was found for the name.
    Checked { name: String, platinum: u32 },
    /// Nobody sells the name.
    Unpriced { name: String },
}

/// [`PriceUpdate`] with its contents as sequences.
pub enum UpdateView {
    Checked { name: Seq<char>, platinum: u32 },
    Unpriced { name: Seq<char> },
}

impl View for PriceUpdate {
    type V = UpdateView;

    open spec fn view(&self) -> UpdateView {
        match self {
            PriceUpdate::Checked { name, platinum } => UpdateView::Checked {
                name: name@,
                platinum: *platinum,
            },
            PriceUpdate::Unpriced { name } => UpdateView::Unpriced { name: name@ },
        }
    }
}

/// The views of a list of changes.
pub open spec fn update_views(updates: Seq<PriceUpdate>) -> Seq<UpdateView> {
    updates.map_values(|update: PriceUpdate| update@)
}

/// The changes that the first `n` of these findings make.
pub open spec fn found_updates(names: Seq<Seq<char>>, live: Seq<Option<u32>>, n: int) -> Seq<UpdateView>
    decreases n,
{
    if n <= 0 {
        Seq::empty()
    } else {
        let earlier = found_updates(names, live, n - 1);
        match live[n - 1] {
            Some(platinum) => earlier.push(UpdateView::Checked { name: names[n - 1], platinum }),
            None => earlier,
        }
    }
}

/// The changes to the table of prices after a pass: each name for which a price is at hand gets it,
/// and then each name that nobody sells is marked so. `live` holds the price at hand for each name.
pub fn checked_updates(names: &[String], live: &[Option<u32>], unpriced: &[String]) -> (updates: Vec<
    PriceUpdate,
>)
    requires
        live@.len() == names@.len(),
    ensures
        update_views(updates@) == found_updates(texts(names@), live@, names@.len() as int) + texts(
            unpriced@,
        ).map_values(|name: Seq<char>| UpdateView::Unpriced { name }),
{
    let mut updates: Vec<PriceUpdate> = Vec::new();
    let mut i: usize = 0;
    while i < names.len()
        invariant
            i <= names@.len(),
            live@.len() == names@.len(),
            update_views(updates@) == found_updates(texts(names@), live@, i as int),
        decreases names@.len() - i,
    {
        let ghost before = update_views(updates@);
        if let Some(platinum) = live[i] {
            updates.push(PriceUpdate::Checked { name: names[i].clone(), platinum });
            assert(update_views(updates@) =~= before.push(
                UpdateView::Checked { name: texts(names@)[i as int], platinum },
            ));
        }
        i += 1;
    }
    let ghost found = update_views(updates@);
    let ghost marked = texts(unpriced@).map_values(
        |name: Seq<char>| UpdateView::Unpriced { name },
    );
    let mut j: usize = 0;
    assert(found =~= found + marked.take(0));
    while j < unpriced.len()
        invariant
            j <= unpriced@.len(),
            marked == texts(unpriced@).map_values(|name: Seq<char>| UpdateView::Unpriced { name }),
            update_views(updates@) == found + marked.take(j as int),
        decreases unpriced@.len() - j,
    {
        let ghost before = update_views(updates@);
        updates.push(PriceUpdate::Unpriced { name: unpriced[j].clone() });
        proof {
            assert(update_views(updates@) =~= before.push(marked[j as int]));
            assert(marked.take(j + 1) =~= marked.take(j as int).push(marked[j as int]));
            assert(update_views(updates@) =~= found + marked.take(j + 1));
        }
        j += 1;
    }
    assert(marked.take(j as int) =~= marked);
    updates
}

/// What became of the table of prices after a pass: how many items it prices, the day it belongs
/// to, and whether it was saved.
pub struct Persisted {
    pub priced: usize,
    pub date: String,
    pub saved: bool,
}

/// What to record of the collection's prices after a pass that the player asked for. A table that
/// could not be saved is always reported. One that was saved counts as ready only if prices were
/// ready before: a pass knows nothing of the day's prices, and where those could never be loaded
/// that failure stays to be seen.
pub open spec fn collection_note(persisted: Option<Persisted>, had_success: bool) -> Option<PriceNoteView> {
    match persisted {
        Some(table) => if !table.saved {
            Some(
                PriceNoteView::CollectionDegraded {
                    reason: "Checked prices could not be saved for the next start"@,
                },
            )
        } else if had_success {
            Some(PriceNoteView::CollectionReady { priced: table.priced, date: table.date@ })
        } else {
            None
        },
        None => None,
    }
}

/// The list of a note that may be missing.
pub open spec fn note_list(note: Option<PriceNoteView>) -> Seq<PriceNoteView> {
    match note {
        Some(note) => seq![note],
        None => Seq::empty(),
    }
}

/// What to record after a pass that the player asked for. `failure` is what asking says of itself;
/// `persisted` is missing where there is no table of prices yet; `had_success` says whether the
/// collection's prices were ever ready. A market that could not be reached and a table that could
/// not be saved are told apart, and neither hides the other.
pub fn refresh_notes(failure: Option<String>, persisted: Option<Persisted>, had_success: bool) -> (notes:
    Vec<PriceNote>)
    ensures
        price_notes(notes@) == note_list(
            match opt_text(failure) {
                Some(reason) => Some(PriceNoteView::MarketDegraded { reason }),
                None => None,
            },
        ) + note_list(collection_note(persisted, had_success)),
{
    let mut notes: Vec<PriceNote> = Vec::new();
    if let Some(reason) = failure {
        notes.push(PriceNote::MarketDegraded { reason });
    }
    if let Some(table) = persisted {
        if !table.saved {
            notes.push(
                PriceNote::CollectionDegraded {
                    reason: "Checked prices could not be saved for the next start".to_owned(),
                },
            );
        } else if had_success {
            notes.push(PriceNote::CollectionReady { priced: table.priced, date: table.date });
        }
    }
    assert(price_notes(notes@) =~= note_list(
        match opt_text(failure) {
            Some(reason) => Some(PriceNoteView::MarketDegraded { reason }),
            None => None,
        },
    ) + note_list(collection_note(persisted, had_success)));
    notes
}

/// Whether the collection's prices were ever ready, after these passes.
pub open spec fn success_after(had_success: bool, passes: Seq<Option<Persisted>>) -> bool
    decreases passes.len(),
{
    if passes.len() == 0 {
        had_success
    } else {
        let before = success_after(had_success, passes.drop_last());
        before || collection_note(passes.last(), before) matches Some(
            PriceNoteView::CollectionReady { .. },
        )
    }
}

/// Passes that the player asks for never make up for a start without prices: however many there
/// are, and however well they go, prices that were never ready do not become ready by them.
pub proof fn law_failed_start_stays_to_be_seen(passes: Seq<Option<Persisted>>)
    ensures
        !success_after(false, passes),
    decreases passes.len(),
{
    if passes.len() > 0 {
        law_failed_start_stays_to_be_seen(passes.drop_last());
    }
}

/// A table of prices that was saved earlier.
pub struct SavedTable {
    pub priced: usize,
    pub date: String,
    /// Whether nothing newer is published.
    pub current: bool,
}

/// What to do at the start, given the table that was saved earlier, if there is one: what to record
/// of it, and whether the day's prices are to be downloaded. A saved table prices the collection
/// before anything is asked for, and one that is as new as anything published saves the download.
pub fn start_from_saved(saved: Option<&SavedTable>) -> (start: (Option<PriceNote>, bool))
    ensures
        opt_note(start.0) == (match saved {
            Some(table) => Some(
                PriceNoteView::CollectionReady { priced: table.priced, date: table.date@ },
            ),
            None => None,
        }),
        start.1 == !(saved is Some && saved->0.current),
{
    match saved {
        Some(table) => (
            Some(PriceNote::CollectionReady { priced: table.priced, date: table.date.clone() }),
            !table.current,
        ),
        None => (None, true),
    }
}

/// What downloading the day's prices came to.
pub enum DumpOutcome {
    /// They could not be read.
    Unread,
    /// They were read, and the table they make was saved or not.
    Read(Persisted),
}

/// What to record after downloading the day's prices. Prices that could not be read and prices that
/// could not be saved are different problems.
pub fn dump_note(outcome: DumpOutcome) -> (note: PriceNote)
    ensures
        note@ == (match outcome {
            DumpOutcome::Unread => PriceNoteView::CollectionDegraded {
                reason: "No warframe.market price dump could be read"@,
            },
            DumpOutcome::Read(table) => if table.saved {
                PriceNoteView::CollectionReady { priced: table.priced, date: table.date@ }
            } else {
                PriceNoteView::CollectionDegraded {
                    reason: "Prices loaded but could not be saved for the next start"@,
                }
            },
        }),
{
    match outcome {
        DumpOutcome::Unread => PriceNote::CollectionDegraded {
            reason: "No warframe.market price dump could be read".to_owned(),
        },
        DumpOutcome::Read(table) => {
            if table.saved {
                PriceNote::CollectionReady { priced: table.priced, date: table.date }
            } else {
                PriceNote::CollectionDegraded {
                    reason: "Prices loaded but could not be saved for the next start".to_owned(),
                }
            }
        },
    }
}

/// The price of a name is the last one that was found for it, unchanged.
pub proof fn law_price_is_the_last_finding(
    before: Map<Seq<char>, u32>,
    names: Seq<Seq<char>>,
    found: Seq<Option<u32>>,
    n: int,
    i: int,
)
    requires
        0 <= i < n <= names.len(),
        found.len() == names.len(),
        found[i] is Some,
        forall|j: int| i < j < n && #[trigger] names[j] == names[i] ==> found[j] is None,
    ensures
        found_prices(before, names, found, n).contains_key(names[i]),
        found_prices(before, names, found, n)[names[i]] == found[i]->0,
    decreases n,
{
    if i < n - 1 {
        law_price_is_the_last_finding(before, names, found, n - 1, i);
        if found[n - 1] is Some {
            assert(names[n - 1] != names[i]);
        }
    }
}

/// A name for which nothing was found keeps the price it had, or has none as before.
pub proof fn law_other_prices_stay(
    before: Map<Seq<char>, u32>,
    names: Seq<Seq<char>>,
    found: Seq<Option<u32>>,
    n: int,
    name: Seq<char>,
)
    requires
        0 <= n <= names.len(),
        found.len() == names.len(),
        forall|j: int| 0 <= j < n && #[trigger] names[j] == name ==> found[j] is None,
    ensures
        found_prices(before, names, found, n).contains_key(name) == before.contains_key(name),
        found_prices(before, names, found, n)[name] == before[name],
    decreases n,
{
    if n > 0 {
        law_other_prices_stay(before, names, found, n - 1, name);
        if found[n - 1] is Some {
            assert(names[n - 1] != name);
        }
    }
}

/// A pass begins with nothing, and each answer is added to it as it is: every count grows by just
/// what the answer counts, the next name is asked about next, and the names stay.
pub proof fn law_pass_grows_by_each_answer(names: Seq<String>, outcomes: Seq<WarmOutcome>, one: WarmOutcome)
    requires
        can_sum(passed(names, outcomes).total, one),
    ensures
        ({
            let start = passed(names, Seq::empty());
            let before = passed(names, outcomes);
            let after = passed(names, outcomes.push(one));
            &&& start.done == 0 && start.names == names && start.unpriced.len() == 0
            &&& start.total.stored == 0 && start.total.no_sellers == 0
            &&& start.total.unavailable == 0 && start.total.oversize == 0
            &&& after.names == before.names
            &&& after.done == before.done + 1
            &&& after.total.stored == before.total.stored + one.stored
            &&& after.total.no_sellers == before.total.no_sellers + one.no_sellers
            &&& after.total.unavailable == before.total.unavailable + one.unavailable
            &&& after.total.oversize == before.total.oversize + one.oversize
        }),
{
    assert(outcomes.push(one).drop_last() =~= outcomes);
}

/// Whether `places` are the places at which `marked` holds, in order.
pub open spec fn are_places_of(places: Seq<int>, n: int, marked: spec_fn(int) -> bool) -> bool {
    &&& forall|a: int, b: int| 0 <= a < b < places.len() ==> #[trigger] places[a] < #[trigger] places[b]
    &&& forall|a: int| 0 <= a < places.len() ==> 0 <= #[trigger] places[a] < n && marked(places[a])
    &&& forall|i: int| 0 <= i < n && #[trigger] marked(i) ==> places.contains(i)
}

/// A name is noted down by a pass exactly if the answer to it was that nobody sells it, each one
/// once and in the order of asking.
pub proof fn law_unsold_names_are_noted_down(names: Seq<String>, outcomes: Seq<WarmOutcome>) -> (places:
    Seq<int>)
    requires
        outcomes.len() <= names.len(),
    ensures
        are_places_of(places, outcomes.len() as int, |i: int| outcomes[i].no_sellers > 0),
        passed(names, outcomes).unpriced.len() == places.len(),
        forall|a: int|
            0 <= a < places.len() ==> #[trigger] passed(names, outcomes).unpriced[a]
                == names[places[a]],
    decreases outcomes.len(),
{
    let marked = |i: int| outcomes[i].no_sellers > 0;
    if outcomes.len() == 0 {
        Seq::empty()
    } else {
        let init = outcomes.drop_last();
        let n = init.len() as int;
        let before = law_unsold_names_are_noted_down(names, init);
        let earlier = |i: int| init[i].no_sellers > 0;
        lemma_pass_keeps_names(names, init);
        lemma_pass_is_done(names, init);
        assert forall|i: int| 0 <= i < n implies #[trigger] marked(i) == earlier(i) by {}
        let places = if outcomes.last().no_sellers > 0 {
            before.push(n)
        } else {
            before
        };
        assert forall|a: int| 0 <= a < places.len() implies 0 <= #[trigger] places[a] < n + 1 && marked(
            places[a],
        ) by {
            if a < before.len() {
                assert(earlier(before[a]));
            }
        }
        assert forall|i: int| 0 <= i < n + 1 && #[trigger] marked(i) implies places.contains(i) by {
            if i < n {
                assert(earlier(i));
                let a = choose|a: int| 0 <= a < before.len() && before[a] == i;
                assert(places[a] == i);
            } else {
                assert(places[before.len() as int] == n);
            }
        }
        places
    }
}

proof fn lemma_pass_is_done(names: Seq<String>, outcomes: Seq<WarmOutcome>)
    ensures
        passed(names, outcomes).done == outcomes.len(),
    decreases outcomes.len(),
{
    if outcomes.len() > 0 {
        lemma_pass_is_done(names, outcomes.drop_last());
    }
}

/// The changes for checked prices are those of the names for which a price is at hand, each with
/// that name and that price, once and in their order.
pub proof fn law_found_prices_are_the_updates(
    names: Seq<Seq<char>>,
    live: Seq<Option<u32>>,
    n: int,
) -> (places: Seq<int>)
    requires
        0 <= n <= names.len(),
        live.len() == names.len(),
    ensures
        are_places_of(places, n, |i: int| live[i] is Some),
        found_updates(names, live, n).len() == places.len(),
        forall|a: int|
            0 <= a < places.len() ==> (#[trigger] found_updates(names, live, n)[a]) == (
            UpdateView::Checked { name: names[places[a]], platinum: live[places[a]]->0 }),
    decreases n,
{
    let marked = |i: int| live[i] is Some;
    if n == 0 {
        Seq::empty()
    } else {
        let before = law_found_prices_are_the_updates(names, live, n - 1);
        let places = if live[n - 1] is Some {
            before.push(n - 1)
        } else {
            before
        };
        assert forall|i: int| 0 <= i < n && #[trigger] marked(i) implies places.contains(i) by {
            if i < n - 1 {
                let a = choose|a: int| 0 <= a < before.len() && before[a] == i;
                assert(places[a] == i);
            } else {
                assert(places[before.len() as int] == n - 1);
            }
        }
        places
    }
}

/// What a pass records of the collection's prices: nothing without a table; that the table could not
/// be saved exactly if it could not; and that it is ready, with its own count and day, exactly if it
/// was saved and prices were ready before.
pub proof fn law_pass_reports_its_table(persisted: Option<Persisted>, had_success: bool)
    ensures
        persisted is None ==> collection_note(persisted, had_success) is None,
        persisted matches Some(table) ==> {
            let note = collection_note(persisted, had_success);
            &&& !table.saved <==> note is Some && note->0 is CollectionDegraded
            &&& table.saved && had_success <==> note is Some && note->0 is CollectionReady
            &&& note matches Some(PriceNoteView::CollectionReady { priced, date }) ==> priced
                == table.priced && date == table.date@
            &&& note matches Some(PriceNoteView::CollectionDegraded { reason }) ==> reason
                == "Checked prices could not be saved for the next start"@
            &&& table.saved && !had_success ==> note is None
        },
{
}

} // verus!
