//! Watching the screen for reward cards.
//!
//! The game writes its log seconds after the fact, so the cards can be gone before the log says
//! that they came. What the log tells early is which relics are loaded; from then on a poller looks
//! at the screen itself, first for the cards and then for their disappearance.

use vstd::prelude::*;

verus! {

/// How many readings in a row have to fail before the cards count as gone. A card reads blank often
/// enough that one failure is no evidence.
pub const GONE_STREAK: u32 = 2;

/// How many names make a reading of the cards: one reward is not a choice.
pub const FEWEST_CARDS: usize = 2;

/// A second, in nanoseconds.
pub const SECOND_NANOS: u128 = 1000000000;

/// How often the poller looks, in nanoseconds.
#[derive(Clone, Copy, Debug, PartialEq, Eq, Structural)]
pub struct PollerTiming {
    /// Between two looks before the cards are found.
    pub interval_nanos: u128,
    /// Between two looks once they are found.
    pub watch_interval_nanos: u128,
    /// How long one fissure is worth watching for.
    pub lifetime_nanos: u128,
}

impl PollerTiming {
    /// The timing for a real screen: every two seconds until the cards are found, then more than
    /// twice a second, and for at most three quarters of an hour.
    pub fn live() -> (timing: Self)
        ensures
            timing.interval_nanos == 2 * SECOND_NANOS,
            timing.watch_interval_nanos == 400 * 1000000,
            timing.lifetime_nanos == 45 * 60 * SECOND_NANOS,
    {
        PollerTiming {
            interval_nanos: 2000000000,
            watch_interval_nanos: 400000000,
            lifetime_nanos: 2700000000000,
        }
    }
}

/// Whether a new poller starts, and the polling flag after that: there has to be something to match
/// cards against, and no poller that runs. An arming that is declined for want of names leaves the
/// flag alone.
pub open spec fn armed(pool_len: nat, polling: bool) -> (bool, bool) {
    (pool_len > 0 && !polling, polling || pool_len > 0)
}

/// Claims the polling flag for a new poller, if one is to start.
pub fn arm_poller(pool_len: usize, polling: &mut bool) -> (start: bool)
    ensures
        (start, *final(polling)) == armed(pool_len as nat, *old(polling)),
{
    if pool_len == 0 {
        return false;
    }
    let already_running = *polling;
    *polling = true;
    !already_running
}

/// The polling flag after armings for pools of these sizes, and how many pollers they started.
pub open spec fn armings(pools: Seq<nat>, polling: bool) -> (nat, bool)
    decreases pools.len(),
{
    if pools.len() == 0 {
        (0, polling)
    } else {
        let (started, flag) = armings(pools.drop_last(), polling);
        let (start, after) = armed(pools.last(), flag);
        (
            started + (if start {
                1nat
            } else {
                0nat
            }),
            after,
        )
    }
}

/// Armings for empty pools stand in nobody's way: however many there are, the first pool that holds
/// a name starts a poller, and until that poller stops no other starts.
pub proof fn law_one_poller_starts_with_the_first_names(pools: Seq<nat>)
    ensures
        ({
            let named = exists|i: int| 0 <= i < pools.len() && #[trigger] pools[i] > 0;
            armings(pools, false) == (
                if named {
                    1nat
                } else {
                    0nat
                },
                named,
            )
        }),
    decreases pools.len(),
{
    if pools.len() > 0 {
        let init = pools.drop_last();
        law_one_poller_starts_with_the_first_names(init);
        if exists|i: int| 0 <= i < init.len() && #[trigger] init[i] > 0 {
            let i = choose|i: int| 0 <= i < init.len() && #[trigger] init[i] > 0;
            assert(pools[i] > 0);
        }
        if exists|i: int| 0 <= i < pools.len() && #[trigger] pools[i] > 0 {
            let i = choose|i: int| 0 <= i < pools.len() && #[trigger] pools[i] > 0;
            if i < init.len() {
                assert(init[i] > 0);
            }
        }
        assert(pools[pools.len() - 1] == pools.last());
    }
}

/// What the poller does when it wakes up.
#[derive(Clone, Copy, Debug, PartialEq, Eq, Structural)]
pub enum PollerWake {
    /// It is done.
    Stop,
    /// There is nothing to match cards against yet.
    Wait { nanos: u128 },
    /// It reads the screen.
    Read,
}

/// Decides what the poller does when it wakes up.
///
/// `polling` is whether it is still wanted, `past_deadline` whether its lifetime is over, and
/// `pool_len` how many names there are to match cards against at this moment.
pub fn poller_wake(timing: &PollerTiming, polling: bool, past_deadline: bool, pool_len: usize) -> (wake:
    PollerWake)
    ensures
        wake == (if !polling || past_deadline {
            PollerWake::Stop
        } else if pool_len == 0 {
            PollerWake::Wait { nanos: timing.interval_nanos }
        } else {
            PollerWake::Read
        }),
{
    if !polling || past_deadline {
        PollerWake::Stop
    } else if pool_len == 0 {
        PollerWake::Wait { nanos: timing.interval_nanos }
    } else {
        PollerWake::Read
    }
}

/// What the poller knows of the screen.
#[derive(Clone, Copy, Debug, PartialEq, Eq, Structural)]
pub struct Poller {
    /// Whether the cards were found and handed over.
    pub found: bool,
    /// How many readings in a row have failed since.
    pub misses: u32,
}

/// What the poller does after a reading.
pub enum PollerStep {
    /// Hands over the names it found, then waits.
    Publish { names: Vec<String>, wait_nanos: u128 },
    /// Waits.
    Wait { nanos: u128 },
    /// The cards are gone, and it is done.
    Gone,
}

/// What the poller does after a reading, apart from the names it hands over.
#[derive(Clone, Copy, Debug, PartialEq, Eq, Structural)]
pub enum PollerMove {
    Publish,
    Wait,
    Gone,
}

/// What the poller knows and does after a reading. `cards` says whether the reading found cards and
/// `slot_open` whether they can be handed over.
pub open spec fn polled(poller: Poller, cards: bool, slot_open: bool) -> (Poller, PollerMove) {
    if cards {
        if !poller.found && slot_open {
            (Poller { found: true, misses: 0 }, PollerMove::Publish)
        } else {
            (Poller { found: poller.found, misses: 0 }, PollerMove::Wait)
        }
    } else if poller.found {
        let misses = (poller.misses + 1) as u32;
        (
            Poller { found: true, misses },
            if misses >= GONE_STREAK {
                PollerMove::Gone
            } else {
                PollerMove::Wait
            },
        )
    } else {
        (poller, PollerMove::Wait)
    }
}

/// How long the poller waits: the shorter time once the cards are found.
pub open spec fn wait_of(timing: PollerTiming, poller: Poller) -> u128 {
    if poller.found {
        timing.watch_interval_nanos
    } else {
        timing.interval_nanos
    }
}

impl Poller {
    /// A running poller has not seen a whole streak of failures.
    pub open spec fn wf(self) -> bool {
        self.misses < GONE_STREAK
    }

    /// A poller that has not looked yet.
    pub fn new() -> (poller: Self)
        ensures
            poller == (Poller { found: false, misses: 0 }),
            poller.wf(),
    {
        Poller { found: false, misses: 0 }
    }

    /// Takes in a reading of the screen: the names on the cards, or nothing if it failed.
    /// `slot_open` says whether names can be handed over.
    pub fn observe(&mut self, timing: &PollerTiming, reading: Option<Vec<String>>, slot_open: bool) -> (step:
        PollerStep)
        requires
            old(self).wf(),
        ensures
            ({
                let cards = reading is Some && reading->0@.len() >= FEWEST_CARDS;
                let (next, action) = polled(*old(self), cards, slot_open);
                &&& *final(self) == next
                &&& match step {
                    PollerStep::Publish { names, wait_nanos } => action is Publish && names == reading->0
                        && wait_nanos == wait_of(*timing, next),
                    PollerStep::Wait { nanos } => action is Wait && nanos == wait_of(*timing, next),
                    PollerStep::Gone => action is Gone,
                }
            }),
            !(step is Gone) ==> final(self).wf(),
    {
        match reading {
            Some(names) if names.len() >= FEWEST_CARDS => {
                self.misses = 0;
                if !self.found && slot_open {
                    self.found = true;
                    return PollerStep::Publish { names, wait_nanos: timing.watch_interval_nanos };
                }
            },
            _ => {
                if self.found {
                    self.misses = self.misses + 1;
                    if self.misses >= GONE_STREAK {
                        return PollerStep::Gone;
                    }
                }
            },
        }
        PollerStep::Wait {
            nanos: if self.found {
                timing.watch_interval_nanos
            } else {
                timing.interval_nanos
            },
        }
    }
}

/// How a poller stands after a number of readings.
pub struct PollerHistory {
    pub poller: Poller,
    /// How often it handed names over.
    pub published: nat,
    /// Whether it saw the cards go.
    pub gone: bool,
}

/// How a poller that can always hand names over stands after these readings, each of which found
/// cards or did not. Once the cards are gone it looks no more.
pub open spec fn history(readings: Seq<bool>) -> PollerHistory
    decreases readings.len(),
{
    if readings.len() == 0 {
        PollerHistory { poller: Poller { found: false, misses: 0 }, published: 0, gone: false }
    } else {
        let before = history(readings.drop_last());
        if before.gone {
            before
        } else {
            let (poller, action) = polled(before.poller, readings.last(), true);
            PollerHistory {
                poller,
                published: before.published + (if action is Publish {
                    1nat
                } else {
                    0nat
                }),
                gone: action is Gone,
            }
        }
    }
}

/// Whether cards were found in one of the first `n` readings.
pub open spec fn found_before(readings: Seq<bool>, n: int) -> bool {
    exists|i: int| 0 <= i < n && #[trigger] readings[i]
}

/// Whether readings `k` and `k + 1` both failed after cards had been found.
pub open spec fn fails_twice_at(readings: Seq<bool>, k: int) -> bool {
    0 <= k && k + 1 < readings.len() && !readings[k] && !readings[k + 1] && found_before(readings, k)
}

proof fn lemma_history(readings: Seq<bool>)
    ensures
        ({
            let h = history(readings);
            &&& h.poller.found == found_before(readings, readings.len() as int)
            &&& h.published == (if h.poller.found {
                1nat
            } else {
                0nat
            })
            &&& h.gone == (exists|k: int| fails_twice_at(readings, k))
            &&& !h.gone ==> h.poller.misses == (if h.poller.found && !readings.last() {
                1u32
            } else {
                0u32
            })
        }),
    decreases readings.len(),
{
    if readings.len() > 0 {
        let init = readings.drop_last();
        let n = init.len() as int;
        lemma_history(init);
        let before = history(init);
        assert(found_before(readings, n + 1) == (found_before(init, n) || readings[n])) by {
            if found_before(readings, n + 1) && !readings[n] {
                let i = choose|i: int| 0 <= i < n + 1 && #[trigger] readings[i];
                assert(init[i]);
            }
            if found_before(init, n) {
                let i = choose|i: int| 0 <= i < n && #[trigger] init[i];
                assert(readings[i]);
            }
        }
        assert forall|k: int| fails_twice_at(init, k) implies fails_twice_at(readings, k) by {
            let i = choose|i: int| 0 <= i < k && #[trigger] init[i];
            assert(readings[i]);
        }
        assert forall|k: int| fails_twice_at(readings, k) && k + 1 < n implies fails_twice_at(
            init,
            k,
        ) by {
            let i = choose|i: int| 0 <= i < k && #[trigger] readings[i];
            assert(init[i]);
        }
        if before.gone {
            let k = choose|k: int| fails_twice_at(init, k);
            assert(fails_twice_at(readings, k));
            assert(found_before(init, n)) by {
                let i = choose|i: int| 0 <= i < k && #[trigger] init[i];
                assert(init[i]);
            }
        } else {
            assert(fails_twice_at(readings, n - 1) == (before.poller.misses == 1 && !readings[n])) by {
                if n >= 1 && !init[n - 1] {
                    assert(found_before(init, n) == found_before(readings, n - 1)) by {
                        if found_before(init, n) {
                            let i = choose|i: int| 0 <= i < n && #[trigger] init[i];
                            assert(readings[i]);
                        }
                        if found_before(readings, n - 1) {
                            let i = choose|i: int| 0 <= i < n - 1 && #[trigger] readings[i];
                            assert(init[i]);
                        }
                    }
                }
            }
            if history(readings).gone {
                assert(fails_twice_at(readings, n - 1));
            }
            if exists|k: int| fails_twice_at(readings, k) {
                let k = choose|k: int| fails_twice_at(readings, k);
                if k + 1 < n {
                    assert(fails_twice_at(init, k));
                }
                assert(k == n - 1);
            }
        }
    } else {
        assert(!found_before(readings, 0));
    }
}

/// A poller hands names over once, as soon as it has found cards, and never again.
pub proof fn law_cards_are_published_once(readings: Seq<bool>)
    ensures
        history(readings).published == (if found_before(readings, readings.len() as int) {
            1nat
        } else {
            0nat
        }),
{
    lemma_history(readings);
}

/// The cards count as gone exactly when two readings in a row have failed after they were found.
pub proof fn law_cards_are_gone_after_two_failures(readings: Seq<bool>)
    ensures
        history(readings).gone == (exists|k: int| fails_twice_at(readings, k)),
{
    lemma_history(readings);
}

/// A poller hands names over exactly if it reads cards, can hand them over and has not done so. It
/// sees the cards go exactly if it had found them and this is the second reading in a row without
/// them. A reading with cards makes it count failures anew, and failures count only once the cards
/// were found.
pub proof fn law_poller_follows_its_readings(poller: Poller, cards: bool, slot_open: bool)
    requires
        poller.wf(),
    ensures
        ({
            let (next, action) = polled(poller, cards, slot_open);
            &&& action is Publish <==> cards && slot_open && !poller.found
            &&& action is Gone <==> !cards && poller.found && poller.misses + 1 >= 2
            &&& next.found <==> poller.found || action is Publish
            &&& cards ==> next.misses == 0
            &&& !cards && poller.found ==> next.misses == poller.misses + 1
            &&& !cards && !poller.found ==> next.misses == poller.misses
        }),
{
}

/// A poller waits the one time before the cards are found and the other time after.
pub proof fn law_poller_waits_by_what_it_found(timing: PollerTiming, poller: Poller)
    ensures
        !poller.found ==> wait_of(timing, poller) == timing.interval_nanos,
        poller.found ==> wait_of(timing, poller) == timing.watch_interval_nanos,
{
}

/// A poller starts exactly for a pool with a name while none runs. The flag is then set; for an
/// empty pool it is left as it was.
pub proof fn law_arming_claims_for_names_alone(pool_len: nat, polling: bool)
    ensures
        armed(pool_len, polling).0 <==> pool_len != 0 && !polling,
        pool_len == 0 ==> armed(pool_len, polling).1 == polling,
        pool_len != 0 ==> armed(pool_len, polling).1,
{
}

} // verus!
