//! When the inventory is read again.

use vstd::prelude::*;

use crate::text::decimal_text;
#[allow(unused_imports)]
use crate::text::decimal;

verus! {

/// The least time between the starts of two refreshes, in nanoseconds.
pub const REFRESH_GAP_NANOS: u128 = 15000000000;

/// What keeps refreshes apart.
#[derive(Clone, Copy, Debug, PartialEq, Eq, Structural)]
pub struct RefreshPace {
    /// Whether a refresh is under way.
    pub in_flight: bool,
    /// When the last refresh started, on a clock that counts nanoseconds.
    pub last_started: Option<u128>,
}

/// What asking for a refresh comes to.
pub enum RefreshStep {
    /// It is refused, for this reason.
    Refuse { reason: String },
    /// What is shown is recent enough.
    Keep,
    /// It starts.
    Begin,
}

/// Whether a refresh that is asked for at `now` would come too soon.
pub open spec fn is_too_soon(pace: RefreshPace, now: u128) -> bool {
    pace.in_flight || (pace.last_started matches Some(started) && now < started + REFRESH_GAP_NANOS)
}

/// The pace after a refresh was asked for at `now`.
pub open spec fn asked(pace: RefreshPace, risk_accepted: bool, now: u128) -> RefreshPace {
    if risk_accepted && !is_too_soon(pace, now) {
        RefreshPace { in_flight: true, last_started: Some(now) }
    } else {
        pace
    }
}

/// The pace after a refresh is over.
pub open spec fn finished(pace: RefreshPace) -> RefreshPace {
    RefreshPace { in_flight: false, ..pace }
}

impl RefreshPace {
    /// Nothing was refreshed yet.
    pub fn new() -> (pace: Self)
        ensures
            pace == (RefreshPace { in_flight: false, last_started: None }),
    {
        RefreshPace { in_flight: false, last_started: None }
    }

    /// Asks for a refresh at `now`. `risk_accepted` says whether the player has agreed to the
    /// game's memory being read.
    pub fn begin(&mut self, risk_accepted: bool, now: u128) -> (step: RefreshStep)
        ensures
            *final(self) == asked(*old(self), risk_accepted, now),
            match step {
                RefreshStep::Refuse { reason } => !risk_accepted && reason@
                    == "accept the read-only process-memory risk disclosure during setup first"@,
                RefreshStep::Keep => risk_accepted && is_too_soon(*old(self), now),
                RefreshStep::Begin => risk_accepted && !is_too_soon(*old(self), now),
            },
    {
        if !risk_accepted {
            return RefreshStep::Refuse {
                reason: "accept the read-only process-memory risk disclosure during setup first".to_owned(),
            };
        }
        if self.in_flight {
            return RefreshStep::Keep;
        }
        if let Some(started) = self.last_started {
            if now < started || now - started < REFRESH_GAP_NANOS {
                return RefreshStep::Keep;
            }
        }
        self.in_flight = true;
        self.last_started = Some(now);
        RefreshStep::Begin
    }

    /// The refresh is over, however it went.
    pub fn finish(&mut self)
        ensures
            *final(self) == finished(*old(self)),
    {
        self.in_flight = false;
    }
}

/// One thing that changes the pace.
pub enum PaceStep {
    Ask { risk_accepted: bool, now: u128 },
    Finish,
}

/// The pace after these steps.
pub open spec fn pace_after(pace: RefreshPace, steps: Seq<PaceStep>) -> RefreshPace
    decreases steps.len(),
{
    if steps.len() == 0 {
        pace
    } else {
        let before = pace_after(pace, steps.drop_last());
        match steps.last() {
            PaceStep::Ask { risk_accepted, now } => asked(before, risk_accepted, now),
            PaceStep::Finish => finished(before),
        }
    }
}

/// Whether a refresh starts at the `i`th of these steps.
pub open spec fn starts_at(pace: RefreshPace, steps: Seq<PaceStep>, i: int) -> bool {
    &&& 0 <= i < steps.len()
    &&& steps[i] matches PaceStep::Ask { risk_accepted, now } && risk_accepted && !is_too_soon(
        pace_after(pace, steps.take(i)),
        now,
    )
}

/// The latest start is the one that is remembered, and no earlier one is later.
proof fn lemma_last_start(pace: RefreshPace, steps: Seq<PaceStep>, i: int)
    requires
        starts_at(pace, steps, i),
    ensures
        pace_after(pace, steps).last_started is Some,
        pace_after(pace, steps).last_started->0 >= steps[i]->now,
    decreases steps.len(),
{
    let init = steps.drop_last();
    if i < steps.len() - 1 {
        assert(init.take(i) =~= steps.take(i));
        assert(init[i] == steps[i]);
        lemma_last_start(pace, init, i);
    } else {
        assert(steps.take(i) =~= init);
    }
}

/// Two refreshes never start within [`REFRESH_GAP_NANOS`] of each other.
pub proof fn law_refreshes_keep_their_distance(
    pace: RefreshPace,
    steps: Seq<PaceStep>,
    i: int,
    j: int,
)
    requires
        i < j,
        starts_at(pace, steps, i),
        starts_at(pace, steps, j),
    ensures
        steps[j]->now >= steps[i]->now + REFRESH_GAP_NANOS,
{
    let before = steps.take(j);
    assert(before.take(i) =~= steps.take(i));
    assert(before[i] == steps[i]);
    lemma_last_start(pace, before, i);
}

/// A refresh does not start while another is under way: between two starts the first one has ended.
pub proof fn law_one_refresh_at_a_time(pace: RefreshPace, steps: Seq<PaceStep>, i: int, j: int)
    requires
        i < j,
        starts_at(pace, steps, i),
        starts_at(pace, steps, j),
    ensures
        exists|k: int| i < k < j && (#[trigger] steps[k]) is Finish,
    decreases j,
{
    if forall|k: int| i < k < j ==> !((#[trigger] steps[k]) is Finish) {
        lemma_stays_in_flight(pace, steps, i, j);
    }
}

proof fn lemma_stays_in_flight(pace: RefreshPace, steps: Seq<PaceStep>, i: int, n: int)
    requires
        starts_at(pace, steps, i),
        i < n <= steps.len(),
        forall|k: int| i < k < n ==> !((#[trigger] steps[k]) is Finish),
    ensures
        pace_after(pace, steps.take(n)).in_flight,
    decreases n,
{
    let upto = steps.take(n);
    assert(upto.drop_last() =~= steps.take(n - 1));
    assert(upto.last() == steps[n - 1]);
    if i < n - 1 {
        lemma_stays_in_flight(pace, steps, i, n - 1);
    }
}

/// Claims the start of something that starts once: it starts if it has not started.
pub fn start_once(started: &mut bool) -> (start: bool)
    ensures
        start == !*old(started),
        *final(started),
{
    if *started {
        false
    } else {
        *started = true;
        true
    }
}

/// Where a refresh came to its end.
pub enum AcquisitionEnd {
    /// The catalog could not be had.
    NoCatalog,
    /// The game's inventory could not be had, for this reason.
    Failed { reason: String },
    /// The inventory was read.
    Acquired,
}

/// When and how a snapshot of the inventory was taken.
pub struct SnapshotMeta {
    pub taken_at: String,
    pub game_version: String,
    pub source: String,
}

/// What a refresh came to.
pub enum InventoryRefreshOutcome {
    CatalogFailed,
    AcquisitionFailed { reason: String },
    Success { meta: SnapshotMeta },
}

/// What a refresh came to that began at `now`, in seconds, and ended like this.
pub fn refresh_outcome(end: AcquisitionEnd, now: u64) -> (outcome: InventoryRefreshOutcome)
    ensures
        match end {
            AcquisitionEnd::NoCatalog => outcome is CatalogFailed,
            AcquisitionEnd::Failed { reason } => outcome == (
            InventoryRefreshOutcome::AcquisitionFailed { reason }),
            AcquisitionEnd::Acquired => outcome matches InventoryRefreshOutcome::Success { meta }
                && meta.taken_at@ == decimal(now as nat) && meta.game_version@ == "unknown"@
                && meta.source@ == "warframe-memory"@,
        },
{
    match end {
        AcquisitionEnd::NoCatalog => InventoryRefreshOutcome::CatalogFailed,
        AcquisitionEnd::Failed { reason } => InventoryRefreshOutcome::AcquisitionFailed { reason },
        AcquisitionEnd::Acquired => InventoryRefreshOutcome::Success {
            meta: SnapshotMeta {
                taken_at: decimal_text(now),
                game_version: "unknown".to_owned(),
                source: "warframe-memory".to_owned(),
            },
        },
    }
}

/// The time in seconds since the epoch, in decimal. A clock before the epoch counts as the epoch.
pub fn now_unix_seconds(since_epoch: Option<u64>) -> (text: String)
    ensures
        text@ == decimal(
            (match since_epoch {
                Some(seconds) => seconds,
                None => 0,
            }) as nat,
        ),
{
    decimal_text(
        match since_epoch {
            Some(seconds) => seconds,
            None => 0,
        },
    )
}

/// A refresh that is asked for starts exactly if the player has agreed, none is under way, and none
/// started within the last fifteen seconds. It is then under way since that moment; otherwise nothing
/// changes. Its end changes nothing but that it is no longer under way.
pub proof fn law_refresh_starts_when_it_may(pace: RefreshPace, risk_accepted: bool, now: u128)
    ensures
        ({
            let may = risk_accepted && !pace.in_flight && (pace.last_started is None || now
                >= pace.last_started->0 + 15000000000);
            let after = asked(pace, risk_accepted, now);
            &&& may ==> after.in_flight && after.last_started == Some(now)
            &&& !may ==> after == pace
            &&& is_too_soon(pace, now) <==> pace.in_flight || (pace.last_started is Some && now
                < pace.last_started->0 + 15000000000)
        }),
        !finished(pace).in_flight,
        finished(pace).last_started == pace.last_started,
{
}

} // verus!
