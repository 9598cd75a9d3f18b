//! What is known of the fissure that is being played, and what each line of the game's log about
//! it asks for.

use vstd::prelude::*;

use crate::generation::following;
#[allow(unused_imports)]
use crate::generation::{generation_after, law_changes_lead_elsewhere, next_generation};
use crate::keyed::{NameMap, NameSet};
use crate::reward_choices::{
    release_player_record_scan, store_player_record_if_current, RewardResolution,
};
#[allow(unused_imports)]
use crate::reward_choices::sole_choice;
#[allow(unused_imports)]
use crate::text::{opt_text, texts};

verus! {

/// The squad in the order its cards have on screen, and the reward of the local player, where the
/// log states it.
pub struct PendingRewardSquad {
    pub screen_order: Vec<String>,
    pub local_reward_path: Option<String>,
}

/// [`PendingRewardSquad`] with its contents as sequences.
pub struct SquadView {
    pub screen_order: Seq<Seq<char>>,
    pub local_reward_path: Option<Seq<char>>,
}

impl View for PendingRewardSquad {
    type V = SquadView;

    open spec fn view(&self) -> SquadView {
        SquadView {
            screen_order: texts(self.screen_order@),
            local_reward_path: opt_text(self.local_reward_path),
        }
    }
}

/// What the game's log says about rewards.
pub enum RewardLogEvent {
    /// The rewards are about to be dealt.
    RewardWindowOpened,
    /// A squad member's answer is awaited.
    ResponderExpected { identity: String },
    /// A squad member has answered.
    ResponderReceived { identity: String, is_local: bool },
    /// Everyone has answered.
    ResponsesComplete { screen_order: Vec<String>, local_reward_path: Option<String> },
    /// The squad's relics are loaded, as far as these go.
    BaselineRequested { relic_paths: Vec<String> },
    /// That many cards can be chosen from.
    ChoicesReady { expected_choices: usize },
    /// The reward screen has closed.
    Closed,
}

/// What an event asks for.
pub enum RewardAction {
    /// Nothing.
    Rest,
    /// The record of the game's recent writes starts anew.
    ResetRecentWrites,
    /// The record of this player is looked for, on behalf of this generation.
    ScanRecord { identity: String, generation: u64 },
    /// The cards of this squad are read off the screen. `announced` says that the log has announced
    /// them, so that failing is worth a word.
    ReadCards { squad: PendingRewardSquad, announced: bool },
    /// What was gathered of the game's memory is dropped.
    DropMemory,
    /// The pool of these relics is made ready and watched for.
    PreparePool { relic_paths: Vec<String> },
    /// The capture is reported as degraded, for this reason.
    Degrade { reason: String },
    /// The reward screen is over: the poller stops, what was gathered of the game's memory is
    /// dropped, the overlay goes, and no candidates are left.
    TearDown,
}

/// [`RewardLogEvent`] with its contents as sequences.
pub enum EventView {
    RewardWindowOpened,
    ResponderExpected { identity: Seq<char> },
    ResponderReceived { identity: Seq<char>, is_local: bool },
    ResponsesComplete { squad: SquadView },
    BaselineRequested { relic_paths: Seq<Seq<char>> },
    ChoicesReady { expected_choices: usize },
    Closed,
}

/// [`RewardAction`] with its contents as sequences.
pub enum ActionView {
    Rest,
    ResetRecentWrites,
    ScanRecord { identity: Seq<char>, generation: u64 },
    ReadCards { squad: SquadView, announced: bool },
    DropMemory,
    PreparePool { relic_paths: Seq<Seq<char>> },
    Degrade { reason: Seq<char> },
    TearDown,
}

impl View for RewardLogEvent {
    type V = EventView;

    open spec fn view(&self) -> EventView {
        match self {
            RewardLogEvent::RewardWindowOpened => EventView::RewardWindowOpened,
            RewardLogEvent::ResponderExpected { identity } => EventView::ResponderExpected {
                identity: identity@,
            },
            RewardLogEvent::ResponderReceived { identity, is_local } => EventView::ResponderReceived {
                identity: identity@,
                is_local: *is_local,
            },
            RewardLogEvent::ResponsesComplete { screen_order, local_reward_path } => {
                EventView::ResponsesComplete {
                    squad: SquadView {
                        screen_order: texts(screen_order@),
                        local_reward_path: opt_text(*local_reward_path),
                    },
                }
            },
            RewardLogEvent::BaselineRequested { relic_paths } => EventView::BaselineRequested {
                relic_paths: texts(relic_paths@),
            },
            RewardLogEvent::ChoicesReady { expected_choices } => EventView::ChoicesReady {
                expected_choices: *expected_choices,
            },
            RewardLogEvent::Closed => EventView::Closed,
        }
    }
}

impl View for RewardAction {
    type V = ActionView;

    open spec fn view(&self) -> ActionView {
        match self {
            RewardAction::Rest => ActionView::Rest,
            RewardAction::ResetRecentWrites => ActionView::ResetRecentWrites,
            RewardAction::ScanRecord { identity, generation } => ActionView::ScanRecord {
                identity: identity@,
                generation: *generation,
            },
            RewardAction::ReadCards { squad, announced } => ActionView::ReadCards {
                squad: squad@,
                announced: *announced,
            },
            RewardAction::DropMemory => ActionView::DropMemory,
            RewardAction::PreparePool { relic_paths } => ActionView::PreparePool {
                relic_paths: texts(relic_paths@),
            },
            RewardAction::Degrade { reason } => ActionView::Degrade { reason: reason@ },
            RewardAction::TearDown => ActionView::TearDown,
        }
    }
}

/// What is known of the fissure that is being played.
pub struct RewardSession {
    /// Whether its cards were published.
    early_resolved: bool,
    /// Its squad, once everyone has answered.
    squad: Option<PendingRewardSquad>,
    /// Counts fissures, so that what was started for an earlier one can be told apart.
    generation: u64,
    /// The choices on record, by player.
    records: NameMap<String>,
    /// The players whose record is being looked for.
    scans: NameSet,
}

/// [`RewardSession`] with its contents as sequences, maps and sets.
#[verifier::ext_equal]
pub struct SessionView {
    pub early_resolved: bool,
    pub squad: Option<SquadView>,
    pub generation: u64,
    pub records: Map<Seq<char>, String>,
    pub scans: Set<Seq<char>>,
}

impl View for RewardSession {
    type V = SessionView;

    closed spec fn view(&self) -> SessionView {
        SessionView {
            early_resolved: self.early_resolved,
            squad: match self.squad {
                Some(squad) => Some(squad@),
                None => None,
            },
            generation: self.generation,
            records: self.records@,
            scans: self.scans@,
        }
    }
}

/// A session that has forgotten the fissure it knew.
pub open spec fn forgotten(session: SessionView) -> SessionView {
    SessionView {
        early_resolved: false,
        squad: None,
        generation: next_generation(session.generation),
        records: Map::empty(),
        scans: Set::empty(),
    }
}

/// What a wanted scan for the record of `identity` comes to: it starts if there are candidates to
/// look for and it has not started yet.
pub open spec fn scan_started(session: SessionView, identity: Seq<char>, has_candidates: bool) -> (
    SessionView,
    ActionView,
) {
    if has_candidates && !session.scans.contains(identity) {
        (
            SessionView { scans: session.scans.insert(identity), ..session },
            ActionView::ScanRecord { identity, generation: session.generation },
        )
    } else {
        (session, ActionView::Rest)
    }
}

/// What an event changes and asks for. `process_present` says whether the game runs, and
/// `has_candidates` whether the pool of the squad's relics holds any reward.
pub open spec fn handled(
    session: SessionView,
    event: EventView,
    process_present: bool,
    has_candidates: bool,
) -> (SessionView, ActionView) {
    match event {
        EventView::RewardWindowOpened => (
            session,
            if process_present {
                ActionView::ResetRecentWrites
            } else {
                ActionView::Rest
            },
        ),
        EventView::ResponderExpected { identity } => {
            if session.early_resolved || !process_present {
                (session, ActionView::Rest)
            } else {
                scan_started(session, identity, has_candidates)
            }
        },
        EventView::ResponderReceived { identity, is_local } => {
            if is_local || session.early_resolved || !process_present {
                (session, ActionView::Rest)
            } else {
                scan_started(session, identity, has_candidates)
            }
        },
        EventView::ResponsesComplete { squad } => (
            SessionView { squad: Some(squad), ..session },
            if process_present {
                ActionView::ReadCards { squad, announced: false }
            } else {
                ActionView::Rest
            },
        ),
        EventView::BaselineRequested { relic_paths } => (
            forgotten(session),
            if process_present {
                ActionView::PreparePool { relic_paths }
            } else {
                ActionView::DropMemory
            },
        ),
        EventView::ChoicesReady { expected_choices } => (
            session,
            if session.early_resolved || !process_present {
                ActionView::Rest
            } else {
                match session.squad {
                    Some(squad) if squad.screen_order.len() == expected_choices => {
                        ActionView::ReadCards { squad, announced: true }
                    },
                    _ => ActionView::Degrade {
                        reason: "Structured reward records were incomplete"@,
                    },
                }
            },
        ),
        EventView::Closed => (forgotten(session), ActionView::TearDown),
    }
}

/// What the session knows after the cards were read off the screen, or could not be.
pub open spec fn cards_read(session: SessionView, published: bool) -> SessionView {
    SessionView { early_resolved: session.early_resolved || published, ..session }
}

/// What the session knows after the scan for a player's record that was started for `generation`
/// has ended.
pub open spec fn scan_ended(
    session: SessionView,
    generation: u64,
    identity: Seq<char>,
    resolution: RewardResolution,
) -> SessionView {
    SessionView {
        records: if session.generation == generation && sole_choice(resolution) is Some {
            session.records.insert(identity, sole_choice(resolution)->0)
        } else {
            session.records
        },
        scans: session.scans.remove(identity),
        ..session
    }
}

/// What the session knows after the poller's reading, if there is one, was looked at and the game
/// was seen to run or not.
pub open spec fn tick_ended(session: SessionView, has_reading: bool, process_present: bool) -> SessionView {
    SessionView {
        early_resolved: session.early_resolved || has_reading,
        generation: if process_present {
            session.generation
        } else {
            next_generation(session.generation)
        },
        records: if process_present {
            session.records
        } else {
            Map::empty()
        },
        ..session
    }
}

/// What is to be done at the end of a round of the monitor, in this order.
pub struct TickEnd {
    /// The cards to publish.
    pub publish: Option<Vec<String>>,
    /// Whether the cards are to be counted as missed, because the poller saw them go.
    pub cards_gone: bool,
    /// Whether what was gathered of the game's memory is dropped and the cards are to be counted as
    /// missed, because the game does not run.
    pub game_gone: bool,
}

impl PendingRewardSquad {
    /// A copy of the squad.
    fn copy(&self) -> (copy: Self)
        ensures
            copy@ == self@,
    {
        PendingRewardSquad {
            screen_order: crate::text::copy_texts(self.screen_order.as_slice()),
            local_reward_path: match &self.local_reward_path {
                Some(path) => Some(path.clone()),
                None => None,
            },
        }
    }
}

impl RewardSession {
    /// Whether the records are in order.
    pub closed spec fn wf(self) -> bool {
        self.records.wf()
    }

    /// A session that knows of no fissure.
    pub fn new() -> (session: Self)
        ensures
            session.wf(),
            session@ == (SessionView {
                early_resolved: false,
                squad: None,
                generation: 0,
                records: Map::empty(),
                scans: Set::empty(),
            }),
    {
        RewardSession {
            early_resolved: false,
            squad: None,
            generation: 0,
            records: NameMap::new(),
            scans: NameSet::new(),
        }
    }

    /// The generation that scans are started for now.
    pub fn generation(&self) -> (generation: u64)
        ensures
            generation == self@.generation,
    {
        self.generation
    }

    /// Whether the cards of this fissure were published.
    pub fn early_resolved(&self) -> (resolved: bool)
        ensures
            resolved == self@.early_resolved,
    {
        self.early_resolved
    }

    /// The choices on record, by player.
    pub fn records(&self) -> (records: &NameMap<String>)
        requires
            self.wf(),
        ensures
            records.wf(),
            records@ == self@.records,
    {
        &self.records
    }

    fn count_on(&mut self)
        requires
            old(self).wf(),
        ensures
            final(self).wf(),
            final(self)@ == (SessionView {
                generation: next_generation(old(self)@.generation),
                ..old(self)@
            }),
    {
        self.generation = following(self.generation);
    }

    fn forget(&mut self)
        requires
            old(self).wf(),
        ensures
            final(self).wf(),
            final(self)@ == forgotten(old(self)@),
    {
        self.early_resolved = false;
        self.squad = None;
        self.records.clear();
        self.scans.clear();
        self.count_on();
    }

    fn start_scan(&mut self, identity: String, has_candidates: bool) -> (action: RewardAction)
        requires
            old(self).wf(),
        ensures
            final(self).wf(),
            (final(self)@, action@) == scan_started(old(self)@, identity@, has_candidates),
    {
        let ghost before = self@;
        if !has_candidates {
            return RewardAction::Rest;
        }
        let added = self.scans.insert(identity.clone());
        if !added {
            assert(before.scans.insert(identity@) =~= before.scans);
            assert(self@ =~= before);
            return RewardAction::Rest;
        }
        RewardAction::ScanRecord { identity, generation: self.generation }
    }

    /// Takes in an event of the game's log and says what it asks for. `process_present` says
    /// whether the game runs, and `has_candidates` whether the pool of the squad's relics holds any
    /// reward.
    pub fn handle_reward_event(
        &mut self,
        event: RewardLogEvent,
        process_present: bool,
        has_candidates: bool,
    ) -> (action: RewardAction)
        requires
            old(self).wf(),
        ensures
            final(self).wf(),
            (final(self)@, action@) == handled(
                old(self)@,
                event@,
                process_present,
                has_candidates,
            ),
    {
        match event {
            RewardLogEvent::RewardWindowOpened => {
                if process_present {
                    RewardAction::ResetRecentWrites
                } else {
                    RewardAction::Rest
                }
            },
            RewardLogEvent::ResponderExpected { identity } => {
                if self.early_resolved || !process_present {
                    return RewardAction::Rest;
                }
                self.start_scan(identity, has_candidates)
            },
            RewardLogEvent::ResponderReceived { identity, is_local } => {
                if is_local || self.early_resolved || !process_present {
                    return RewardAction::Rest;
                }
                self.start_scan(identity, has_candidates)
            },
            RewardLogEvent::ResponsesComplete { screen_order, local_reward_path } => {
                let squad = PendingRewardSquad { screen_order, local_reward_path };
                let action = if process_present {
                    RewardAction::ReadCards { squad: squad.copy(), announced: false }
                } else {
                    RewardAction::Rest
                };
                self.squad = Some(squad);
                action
            },
            RewardLogEvent::BaselineRequested { relic_paths } => {
                self.forget();
                if process_present {
                    RewardAction::PreparePool { relic_paths }
                } else {
                    RewardAction::DropMemory
                }
            },
            RewardLogEvent::ChoicesReady { expected_choices } => {
                if self.early_resolved || !process_present {
                    return RewardAction::Rest;
                }
                if let Some(squad) = &self.squad {
                    if squad.screen_order.len() == expected_choices {
                        return RewardAction::ReadCards { squad: squad.copy(), announced: true };
                    }
                }
                RewardAction::Degrade {
                    reason: "Structured reward records were incomplete".to_owned(),
                }
            },
            RewardLogEvent::Closed => {
                self.forget();
                RewardAction::TearDown
            },
        }
    }

    /// Takes in whether the cards were read off the screen and published. Says why the capture is
    /// to be reported as degraded, if it is: cards that the log announced could not be read.
    pub fn finish_reading(&mut self, published: bool, announced: bool) -> (reason: Option<String>)
        requires
            old(self).wf(),
        ensures
            final(self).wf(),
            final(self)@ == cards_read(old(self)@, published),
            opt_text(reason) == (if !published && announced {
                Some("Structured reward records were incomplete"@)
            } else {
                None
            }),
    {
        if published {
            self.early_resolved = true;
            None
        } else if announced {
            Some("Structured reward records were incomplete".to_owned())
        } else {
            None
        }
    }

    /// Takes in what the scan for a player's record came to that was started for
    /// `expected_generation`. The record is kept only while that generation lasts; either way the
    /// player can be scanned for again.
    pub fn finish_scan(
        &mut self,
        expected_generation: u64,
        identity: &str,
        resolution: RewardResolution,
    )
        requires
            old(self).wf(),
        ensures
            final(self).wf(),
            final(self)@ == scan_ended(
                old(self)@,
                expected_generation,
                identity@,
                resolution,
            ),
    {
        let now = self.generation;
        store_player_record_if_current(
            expected_generation,
            now,
            now,
            identity,
            resolution,
            &mut self.records,
        );
        release_player_record_scan(identity, &mut self.scans);
    }

    /// Ends a round of the monitor. `reading` is what the poller found on the screen since the last
    /// one, `cards_gone` whether it saw the cards go, and `process_present` whether the game runs.
    ///
    /// A reading counts only if no cards were published yet, and none counts after it.
    pub fn end_tick(
        &mut self,
        reading: Option<Vec<String>>,
        cards_gone: bool,
        process_present: bool,
    ) -> (end: TickEnd)
        requires
            old(self).wf(),
        ensures
            final(self).wf(),
            final(self)@ == tick_ended(old(self)@, reading is Some, process_present),
            end.publish == (if old(self)@.early_resolved {
                None
            } else {
                reading
            }),
            end.cards_gone == cards_gone,
            end.game_gone == !process_present,
    {
        let publish = if self.early_resolved {
            None
        } else {
            reading
        };
        if publish.is_some() {
            self.early_resolved = true;
        }
        if !process_present {
            self.records.clear();
            self.count_on();
        }
        TickEnd { publish, cards_gone, game_gone: !process_present }
    }
}

/// One thing that happens to a session.
pub enum SessionStep {
    Event { event: EventView, process_present: bool, has_candidates: bool },
    CardsRead { published: bool },
    ScanEnded { generation: u64, identity: Seq<char>, resolution: RewardResolution },
    TickEnded { has_reading: bool, process_present: bool },
}

/// What a session knows after one step.
pub open spec fn stepped(session: SessionView, step: SessionStep) -> SessionView {
    match step {
        SessionStep::Event { event, process_present, has_candidates } => handled(
            session,
            event,
            process_present,
            has_candidates,
        ).0,
        SessionStep::CardsRead { published } => cards_read(session, published),
        SessionStep::ScanEnded { generation, identity, resolution } => scan_ended(
            session,
            generation,
            identity,
            resolution,
        ),
        SessionStep::TickEnded { has_reading, process_present } => tick_ended(
            session,
            has_reading,
            process_present,
        ),
    }
}

/// What a session knows after these steps.
pub open spec fn lived(session: SessionView, steps: Seq<SessionStep>) -> SessionView
    decreases steps.len(),
{
    if steps.len() == 0 {
        session
    } else {
        stepped(lived(session, steps.drop_last()), steps.last())
    }
}

/// Whether a step ends a fissure: its relics are replaced, its screen closes, or the game is gone.
pub open spec fn ends_fissure(step: SessionStep) -> bool {
    match step {
        SessionStep::Event { event, .. } => event is BaselineRequested || event is Closed,
        SessionStep::TickEnded { process_present, .. } => !process_present,
        _ => false,
    }
}

/// How many of these steps end a fissure.
pub open spec fn fissures_ended(steps: Seq<SessionStep>) -> nat
    decreases steps.len(),
{
    if steps.len() == 0 {
        0
    } else {
        fissures_ended(steps.drop_last()) + (if ends_fissure(steps.last()) {
            1nat
        } else {
            0nat
        })
    }
}

proof fn lemma_generation_counts(session: SessionView, steps: Seq<SessionStep>)
    ensures
        lived(session, steps).generation == generation_after(
            session.generation,
            fissures_ended(steps),
        ),
    decreases steps.len(),
{
    if steps.len() > 0 {
        lemma_generation_counts(session, steps.drop_last());
    }
}

/// A record that was looked for in one fissure is never kept for another: once a fissure has ended
/// since a scan was started, and not as many as there are generations, the end of the scan leaves
/// the records as they are.
pub proof fn law_records_stay_in_their_fissure(
    session: SessionView,
    steps: Seq<SessionStep>,
    identity: Seq<char>,
    resolution: RewardResolution,
)
    requires
        0 < fissures_ended(steps) <= u64::MAX,
    ensures
        scan_ended(lived(session, steps), session.generation, identity, resolution).records == lived(
            session,
            steps,
        ).records,
{
    lemma_generation_counts(session, steps);
    law_changes_lead_elsewhere(session.generation, fissures_ended(steps));
}

/// While a player is being scanned for, no second scan for the same player starts, whatever the log
/// says; only the end of a scan for them or of the fissure makes room for one.
pub proof fn law_one_scan_per_player(
    session: SessionView,
    event: EventView,
    process_present: bool,
    has_candidates: bool,
    identity: Seq<char>,
)
    requires
        session.scans.contains(identity),
    ensures
        ({
            let (after, action) = handled(session, event, process_present, has_candidates);
            &&& action matches ActionView::ScanRecord { identity: scanned, .. } ==> scanned
                != identity
            &&& !(event is BaselineRequested || event is Closed) ==> after.scans.contains(identity)
        }),
{
}

/// A scan starts only for the running generation, and the player counts as scanned for from then
/// on.
pub proof fn law_scan_starts_in_its_fissure(
    session: SessionView,
    event: EventView,
    process_present: bool,
    has_candidates: bool,
)
    ensures
        ({
            let (after, action) = handled(session, event, process_present, has_candidates);
            action matches ActionView::ScanRecord { identity, generation } ==> generation
                == session.generation && after.generation == generation && after.scans.contains(
                identity,
            ) && !session.scans.contains(identity) && process_present && has_candidates
        }),
{
}

/// The end of a fissure in the log leaves nothing of it behind, so that nothing of one fissure is
/// taken for another's.
pub proof fn law_fissure_end_forgets_everything(
    session: SessionView,
    event: EventView,
    process_present: bool,
    has_candidates: bool,
)
    requires
        event is BaselineRequested || event is Closed,
    ensures
        ({
            let after = handled(session, event, process_present, has_candidates).0;
            &&& !after.early_resolved
            &&& after.squad is None
            &&& after.records == Map::<Seq<char>, String>::empty()
            &&& after.scans == Set::<Seq<char>>::empty()
            &&& after.generation != session.generation
        }),
{
}

/// Whether these steps stay within one fissure of the log.
pub open spec fn within_fissure(steps: Seq<SessionStep>) -> bool {
    forall|i: int|
        0 <= i < steps.len() ==> !(#[trigger] steps[i] matches SessionStep::Event { event, .. } && (
        event is BaselineRequested || event is Closed))
}

/// Once its cards are published, a fissure stays settled until the log ends it: announced choices
/// ask for nothing, no record is looked for, and no reading of the poller counts.
pub proof fn law_published_fissure_stays_settled(session: SessionView, steps: Seq<SessionStep>)
    requires
        session.early_resolved,
        within_fissure(steps),
    ensures
        lived(session, steps).early_resolved,
        forall|event: EventView, process_present: bool, has_candidates: bool|
            event is ChoicesReady || event is ResponderExpected || event is ResponderReceived
                ==> (#[trigger] handled(
                lived(session, steps),
                event,
                process_present,
                has_candidates,
            )).1 is Rest,
    decreases steps.len(),
{
    if steps.len() > 0 {
        let init = steps.drop_last();
        assert forall|i: int| 0 <= i < init.len() implies !(#[trigger] init[i] matches SessionStep::Event {
            event,
            ..
        } && (event is BaselineRequested || event is Closed)) by {
            assert(init[i] == steps[i]);
        }
        law_published_fissure_stays_settled(session, init);
        assert(steps[steps.len() - 1] == steps.last());
    }
}

/// Loaded relics ask for a pool exactly while the game runs, and that pool is the one of all the
/// relics that the log reports: as many of them, each in its place. Without the game what was
/// gathered of its memory is dropped instead.
pub proof fn law_pool_is_that_of_the_reported_relics(
    session: SessionView,
    event: RewardLogEvent,
    process_present: bool,
    has_candidates: bool,
    after: SessionView,
    action: RewardAction,
)
    requires
        (after, action@) == handled(session, event@, process_present, has_candidates),
    ensures
        action is PreparePool <==> event is BaselineRequested && process_present,
        action is DropMemory <==> event is BaselineRequested && !process_present,
        event matches RewardLogEvent::BaselineRequested { relic_paths: reported } ==> (action matches
            RewardAction::PreparePool { relic_paths } ==> relic_paths@.len() == reported@.len()
            && forall|i: int|
            0 <= i < reported@.len() ==> (#[trigger] relic_paths@[i])@ == reported@[i]@),
{
    if let RewardLogEvent::BaselineRequested { relic_paths: reported } = event {
        if let RewardAction::PreparePool { relic_paths } = action {
            assert(texts(relic_paths@) == texts(reported@));
            assert(texts(relic_paths@).len() == texts(reported@).len());
            assert forall|i: int| 0 <= i < reported@.len() implies (#[trigger] relic_paths@[i])@
                == reported@[i]@ by {
                assert(texts(relic_paths@)[i] == texts(reported@)[i]);
            }
        }
    }
}

/// The record of a player is looked for exactly if the log awaits or has the answer of a squad
/// member who is not the local player, the game runs, there is something to look for, the cards are
/// not published yet, and the player is not being looked for. It is that player's record, and from
/// then on the player, and nobody else besides, counts as looked for.
pub proof fn law_scan_is_of_the_named_player(
    session: SessionView,
    event: RewardLogEvent,
    process_present: bool,
    has_candidates: bool,
    after: SessionView,
    action: RewardAction,
)
    requires
        (after, action@) == handled(session, event@, process_present, has_candidates),
    ensures
        action is ScanRecord <==> process_present && has_candidates && !session.early_resolved && (
        (event matches RewardLogEvent::ResponderExpected { identity } && !session.scans.contains(
            identity@,
        )) || (event matches RewardLogEvent::ResponderReceived { identity, is_local } && !is_local
            && !session.scans.contains(identity@))),
        action matches RewardAction::ScanRecord { identity: scanned, generation } ==> {
            &&& generation == session.generation
            &&& event matches RewardLogEvent::ResponderExpected { identity } ==> identity@
                == scanned@
            &&& event matches RewardLogEvent::ResponderReceived { identity, .. } ==> identity@
                == scanned@
            &&& forall|player: Seq<char>| #[trigger]
                after.scans.contains(player) <==> session.scans.contains(player) || player
                    == scanned@
        },
        !(action is ScanRecord) && !(event is BaselineRequested) && !(event is Closed) ==> after.scans
            == session.scans,
{
}

/// The cards are read off the screen exactly in two cases, both only while the game runs: everyone
/// has answered, and then they are those of the squad that the log reports; or choices are announced
/// while no cards are published, for a squad of just as many members that was reported before, and
/// then they are those of that squad.
pub proof fn law_cards_are_those_of_the_reported_squad(
    session: SessionView,
    event: RewardLogEvent,
    process_present: bool,
    has_candidates: bool,
    after: SessionView,
    action: RewardAction,
)
    requires
        (after, action@) == handled(session, event@, process_present, has_candidates),
    ensures
        action is ReadCards <==> process_present && (event is ResponsesComplete || (event matches
            RewardLogEvent::ChoicesReady { expected_choices } && !session.early_resolved
            && session.squad is Some && session.squad->0.screen_order.len() == expected_choices)),
        action matches RewardAction::ReadCards { squad, announced } ==> {
            &&& announced == (event is ChoicesReady)
            &&& announced ==> squad@ == session.squad->0
            &&& event matches RewardLogEvent::ResponsesComplete { screen_order, local_reward_path } ==> {
                &&& squad.screen_order@.len() == screen_order@.len()
                &&& forall|i: int|
                    0 <= i < screen_order@.len() ==> (#[trigger] squad.screen_order@[i])@
                        == screen_order@[i]@
                &&& squad.local_reward_path is Some == local_reward_path is Some
                &&& local_reward_path is Some ==> squad.local_reward_path->0@
                    == local_reward_path->0@
            }
        },
        event matches RewardLogEvent::ResponsesComplete { screen_order, local_reward_path } ==> {
            &&& after.squad is Some
            &&& after.squad->0.screen_order.len() == screen_order@.len()
            &&& forall|i: int|
                0 <= i < screen_order@.len() ==> #[trigger] after.squad->0.screen_order[i]
                    == screen_order@[i]@
            &&& after.squad->0.local_reward_path is Some == local_reward_path is Some
            &&& local_reward_path is Some ==> after.squad->0.local_reward_path->0
                == local_reward_path->0@
        },
{
    if let RewardLogEvent::ResponsesComplete { screen_order, .. } = event {
        if let RewardAction::ReadCards { squad, .. } = action {
            assert(texts(squad.screen_order@) == texts(screen_order@));
            assert(texts(squad.screen_order@).len() == texts(screen_order@).len());
            assert forall|i: int| 0 <= i < screen_order@.len() implies (
            #[trigger] squad.screen_order@[i])@ == screen_order@[i]@ by {
                assert(texts(squad.screen_order@)[i] == texts(screen_order@)[i]);
            }
        }
    }
}

/// The capture is reported as degraded exactly if choices are announced while the game runs and no
/// cards are published, and there is no squad of just as many members. The other actions follow the
/// events they are named after.
pub proof fn law_other_actions_follow_their_events(
    session: SessionView,
    event: RewardLogEvent,
    process_present: bool,
    has_candidates: bool,
    after: SessionView,
    action: RewardAction,
)
    requires
        (after, action@) == handled(session, event@, process_present, has_candidates),
    ensures
        action is Degrade <==> process_present && !session.early_resolved && (event matches
            RewardLogEvent::ChoicesReady { expected_choices } && !(session.squad is Some
            && session.squad->0.screen_order.len() == expected_choices)),
        action matches RewardAction::Degrade { reason } ==> reason@
            == "Structured reward records were incomplete"@,
        action is ResetRecentWrites <==> event is RewardWindowOpened && process_present,
        action is TearDown <==> event is Closed,
{
}

/// Apart from the end of a fissure, no event of the log touches what is published, the generation or
/// the records, and only a complete squad replaces the squad.
pub proof fn law_events_leave_the_rest_alone(
    session: SessionView,
    event: EventView,
    process_present: bool,
    has_candidates: bool,
)
    requires
        !(event is BaselineRequested),
        !(event is Closed),
    ensures
        ({
            let after = handled(session, event, process_present, has_candidates).0;
            &&& after.early_resolved == session.early_resolved
            &&& after.generation == session.generation
            &&& after.records == session.records
            &&& !(event is ResponsesComplete) ==> after.squad == session.squad
        }),
{
}

/// The end of a scan puts a record down exactly if its fissure is still the one being played and it
/// confirmed one choice, and then that choice for that player. Everyone else's record stays, and so
/// does everything but that this player is no longer being looked for.
pub proof fn law_record_is_the_confirmed_choice(
    session: SessionView,
    generation: u64,
    identity: Seq<char>,
    resolution: RewardResolution,
)
    ensures
        ({
            let after = scan_ended(session, generation, identity, resolution);
            let confirmed = resolution is Confirmed && resolution->choices@.len() == 1;
            &&& confirmed && session.generation == generation ==> after.records.contains_key(identity)
                && after.records[identity] == resolution->choices@[0]
            &&& !confirmed || session.generation != generation ==> after.records == session.records
            &&& forall|player: Seq<char>|
                player != identity ==> {
                    &&& #[trigger] after.records.contains_key(player)
                        == session.records.contains_key(player)
                    &&& after.records[player] == session.records[player]
                }
            &&& forall|player: Seq<char>| #[trigger]
                after.scans.contains(player) <==> session.scans.contains(player) && player
                    != identity
            &&& after.early_resolved == session.early_resolved
            &&& after.squad == session.squad
            &&& after.generation == session.generation
        }),
{
}

/// At the end of a round the cards count as published exactly if they did before or the poller had a
/// reading. The records and the generation are those from before exactly while the game runs; when
/// it is gone no record is left and the generation is another. The squad and the players being
/// looked for stay.
pub proof fn law_round_ends_with_the_game(session: SessionView, has_reading: bool, process_present: bool)
    ensures
        ({
            let after = tick_ended(session, has_reading, process_present);
            &&& after.early_resolved <==> session.early_resolved || has_reading
            &&& process_present ==> after.records == session.records && after.generation
                == session.generation
            &&& !process_present ==> after.generation != session.generation && forall|player: Seq<
                char,
            >| !(#[trigger] after.records.contains_key(player))
            &&& after.squad == session.squad
            &&& after.scans == session.scans
        }),
{
}

/// Reading the cards changes whether they count as published, and nothing else: they do exactly if
/// they did before or are published now.
pub proof fn law_reading_settles_the_fissure(session: SessionView, published: bool)
    ensures
        ({
            let after = cards_read(session, published);
            &&& after.early_resolved <==> session.early_resolved || published
            &&& after.squad == session.squad
            &&& after.generation == session.generation
            &&& after.records == session.records
            &&& after.scans == session.scans
        }),
{
}

} // verus!
