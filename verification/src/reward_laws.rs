//! What the operations on rewards do, said of what they can return.

use vstd::prelude::*;
#[allow(unused_imports)]
use vstd::utf8::{encode_utf8, valid_utf8};

#[allow(unused_imports)]
use crate::keyed::{NameMap, NameSet};
#[allow(unused_imports)]
use crate::relic_pool::{
    ducats_of, is_pool_of, is_worth, last_step, last_step_of, law_last_step_ends_the_path,
    law_worth_is_that_of_the_first_match, relic_pool_entries, PublishedTrace, RelicPool,
    RewardCatalogEntry,
};
#[allow(unused_imports)]
use crate::reward_choices::{
    after_scan, assemble_player_record_choices, is_choice_of, is_named_by,
    law_assembled_choices_are_the_records, law_choice_is_that_of_the_first_candidate,
    law_rotation_goes_round, law_squad_needs_its_local_player, law_store_paths_name_their_items,
    law_trace_is_the_end_of_the_identity, local_choice, opt_str, release_player_record_scan,
    reward_path_matches, rotate_choices_to_local, scan_is_wanted, store_player_record_if_current,
    str_texts, traced_identity, RewardNeedle, RewardResolution, ScanStep,
};
#[allow(unused_imports)]
use crate::reward_publish::{
    are_all_figures, are_figures_of, capture_notes, card_request,
    law_capture_is_noted_with_its_troubles, law_holding_is_that_of_the_first_match, note_views,
    owned_of, reward_figures, CaptureNote, CardRequest, HeldItem, RewardChoiceSource, RewardFigures,
};
#[allow(unused_imports)]
use crate::reward_session::{
    law_cards_are_those_of_the_reported_squad, law_other_actions_follow_their_events,
    law_pool_is_that_of_the_reported_relics, law_scan_is_of_the_named_player, PendingRewardSquad,
    RewardAction, RewardLogEvent, RewardSession, SessionView, TickEnd,
};
#[allow(unused_imports)]
use crate::text::{number, opt_text, texts};

verus! {

/// Loaded relics have the pool of all of them made ready, each in its place, exactly while the game
/// runs, and what was gathered of its memory dropped otherwise.
pub proof fn law_loaded_relics_make_the_pool(
    session: &mut RewardSession,
    event: RewardLogEvent,
    process_present: bool,
    has_candidates: bool,
    action: RewardAction,
)
    requires
        old(session).wf(),
        call_ensures(
            RewardSession::handle_reward_event,
            (session, event, process_present, has_candidates),
            action,
        ),
    ensures
        action is PreparePool <==> event is BaselineRequested && process_present,
        action is DropMemory <==> event is BaselineRequested && !process_present,
        event matches RewardLogEvent::BaselineRequested { relic_paths: reported } ==> (action matches
            RewardAction::PreparePool { relic_paths } ==> relic_paths@.len() == reported@.len()
            && forall|i: int|
            0 <= i < reported@.len() ==> (#[trigger] relic_paths@[i])@ == reported@[i]@),
{
    law_pool_is_that_of_the_reported_relics(
        old(session)@,
        event,
        process_present,
        has_candidates,
        final(session)@,
        action,
    );
}

/// The record that is looked for is that of the squad member whom the log names, on behalf of the
/// fissure that is played, and only while it can still be of use.
pub proof fn law_named_player_is_looked_for(
    session: &mut RewardSession,
    event: RewardLogEvent,
    process_present: bool,
    has_candidates: bool,
    action: RewardAction,
)
    requires
        old(session).wf(),
        call_ensures(
            RewardSession::handle_reward_event,
            (session, event, process_present, has_candidates),
            action,
        ),
    ensures
        action is ScanRecord <==> process_present && has_candidates && !old(session)@.early_resolved
            && ((event matches RewardLogEvent::ResponderExpected { identity } && !old(
            session,
        )@.scans.contains(identity@)) || (event matches RewardLogEvent::ResponderReceived {
            identity,
            is_local,
        } && !is_local && !old(session)@.scans.contains(identity@))),
        action matches RewardAction::ScanRecord { identity: scanned, generation } ==> {
            &&& generation == old(session)@.generation
            &&& event matches RewardLogEvent::ResponderExpected { identity } ==> identity@
                == scanned@
            &&& event matches RewardLogEvent::ResponderReceived { identity, .. } ==> identity@
                == scanned@
            &&& final(session)@.scans == old(session)@.scans.insert(scanned@)
        },
{
    law_scan_is_of_the_named_player(
        old(session)@,
        event,
        process_present,
        has_candidates,
        final(session)@,
        action,
    );
    if let RewardAction::ScanRecord { identity, .. } = action {
        assert(final(session)@.scans =~= old(session)@.scans.insert(identity@));
    }
}

/// The cards that are read are those of the squad that the log reports, now or before, all of it in
/// its order.
pub proof fn law_reported_squad_has_its_cards_read(
    session: &mut RewardSession,
    event: RewardLogEvent,
    process_present: bool,
    has_candidates: bool,
    action: RewardAction,
)
    requires
        old(session).wf(),
        call_ensures(
            RewardSession::handle_reward_event,
            (session, event, process_present, has_candidates),
            action,
        ),
    ensures
        action is ReadCards <==> process_present && (event is ResponsesComplete || (event matches
            RewardLogEvent::ChoicesReady { expected_choices } && !old(session)@.early_resolved && old(
            session,
        )@.squad is Some && old(session)@.squad->0.screen_order.len() == expected_choices)),
        action matches RewardAction::ReadCards { squad, announced } ==> {
            &&& announced == (event is ChoicesReady)
            &&& announced ==> squad@ == old(session)@.squad->0
            &&& event matches RewardLogEvent::ResponsesComplete { screen_order, local_reward_path } ==> {
                &&& squad.screen_order@.len() == screen_order@.len()
                &&& forall|i: int|
                    0 <= i < screen_order@.len() ==> (#[trigger] squad.screen_order@[i])@
                        == screen_order@[i]@
                &&& squad.local_reward_path is Some == local_reward_path is Some
                &&& local_reward_path is Some ==> squad.local_reward_path->0@
                    == local_reward_path->0@
            }
        },
        event matches RewardLogEvent::ResponsesComplete { screen_order, .. } ==> final(session)@.squad is Some
            && final(session)@.squad->0.screen_order == texts(screen_order@),
{
    law_cards_are_those_of_the_reported_squad(
        old(session)@,
        event,
        process_present,
        has_candidates,
        final(session)@,
        action,
    );
}

/// The end of a fissure forgets all of it, the end of the screen tears everything down, and any other
/// event leaves alone what is published, the generation and the records.
pub proof fn law_fissure_is_forgotten_at_its_end(
    session: &mut RewardSession,
    event: RewardLogEvent,
    process_present: bool,
    has_candidates: bool,
    action: RewardAction,
)
    requires
        old(session).wf(),
        call_ensures(
            RewardSession::handle_reward_event,
            (session, event, process_present, has_candidates),
            action,
        ),
    ensures
        ({
            let before = old(session)@;
            let after = final(session)@;
            let ended = event is BaselineRequested || event is Closed;
            &&& action is TearDown <==> event is Closed
            &&& action is ResetRecentWrites <==> event is RewardWindowOpened && process_present
            &&& action is Degrade <==> process_present && !before.early_resolved && (event matches
                RewardLogEvent::ChoicesReady { expected_choices } && !(before.squad is Some
                && before.squad->0.screen_order.len() == expected_choices))
            &&& action matches RewardAction::Degrade { reason } ==> reason@
                == "Structured reward records were incomplete"@
            &&& ended ==> !after.early_resolved && after.squad is None && after.generation
                != before.generation && after.records == Map::<Seq<char>, String>::empty()
                && after.scans == Set::<Seq<char>>::empty()
            &&& !ended ==> after.early_resolved == before.early_resolved && after.generation
                == before.generation && after.records == before.records
            &&& !ended && !(event is ResponsesComplete) ==> after.squad == before.squad
            &&& !ended && !(action is ScanRecord) ==> after.scans == before.scans
        }),
{
    law_other_actions_follow_their_events(
        old(session)@,
        event,
        process_present,
        has_candidates,
        final(session)@,
        action,
    );
}

/// Cards that were read off the screen count as published. Failing to read them is reported exactly
/// if the log announced them.
pub proof fn law_reading_cards_settles_them(
    session: &mut RewardSession,
    published: bool,
    announced: bool,
    reason: Option<String>,
)
    requires
        old(session).wf(),
        call_ensures(RewardSession::finish_reading, (session, published, announced), reason),
    ensures
        final(session)@.early_resolved <==> old(session)@.early_resolved || published,
        final(session)@.squad == old(session)@.squad,
        final(session)@.generation == old(session)@.generation,
        final(session)@.records == old(session)@.records,
        final(session)@.scans == old(session)@.scans,
        reason is Some <==> announced && !published,
        reason is Some ==> reason->0@ == "Structured reward records were incomplete"@,
{
}

/// The one choice that a scan confirmed is put on record for its player, exactly if the fissure it
/// was for is still played. The player can be looked for again, and nothing else changes.
pub proof fn law_scan_ends_with_its_record(
    session: &mut RewardSession,
    generation: u64,
    identity: &str,
    resolution: RewardResolution,
)
    requires
        old(session).wf(),
        call_ensures(RewardSession::finish_scan, (session, generation, identity, resolution), ()),
    ensures
        ({
            let before = old(session)@;
            let after = final(session)@;
            let confirmed = resolution is Confirmed && resolution->choices@.len() == 1;
            &&& confirmed && before.generation == generation ==> after.records
                == before.records.insert(identity@, resolution->choices@[0])
            &&& !confirmed || before.generation != generation ==> after.records == before.records
            &&& after.scans == before.scans.remove(identity@)
            &&& after.early_resolved == before.early_resolved
            &&& after.squad == before.squad
            &&& after.generation == before.generation
        }),
{
}

/// A reading is published, as it is, exactly if nothing was published before it, and then counts as
/// published. Records and generation outlive the round exactly while the game runs.
pub proof fn law_round_publishes_the_first_reading(
    session: &mut RewardSession,
    reading: Option<Vec<String>>,
    cards_gone: bool,
    process_present: bool,
    end: TickEnd,
)
    requires
        old(session).wf(),
        call_ensures(RewardSession::end_tick, (session, reading, cards_gone, process_present), end),
    ensures
        ({
            let before = old(session)@;
            let after = final(session)@;
            &&& end.publish is Some <==> reading is Some && !before.early_resolved
            &&& end.publish is Some ==> end.publish == reading
            &&& end.cards_gone == cards_gone
            &&& end.game_gone == !process_present
            &&& after.early_resolved <==> before.early_resolved || reading is Some
            &&& process_present ==> after.records == before.records && after.generation
                == before.generation
            &&& !process_present ==> after.records == Map::<Seq<char>, String>::empty()
                && after.generation != before.generation
            &&& after.squad == before.squad
            &&& after.scans == before.scans
        }),
{
}

/// Whether `after` is `before` with each choice moved by the same number of places, going round.
pub open spec fn is_turned_by(before: Seq<String>, after: Seq<String>, by: int) -> bool {
    &&& 0 <= by < before.len()
    &&& after.len() == before.len()
    &&& forall|i: int|
        0 <= i < before.len() ==> #[trigger] after[i] == (if i + by < before.len() {
            before[i + by]
        } else {
            before[i + by - before.len()]
        })
}

/// Choices are turned round until that of the local player stands first: each moves by the same
/// number of places, and none does if the local player's is not among them.
pub proof fn law_choices_are_turned_to_the_local_one(choices: &mut [String], local: &str)
    requires
        old(choices)@.len() > 0,
        call_ensures(rotate_choices_to_local, (choices, local), ()),
    ensures
        exists|by: int| #[trigger] is_turned_by(old(choices)@, final(choices)@, by),
        texts(old(choices)@).contains(local@) ==> final(choices)@[0]@ == local@,
        !texts(old(choices)@).contains(local@) ==> final(choices)@ == old(choices)@,
{
    let by = law_rotation_goes_round(old(choices)@, local@, final(choices)@);
    assert(is_turned_by(old(choices)@, final(choices)@, by));
    let names = texts(old(choices)@);
    if names.contains(local@) {
        let k = choose|k: int| 0 <= k < names.len() && names[k] == local@;
        assert(old(choices)@[k]@ == local@);
        assert(final(choices)@[0] == old(choices)@[by]);
    } else {
        assert forall|j: int| 0 <= j < old(choices)@.len() implies (#[trigger] old(choices)@[j])@
            != local@ by {
            assert(names[j] == old(choices)@[j]@);
        }
        assert(by == 0);
        assert(final(choices)@ =~= old(choices)@);
    }
}

/// A path from the log names an item exactly if it is the item's path, or the item's path with
/// `/Lotus/StoreItems` in place of its leading `/Lotus`.
pub proof fn law_path_names_its_item(log_path: &str, catalog_path: &str, matches: bool)
    requires
        call_ensures(reward_path_matches, (log_path, catalog_path), matches),
    ensures
        matches <==> log_path@ == catalog_path@ || exists|rest: Seq<char>|
            log_path@ == #[trigger] ("/Lotus/StoreItems"@ + rest) && catalog_path@ == "/Lotus"@ + rest,
{
    law_store_paths_name_their_items(log_path@, catalog_path@, Seq::empty());
    if exists|rest: Seq<char>| log_path@ == #[trigger] ("/Lotus/StoreItems"@ + rest) {
        let rest = choose|rest: Seq<char>| log_path@ == #[trigger] ("/Lotus/StoreItems"@ + rest);
        law_store_paths_name_their_items(log_path@, catalog_path@, rest);
    }
}

/// The local player's choice is that of the first candidate that the path names, and there is none
/// exactly if there is no path or it names no candidate.
pub proof fn law_path_gives_the_local_choice(
    candidates: &[RewardNeedle],
    path: Option<&str>,
    choice: Option<String>,
)
    requires
        call_ensures(local_choice, (candidates, path), choice),
    ensures
        path is None ==> choice is None,
        path is Some ==> forall|i: int|
            0 <= i < candidates@.len() && is_named_by(#[trigger] candidates@[i], path->0@) && (forall|
                j: int,
            |
                0 <= j < i ==> !is_named_by(#[trigger] candidates@[j], path->0@)) ==> choice is Some
                && choice->0@ == candidates@[i].choice_name@,
        path is Some && (forall|j: int|
            0 <= j < candidates@.len() ==> !is_named_by(#[trigger] candidates@[j], path->0@))
            ==> choice is None,
{
    law_choice_is_that_of_the_first_candidate(candidates@, opt_str(path), opt_text(choice));
}

/// The choices of a squad whose local player stands once in it, at `l`: there are some exactly if
/// everyone else is on record, and then the local player's comes first and everyone else's record
/// follows, in the order of the squad.
pub proof fn law_squad_has_everyones_choice(
    responders: &[&str],
    local: &str,
    choice: &str,
    records: &NameMap<String>,
    choices: Option<Vec<String>>,
    l: int,
)
    requires
        records.wf(),
        call_ensures(
            assemble_player_record_choices,
            (responders, Some(local), Some(choice), records),
            choices,
        ),
        0 <= l < responders@.len(),
        responders@[l]@ == local@,
        forall|i: int| 0 <= i < responders@.len() && i != l ==> (#[trigger] responders@[i])@ != local@,
    ensures
        choices is Some <==> forall|i: int|
            0 <= i < responders@.len() && i != l ==> records@.contains_key((#[trigger] responders@[i])@),
        choices matches Some(list) ==> {
            &&& list@.len() == responders@.len()
            &&& list@[0]@ == choice@
            &&& forall|i: int|
                0 <= i < l ==> list@[i + 1]@ == records@[(#[trigger] responders@[i])@]@
            &&& forall|i: int|
                l < i < responders@.len() ==> list@[i]@ == records@[(#[trigger] responders@[i])@]@
        },
{
    let names = str_texts(responders@);
    assert forall|i: int| 0 <= i < names.len() implies #[trigger] names[i] == responders@[i]@ by {}
    law_assembled_choices_are_the_records(names, local@, choice@, records@, l);
    if forall|i: int|
        0 <= i < responders@.len() && i != l ==> records@.contains_key((#[trigger] responders@[i])@) {
        assert forall|i: int| 0 <= i < names.len() && i != l implies records@.contains_key(
            #[trigger] names[i],
        ) by {
            assert(records@.contains_key(responders@[i]@));
        }
    }
    if let Some(list) = choices {
        let shown = texts(list@);
        assert forall|i: int| 0 <= i < list@.len() implies #[trigger] shown[i] == list@[i]@ by {}
        assert forall|i: int| 0 <= i < responders@.len() && i != l implies records@.contains_key(
            (#[trigger] responders@[i])@,
        ) by {
            assert(records@.contains_key(names[i]));
        }
        assert(shown[0] == list@[0]@);
        assert forall|i: int| 0 <= i < l implies list@[i + 1]@ == records@[(
        #[trigger] responders@[i])@]@ by {
            assert(shown[i + 1] == list@[i + 1]@);
            assert(shown[i + 1] == records@[names[i]]@);
        }
        assert forall|i: int| l < i < responders@.len() implies list@[i]@ == records@[(
        #[trigger] responders@[i])@]@ by {
            assert(shown[i] == list@[i]@);
            assert(shown[i] == records@[names[i]]@);
        }
    }
}

/// A squad without its local player, without their choice, or with the local player in it twice or
/// not at all, has no choices.
pub proof fn law_choices_need_the_local_player(
    responders: &[&str],
    local: Option<&str>,
    choice: Option<&str>,
    records: &NameMap<String>,
    choices: Option<Vec<String>>,
    i: int,
    j: int,
)
    requires
        records.wf(),
        call_ensures(assemble_player_record_choices, (responders, local, choice, records), choices),
        local is Some ==> (forall|k: int|
            0 <= k < responders@.len() ==> (#[trigger] responders@[k])@ != local->0@) || (0 <= i < j
            < responders@.len() && responders@[i]@ == local->0@ && responders@[j]@ == local->0@) || choice is None,
    ensures
        choices is None,
{
    let names = str_texts(responders@);
    assert forall|k: int| 0 <= k < names.len() implies #[trigger] names[k] == responders@[k]@ by {}
    if 0 <= i < j < responders@.len() {
        assert(names[i] == responders@[i]@);
        assert(names[j] == responders@[j]@);
    }
    law_squad_needs_its_local_player(names, opt_str(local), opt_str(choice), records@, i, j);
}

/// A record is kept exactly if it names one choice and the fissure was the same throughout, and it is
/// that choice, for that player. A player whose scan is over, and nobody else, can be looked for
/// again.
pub proof fn law_record_is_kept_while_current(
    expected: u64,
    seen: u64,
    held: u64,
    identity: &str,
    resolution: RewardResolution,
    records: &mut NameMap<String>,
    scans: &mut NameSet,
)
    requires
        old(records).wf(),
        call_ensures(
            store_player_record_if_current,
            (expected, seen, held, identity, resolution, records),
            (),
        ),
        call_ensures(release_player_record_scan, (identity, scans), ()),
    ensures
        ({
            let current = seen == expected && held == expected;
            let confirmed = resolution is Confirmed && resolution->choices@.len() == 1;
            &&& current && confirmed ==> final(records)@ == old(records)@.insert(
                identity@,
                resolution->choices@[0],
            )
            &&& !(current && confirmed) ==> final(records)@ == old(records)@
            &&& final(scans)@ == old(scans)@.remove(identity@)
        }),
{
}

/// A scan is wanted while its fissure lasts. It is over once it confirmed one choice, with what it
/// came to, or once its time is up, and is repeated until then.
pub proof fn law_scan_is_repeated_until_confirmed(
    expected: u64,
    generation: u64,
    wanted: bool,
    resolution: RewardResolution,
    elapsed_nanos: u128,
    timeout_nanos: u128,
    step: ScanStep,
)
    requires
        call_ensures(scan_is_wanted, (expected, generation), wanted),
        call_ensures(after_scan, (resolution, elapsed_nanos, timeout_nanos), step),
    ensures
        wanted <==> generation == expected,
        ({
            let confirmed = resolution is Confirmed && resolution->choices@.len() == 1;
            &&& step is Ready <==> confirmed
            &&& step matches ScanStep::Ready(ready) ==> ready == resolution
            &&& step is GiveUp <==> !confirmed && elapsed_nanos >= timeout_nanos
            &&& step matches ScanStep::Retry { after_ms } ==> after_ms == 25
        }),
{
}

/// What is noted down of an identity is its last six bytes, or all of it where it is no longer than
/// that or those are no text.
pub proof fn law_identity_is_noted_by_its_end(identity: &str, trace: String)
    requires
        call_ensures(traced_identity, (identity,), trace),
    ensures
        ({
            let bytes = encode_utf8(identity@);
            let shortened = bytes.len() > 6 && valid_utf8(bytes.skip(bytes.len() - 6));
            &&& shortened ==> encode_utf8(trace@) == bytes.skip(bytes.len() - 6)
            &&& !shortened ==> trace@ == identity@
        }),
{
    law_trace_is_the_end_of_the_identity(identity@);
}

/// Published cards are noted down with the size of the pool and with each relic's last step, in
/// order. That is what stands behind the last slash of its path.
pub proof fn law_published_cards_are_noted_down(
    pool: RelicPool,
    names: &[String],
    trace: PublishedTrace,
    path: &str,
    step: String,
)
    requires
        call_ensures(RelicPool::trace_published, (&pool, names), trace),
        call_ensures(last_step_of, (path,), step),
    ensures
        trace.names@ == names@,
        trace.pool == pool.rewards().len(),
        trace.relics@.len() == pool.relics().len(),
        forall|i: int|
            0 <= i < pool.relics().len() && pool.relics()[i]@ == path@ ==> #[trigger] trace.relics@[i]@
                == step@,
        step@.len() <= path@.len(),
        path@.skip(path@.len() - step@.len()) == step@,
        forall|i: int| 0 <= i < step@.len() ==> #[trigger] step@[i] != '/',
        step@.len() < path@.len() ==> path@[path@.len() - step@.len() - 1] == '/',
{
    law_last_step_ends_the_path(path@);
    let ends = texts(pool.relics()).map_values(|path: Seq<char>| last_step(path));
    assert(texts(trace.relics@) == ends);
    assert(texts(trace.relics@).len() == trace.relics@.len());
    assert forall|i: int| 0 <= i < pool.relics().len() && pool.relics()[i]@ == path@ implies #[trigger] trace.relics@[i]@
        == step@ by {
        assert(texts(trace.relics@)[i] == trace.relics@[i]@);
        assert(ends[i] == last_step(texts(pool.relics())[i]));
    }
}

/// The worth of a reward is that of the first entry in the catalog that matches it, and nothing if
/// none does.
pub proof fn law_catalog_gives_the_worth<F: Fn(&String, &String) -> bool>(
    matches: F,
    same: spec_fn(String, String) -> bool,
    catalog: &[RewardCatalogEntry],
    name: String,
    ducats: u32,
)
    requires
        call_ensures(ducats_of::<F>, (&matches, catalog, &name), ducats),
        forall|a: String, b: String, yes: bool| #[trigger]
            call_ensures(matches, (&a, &b), yes) ==> yes == same(a, b),
    ensures
        forall|at: int|
            0 <= at < catalog@.len() && same((#[trigger] catalog@[at]).name, name) && (forall|k: int|
                0 <= k < at ==> !same((#[trigger] catalog@[k]).name, name)) ==> ducats
                == catalog@[at].ducats,
        (forall|k: int| 0 <= k < catalog@.len() ==> !same((#[trigger] catalog@[k]).name, name))
            ==> ducats == 0,
{
    law_worth_is_that_of_the_first_match(matches, same, catalog@, name, ducats);
}

/// How many of a reward are owned is what the first item says that matches it, and none if none
/// does.
pub proof fn law_collection_gives_the_number_owned<F: Fn(&String, &String) -> bool>(
    matches: F,
    same: spec_fn(String, String) -> bool,
    held: &[HeldItem],
    name: String,
    owned: u32,
)
    requires
        call_ensures(owned_of::<F>, (&matches, held, &name), owned),
        forall|a: String, b: String, yes: bool| #[trigger]
            call_ensures(matches, (&a, &b), yes) ==> yes == same(a, b),
    ensures
        forall|at: int|
            0 <= at < held@.len() && same((#[trigger] held@[at]).name, name) && (forall|k: int|
                0 <= k < at ==> !same((#[trigger] held@[k]).name, name)) ==> owned
                == held@[at].quantity,
        (forall|k: int| 0 <= k < held@.len() ==> !same((#[trigger] held@[k]).name, name)) ==> owned
            == 0,
{
    law_holding_is_that_of_the_first_match(matches, same, held@, name, owned);
}

/// The pool of a squad holds one entry for each candidate, in their order, under its name. An entry
/// is worth what the catalog says: the worth of its first match there, if it has one.
pub proof fn law_pool_holds_every_candidate<F: Fn(&String, &String) -> bool>(
    candidates: &[RewardNeedle],
    catalog: &[RewardCatalogEntry],
    matches: F,
    same: spec_fn(String, String) -> bool,
    entries: Vec<RewardCatalogEntry>,
    i: int,
)
    requires
        call_ensures(relic_pool_entries::<F>, (candidates, catalog, &matches), entries),
        forall|a: String, b: String, yes: bool| #[trigger]
            call_ensures(matches, (&a, &b), yes) ==> yes == same(a, b),
        0 <= i < candidates@.len(),
    ensures
        entries@.len() == candidates@.len(),
        entries@[i].name == candidates@[i].choice_name,
        forall|at: int|
            0 <= at < catalog@.len() && same((#[trigger] catalog@[at]).name, entries@[i].name) && (forall|
                k: int,
            |
                0 <= k < at ==> !same((#[trigger] catalog@[k]).name, entries@[i].name))
                ==> entries@[i].ducats == catalog@[at].ducats,
        (forall|k: int|
            0 <= k < catalog@.len() ==> !same((#[trigger] catalog@[k]).name, entries@[i].name))
            ==> entries@[i].ducats == 0,
{
    assert(is_pool_of(matches, catalog@, candidates@, entries@));
    assert(entries@[i].name == candidates@[i].choice_name);
    law_worth_is_that_of_the_first_match(
        matches,
        same,
        catalog@,
        entries@[i].name,
        entries@[i].ducats,
    );
}

/// The cards of a squad are looked for among the rewards of all candidates, one card for each member,
/// with the local player's reward among them where the log names it, for eight seconds.
pub proof fn law_squad_is_asked_for_all_its_cards<F: Fn(&String, &String) -> bool>(
    squad: &PendingRewardSquad,
    candidates: &[RewardNeedle],
    catalog: &[RewardCatalogEntry],
    matches: F,
    request: CardRequest,
    path: &str,
    choice: Option<String>,
    i: int,
)
    requires
        call_ensures(card_request::<F>, (squad, candidates, catalog, &matches), request),
        squad.local_reward_path is Some ==> squad.local_reward_path->0@ == path@,
        0 <= i < candidates@.len(),
    ensures
        request.expected == squad.screen_order@.len(),
        request.deadline_ms == 8000,
        request.pool@.len() == candidates@.len(),
        request.pool@[i].name == candidates@[i].choice_name,
        is_worth(matches, catalog@, candidates@[i].choice_name, request.pool@[i].ducats),
        squad.local_reward_path is None ==> request.local_choice is None,
        squad.local_reward_path is Some ==> (is_named_by(candidates@[i], path@) && (forall|j: int|
            0 <= j < i ==> !is_named_by(#[trigger] candidates@[j], path@)) ==> request.local_choice is Some
            && request.local_choice->0@ == candidates@[i].choice_name@),
        squad.local_reward_path is Some && (forall|j: int|
            0 <= j < candidates@.len() ==> !is_named_by(#[trigger] candidates@[j], path@))
            ==> request.local_choice is None,
{
    assert(is_pool_of(matches, catalog@, candidates@, request.pool@));
    assert(request.pool@[i].name == candidates@[i].choice_name);
    law_choice_is_that_of_the_first_candidate(
        candidates@,
        opt_text(squad.local_reward_path),
        opt_text(request.local_choice),
    );
}

/// What is noted down of a capture: first that it succeeded, from which source, how long it took and
/// when; then the notice on the overlay, if there is one; and last that the sources disagreed, if they
/// did.
pub proof fn law_capture_is_noted_in_order(
    source: RewardChoiceSource,
    elapsed_ms: u128,
    now: u64,
    notice: Option<String>,
    disagreed: bool,
    notes: Vec<CaptureNote>,
)
    requires
        call_ensures(capture_notes, (source, elapsed_ms, now, notice, disagreed), notes),
    ensures
        ({
            let troubles = (if notice is Some {
                1int
            } else {
                0int
            }) + (if disagreed {
                1int
            } else {
                0int
            });
            &&& notes@.len() == 1 + troubles
            &&& notes@[0] is Ready
            &&& notes@[0]->elapsed_ms == elapsed_ms
            &&& number(notes@[0]->at@) == now
            &&& source is Memory ==> notes@[0]->source@ == "memory"@
            &&& source is Ocr ==> notes@[0]->source@ == "ocr"@
            &&& notice is Some ==> notes@[1] is Degraded && notes@[1]->reason@ == notice->0@
            &&& disagreed ==> notes@.last() is Degraded && notes@.last()->reason@
                == "memory and OCR reward recognition disagreed"@
        }),
{
    law_capture_is_noted_with_its_troubles(source, elapsed_ms, now, opt_text(notice), disagreed);
    let views = note_views(notes@);
    assert(views.len() == notes@.len());
    assert(views[0] == notes@[0]@);
    if notes@.len() > 1 {
        assert(views[1] == notes@[1]@);
    }
    assert(views.last() == notes@.last()@);
}

/// Each reward on screen is shown in its place, with its own name and the price known for it, or none
/// where none is, and with its worth and how many of it are owned.
pub proof fn law_rewards_are_shown_with_their_figures<F: Fn(&String, &String) -> bool>(
    observed: &[String],
    catalog: &[RewardCatalogEntry],
    held: &[HeldItem],
    prices: &NameMap<u32>,
    matches: F,
    same: spec_fn(String, String) -> bool,
    figures: Vec<RewardFigures>,
    i: int,
)
    requires
        prices.wf(),
        call_ensures(reward_figures::<F>, (observed, catalog, held, prices, &matches), figures),
        forall|a: String, b: String, yes: bool| #[trigger]
            call_ensures(matches, (&a, &b), yes) ==> yes == same(a, b),
        0 <= i < observed@.len(),
    ensures
        figures@.len() == observed@.len(),
        figures@[i].name == observed@[i],
        prices@.contains_key(observed@[i]@) ==> figures@[i].platinum == prices@[observed@[i]@],
        !prices@.contains_key(observed@[i]@) ==> figures@[i].platinum == 0,
        forall|at: int|
            0 <= at < catalog@.len() && same((#[trigger] catalog@[at]).name, observed@[i]) && (forall|
                k: int,
            |
                0 <= k < at ==> !same((#[trigger] catalog@[k]).name, observed@[i]))
                ==> figures@[i].ducats == catalog@[at].ducats,
        forall|at: int|
            0 <= at < held@.len() && same((#[trigger] held@[at]).name, observed@[i]) && (forall|k: int|
                0 <= k < at ==> !same((#[trigger] held@[k]).name, observed@[i])) ==> figures@[i].owned
                == held@[at].quantity,
{
    assert(are_all_figures(matches, catalog@, held@, prices@, observed@, figures@));
    assert(are_figures_of(matches, catalog@, held@, prices@, observed@[i], figures@[i]));
    law_worth_is_that_of_the_first_match(
        matches,
        same,
        catalog@,
        observed@[i],
        figures@[i].ducats,
    );
    law_holding_is_that_of_the_first_match(matches, same, held@, observed@[i], figures@[i].owned);
}

/// At first nothing is known of a fissure: no cards are published, there is no squad, nobody is on
/// record or looked for, and the pool is empty.
pub proof fn law_no_fissure_is_known_at_first(session: RewardSession, pool: RelicPool)
    requires
        call_ensures(RewardSession::new, (), session),
        call_ensures(RelicPool::new, (), pool),
    ensures
        !session@.early_resolved,
        session@.squad is None,
        session@.records == Map::<Seq<char>, String>::empty(),
        session@.scans == Set::<Seq<char>>::empty(),
        pool.relics().len() == 0,
        pool.rewards().len() == 0,
{
}

/// A pool holds what it adopted last: all its rewards, in their order, and the relics they are of.
pub proof fn law_pool_holds_what_it_adopted(
    pool: &mut RelicPool,
    relics: &[String],
    rewards: Vec<RewardCatalogEntry>,
)
    requires
        call_ensures(RelicPool::adopt, (pool, relics, rewards), ()),
    ensures
        final(pool).relics() == relics@,
        forall|entries: &[RewardCatalogEntry]| #[trigger]
            call_ensures(RelicPool::entries, (&*final(pool),), entries) ==> entries@ == rewards@,
        forall|len: usize| #[trigger]
            call_ensures(RelicPool::len, (&*final(pool),), len) ==> len == rewards@.len(),
        forall|empty: bool| #[trigger]
            call_ensures(RelicPool::is_empty, (&*final(pool),), empty) ==> empty == (rewards@.len() == 0),
{
}

} // verus!
