use tennoscope::reward_choices::RewardResolution;
use tennoscope::reward_session::{RewardAction, RewardLogEvent, RewardSession};

fn expected(identity: &str) -> RewardLogEvent {
    RewardLogEvent::ResponderExpected {
        identity: identity.to_owned(),
    }
}

fn received(identity: &str, is_local: bool) -> RewardLogEvent {
    RewardLogEvent::ResponderReceived {
        identity: identity.to_owned(),
        is_local,
    }
}

fn complete(squad: &[&str]) -> RewardLogEvent {
    RewardLogEvent::ResponsesComplete {
        screen_order: squad.iter().map(|name| (*name).to_owned()).collect(),
        local_reward_path: Some("/Lotus/A".to_owned()),
    }
}

fn baseline() -> RewardLogEvent {
    RewardLogEvent::BaselineRequested {
        relic_paths: vec!["/Lotus/Relic".to_owned()],
    }
}

fn confirmed(name: &str) -> RewardResolution {
    RewardResolution::Confirmed {
        choices: vec![name.to_owned()],
    }
}

fn started(action: RewardAction) -> u64 {
    match action {
        RewardAction::ScanRecord { generation, .. } => generation,
        _ => panic!("no scan was started"),
    }
}

#[test]
fn an_opening_window_resets_the_recent_writes_of_a_running_game() {
    let mut session = RewardSession::new();
    assert!(matches!(
        session.handle_reward_event(RewardLogEvent::RewardWindowOpened, true, false),
        RewardAction::ResetRecentWrites
    ));
    assert!(matches!(
        session.handle_reward_event(RewardLogEvent::RewardWindowOpened, false, false),
        RewardAction::Rest
    ));
}

#[test]
fn a_player_is_scanned_for_once() {
    let mut session = RewardSession::new();
    assert_eq!(started(session.handle_reward_event(expected("p"), true, true)), 0);
    assert!(matches!(
        session.handle_reward_event(received("p", false), true, true),
        RewardAction::Rest
    ));
    session.finish_scan(0, "p", confirmed("X"));
    assert_eq!(session.records().get("p").map(String::as_str), Some("X"));
    assert_eq!(started(session.handle_reward_event(received("p", false), true, true)), 0);
}

#[test]
fn no_scan_starts_without_need_or_means() {
    let mut session = RewardSession::new();
    for (event, process_present, has_candidates) in [
        (expected("p"), false, true),
        (expected("p"), true, false),
        (received("p", true), true, true),
        (received("p", false), false, true),
    ] {
        assert!(matches!(
            session.handle_reward_event(event, process_present, has_candidates),
            RewardAction::Rest
        ));
    }
    assert_eq!(started(session.handle_reward_event(expected("p"), true, true)), 0);
}

#[test]
fn a_record_of_an_earlier_fissure_is_dropped() {
    let mut session = RewardSession::new();
    let generation = started(session.handle_reward_event(expected("p"), true, true));
    session.handle_reward_event(baseline(), true, true);
    session.finish_scan(generation, "p", confirmed("X"));
    assert!(session.records().is_empty());
    assert_eq!(started(session.handle_reward_event(expected("p"), true, true)), 1);
    session.finish_scan(1, "p", confirmed("Y"));
    assert_eq!(session.records().get("p").map(String::as_str), Some("Y"));
}

#[test]
fn several_choices_are_no_record() {
    let mut session = RewardSession::new();
    let resolution = RewardResolution::Confirmed {
        choices: vec!["X".to_owned(), "Y".to_owned()],
    };
    session.finish_scan(0, "p", resolution);
    session.finish_scan(0, "q", RewardResolution::Incomplete);
    assert!(session.records().is_empty());
}

#[test]
fn a_complete_squad_is_read_off_the_screen() {
    let mut session = RewardSession::new();
    match session.handle_reward_event(complete(&["a", "b"]), true, true) {
        RewardAction::ReadCards { squad, announced } => {
            assert_eq!(squad.screen_order, ["a", "b"]);
            assert_eq!(squad.local_reward_path.as_deref(), Some("/Lotus/A"));
            assert!(!announced);
        }
        _ => panic!("the cards are not read"),
    }
    assert_eq!(session.finish_reading(false, false), None);
    assert!(!session.early_resolved());
    match session.handle_reward_event(
        RewardLogEvent::ChoicesReady {
            expected_choices: 2,
        },
        true,
        true,
    ) {
        RewardAction::ReadCards { squad, announced } => {
            assert_eq!(squad.screen_order, ["a", "b"]);
            assert!(announced);
        }
        _ => panic!("the cards are not read"),
    }
    assert_eq!(session.finish_reading(true, true), None);
    assert!(session.early_resolved());
}

#[test]
fn a_squad_without_a_game_is_only_remembered() {
    let mut session = RewardSession::new();
    assert!(matches!(
        session.handle_reward_event(complete(&["a"]), false, true),
        RewardAction::Rest
    ));
    assert!(matches!(
        session.handle_reward_event(
            RewardLogEvent::ChoicesReady {
                expected_choices: 1
            },
            false,
            true
        ),
        RewardAction::Rest
    ));
    assert!(matches!(
        session.handle_reward_event(
            RewardLogEvent::ChoicesReady {
                expected_choices: 1
            },
            true,
            true
        ),
        RewardAction::ReadCards { .. }
    ));
}

#[test]
fn announced_choices_need_a_squad_of_that_size() {
    let mut session = RewardSession::new();
    let reason_of = |action| match action {
        RewardAction::Degrade { reason } => reason,
        _ => panic!("the capture is not degraded"),
    };
    let reason = reason_of(session.handle_reward_event(
        RewardLogEvent::ChoicesReady {
            expected_choices: 4,
        },
        true,
        true,
    ));
    assert_eq!(reason, "Structured reward records were incomplete");
    session.handle_reward_event(complete(&["a", "b"]), true, true);
    let reason = reason_of(session.handle_reward_event(
        RewardLogEvent::ChoicesReady {
            expected_choices: 4,
        },
        true,
        true,
    ));
    assert_eq!(reason, "Structured reward records were incomplete");
    assert_eq!(
        session.finish_reading(false, true).as_deref(),
        Some("Structured reward records were incomplete")
    );
}

#[test]
fn a_settled_fissure_asks_for_nothing_more() {
    let mut session = RewardSession::new();
    session.handle_reward_event(complete(&["a", "b"]), true, true);
    session.finish_reading(true, false);
    for event in [
        expected("p"),
        received("p", false),
        RewardLogEvent::ChoicesReady {
            expected_choices: 2,
        },
    ] {
        assert!(matches!(
            session.handle_reward_event(event, true, true),
            RewardAction::Rest
        ));
    }
    let end = session.end_tick(Some(vec!["A".to_owned(), "B".to_owned()]), false, true);
    assert!(end.publish.is_none());
}

#[test]
fn the_pollers_reading_counts_once() {
    let mut session = RewardSession::new();
    let end = session.end_tick(Some(vec!["A".to_owned(), "B".to_owned()]), true, true);
    assert_eq!(end.publish.unwrap(), ["A", "B"]);
    assert!(end.cards_gone);
    assert!(!end.game_gone);
    assert!(session.early_resolved());
    let end = session.end_tick(Some(vec!["C".to_owned(), "D".to_owned()]), false, true);
    assert!(end.publish.is_none());
    assert!(!end.cards_gone);
}

#[test]
fn a_game_that_is_gone_takes_its_records_along() {
    let mut session = RewardSession::new();
    session.finish_scan(0, "p", confirmed("X"));
    let end = session.end_tick(None, false, false);
    assert!(end.game_gone && end.publish.is_none());
    assert!(session.records().is_empty());
    assert_eq!(session.generation(), 1);
}

#[test]
fn loaded_relics_begin_a_fissure() {
    let mut session = RewardSession::new();
    session.end_tick(Some(vec![]), false, true);
    match session.handle_reward_event(baseline(), true, false) {
        RewardAction::PreparePool { relic_paths } => assert_eq!(relic_paths, ["/Lotus/Relic"]),
        _ => panic!("no pool is prepared"),
    }
    assert!(!session.early_resolved());
    assert!(matches!(
        session.handle_reward_event(baseline(), false, false),
        RewardAction::DropMemory
    ));
    assert_eq!(session.generation(), 2);
}

#[test]
fn a_closed_screen_is_torn_down() {
    let mut session = RewardSession::new();
    session.handle_reward_event(complete(&["a"]), true, true);
    session.finish_reading(true, false);
    session.finish_scan(0, "p", confirmed("X"));
    assert!(matches!(
        session.handle_reward_event(RewardLogEvent::Closed, true, true),
        RewardAction::TearDown
    ));
    assert!(!session.early_resolved());
    assert!(session.records().is_empty());
    assert_eq!(session.generation(), 1);
    assert!(matches!(
        session.handle_reward_event(
            RewardLogEvent::ChoicesReady {
                expected_choices: 1
            },
            true,
            true
        ),
        RewardAction::Degrade { .. }
    ));
}
