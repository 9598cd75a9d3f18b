use tennoscope::poller::{
    arm_poller, poller_wake, Poller, PollerStep, PollerTiming, PollerWake,
};

fn cards(count: usize) -> Option<Vec<String>> {
    Some((0..count).map(|i| format!("card {i}")).collect())
}

fn wait(step: PollerStep) -> u128 {
    match step {
        PollerStep::Wait { nanos } => nanos,
        _ => panic!("the poller does not wait"),
    }
}

#[test]
fn the_live_timing_has_two_rates() {
    let timing = PollerTiming::live();
    assert_eq!(timing.interval_nanos, 2_000_000_000);
    assert_eq!(timing.watch_interval_nanos, 400_000_000);
    assert_eq!(timing.lifetime_nanos, 2_700_000_000_000);
}

#[test]
fn arming_for_an_empty_pool_claims_nothing() {
    let mut polling = false;
    assert!(!arm_poller(0, &mut polling));
    assert!(!polling);
    assert!(arm_poller(11, &mut polling));
    assert!(polling);
    assert!(!arm_poller(17, &mut polling));
    assert!(!arm_poller(0, &mut polling));
    assert!(polling);
}

#[test]
fn a_poller_stops_when_it_is_not_wanted_or_too_old() {
    let timing = PollerTiming::live();
    assert_eq!(poller_wake(&timing, false, false, 4), PollerWake::Stop);
    assert_eq!(poller_wake(&timing, true, true, 4), PollerWake::Stop);
    assert_eq!(
        poller_wake(&timing, true, false, 0),
        PollerWake::Wait { nanos: 2_000_000_000 }
    );
    assert_eq!(poller_wake(&timing, true, false, 4), PollerWake::Read);
}

#[test]
fn cards_are_published_once() {
    let timing = PollerTiming::live();
    let mut poller = Poller::new();
    assert_eq!(wait(poller.observe(&timing, None, true)), 2_000_000_000);
    match poller.observe(&timing, cards(3), true) {
        PollerStep::Publish { names, wait_nanos } => {
            assert_eq!(names, ["card 0", "card 1", "card 2"]);
            assert_eq!(wait_nanos, 400_000_000);
        }
        _ => panic!("nothing was published"),
    }
    assert_eq!(wait(poller.observe(&timing, cards(4), true)), 400_000_000);
}

#[test]
fn a_timing_can_be_finer_than_a_millisecond() {
    let timing = PollerTiming {
        interval_nanos: 1_500,
        watch_interval_nanos: 250,
        lifetime_nanos: 9_000,
    };
    let mut poller = Poller::new();
    assert_eq!(
        poller_wake(&timing, true, false, 0),
        PollerWake::Wait { nanos: 1_500 }
    );
    assert_eq!(wait(poller.observe(&timing, None, true)), 1_500);
    poller.observe(&timing, cards(4), true);
    assert_eq!(wait(poller.observe(&timing, None, true)), 250);
}

#[test]
fn one_card_is_no_choice() {
    let timing = PollerTiming::live();
    let mut poller = Poller::new();
    assert_eq!(wait(poller.observe(&timing, cards(1), true)), 2_000_000_000);
    assert!(matches!(
        poller.observe(&timing, cards(2), true),
        PollerStep::Publish { .. }
    ));
}

#[test]
fn cards_that_cannot_be_handed_over_are_found_again() {
    let timing = PollerTiming::live();
    let mut poller = Poller::new();
    assert_eq!(wait(poller.observe(&timing, cards(4), false)), 2_000_000_000);
    assert!(matches!(
        poller.observe(&timing, cards(4), true),
        PollerStep::Publish { .. }
    ));
}

#[test]
fn cards_are_gone_after_two_failures_in_a_row() {
    let timing = PollerTiming::live();
    let mut poller = Poller::new();
    poller.observe(&timing, cards(4), true);
    assert_eq!(wait(poller.observe(&timing, None, true)), 400_000_000);
    assert_eq!(wait(poller.observe(&timing, cards(4), true)), 400_000_000);
    assert_eq!(wait(poller.observe(&timing, cards(1), true)), 400_000_000);
    assert!(matches!(
        poller.observe(&timing, None, true),
        PollerStep::Gone
    ));
}

#[test]
fn failures_before_the_cards_do_not_count() {
    let timing = PollerTiming::live();
    let mut poller = Poller::new();
    for _ in 0..10 {
        assert_eq!(wait(poller.observe(&timing, None, true)), 2_000_000_000);
    }
    assert!(!poller.found);
    assert_eq!(poller.misses, 0);
}
