use tennoscope::monitor::{
    finish_log_reading, log_monitor_note, plan_log_reading, poll_interval_ms, GameProcess, LogFile,
    LogLookup, LogMonitorDiagnostic, LogMonitorNote, LogPosition, LogReading, MonitorTrack,
    ReadOutcome, ReadingPlan, MAX_READING,
};
use tennoscope::path::FilePath;

fn file(len: u64) -> LogLookup {
    LogLookup::Found(LogFile {
        path: "/p/EE.log".to_owned(),
        len,
        created: Some(5),
    })
}

fn position(pid: Option<u32>, identity: Option<&str>, offset: u64) -> LogPosition {
    LogPosition {
        process_pid: pid,
        log_identity: identity.map(str::to_owned),
        log_offset: offset,
    }
}

fn seen(plan: ReadingPlan) -> (String, u64, Vec<u8>) {
    match plan {
        ReadingPlan::Settled(LogReading::Seen(seen)) => (seen.identity, seen.len, seen.bytes),
        _ => panic!("nothing was seen"),
    }
}

fn to_read(plan: ReadingPlan) -> (String, u64, u64) {
    match plan {
        ReadingPlan::Read {
            identity,
            offset,
            requested,
        } => (identity, offset, requested),
        _ => panic!("nothing is to be read"),
    }
}

#[test]
fn a_missing_log_and_an_unreadable_one_are_told_apart() {
    let at = position(Some(1), None, 0);
    assert!(matches!(
        plan_log_reading(&at, 1, &LogLookup::Missing),
        ReadingPlan::Settled(LogReading::Missing)
    ));
    assert!(matches!(
        plan_log_reading(&at, 1, &LogLookup::Unreadable),
        ReadingPlan::Settled(LogReading::Unreadable)
    ));
}

#[test]
fn a_new_process_is_only_registered() {
    for known in [None, Some(2)] {
        let at = position(known, Some("/p/EE.log:5"), 10);
        assert_eq!(
            seen(plan_log_reading(&at, 1, &file(900))),
            ("/p/EE.log:5".to_owned(), 900, vec![])
        );
    }
}

#[test]
fn a_grown_log_is_read_on() {
    let at = position(Some(1), Some("/p/EE.log:5"), 100);
    assert_eq!(
        to_read(plan_log_reading(&at, 1, &file(160))),
        ("/p/EE.log:5".to_owned(), 100, 60)
    );
    assert_eq!(
        seen(plan_log_reading(&at, 1, &file(100))),
        ("/p/EE.log:5".to_owned(), 100, vec![])
    );
}

#[test]
fn a_shrunken_or_replaced_log_is_read_from_its_start() {
    let at = position(Some(1), Some("/p/EE.log:5"), 100);
    assert_eq!(to_read(plan_log_reading(&at, 1, &file(40))).1, 0);
    let other = position(Some(1), Some("/p/EE.log:4"), 100);
    assert_eq!(
        to_read(plan_log_reading(&other, 1, &file(160))),
        ("/p/EE.log:5".to_owned(), 0, 160)
    );
    assert_eq!(seen(plan_log_reading(&other, 1, &file(0))).1, 0);
}

#[test]
fn one_reading_is_limited() {
    let at = position(Some(1), Some("/p/EE.log:5"), 1);
    assert_eq!(
        to_read(plan_log_reading(&at, 1, &file(5_000_000))).2,
        MAX_READING
    );
    assert_eq!(MAX_READING, 1024 * 1024);
}

#[test]
fn a_reading_on_is_all_news() {
    let outcome = ReadOutcome::Bytes {
        bytes: b"news".to_vec(),
        keep: None,
    };
    let (reading, news) = finish_log_reading("id".to_owned(), 100, 160, outcome);
    assert_eq!(news, b"news");
    assert_eq!(
        seen(ReadingPlan::Settled(reading)),
        ("id".to_owned(), 104, b"news".to_vec())
    );
}

#[test]
fn a_reading_from_the_start_leaves_earlier_sessions_out() {
    let outcome = ReadOutcome::Bytes {
        bytes: b"oldnew".to_vec(),
        keep: Some(3),
    };
    let (reading, news) = finish_log_reading("id".to_owned(), 0, 6, outcome);
    assert_eq!(news, b"new");
    assert_eq!(
        seen(ReadingPlan::Settled(reading)),
        ("id".to_owned(), 6, b"new".to_vec())
    );
}

#[test]
fn a_log_of_an_earlier_session_is_passed_over_whole() {
    let outcome = ReadOutcome::Bytes {
        bytes: b"old".to_vec(),
        keep: None,
    };
    let (reading, news) = finish_log_reading("id".to_owned(), 0, 5_000_000, outcome);
    assert!(news.is_empty());
    assert_eq!(
        seen(ReadingPlan::Settled(reading)),
        ("id".to_owned(), 5_000_000, vec![])
    );
}

#[test]
fn a_failed_reading_is_no_news() {
    let (reading, news) = finish_log_reading("id".to_owned(), 3, 9, ReadOutcome::Failed);
    assert!(matches!(reading, LogReading::Unreadable));
    assert!(news.is_empty());
}

#[test]
fn consecutive_readings_leave_nothing_out() {
    let content: Vec<u8> = (0..2_500_000u32).map(|i| i as u8).collect();
    let mut at = position(Some(1), Some("/p/EE.log:5"), 7);
    let mut taken: Vec<u8> = Vec::new();
    loop {
        match plan_log_reading(&at, 1, &file(content.len() as u64)) {
            ReadingPlan::Settled(_) => break,
            ReadingPlan::Read {
                identity,
                offset,
                requested,
            } => {
                let bytes = content[offset as usize..(offset + requested) as usize].to_vec();
                let outcome = ReadOutcome::Bytes { bytes, keep: None };
                let (reading, news) =
                    finish_log_reading(identity, offset, content.len() as u64, outcome);
                let (identity, len, _) = seen(ReadingPlan::Settled(reading));
                taken.extend(news);
                at = position(Some(1), Some(&identity), len);
            }
        }
    }
    assert_eq!(taken, content[7..]);
}

#[test]
fn a_game_is_announced_once() {
    let mut track = MonitorTrack::new();
    let first = GameProcess {
        pid: 7,
        instance: 1,
    };
    let second = GameProcess {
        pid: 7,
        instance: 2,
    };
    assert!(!track.observe_process(None));
    assert!(track.observe_process(Some(first)));
    assert!(!track.observe_process(Some(first)));
    assert!(track.observe_process(Some(second)));
    assert!(!track.observe_process(None));
    assert!(track.observe_process(Some(second)));
}

#[test]
fn a_lost_game_that_returns_is_a_change() {
    let mut track = MonitorTrack::new();
    let game = GameProcess {
        pid: 7,
        instance: 1,
    };
    let log = FilePath::from_text("/p/EE.log");
    assert!(!track.is_lost(None));
    track.observe_process(Some(game));
    assert!(track.observe_log(7, Some(log.clone())));
    assert!(!track.is_lost(Some(game)));
    track.observe_process(Some(game));
    assert!(!track.observe_log(7, Some(log.clone())));
    assert!(track.is_lost(None));
    track.observe_process(None);
    assert!(!track.is_lost(None));
    assert!(track.resolution.is_none());
    track.observe_process(Some(game));
    assert!(track.observe_log(7, Some(log)));
    assert_eq!(track.last_log.unwrap().as_bytes(), b"/p/EE.log");
}

#[test]
fn a_long_log_is_taken_in_one_reading_after_another() {
    let at = position(Some(1), Some("/p/EE.log:5"), 7);
    let (_, offset, requested) = to_read(plan_log_reading(&at, 1, &file(3 * MAX_READING)));
    assert_eq!((offset, requested), (7, MAX_READING));
    let next = position(Some(1), Some("/p/EE.log:5"), offset + requested);
    let (_, offset, requested) = to_read(plan_log_reading(&next, 1, &file(3 * MAX_READING)));
    assert_eq!((offset, requested), (7 + MAX_READING, MAX_READING));
}

#[test]
fn the_last_log_outlives_the_game() {
    let mut track = MonitorTrack::new();
    let log = FilePath::from_text("/p/EE.log");
    assert!(track.observe_log(7, Some(log.clone())));
    assert!(!track.observe_log(7, Some(log.clone())));
    assert!(!track.observe_log(7, None));
    assert!(track.observe_log(8, None));
    assert_eq!(track.last_log.unwrap().as_bytes(), b"/p/EE.log");
}

#[test]
fn the_log_monitor_says_how_it_fares() {
    assert!(matches!(
        log_monitor_note(LogMonitorDiagnostic::Ready),
        LogMonitorNote::Ready
    ));
    assert!(matches!(
        log_monitor_note(LogMonitorDiagnostic::Unavailable),
        LogMonitorNote::Idle(message) if message == "Waiting for Warframe"
    ));
    assert!(matches!(
        log_monitor_note(LogMonitorDiagnostic::ReadFailed),
        LogMonitorNote::Failed(message) if message == "EE.log could not be read"
    ));
}

#[test]
fn the_monitor_hurries_while_rewards_are_chosen() {
    assert_eq!(poll_interval_ms(true), 10);
    assert_eq!(poll_interval_ms(false), 100);
}
