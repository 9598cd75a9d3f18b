use tennoscope::path::FilePath;
use tennoscope::refresh::{
    now_unix_seconds, refresh_outcome, start_once, AcquisitionEnd, InventoryRefreshOutcome,
    RefreshPace, RefreshStep,
};
use tennoscope::report::{build_profile, os_arch, report_log};
use tennoscope::setup::{
    accept_setup_risk, accepted_status, read_setup_status, resolve_local_paths,
    resolve_local_paths_on_windows, SetupRead, SetupStatus,
};

const SECOND: u128 = 1_000_000_000;

#[test]
fn the_local_files_lie_side_by_side() {
    let paths = resolve_local_paths(&FilePath::from_text("/data/tennoscope"));
    assert_eq!(
        paths.setup.as_bytes(),
        b"/data/tennoscope/tennoscope-setup.json"
    );
    assert_eq!(
        paths.database.as_bytes(),
        b"/data/tennoscope/tennoscope.sqlite3"
    );
    assert!(!paths.setup.same_as(&paths.database));
}

#[test]
fn the_local_files_lie_side_by_side_on_windows() {
    for (root, lead) in [(r"C:\data", r"C:\data\"), ("C:", "C:"), ("C:/data/", "C:/data/")] {
        let paths = resolve_local_paths_on_windows(&FilePath::from_text(root));
        assert_eq!(
            paths.setup.as_bytes(),
            format!("{lead}tennoscope-setup.json").as_bytes()
        );
        assert_eq!(
            paths.database.as_bytes(),
            format!("{lead}tennoscope.sqlite3").as_bytes()
        );
    }
}

#[test]
fn nothing_is_agreed_to_by_default() {
    assert!(!SetupStatus::default().risk_accepted);
    for read in [SetupRead::Missing, SetupRead::Garbled] {
        assert!(!read_setup_status(read).unwrap().risk_accepted);
    }
    let read = SetupRead::Parsed {
        status: accepted_status(),
    };
    assert!(read_setup_status(read).unwrap().risk_accepted);
    assert_eq!(
        read_setup_status(SetupRead::Failed).unwrap_err(),
        "setup status could not be read"
    );
}

#[test]
fn an_agreement_has_to_be_saved() {
    assert!(accept_setup_risk(true).unwrap().risk_accepted);
    assert_eq!(
        accept_setup_risk(false).unwrap_err(),
        "setup status could not be saved"
    );
    assert!(accepted_status().clone().risk_accepted);
}

#[test]
fn a_refresh_needs_the_players_agreement() {
    let mut pace = RefreshPace::new();
    assert!(matches!(
        pace.begin(false, 0),
        RefreshStep::Refuse { reason }
            if reason == "accept the read-only process-memory risk disclosure during setup first"
    ));
    assert_eq!(pace, RefreshPace::new());
}

#[test]
fn refreshes_do_not_overlap_or_crowd() {
    let mut pace = RefreshPace::new();
    assert!(matches!(pace.begin(true, 100 * SECOND), RefreshStep::Begin));
    assert!(matches!(pace.begin(true, 200 * SECOND), RefreshStep::Keep));
    pace.finish();
    assert!(matches!(
        pace.begin(true, 115 * SECOND - 1),
        RefreshStep::Keep
    ));
    assert!(matches!(pace.begin(true, 50 * SECOND), RefreshStep::Keep));
    assert!(matches!(pace.begin(true, 115 * SECOND), RefreshStep::Begin));
    assert_eq!(pace.last_started, Some(115 * SECOND));
    assert!(pace.in_flight);
}

#[test]
fn what_starts_once_does_not_start_again() {
    let mut started = false;
    assert!(start_once(&mut started));
    assert!(!start_once(&mut started));
    assert!(started);
}

#[test]
fn a_refresh_says_where_it_ended() {
    assert!(matches!(
        refresh_outcome(AcquisitionEnd::NoCatalog, 9),
        InventoryRefreshOutcome::CatalogFailed
    ));
    assert!(matches!(
        refresh_outcome(
            AcquisitionEnd::Failed {
                reason: "no game".to_owned()
            },
            9
        ),
        InventoryRefreshOutcome::AcquisitionFailed { reason } if reason == "no game"
    ));
    match refresh_outcome(AcquisitionEnd::Acquired, 1700000000) {
        InventoryRefreshOutcome::Success { meta } => {
            assert_eq!(meta.taken_at, "1700000000");
            assert_eq!(meta.game_version, "unknown");
            assert_eq!(meta.source, "warframe-memory");
        }
        _ => panic!("the refresh did not succeed"),
    }
}

#[test]
fn the_time_is_written_in_seconds() {
    assert_eq!(now_unix_seconds(Some(1700000000)), "1700000000");
    assert_eq!(now_unix_seconds(None), "0");
}

#[test]
fn a_report_names_the_system_and_the_build() {
    assert_eq!(os_arch("linux", "x86_64"), "linux/x86_64");
    assert_eq!(build_profile(true), "pre-release");
    assert_eq!(build_profile(false), "stable");
}

#[test]
fn a_report_holds_the_running_games_log_or_the_last_one() {
    let running = FilePath::from_text("/now/EE.log");
    let last = FilePath::from_text("/last/EE.log");
    let shown = |log: Option<FilePath>| log.map(|path| path.as_bytes().to_vec());
    assert_eq!(
        shown(report_log(true, Some(running.clone()), Some(&last))),
        Some(b"/now/EE.log".to_vec())
    );
    assert_eq!(
        shown(report_log(true, None, Some(&last))),
        Some(b"/last/EE.log".to_vec())
    );
    assert!(report_log(true, None, None).is_none());
    assert!(report_log(false, Some(running), Some(&last)).is_none());
}
