use tennoscope::keyed::{NameMap, NameSet};
use tennoscope::relic_pool::{last_step_of, relic_pool_entries, RelicPool, RewardCatalogEntry};
use tennoscope::reward_choices::{
    after_scan, assemble_player_record_choices, local_choice, release_player_record_scan,
    reward_path_matches, rotate_choices_to_local, scan_is_wanted, store_player_record_if_current,
    traced_identity, RewardNeedle, RewardResolution, ScanStep,
};
use tennoscope::reward_publish::{
    capture_notes, card_request, reward_figures, CaptureNote, HeldItem, RewardChoiceSource,
};
use tennoscope::reward_session::PendingRewardSquad;

fn list(names: &[&str]) -> Vec<String> {
    names.iter().map(|name| (*name).to_owned()).collect()
}

fn entry(name: &str, ducats: u32) -> RewardCatalogEntry {
    RewardCatalogEntry {
        name: name.to_owned(),
        ducats,
    }
}

fn needle(name: &str, paths: &[&[u8]]) -> RewardNeedle {
    RewardNeedle {
        choice_name: name.to_owned(),
        internal_paths: paths.iter().map(|path| path.to_vec()).collect(),
    }
}

fn same_name(a: &String, b: &String) -> bool {
    a.eq_ignore_ascii_case(b)
}

fn confirmed(names: &[&str]) -> RewardResolution {
    RewardResolution::Confirmed {
        choices: list(names),
    }
}

#[test]
fn choices_turn_until_the_local_one_is_first() {
    let mut choices = list(&["a", "b", "c", "d"]);
    rotate_choices_to_local(&mut choices, "c");
    assert_eq!(choices, ["c", "d", "a", "b"]);
    rotate_choices_to_local(&mut choices, "c");
    assert_eq!(choices, ["c", "d", "a", "b"]);
    rotate_choices_to_local(&mut choices, "x");
    assert_eq!(choices, ["c", "d", "a", "b"]);
    let mut twice = list(&["a", "b", "b"]);
    rotate_choices_to_local(&mut twice, "b");
    assert_eq!(twice, ["b", "b", "a"]);
    let mut none: Vec<String> = vec![];
    rotate_choices_to_local(&mut none, "a");
    assert!(none.is_empty());
}

#[test]
fn a_store_path_names_the_item_in_the_catalog() {
    assert!(reward_path_matches("/Lotus/Types/A", "/Lotus/Types/A"));
    assert!(reward_path_matches("/Lotus/StoreItems/Types/A", "/Lotus/Types/A"));
    assert!(!reward_path_matches("/Lotus/Types/A", "/Lotus/StoreItems/Types/A"));
    assert!(!reward_path_matches("/Lotus/StoreItems/Types/A", "/Lotus/Types/B"));
    assert!(!reward_path_matches("/Lotus/StoreItems/Types/A", "/Types/A"));
    assert!(reward_path_matches("/Lotus/StoreItems", "/Lotus"));
    assert!(reward_path_matches("", ""));
}

#[test]
fn the_log_names_the_local_choice() {
    let candidates = [
        needle("First", &[b"/Lotus/Types/A", b"\xff\xfe"]),
        needle("Second", &[b"/Lotus/Types/B", b"/Lotus/Types/A"]),
    ];
    assert_eq!(
        local_choice(&candidates, Some("/Lotus/StoreItems/Types/A")).as_deref(),
        Some("First")
    );
    assert_eq!(
        local_choice(&candidates, Some("/Lotus/Types/B")).as_deref(),
        Some("Second")
    );
    assert_eq!(local_choice(&candidates, Some("/Lotus/Types/C")), None);
    assert_eq!(local_choice(&candidates, None), None);
}

#[test]
fn a_path_that_is_no_text_reads_as_nothing() {
    let candidates = [needle("Odd", &[b"\xff\xfe"])];
    assert_eq!(
        local_choice(&candidates, Some("")).as_deref(),
        Some("Odd")
    );
    assert_eq!(local_choice(&candidates, Some("/Lotus")), None);
}

fn records(entries: &[(&str, &str)]) -> NameMap<String> {
    let mut map = NameMap::new();
    for (identity, choice) in entries {
        map.insert((*identity).to_owned(), (*choice).to_owned());
    }
    map
}

#[test]
fn the_squads_choices_begin_with_the_local_one() {
    let known = records(&[("b", "Choice B"), ("c", "Choice C")]);
    assert_eq!(
        assemble_player_record_choices(&["c", "a", "b"], Some("a"), Some("Mine"), &known),
        Some(list(&["Mine", "Choice C", "Choice B"]))
    );
}

#[test]
fn an_incomplete_squad_has_no_choices() {
    let known = records(&[("b", "Choice B")]);
    let squad = ["a", "b", "c"];
    assert_eq!(
        assemble_player_record_choices(&squad, Some("a"), Some("Mine"), &known),
        None
    );
    let squad = ["a", "b"];
    assert_eq!(
        assemble_player_record_choices(&squad, None, Some("Mine"), &known),
        None
    );
    assert_eq!(
        assemble_player_record_choices(&squad, Some("a"), None, &known),
        None
    );
    assert_eq!(
        assemble_player_record_choices(&["b"], Some("a"), Some("Mine"), &known),
        None
    );
    assert_eq!(
        assemble_player_record_choices(&["a", "a", "b"], Some("a"), Some("Mine"), &known),
        None
    );
}

#[test]
fn a_record_is_kept_only_while_it_is_wanted() {
    let mut known: NameMap<String> = NameMap::new();
    store_player_record_if_current(3, 4, 4, "a", confirmed(&["X"]), &mut known);
    assert!(known.is_empty());
    store_player_record_if_current(3, 3, 4, "a", confirmed(&["X"]), &mut known);
    assert!(known.is_empty());
    store_player_record_if_current(3, 3, 3, "a", confirmed(&["X", "Y"]), &mut known);
    assert!(known.is_empty());
    store_player_record_if_current(3, 3, 3, "a", RewardResolution::Incomplete, &mut known);
    assert!(known.is_empty());
    store_player_record_if_current(3, 3, 3, "a", confirmed(&["X"]), &mut known);
    assert_eq!(known.get("a").map(String::as_str), Some("X"));
}

#[test]
fn the_end_of_a_scan_makes_room() {
    let mut active = NameSet::new();
    active.insert("a".to_owned());
    active.insert("b".to_owned());
    release_player_record_scan("a", &mut active);
    assert!(!active.contains("a"));
    assert!(active.contains("b"));
    release_player_record_scan("x", &mut active);
    assert!(active.contains("b"));
}

#[test]
fn a_scan_is_repeated_until_one_choice_is_confirmed() {
    assert!(scan_is_wanted(5, 5));
    assert!(!scan_is_wanted(5, 6));
    assert!(matches!(
        after_scan(confirmed(&["X"]), 900, 750),
        ScanStep::Ready(RewardResolution::Confirmed { choices }) if choices == ["X"]
    ));
    assert!(matches!(
        after_scan(confirmed(&["X", "Y"]), 100, 750),
        ScanStep::Retry { after_ms: 25 }
    ));
    assert!(matches!(
        after_scan(RewardResolution::Incomplete, 749, 750),
        ScanStep::Retry { after_ms: 25 }
    ));
    assert!(matches!(
        after_scan(RewardResolution::Incomplete, 750, 750),
        ScanStep::GiveUp
    ));
}

#[test]
fn an_identity_is_noted_down_by_its_end() {
    assert_eq!(traced_identity("0123456789abcdef"), "abcdef");
    assert_eq!(traced_identity("abcdef"), "abcdef");
    assert_eq!(traced_identity("abc"), "abc");
    assert_eq!(traced_identity(""), "");
    assert_eq!(traced_identity("xxüabcde"), "xxüabcde");
    assert_eq!(traced_identity("xxüabcd"), "üabcd");
}

#[test]
fn a_pool_is_replaced_however_large_it_was() {
    let mut pool = RelicPool::new();
    assert!(pool.is_empty());
    let large: Vec<RewardCatalogEntry> = (0..38).map(|i| entry(&format!("old {i}"), i)).collect();
    pool.adopt(&list(&["/Lotus/Relics/Old"]), large);
    assert_eq!(pool.len(), 38);
    pool.adopt(
        &list(&["/Lotus/Relics/LithA1", "MesoB2", "/Lotus/"]),
        vec![entry("new", 15)],
    );
    assert_eq!(pool.len(), 1);
    assert!(!pool.is_empty());
    assert_eq!(pool.entries()[0].name, "new");
    assert_eq!(pool.entries()[0].ducats, 15);
    let trace = pool.trace_published(&list(&["new", "newer"]));
    assert_eq!(trace.names, ["new", "newer"]);
    assert_eq!(trace.pool, 1);
    assert_eq!(trace.relics, ["LithA1", "MesoB2", ""]);
    let copy = pool.clone();
    assert_eq!(copy.len(), 1);
    assert_eq!(copy.entries()[0].name, "new");
    assert_eq!(copy.trace_published(&[]).relics, ["LithA1", "MesoB2", ""]);
    assert!(RelicPool::default().is_empty());
}

#[test]
fn the_last_step_stands_behind_the_last_slash() {
    for path in ["/a/b/c", "c", "", "/", "a/", "ä/ö"] {
        assert_eq!(last_step_of(path), path.rsplit('/').next().unwrap());
    }
}

#[test]
fn pool_entries_take_their_worth_from_the_catalog() {
    let catalog = [entry("ALPHA", 15), entry("Alpha", 45), entry("Beta", 100)];
    let entries = relic_pool_entries(
        &[needle("alpha", &[]), needle("Gamma", &[]), needle("Beta", &[])],
        &catalog,
        &same_name,
    );
    let found: Vec<(&str, u32)> = entries
        .iter()
        .map(|entry| (entry.name.as_str(), entry.ducats))
        .collect();
    assert_eq!(found, [("alpha", 15), ("Gamma", 0), ("Beta", 100)]);
}

#[test]
fn a_card_request_holds_all_a_reading_needs() {
    let squad = PendingRewardSquad {
        screen_order: list(&["p1", "p2", "p3"]),
        local_reward_path: Some("/Lotus/StoreItems/Types/B".to_owned()),
    };
    let candidates = [
        needle("Alpha", &[b"/Lotus/Types/A"]),
        needle("Beta", &[b"/Lotus/Types/B"]),
    ];
    let request = card_request(&squad, &candidates, &[entry("beta", 45)], &same_name);
    assert_eq!(request.expected, 3);
    assert_eq!(request.local_choice.as_deref(), Some("Beta"));
    assert_eq!(request.deadline_ms, 8_000);
    assert_eq!(request.pool.len(), 2);
    assert_eq!(request.pool[0].ducats, 0);
    assert_eq!(request.pool[1].ducats, 45);
}

#[test]
fn a_capture_is_noted_before_its_troubles() {
    let notes = capture_notes(
        RewardChoiceSource::Ocr,
        120,
        1700000000,
        Some("borderless".to_owned()),
        true,
    );
    assert_eq!(notes.len(), 3);
    assert!(matches!(
        &notes[0],
        CaptureNote::Ready { source, elapsed_ms: 120, at } if source == "ocr" && at == "1700000000"
    ));
    assert!(matches!(&notes[1], CaptureNote::Degraded { reason } if reason == "borderless"));
    assert!(matches!(
        &notes[2],
        CaptureNote::Degraded { reason } if reason == "memory and OCR reward recognition disagreed"
    ));
    let notes = capture_notes(RewardChoiceSource::Memory, 0, 0, None, false);
    assert_eq!(notes.len(), 1);
    assert!(matches!(
        &notes[0],
        CaptureNote::Ready { source, at, .. } if source == "memory" && at == "0"
    ));
}

#[test]
fn figures_are_found_for_every_reward() {
    let mut prices = NameMap::new();
    prices.insert("Alpha".to_owned(), 12);
    let held = [
        HeldItem {
            name: "beta".to_owned(),
            quantity: 3,
        },
        HeldItem {
            name: "Beta".to_owned(),
            quantity: 9,
        },
    ];
    let figures = reward_figures(
        &list(&["Alpha", "Beta"]),
        &[entry("alpha", 45)],
        &held,
        &prices,
        &same_name,
    );
    let found: Vec<(&str, u32, u32, u32)> = figures
        .iter()
        .map(|f| (f.name.as_str(), f.platinum, f.ducats, f.owned))
        .collect();
    assert_eq!(found, [("Alpha", 12, 45, 0), ("Beta", 0, 0, 3)]);
}
