use tennoscope::keyed::NameMap;
use tennoscope::price_table::{table_step, TableAction, TableEvent};
use tennoscope::prices::{
    checked_updates, dump_note, fill_failure, fill_prices, fill_success, names_to_warm,
    refresh_notes, split_by_cache, start_from_saved, DumpOutcome, Persisted, PriceNote,
    PriceUpdate, PricingPass, SavedTable, WarmOutcome,
};
use tennoscope::relic_pool::RewardCatalogEntry;

fn list(names: &[&str]) -> Vec<String> {
    names.iter().map(|name| (*name).to_owned()).collect()
}

fn outcome(stored: usize, no_sellers: usize, unavailable: usize, oversize: usize) -> WarmOutcome {
    WarmOutcome {
        stored,
        no_sellers,
        unavailable,
        oversize,
    }
}

fn table(saved: bool) -> Persisted {
    Persisted {
        priced: 7,
        date: "2026-08-20".to_owned(),
        saved,
    }
}

#[test]
fn only_prices_that_are_not_at_hand_are_asked_for() {
    let names = list(&["a", "b", "c", "b"]);
    let (mut prices, missing) = split_by_cache(&names, &[Some(5), None, None, Some(9)]);
    assert_eq!(missing, ["c"]);
    assert_eq!(prices.get("a"), Some(&5));
    assert_eq!(prices.get("b"), Some(&9));
    fill_prices(&mut prices, &missing, &[Some(3)]);
    assert_eq!(prices.get("c"), Some(&3));
    assert_eq!(prices.len(), 3);
}

#[test]
fn a_price_that_is_not_found_stays_unknown() {
    let (mut prices, missing) = split_by_cache(&list(&["a", "a"]), &[None, None]);
    assert_eq!(missing, ["a", "a"]);
    fill_prices(&mut prices, &missing, &[None, None]);
    assert!(prices.is_empty());
}

#[test]
fn an_unpriced_screen_says_why() {
    let none: NameMap<u32> = NameMap::new();
    assert!(matches!(
        fill_failure(None, &none),
        Some(PriceNote::MarketDegraded { reason })
            if reason == "warframe.market pricing is unavailable for these rewards"
    ));
    assert!(matches!(
        fill_failure(Some("too long".to_owned()), &none),
        Some(PriceNote::MarketDegraded { reason }) if reason == "too long"
    ));
    assert!(fill_success(&none, 5).is_none());
    let mut some = NameMap::new();
    some.insert("a".to_owned(), 1u32);
    assert!(fill_failure(None, &some).is_none());
    assert!(matches!(
        fill_failure(Some("too long".to_owned()), &some),
        Some(PriceNote::MarketDegraded { reason }) if reason == "too long"
    ));
    assert!(matches!(
        fill_success(&some, 5),
        Some(PriceNote::MarketReady { priced: 1, at }) if at == "5"
    ));
}

#[test]
fn an_empty_pool_is_not_warmed() {
    assert!(names_to_warm(&[]).is_none());
    let pool = [
        RewardCatalogEntry {
            name: "a".to_owned(),
            ducats: 1,
        },
        RewardCatalogEntry {
            name: "b".to_owned(),
            ducats: 2,
        },
    ];
    assert_eq!(names_to_warm(&pool).unwrap(), ["a", "b"]);
}

#[test]
fn a_pass_asks_about_one_name_at_a_time() {
    let mut pass = PricingPass::new(list(&["a", "b", "c"]));
    let mut shown = vec![];
    let mut answers = vec![outcome(1, 0, 0, 0), outcome(0, 1, 0, 0), outcome(0, 0, 1, 1)];
    while let Some((progress, name)) = pass.next() {
        shown.push((progress.done, progress.total, name.clone()));
        pass.record(answers.remove(0));
    }
    assert_eq!(
        shown,
        [
            (0, 3, "a".to_owned()),
            (1, 3, "b".to_owned()),
            (2, 3, "c".to_owned())
        ]
    );
    assert_eq!(pass.total(), outcome(1, 1, 1, 1));
    assert_eq!(pass.unpriced(), ["b"]);
}

#[test]
fn a_pass_over_nothing_is_over() {
    let pass = PricingPass::new(vec![]);
    assert!(pass.next().is_none());
    assert_eq!(pass.total(), outcome(0, 0, 0, 0));
    assert!(pass.unpriced().is_empty());
}

#[test]
fn found_prices_come_before_marks() {
    let updates = checked_updates(
        &list(&["a", "b", "c"]),
        &[Some(4), None, Some(6)],
        &list(&["b"]),
    );
    assert_eq!(updates.len(), 3);
    assert!(matches!(&updates[0], PriceUpdate::Checked { name, platinum: 4 } if name == "a"));
    assert!(matches!(&updates[1], PriceUpdate::Checked { name, platinum: 6 } if name == "c"));
    assert!(matches!(&updates[2], PriceUpdate::Unpriced { name } if name == "b"));
}

#[test]
fn a_refresh_reports_the_market_and_the_disk() {
    let notes = refresh_notes(Some("busy".to_owned()), Some(table(false)), true);
    assert_eq!(notes.len(), 2);
    assert!(matches!(&notes[0], PriceNote::MarketDegraded { reason } if reason == "busy"));
    assert!(matches!(
        &notes[1],
        PriceNote::CollectionDegraded { reason }
            if reason == "Checked prices could not be saved for the next start"
    ));
    let notes = refresh_notes(None, Some(table(true)), true);
    assert_eq!(notes.len(), 1);
    assert!(matches!(
        &notes[0],
        PriceNote::CollectionReady { priced: 7, date } if date == "2026-08-20"
    ));
    assert!(refresh_notes(None, None, true).is_empty());
}

#[test]
fn a_refresh_does_not_hide_a_start_without_prices() {
    assert!(refresh_notes(None, Some(table(true)), false).is_empty());
    let notes = refresh_notes(Some("busy".to_owned()), Some(table(true)), false);
    assert_eq!(notes.len(), 1);
    assert!(matches!(&notes[0], PriceNote::MarketDegraded { reason } if reason == "busy"));
    let notes = refresh_notes(None, Some(table(false)), false);
    assert_eq!(notes.len(), 1);
    assert!(matches!(
        &notes[0],
        PriceNote::CollectionDegraded { reason }
            if reason == "Checked prices could not be saved for the next start"
    ));
    assert!(refresh_notes(None, None, false).is_empty());
}

#[test]
fn a_downloaded_table_takes_over_the_served_one_before_it_is_saved() {
    assert!(matches!(
        table_step(TableEvent::Downloaded),
        TableAction::FoldServed
    ));
    assert!(matches!(table_step(TableEvent::Folded), TableAction::Store));
    for saved in [true, false] {
        assert!(matches!(
            table_step(TableEvent::Stored { table: table(saved) }),
            TableAction::Publish { table } if table.saved == saved && table.priced == 7
        ));
    }
}

#[test]
fn checked_prices_need_a_table() {
    assert!(matches!(
        table_step(TableEvent::Checked { served: true }),
        TableAction::FoldServed
    ));
    assert!(matches!(
        table_step(TableEvent::Checked { served: false }),
        TableAction::Rest
    ));
}

#[test]
fn a_download_that_came_to_nothing_serves_nothing() {
    assert!(matches!(table_step(TableEvent::NoSource), TableAction::Rest));
    assert!(matches!(
        table_step(TableEvent::Unread),
        TableAction::Record { note: PriceNote::CollectionDegraded { reason } }
            if reason == "No warframe.market price dump could be read"
    ));
}

#[test]
fn a_current_table_saves_the_download() {
    let (note, download) = start_from_saved(None);
    assert!(note.is_none() && download);
    for current in [true, false] {
        let saved = SavedTable {
            priced: 3,
            date: "2026-08-19".to_owned(),
            current,
        };
        let (note, download) = start_from_saved(Some(&saved));
        assert!(matches!(
            note,
            Some(PriceNote::CollectionReady { priced: 3, date }) if date == "2026-08-19"
        ));
        assert_eq!(download, !current);
    }
}

#[test]
fn a_download_is_reported() {
    assert!(matches!(
        dump_note(DumpOutcome::Unread),
        PriceNote::CollectionDegraded { reason }
            if reason == "No warframe.market price dump could be read"
    ));
    assert!(matches!(
        dump_note(DumpOutcome::Read(table(false))),
        PriceNote::CollectionDegraded { reason }
            if reason == "Prices loaded but could not be saved for the next start"
    ));
    assert!(matches!(
        dump_note(DumpOutcome::Read(table(true))),
        PriceNote::CollectionReady { priced: 7, date } if date == "2026-08-20"
    ));
}
