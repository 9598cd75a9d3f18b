//! What the operations on prices, refreshes, the poller and the setup do, said of what they can
//! return.

use vstd::prelude::*;
#[allow(unused_imports)]
use vstd::utf8::{encode_utf8, is_ascii_chars_encode_utf8};

#[allow(unused_imports)]
use crate::keyed::NameMap;
#[allow(unused_imports)]
use crate::path::{law_join_keeps_both_paths, FilePath, SLASH};
#[allow(unused_imports)]
use crate::poller::{arm_poller, poller_wake, Poller, PollerStep, PollerTiming, PollerWake};
#[allow(unused_imports)]
use crate::price_table::{table_step, TableAction, TableEvent};
#[allow(unused_imports)]
use crate::prices::{
    are_places_of, can_sum, checked_updates, dump_note, fill_failure, fill_prices, fill_success,
    found_prices, found_updates, law_found_prices_are_the_updates, law_names_are_priced_as_found,
    law_other_prices_stay, law_price_is_the_last_finding, names_to_warm, price_notes, refresh_notes,
    split_by_cache, start_from_saved, update_views, DumpOutcome, Persisted, PriceNote, PriceUpdate,
    PricingPass, PricingProgress, SavedTable, UpdateView, WarmOutcome,
};
#[allow(unused_imports)]
use crate::refresh::{
    now_unix_seconds, refresh_outcome, start_once, AcquisitionEnd, InventoryRefreshOutcome,
    RefreshPace, RefreshStep,
};
#[allow(unused_imports)]
use crate::relic_pool::RewardCatalogEntry;
#[allow(unused_imports)]
use crate::setup::{
    accept_setup_risk, read_setup_status, resolve_local_paths, resolve_local_paths_on_windows,
    LocalPaths, SetupRead, SetupStatus,
};
#[allow(unused_imports)]
use crate::text::{decimal_text, law_decimal_reads_back, number, texts};
#[allow(unused_imports)]
use crate::windows_path::law_place_is_the_directory_and_the_rest;

verus! {

/// Of the names that prices are filled in for, each ends up with the last price found for it, just as
/// it was found; any other name keeps what it had.
pub proof fn law_prices_are_filled_in_as_found(
    prices: &mut NameMap<u32>,
    names: &[String],
    found: &[Option<u32>],
    name: Seq<char>,
)
    requires
        names@.len() == found@.len(),
        call_ensures(fill_prices, (prices, names, found), ()),
    ensures
        forall|i: int|
            0 <= i < names@.len() && (#[trigger] names@[i])@ == name && found@[i] is Some && (forall|
                j: int,
            |
                i < j < names@.len() && (#[trigger] names@[j])@ == name ==> found@[j] is None)
                ==> final(prices)@.contains_key(name) && final(prices)@[name] == found@[i]->0,
        (forall|i: int|
            0 <= i < names@.len() && (#[trigger] names@[i])@ == name ==> found@[i] is None)
            ==> final(prices)@.contains_key(name) == old(prices)@.contains_key(name)
            && final(prices)@[name] == old(prices)@[name],
{
    let all = texts(names@);
    let n = names@.len() as int;
    let before = old(prices)@;
    let after = final(prices)@;
    assert forall|i: int|
        0 <= i < names@.len() && (#[trigger] names@[i])@ == name && found@[i] is Some && (forall|j: int|
            i < j < names@.len() && (#[trigger] names@[j])@ == name ==> found@[j] is None) implies after.contains_key(
        name,
    ) && after[name] == found@[i]->0 by {
        assert forall|j: int| i < j < n && #[trigger] all[j] == all[i] implies found@[j] is None by {
            assert(names@[j]@ == name);
        }
        law_price_is_the_last_finding(before, all, found@, n, i);
    }
    if forall|i: int| 0 <= i < names@.len() && (#[trigger] names@[i])@ == name ==> found@[i] is None {
        assert forall|j: int| 0 <= j < n && #[trigger] all[j] == name implies found@[j] is None by {
            assert(names@[j]@ == name);
        }
        law_other_prices_stay(before, all, found@, n, name);
    }
}

/// A name has a price at hand exactly if the cache holds one for it; every name without one, and no
/// other, is asked for.
pub proof fn law_cache_spares_asking(
    names: &[String],
    cached: &[Option<u32>],
    prices: NameMap<u32>,
    missing: Vec<String>,
    name: Seq<char>,
)
    requires
        names@.len() == cached@.len(),
        call_ensures(split_by_cache, (names, cached), (prices, missing)),
    ensures
        prices@.contains_key(name) <==> exists|i: int|
            0 <= i < names@.len() && (#[trigger] names@[i])@ == name && cached@[i] is Some,
        texts(missing@).contains(name) <==> texts(names@).contains(name) && !prices@.contains_key(name),
{
    let all = texts(names@);
    let wanted = |name: Seq<char>| !prices@.contains_key(name);
    let n = names@.len() as int;
    assert(texts(missing@) == all.filter(wanted));
    law_names_are_priced_as_found(Map::empty(), all, cached@, n, name);
    if exists|i: int| 0 <= i < n && #[trigger] all[i] == name && cached@[i] is Some {
        let i = choose|i: int| 0 <= i < n && #[trigger] all[i] == name && cached@[i] is Some;
        assert(names@[i]@ == name);
    }
    if exists|i: int| 0 <= i < n && (#[trigger] names@[i])@ == name && cached@[i] is Some {
        let i = choose|i: int| 0 <= i < n && (#[trigger] names@[i])@ == name && cached@[i] is Some;
        assert(all[i] == name);
    }
    if all.contains(name) && !prices@.contains_key(name) {
        let i = choose|i: int| 0 <= i < all.len() && all[i] == name;
        all.lemma_filter_contains(wanted, i);
    }
    if texts(missing@).contains(name) {
        let i = choose|i: int| 0 <= i < all.filter(wanted).len() && all.filter(wanted)[i] == name;
        all.lemma_filter_pred(wanted, i);
        all.lemma_filter_contains_rev(wanted, name);
    }
}

/// Why asking failed is always reported. Where nothing failed, that there are no prices is reported
/// exactly if there are none.
pub proof fn law_missing_prices_are_reported(
    failure: Option<String>,
    prices: &NameMap<u32>,
    note: Option<PriceNote>,
)
    requires
        prices.wf(),
        call_ensures(fill_failure, (failure, prices), note),
    ensures
        note is Some <==> failure is Some || prices@ == Map::<Seq<char>, u32>::empty(),
        note is Some ==> note->0 is MarketDegraded,
        failure is Some ==> note->0->MarketDegraded_reason@ == failure->0@,
        failure is None && note is Some ==> note->0->MarketDegraded_reason@
            == "warframe.market pricing is unavailable for these rewards"@,
{
}

/// Prices are reported exactly if there are any: how many there are, and when.
pub proof fn law_prices_at_hand_are_reported(prices: &NameMap<u32>, now: u64, note: Option<PriceNote>)
    requires
        prices.wf(),
        call_ensures(fill_success, (prices, now), note),
    ensures
        note is Some <==> prices@ != Map::<Seq<char>, u32>::empty(),
        note matches Some(told) ==> told is MarketReady && told->MarketReady_priced
            == prices@.dom().len() && number(told->at@) == now,
{
    law_decimal_reads_back(now as nat);
}

/// What is priced ahead of time are the names of all the rewards in the pool, in its order, and
/// nothing exactly if the pool is empty.
pub proof fn law_whole_pool_is_priced_ahead(pool: &[RewardCatalogEntry], names: Option<Vec<String>>)
    requires
        call_ensures(names_to_warm, (pool,), names),
    ensures
        names is None <==> pool@.len() == 0,
        names matches Some(list) ==> list@.len() == pool@.len() && forall|i: int|
            0 <= i < pool@.len() ==> #[trigger] list@[i] == pool@[i].name,
{
}

/// A pass begins with its first name and nothing counted.
pub proof fn law_pass_begins_with_nothing(names: Vec<String>, pass: PricingPass)
    requires
        call_ensures(PricingPass::new, (names,), pass),
    ensures
        pass@.names == names@,
        pass@.done == 0,
        pass@.unpriced.len() == 0,
        pass@.total.stored == 0,
        pass@.total.no_sellers == 0,
        pass@.total.unavailable == 0,
        pass@.total.oversize == 0,
{
}

/// An answer moves a pass on by one name and is counted as it is. The name is noted down exactly if
/// nobody sells it.
pub proof fn law_answer_moves_the_pass_on(pass: &mut PricingPass, one: WarmOutcome)
    requires
        can_sum(old(pass)@.total, one),
        old(pass)@.done < old(pass)@.names.len(),
        call_ensures(PricingPass::record, (pass, one), ()),
    ensures
        final(pass)@.names == old(pass)@.names,
        final(pass)@.done == old(pass)@.done + 1,
        final(pass)@.total.stored == old(pass)@.total.stored + one.stored,
        final(pass)@.total.no_sellers == old(pass)@.total.no_sellers + one.no_sellers,
        final(pass)@.total.unavailable == old(pass)@.total.unavailable + one.unavailable,
        final(pass)@.total.oversize == old(pass)@.total.oversize + one.oversize,
        one.no_sellers > 0 ==> final(pass)@.unpriced == old(pass)@.unpriced.push(
            old(pass)@.names[old(pass)@.done],
        ),
        one.no_sellers == 0 ==> final(pass)@.unpriced == old(pass)@.unpriced,
{
}

/// A pass asks about its names one after the other, with how far it has come, and about nothing once
/// it has asked about all of them.
pub proof fn law_pass_asks_in_order(pass: PricingPass, step: Option<(PricingProgress, &String)>)
    requires
        pass.wf(),
        call_ensures(PricingPass::next, (&pass,), step),
    ensures
        step is None <==> pass@.done == pass@.names.len(),
        step matches Some((progress, name)) ==> progress.done == pass@.done && progress.total
            == pass@.names.len() && *name == pass@.names[pass@.done],
{
}

/// A pass changes the table by the prices at hand, each for its name and in order, and then marks
/// each name that nobody sells. `places` are where the names with a price stand.
pub proof fn law_table_changes_by_what_was_checked(
    names: &[String],
    live: &[Option<u32>],
    unpriced: &[String],
    updates: Vec<PriceUpdate>,
) -> (places: Seq<int>)
    requires
        live@.len() == names@.len(),
        call_ensures(checked_updates, (names, live, unpriced), updates),
    ensures
        are_places_of(places, names@.len() as int, |i: int| live@[i] is Some),
        updates@.len() == places.len() + unpriced@.len(),
        forall|a: int|
            0 <= a < places.len() ==> {
                &&& #[trigger] updates@[a] is Checked
                &&& updates@[a]->Checked_name@ == names@[places[a]]@
                &&& updates@[a]->platinum == live@[places[a]]->0
            },
        forall|b: int|
            places.len() <= b < updates@.len() ==> {
                &&& #[trigger] updates@[b] is Unpriced
                &&& updates@[b]->Unpriced_name@ == unpriced@[b - places.len()]@
            },
{
    let all = texts(names@);
    let places = law_found_prices_are_the_updates(all, live@, names@.len() as int);
    let views = update_views(updates@);
    let found = found_updates(all, live@, names@.len() as int);
    assert(views.len() == updates@.len());
    assert forall|a: int| 0 <= a < places.len() implies {
        &&& #[trigger] updates@[a] is Checked
        &&& updates@[a]->Checked_name@ == names@[places[a]]@
        &&& updates@[a]->platinum == live@[places[a]]->0
    } by {
        assert(views[a] == updates@[a]@);
        assert(views[a] == found[a]);
        assert(0 <= places[a] < names@.len());
        assert(all[places[a]] == names@[places[a]]@);
    }
    assert forall|b: int| places.len() <= b < updates@.len() implies {
        &&& #[trigger] updates@[b] is Unpriced
        &&& updates@[b]->Unpriced_name@ == unpriced@[b - places.len()]@
    } by {
        assert(views[b] == updates@[b]@);
        assert(texts(unpriced@)[b - places.len()] == unpriced@[b - places.len()]@);
    }
    places
}

/// What a pass that was asked for reports: that the market could not be asked exactly if it could
/// not, and of the table that it could not be saved, or that it is ready if prices were ready before.
/// Neither hides the other.
pub proof fn law_pass_reports_both_troubles(
    failure: Option<String>,
    persisted: Option<Persisted>,
    had_success: bool,
    notes: Vec<PriceNote>,
)
    requires
        call_ensures(refresh_notes, (failure, persisted, had_success), notes),
    ensures
        ({
            let unsaved = persisted is Some && !persisted->0.saved;
            let ready = persisted is Some && persisted->0.saved && had_success;
            let count = (if failure is Some {
                1int
            } else {
                0int
            }) + (if unsaved || ready {
                1int
            } else {
                0int
            });
            &&& notes@.len() == count
            &&& failure is Some ==> notes@[0] is MarketDegraded && notes@[0]->MarketDegraded_reason@
                == failure->0@
            &&& unsaved ==> notes@.last() is CollectionDegraded
                && notes@.last()->CollectionDegraded_reason@
                == "Checked prices could not be saved for the next start"@
            &&& ready ==> notes@.last() is CollectionReady && notes@.last()->CollectionReady_priced
                == persisted->0.priced && notes@.last()->date@ == persisted->0.date@
        }),
{
    let views = price_notes(notes@);
    assert(views.len() == notes@.len());
    if notes@.len() > 0 {
        assert(views[0] == notes@[0]@);
        assert(views[notes@.len() - 1] == notes@.last()@);
    }
}

/// A saved table is shown as it is, and the day's prices are downloaded unless it is as new as they
/// are.
pub proof fn law_saved_table_is_shown_first(
    saved: Option<&SavedTable>,
    note: Option<PriceNote>,
    download: bool,
)
    requires
        call_ensures(start_from_saved, (saved,), (note, download)),
    ensures
        note is Some <==> saved is Some,
        saved matches Some(table) ==> note->0 is CollectionReady && note->0->CollectionReady_priced
            == table.priced && note->0->date@ == table.date@,
        download <==> saved is None || !saved->0.current,
{
}

/// Prices that were downloaded count as ready exactly if they were read and saved; the two ways they
/// can fail are told apart.
pub proof fn law_download_is_told_as_it_went(outcome: DumpOutcome, note: PriceNote)
    requires
        call_ensures(dump_note, (outcome,), note),
    ensures
        note is CollectionReady <==> outcome is Read && outcome->Read_0.saved,
        note is CollectionReady ==> note->CollectionReady_priced == outcome->Read_0.priced
            && note->date@ == outcome->Read_0.date@,
        outcome is Unread ==> note is CollectionDegraded && note->CollectionDegraded_reason@
            == "No warframe.market price dump could be read"@,
        outcome is Read && !outcome->Read_0.saved ==> note is CollectionDegraded
            && note->CollectionDegraded_reason@
            == "Prices loaded but could not be saved for the next start"@,
{
}

/// A new table takes over the served one before it is saved, and is served once saving was tried,
/// the very one that was.
pub proof fn law_new_table_goes_its_way(event: TableEvent, action: TableAction)
    requires
        call_ensures(table_step, (event,), action),
    ensures
        action is FoldServed <==> event is Downloaded || (event is Checked && event->served),
        action is Store <==> event is Folded,
        action is Publish <==> event is Stored,
        action matches TableAction::Publish { table } ==> table == event->table,
        action is Rest <==> event is NoSource || (event is Checked && !event->served),
        action is Record <==> event is Unread,
        action matches TableAction::Record { note } ==> note is CollectionDegraded
            && note->CollectionDegraded_reason@ == "No warframe.market price dump could be read"@,
{
}

/// A refresh is refused exactly if the player has not agreed. Otherwise it starts exactly if none is
/// under way and none started within the last fifteen seconds, and is then under way since now;
/// until then everything stays as it was.
pub proof fn law_refresh_begins_in_its_time(
    pace: &mut RefreshPace,
    agreed: bool,
    now: u128,
    step: RefreshStep,
)
    requires
        call_ensures(RefreshPace::begin, (pace, agreed, now), step),
    ensures
        ({
            let rested = !old(pace).in_flight && (old(pace).last_started is None || now >= old(
                pace,
            ).last_started->0 + 15000000000);
            &&& step is Refuse <==> !agreed
            &&& step is Begin <==> agreed && rested
            &&& step is Begin ==> final(pace).in_flight && final(pace).last_started == Some(now)
            &&& !(step is Begin) ==> *final(pace) == *old(pace)
            &&& step matches RefreshStep::Refuse { reason } ==> reason@
                == "accept the read-only process-memory risk disclosure during setup first"@
        }),
{
}

/// A refresh that is over is no longer under way, and when it started is still known.
pub proof fn law_refresh_ends(pace: &mut RefreshPace)
    requires
        call_ensures(RefreshPace::finish, (pace,), ()),
    ensures
        !final(pace).in_flight,
        final(pace).last_started == old(pace).last_started,
{
}

/// What starts once starts at the first claim, and never after it.
pub proof fn law_first_claim_starts(started: &mut bool, start: bool)
    requires
        call_ensures(start_once, (started,), start),
    ensures
        start <==> !*old(started),
        *final(started),
{
}

/// A refresh succeeds exactly if the inventory was read, as of when it began; what kept it from that
/// is handed on as it is.
pub proof fn law_refresh_comes_to_its_end(end: AcquisitionEnd, now: u64, outcome: InventoryRefreshOutcome)
    requires
        call_ensures(refresh_outcome, (end, now), outcome),
    ensures
        outcome is CatalogFailed <==> end is NoCatalog,
        outcome is AcquisitionFailed <==> end is Failed,
        outcome is Success <==> end is Acquired,
        outcome matches InventoryRefreshOutcome::AcquisitionFailed { reason } ==> reason == end->reason,
        outcome matches InventoryRefreshOutcome::Success { meta } ==> number(meta.taken_at@) == now
            && meta.game_version@ == "unknown"@ && meta.source@ == "warframe-memory"@,
{
    law_decimal_reads_back(now as nat);
}

/// The time reads as the seconds since the epoch, and as none before it. A number that is written down
/// reads as that number, and only zero begins with a zero.
pub proof fn law_time_reads_as_seconds(since_epoch: Option<u64>, text: String, other: u64, digits: String)
    requires
        call_ensures(now_unix_seconds, (since_epoch,), text),
        call_ensures(decimal_text, (other,), digits),
    ensures
        since_epoch is Some ==> number(text@) == since_epoch->0,
        since_epoch is None ==> number(text@) == 0,
        number(digits@) == other,
        digits@[0] == '0' ==> other == 0 && digits@.len() == 1,
{
    law_decimal_reads_back(other as nat);
    law_decimal_reads_back(0);
    if let Some(seconds) = since_epoch {
        law_decimal_reads_back(seconds as nat);
    }
}

/// The screen is looked at every two seconds until the cards are found, then five times in two
/// seconds, and for forty-five minutes.
pub proof fn law_screen_is_watched_at_its_pace(timing: PollerTiming)
    requires
        call_ensures(PollerTiming::live, (), timing),
    ensures
        timing.interval_nanos == 2000000000,
        5 * timing.watch_interval_nanos == timing.interval_nanos,
        timing.lifetime_nanos == 1350 * timing.interval_nanos,
{
}

/// A poller starts exactly if there is a name to look for and none runs. The flag is then set, and is
/// left alone where there is nothing to look for.
pub proof fn law_poller_starts_for_names(pool_len: usize, polling: &mut bool, start: bool)
    requires
        call_ensures(arm_poller, (pool_len, polling), start),
    ensures
        start <==> pool_len > 0 && !*old(polling),
        pool_len > 0 ==> *final(polling),
        pool_len == 0 ==> *final(polling) == *old(polling),
{
}

/// A poller stops exactly if it is no longer wanted or its time is over; until then it reads the
/// screen exactly if there is a name to look for.
pub proof fn law_poller_wakes_to_read(
    timing: &PollerTiming,
    polling: bool,
    past_deadline: bool,
    pool_len: usize,
    wake: PollerWake,
)
    requires
        call_ensures(poller_wake, (timing, polling, past_deadline, pool_len), wake),
    ensures
        wake is Stop <==> !polling || past_deadline,
        wake is Read <==> polling && !past_deadline && pool_len > 0,
        wake matches PollerWake::Wait { nanos } ==> nanos == timing.interval_nanos,
{
}

/// A poller hands over the names it reads, all of them, exactly if they are two or more, it has not
/// handed any over and can. It is done exactly if it has, and this is the second reading in a row
/// without cards. Until then it waits, for the shorter time once it has handed names over.
pub proof fn law_poller_hands_over_once(
    poller: &mut Poller,
    timing: &PollerTiming,
    reading: Option<Vec<String>>,
    slot_open: bool,
    step: PollerStep,
)
    requires
        old(poller).wf(),
        call_ensures(Poller::observe, (poller, timing, reading, slot_open), step),
    ensures
        ({
            let cards = reading is Some && reading->0@.len() >= 2;
            let wait = if final(poller).found {
                timing.watch_interval_nanos
            } else {
                timing.interval_nanos
            };
            &&& step is Publish <==> cards && slot_open && !old(poller).found
            &&& step matches PollerStep::Publish { names, wait_nanos } ==> names == reading->0
                && wait_nanos == wait
            &&& step is Gone <==> !cards && old(poller).found && old(poller).misses == 1
            &&& step matches PollerStep::Wait { nanos } ==> nanos == wait
            &&& final(poller).found <==> old(poller).found || step is Publish
            &&& cards ==> final(poller).misses == 0
            &&& !cards && old(poller).found ==> final(poller).misses == old(poller).misses + 1
            &&& !cards && !old(poller).found ==> *final(poller) == *old(poller)
        }),
{
}

/// The files on this device lie in the directory for application data, under their own names.
pub proof fn law_files_lie_in_the_directory(
    app_data: &FilePath,
    unix: LocalPaths,
    windows: LocalPaths,
)
    requires
        call_ensures(resolve_local_paths, (app_data,), unix),
        call_ensures(resolve_local_paths_on_windows, (app_data,), windows),
    ensures
        ({
            let setup = encode_utf8("tennoscope-setup.json"@);
            let database = encode_utf8("tennoscope.sqlite3"@);
            let n = app_data@.len() as int;
            &&& unix.setup@.take(n) == app_data@ && unix.setup@.skip(unix.setup@.len() - setup.len())
                == setup
            &&& unix.database@.take(n) == app_data@ && unix.database@.skip(
                unix.database@.len() - database.len(),
            ) == database
            &&& windows.setup@.take(n) == app_data@ && windows.setup@.skip(
                windows.setup@.len() - setup.len(),
            ) == setup
            &&& windows.database@.take(n) == app_data@ && windows.database@.skip(
                windows.database@.len() - database.len(),
            ) == database
        }),
{
    let setup = encode_utf8("tennoscope-setup.json"@);
    let database = encode_utf8("tennoscope.sqlite3"@);
    assert(setup.len() > 0 && setup[0] != SLASH) by {
        reveal_strlit("tennoscope-setup.json");
        is_ascii_chars_encode_utf8("tennoscope-setup.json"@);
    }
    assert(database.len() > 0 && database[0] != SLASH) by {
        reveal_strlit("tennoscope.sqlite3");
        is_ascii_chars_encode_utf8("tennoscope.sqlite3"@);
    }
    law_join_keeps_both_paths(app_data@, setup);
    law_join_keeps_both_paths(app_data@, database);
    law_place_is_the_directory_and_the_rest(app_data@, setup);
    law_place_is_the_directory_and_the_rest(app_data@, database);
}

/// The player has agreed to just what the file says. A file that is missing or garbled agrees to
/// nothing, and one that cannot be read is an error.
pub proof fn law_player_agreed_to_what_was_saved(read: SetupRead, status: Result<SetupStatus, String>)
    requires
        call_ensures(read_setup_status, (read,), status),
    ensures
        status is Err <==> read is Failed,
        status is Err ==> status->Err_0@ == "setup status could not be read"@,
        read is Parsed ==> status->Ok_0.risk_accepted == read->status.risk_accepted,
        read is Garbled || read is Missing ==> !status->Ok_0.risk_accepted,
{
}

/// Agreeing counts exactly if it could be saved.
pub proof fn law_agreement_has_to_be_saved(saved: bool, status: Result<SetupStatus, String>)
    requires
        call_ensures(accept_setup_risk, (saved,), status),
    ensures
        status is Ok <==> saved,
        status is Ok ==> status->Ok_0.risk_accepted,
        status is Err ==> status->Err_0@ == "setup status could not be saved"@,
{
}

/// At first no refresh is under way or was started, and a poller has found and missed nothing.
pub proof fn law_nothing_is_under_way_at_first(pace: RefreshPace, poller: Poller)
    requires
        call_ensures(RefreshPace::new, (), pace),
        call_ensures(Poller::new, (), poller),
    ensures
        !pace.in_flight,
        pace.last_started is None,
        !poller.found,
        poller.misses == 0,
{
}

} // verus!
