//! What the operations on the game's process, its log and the paths to it do, said of what they can
//! return.

use vstd::prelude::*;
#[allow(unused_imports)]
use vstd::utf8::{encode_utf8, is_ascii_chars_encode_utf8, valid_utf8};

#[allow(unused_imports)]
use crate::bytes::{
    find_first, find_last, law_contained_text_splits_it, law_pieces_make_up_the_text, occurs_at,
    occurs_in, pieces, rejoined, split_bytes,
};
#[allow(unused_imports)]
use crate::game_log::{
    contains_inventory_sync_trigger, environ_prefix, first_log, has_line_for, inventory_log_below,
    inventory_log_under, is_first_true, is_made_up_around, law_environment_names_its_first_prefix,
    law_environment_without_an_entry_names_none, law_every_source_of_prefixes_counts,
    law_identity_follows_the_creation, law_identity_is_the_path_and_the_creation,
    law_line_is_made_up_around_its_prefix, law_lines_name_prefixes_in_order,
    law_log_lies_below_its_directory,
    law_sync_trigger_is_found_in_the_whole_log, line_prefix, log_candidates, log_identity,
    monitor_path_changed, opt_bytes, prefix_in_environ, prefix_in_line, prefixes_in_text, process_files,
    user_logs, users_directory, wine_prefixes, ProcessFiles, NEWLINE, NUL,
};
#[allow(unused_imports)]
use crate::log_places::{law_places_stand_two_by_two, listed_users, log_places};
#[allow(unused_imports)]
use crate::monitor::{
    finish_log_reading, is_possible, law_plan_reads_what_is_new, log_monitor_note, plan_log_reading,
    poll_interval_ms, GameProcess, LogFile, LogLookup, LogMonitorDiagnostic, LogMonitorNote,
    LogObservation, LogPosition, LogReading, MonitorTrack, ReadOutcome, ReadingPlan,
};
#[allow(unused_imports)]
use crate::path::{
    components, joined, law_join_appends_steps, law_join_keeps_both_paths, law_name_is_one_step,
    law_path_order_is_strict_total, law_pieces_around_a_separator, law_sorting_keeps_every_path,
    lemma_one_piece, parts_view, path_before, paths_view, same_path, sorted_distinct, FilePath, Part,
    DOT, SLASH,
};
#[allow(unused_imports)]
use crate::report::{build_profile, os_arch, report_log};
#[allow(unused_imports)]
use crate::text::{decimal, law_decimal_reads_back, number};
#[allow(unused_imports)]
use crate::windows_path::{law_place_is_the_directory_and_the_rest, place_below, starts_verbatim};

verus! {

/// The announcement is found exactly if it stands somewhere in the log, whatever stands before and
/// after it.
pub proof fn law_announcement_is_found_wherever_it_stands(log: &[u8], found: bool)
    requires
        call_ensures(contains_inventory_sync_trigger, (log,), found),
    ensures
        found <==> exists|lead: Seq<u8>, rest: Seq<u8>|
            log@ == #[trigger] (lead + encode_utf8("Inventory sync done"@) + rest),
{
    law_sync_trigger_is_found_in_the_whole_log(log@);
    law_contained_text_splits_it(log@, encode_utf8("Inventory sync done"@));
}

/// The log on Windows is the file below the directory, exactly if there is one. Its place begins with
/// the directory and ends in `EE.log`.
pub proof fn law_windows_log_is_a_file_below(
    directory: &FilePath,
    is_file: bool,
    log: Option<FilePath>,
    place: FilePath,
)
    requires
        call_ensures(inventory_log_under, (directory, is_file), log),
        call_ensures(inventory_log_below, (directory,), place),
    ensures
        log is Some <==> is_file,
        log is Some ==> log->0@ == place@,
        place@.len() > directory@.len() + encode_utf8("EE.log"@).len(),
        place@.take(directory@.len() as int) == directory@,
        place@.skip(place@.len() - encode_utf8("EE.log"@).len()) == encode_utf8("EE.log"@),
{
    law_log_lies_below_its_directory(directory@);
}

/// The prefix of an environment is the value of the first `WINEPREFIX` entry in it, whole, if that is
/// UTF-8.
pub proof fn law_first_entry_gives_the_prefix(environ: &[u8], prefix: Option<FilePath>, i: int)
    requires
        call_ensures(prefix_in_environ, (environ,), prefix),
        0 <= i < pieces(environ@, NUL).len(),
        occurs_at(pieces(environ@, NUL)[i], encode_utf8("WINEPREFIX="@), 0),
        forall|j: int|
            0 <= j < i ==> !occurs_at(
                #[trigger] pieces(environ@, NUL)[j],
                encode_utf8("WINEPREFIX="@),
                0,
            ),
    ensures
        ({
            let value = pieces(environ@, NUL)[i].skip(encode_utf8("WINEPREFIX="@).len() as int);
            &&& prefix is Some <==> valid_utf8(value)
            &&& prefix is Some ==> prefix->0@ == value
        }),
{
    law_environment_names_its_first_prefix(environ@, i);
}

/// An environment without a `WINEPREFIX` entry gives no prefix.
pub proof fn law_no_entry_gives_no_prefix(environ: &[u8], prefix: Option<FilePath>)
    requires
        call_ensures(prefix_in_environ, (environ,), prefix),
        forall|j: int|
            0 <= j < pieces(environ@, NUL).len() ==> !occurs_at(
                #[trigger] pieces(environ@, NUL)[j],
                encode_utf8("WINEPREFIX="@),
                0,
            ),
    ensures
        prefix is None,
{
    law_environment_without_an_entry_names_none(environ@);
}

/// A line gives a prefix exactly if it holds `/drive_c/`: what leads from its first slash to where
/// that stands last.
pub proof fn law_line_gives_what_leads_to_the_drive(line: &[u8], prefix: Option<FilePath>)
    requires
        call_ensures(prefix_in_line, (line,), prefix),
    ensures
        prefix is Some <==> occurs_in(line@, encode_utf8("/drive_c/"@)),
        prefix is Some ==> is_made_up_around(line@, prefix->0@, encode_utf8("/drive_c/"@)),
{
    law_line_is_made_up_around_its_prefix(line@);
}

/// The prefixes of a process are in order, each once, and they are those that its environment, the
/// lines of the path of its executable and the lines of its memory map give, each by itself.
pub proof fn law_process_gives_all_its_prefixes(
    environ: Option<Vec<u8>>,
    exe: Option<Vec<u8>>,
    maps: Option<Vec<u8>>,
    prefixes: Vec<FilePath>,
    prefix: Seq<u8>,
)
    requires
        call_ensures(wine_prefixes, (environ, exe, maps), prefixes),
    ensures
        ({
            let named = environ is Some && environ_prefix(environ->0@) == Some(prefix);
            let in_exe = exe is Some && has_line_for(Some(exe->0@), prefix);
            let in_maps = maps is Some && has_line_for(Some(maps->0@), prefix);
            &&& named || in_exe || in_maps ==> exists|j: int|
                0 <= j < prefixes@.len() && components((#[trigger] prefixes@[j])@) == components(prefix)
            &&& (exists|j: int| 0 <= j < prefixes@.len() && (#[trigger] prefixes@[j])@ == prefix)
                ==> named || in_exe || in_maps
        }),
        forall|i: int, j: int|
            0 <= i < j < prefixes@.len() ==> path_before(
                (#[trigger] prefixes@[i])@,
                (#[trigger] prefixes@[j])@,
            ),
{
    let found = paths_view(prefixes@);
    let all = crate::game_log::process_prefixes(opt_bytes(environ), opt_bytes(exe), opt_bytes(maps));
    law_every_source_of_prefixes_counts(
        opt_bytes(environ),
        opt_bytes(exe),
        opt_bytes(maps),
        found,
        prefix,
    );
    law_sorting_keeps_every_path(all, found);
    if exists|j: int| 0 <= j < found.len() && same_path(#[trigger] found[j], prefix) {
        let j = choose|j: int| 0 <= j < found.len() && same_path(#[trigger] found[j], prefix);
        assert(found[j] == prefixes@[j]@);
    }
    if exists|j: int| 0 <= j < prefixes@.len() && (#[trigger] prefixes@[j])@ == prefix {
        let j = choose|j: int| 0 <= j < prefixes@.len() && (#[trigger] prefixes@[j])@ == prefix;
        assert(found[j] == prefix);
        assert(found.contains(prefix));
    }
    assert forall|i: int, j: int| 0 <= i < j < prefixes@.len() implies path_before(
        (#[trigger] prefixes@[i])@,
        (#[trigger] prefixes@[j])@,
    ) by {
        assert(path_before(found[i], found[j]));
    }
}

/// The files that describe a process lie in the directory that its number names, in digits.
pub proof fn law_process_is_described_under_its_number(root: &FilePath, pid: u32, files: ProcessFiles)
    requires
        call_ensures(process_files, (root, pid), files),
    ensures
        exists|digits: Seq<char>|
            {
                let directory = joined(root@, encode_utf8(digits));
                &&& #[trigger] number(digits) == pid
                &&& files.environ@ == joined(directory, encode_utf8("environ"@))
                &&& files.exe@ == joined(directory, encode_utf8("exe"@))
                &&& files.maps@ == joined(directory, encode_utf8("maps"@))
            },
{
    law_decimal_reads_back(pid as nat);
    assert(number(decimal(pid as nat)) == pid);
}

/// The users of a prefix are looked for below it, in `drive_c/users`.
pub proof fn law_users_are_below_the_prefix(prefix: &FilePath, path: FilePath)
    requires
        call_ensures(users_directory, (prefix,), path),
    ensures
        path@.len() >= prefix@.len() + encode_utf8("drive_c/users"@).len(),
        path@.take(prefix@.len() as int) == prefix@,
        path@.skip(path@.len() - encode_utf8("drive_c/users"@).len()) == encode_utf8("drive_c/users"@),
{
    let tail = encode_utf8("drive_c/users"@);
    assert(tail.len() > 0 && tail[0] != SLASH) by {
        reveal_strlit("drive_c/users");
        is_ascii_chars_encode_utf8("drive_c/users"@);
    }
    law_join_keeps_both_paths(prefix@, tail);
}

/// Each user is looked at in two places, one user after the other.
pub proof fn law_each_user_is_looked_at_twice(users: &[FilePath], places: Vec<FilePath>)
    requires
        call_ensures(log_candidates, (users,), places),
    ensures
        places@.len() == 2 * users@.len(),
        forall|v: int|
            0 <= v < users@.len() ==> {
                &&& places@[2 * v]@ == user_logs((#[trigger] users@[v])@)[0]
                &&& places@[2 * v + 1]@ == user_logs(users@[v]@)[1]
            },
{
    let names = paths_view(users@);
    law_places_stand_two_by_two(names);
    assert(paths_view(places@).len() == places@.len());
    assert forall|v: int| 0 <= v < users@.len() implies {
        &&& places@[2 * v]@ == user_logs((#[trigger] users@[v])@)[0]
        &&& places@[2 * v + 1]@ == user_logs(users@[v]@)[1]
    } by {
        assert(names[v] == users@[v]@);
        assert(paths_view(places@)[2 * v] == places@[2 * v]@);
        assert(paths_view(places@)[2 * v + 1] == places@[2 * v + 1]@);
    }
}

/// The places for all listings are those for the users in them, one listing after the other.
pub proof fn law_listed_users_are_looked_at_twice(
    listings: &[Option<Vec<FilePath>>],
    places: Vec<FilePath>,
)
    requires
        call_ensures(log_places, (listings,), places),
    ensures
        places@.len() == 2 * listed_users(listings@).len(),
        forall|v: int|
            0 <= v < listed_users(listings@).len() ==> {
                &&& places@[2 * v]@ == user_logs(#[trigger] listed_users(listings@)[v])[0]
                &&& places@[2 * v + 1]@ == user_logs(listed_users(listings@)[v])[1]
            },
{
    let names = listed_users(listings@);
    law_places_stand_two_by_two(names);
    assert(paths_view(places@).len() == places@.len());
    assert forall|v: int| 0 <= v < names.len() implies {
        &&& places@[2 * v]@ == user_logs(#[trigger] names[v])[0]
        &&& places@[2 * v + 1]@ == user_logs(names[v])[1]
    } by {
        assert(paths_view(places@)[2 * v] == places@[2 * v]@);
        assert(paths_view(places@)[2 * v + 1] == places@[2 * v + 1]@);
    }
}

/// The log is the first candidate with a file, and there is none exactly if no candidate has one.
pub proof fn law_log_is_the_first_file(candidates: Vec<FilePath>, is_file: &[bool], log: Option<FilePath>)
    requires
        is_file@.len() == candidates@.len(),
        call_ensures(first_log, (candidates, is_file), log),
    ensures
        forall|i: int|
            0 <= i < is_file@.len() && #[trigger] is_file@[i] && (forall|j: int|
                0 <= j < i ==> !#[trigger] is_file@[j]) ==> log is Some && log->0@ == candidates@[i]@,
        log is None <==> forall|j: int| 0 <= j < is_file@.len() ==> !#[trigger] is_file@[j],
{
    if log is Some {
        assert(exists|at: int| #[trigger] is_first_true(is_file@, at) && log->0@ == candidates@[at]@);
        let at = choose|at: int| #[trigger]
            is_first_true(is_file@, at) && log->0@ == candidates@[at]@;
        assert(is_file@[at]);
        assert forall|i: int|
            0 <= i < is_file@.len() && #[trigger] is_file@[i] && (forall|j: int|
                0 <= j < i ==> !#[trigger] is_file@[j]) implies log->0@ == candidates@[i]@ by {
            assert(i == at);
        }
    } else {
        assert forall|j: int| 0 <= j < is_file@.len() implies !#[trigger] is_file@[j] by {
            assert(!is_file@.contains(true));
        }
    }
}

/// An identity begins with the path of the log, and two logs at one path have the same identity
/// exactly if they were created in the same second or neither creation is known.
pub proof fn law_identity_tells_logs_apart(
    path: &str,
    first: Option<u64>,
    second: Option<u64>,
    a: String,
    b: String,
)
    requires
        call_ensures(log_identity, (path, first), a),
        call_ensures(log_identity, (path, second), b),
    ensures
        a@ == b@ <==> first == second,
        first is None ==> a@ == path@,
        a@.len() >= path@.len() && a@.take(path@.len() as int) == path@,
        first matches Some(created) ==> a@[path@.len() as int] == ':' && number(
            a@.skip(path@.len() as int + 1),
        ) == created,
{
    law_identity_follows_the_creation(path@, first, second);
    law_identity_is_the_path_and_the_creation(path@, first);
}

/// A change is reported exactly if nothing was followed, another process was, or a log is found that
/// is not the one followed.
pub proof fn law_change_is_reported_once(
    followed: Option<&(u32, Option<FilePath>)>,
    pid: u32,
    path: Option<&FilePath>,
    changed: bool,
)
    requires
        call_ensures(monitor_path_changed, (followed, pid, path), changed),
    ensures
        followed is None ==> changed,
        followed matches Some(held) ==> {
            &&& held.0 != pid ==> changed
            &&& held.0 == pid && path is None ==> !changed
            &&& held.0 == pid && path is Some && held.1 is None ==> changed
            &&& held.0 == pid && path is Some && held.1 is Some ==> changed == (components(held.1->0@)
                != components(path->0@))
        },
{
}

/// What is done about the log of a process: nothing without one that can be looked at; a process that
/// was not followed is only registered, with all its log holds; a followed one is read on from where
/// the last reading of the same log ended, or from the start of another or a shrunken one, exactly if
/// there is something there, and then as much as there is, up to a mebibyte.
pub proof fn law_log_is_read_on(
    position: &LogPosition,
    pid: u32,
    file: LogFile,
    plan: ReadingPlan,
    path: &str,
    identity: String,
)
    requires
        path@ == file.path@,
        call_ensures(plan_log_reading, (position, pid, &LogLookup::Found(file)), plan),
        call_ensures(log_identity, (path, file.created), identity),
    ensures
        ({
            let known = position.process_pid == Some(pid);
            let same = position.log_identity is Some && position.log_identity->0@ == identity@;
            let from: int = if same && file.len >= position.log_offset {
                position.log_offset as int
            } else {
                0
            };
            &&& plan is Read <==> known && file.len > from
            &&& plan matches ReadingPlan::Read { identity: read, offset, requested } ==> {
                &&& read@ == identity@
                &&& offset == from
                &&& file.len - from <= 1048576 ==> requested == file.len - from
                &&& file.len - from > 1048576 ==> requested == 1048576
            }
            &&& plan matches ReadingPlan::Settled(reading) ==> (reading matches LogReading::Seen(seen)
                && seen.identity@ == identity@ && seen.len == file.len && seen.bytes@.len() == 0)
        }),
{
    law_plan_reads_what_is_new(*position, pid, file);
}

/// Without a log that can be looked at, nothing is read, and the two ways of having none stay apart.
pub proof fn law_no_log_is_not_read(position: &LogPosition, pid: u32, lookup: &LogLookup, plan: ReadingPlan)
    requires
        call_ensures(plan_log_reading, (position, pid, lookup), plan),
    ensures
        lookup is Missing ==> plan is Settled && plan->0 is Missing,
        lookup is Unreadable ==> plan is Settled && plan->0 is Unreadable,
{
}

/// What was read and belongs to this session is delivered, every byte of it, in its place, both in
/// what was seen and by itself, and the log counts as taken in up to where the reading ended. A log
/// without a byte of this session counts as taken in whole and delivers nothing, and one that could
/// not be read delivers nothing.
pub proof fn law_bytes_of_the_session_are_delivered(
    identity: String,
    offset: u64,
    len: u64,
    outcome: ReadOutcome,
    reading: LogReading,
    news: Vec<u8>,
)
    requires
        is_possible(offset, len, outcome),
        call_ensures(finish_log_reading, (identity, offset, len, outcome), (reading, news)),
    ensures
        outcome is Failed <==> reading is Unreadable,
        outcome is Failed ==> news@.len() == 0,
        outcome matches ReadOutcome::Bytes { bytes, keep } ==> {
            &&& reading is Seen
            &&& reading->Seen_0.identity@ == identity@
            &&& reading->Seen_0.bytes@ == news@
            &&& offset != 0 ==> news@ == bytes@ && reading->Seen_0.len == offset + bytes@.len()
            &&& offset == 0 && keep is Some ==> reading->Seen_0.len == bytes@.len() && news@.len()
                == bytes@.len() - keep->0 && forall|j: int|
                0 <= j < news@.len() ==> #[trigger] news@[j] == bytes@[keep->0 + j]
            &&& offset == 0 && keep is None ==> reading->Seen_0.len == len && news@.len() == 0
        },
{
}

/// A game is lost exactly if one was followed and none runs.
pub proof fn law_game_is_lost_once_it_stops(
    track: MonitorTrack,
    process: Option<GameProcess>,
    lost: bool,
)
    requires
        call_ensures(MonitorTrack::is_lost, (&track, process), lost),
    ensures
        lost <==> process is None && track.resolution is Some,
{
}

/// A game is announced exactly if one runs that was not announced last, and it then is the one
/// announced last. Nothing is followed any more once none runs; until then what is followed stays,
/// and the last log always does.
pub proof fn law_each_game_is_announced_once(
    track: &mut MonitorTrack,
    process: Option<GameProcess>,
    announce: bool,
)
    requires
        call_ensures(MonitorTrack::observe_process, (track, process), announce),
    ensures
        announce <==> process is Some && old(track).announced != process,
        final(track).announced == process,
        process is None ==> final(track).resolution is None,
        process is Some ==> final(track).resolution == old(track).resolution,
        final(track).last_log == old(track).last_log,
{
}

/// What is found is followed exactly if it is a change, and its log, if there is one, is then the
/// last log. Otherwise everything stays as it was.
pub proof fn law_change_is_followed(
    track: &mut MonitorTrack,
    pid: u32,
    path: Option<FilePath>,
    changed: bool,
)
    requires
        call_ensures(MonitorTrack::observe_log, (track, pid, path), changed),
    ensures
        old(track).resolution is None ==> changed,
        old(track).resolution matches Some(held) ==> {
            &&& held.0 != pid ==> changed
            &&& held.0 == pid && path is None ==> !changed
            &&& held.0 == pid && path is Some && held.1 is None ==> changed
            &&& held.0 == pid && path is Some && held.1 is Some ==> changed == (components(held.1->0@)
                != components(path->0@))
        },
        changed ==> {
            &&& final(track).resolution is Some
            &&& final(track).resolution matches Some((followed, log)) ==> followed == pid && (log is Some
                == path is Some) && (path is Some ==> log->0@ == path->0@)
            &&& path is Some ==> final(track).last_log is Some && final(track).last_log->0@ == path->0@
            &&& path is None ==> final(track).last_log is Some == old(track).last_log is Some
            &&& path is None && old(track).last_log is Some ==> final(track).last_log->0@ == old(
                track,
            ).last_log->0@
        },
        !changed ==> *final(track) == *old(track),
        final(track).announced == old(track).announced,
{
}

/// Each way the log monitor can fare is recorded as what it is.
pub proof fn law_monitor_is_recorded_as_it_fares(diagnostic: LogMonitorDiagnostic, note: LogMonitorNote)
    requires
        call_ensures(log_monitor_note, (diagnostic,), note),
    ensures
        note is Ready <==> diagnostic is Ready,
        note is Idle <==> diagnostic is Unavailable,
        note is Failed <==> diagnostic is ReadFailed,
        note matches LogMonitorNote::Idle(message) ==> message@ == "Waiting for Warframe"@,
        note matches LogMonitorNote::Failed(message) ==> message@ == "EE.log could not be read"@,
{
}

/// The monitor looks ten times as often while rewards are being chosen as it does otherwise, which is
/// ten times a second.
pub proof fn law_monitor_hurries_for_rewards(open: u64, closed: u64)
    requires
        call_ensures(poll_interval_ms, (true,), open),
        call_ensures(poll_interval_ms, (false,), closed),
    ensures
        10 * closed == 1000,
        10 * open == closed,
{
}

/// What is joined begins with the one path and ends in the other, with a slash between them where one
/// is needed, unless the other is absolute and stands for itself.
pub proof fn law_joined_path_holds_both(base: FilePath, relative: &str, whole: FilePath)
    requires
        call_ensures(FilePath::join, (&base, relative), whole),
    ensures
        ({
            let tail = encode_utf8(relative@);
            let gap = whole@.len() - base@.len() - tail.len();
            if tail.len() > 0 && tail[0] == SLASH {
                whole@ == tail
            } else {
                &&& whole@.take(base@.len() as int) == base@
                &&& whole@.skip(whole@.len() - tail.len()) == tail
                &&& gap == 0 || (gap == 1 && whole@[base@.len() as int] == SLASH)
                &&& gap == 1 <==> base@.len() > 0 && base@[base@.len() - 1] != SLASH
            }
        }),
{
    law_join_keeps_both_paths(base@, encode_utf8(relative@));
}

/// Of two paths exactly one of three things holds: they are the same, the one comes before the other,
/// or the other before the one.
pub proof fn law_paths_compare_in_one_way(
    a: FilePath,
    b: FilePath,
    same: bool,
    before: bool,
    after: bool,
)
    requires
        call_ensures(FilePath::same_as, (&a, &b), same),
        call_ensures(FilePath::goes_before, (&a, &b), before),
        call_ensures(FilePath::goes_before, (&b, &a), after),
    ensures
        same <==> components(a@) == components(b@),
        same || before || after,
        !(same && before) && !(same && after) && !(before && after),
{
    law_path_order_is_strict_total(a@, b@, a@);
    law_path_order_is_strict_total(b@, a@, b@);
}

/// Sorted paths stand in order. Each is one of the given ones, and each of the given ones is the same
/// as one of them, which is spelled as it was given first.
pub proof fn law_sorted_paths_are_the_given_ones(paths: &[FilePath], out: Vec<FilePath>)
    requires
        call_ensures(sorted_distinct, (paths,), out),
    ensures
        forall|i: int, j: int|
            0 <= i < j < out@.len() ==> path_before((#[trigger] out@[i])@, (#[trigger] out@[j])@),
        forall|j: int| 0 <= j < out@.len() ==> paths_view(paths@).contains((#[trigger] out@[j])@),
        forall|i: int|
            0 <= i < paths@.len() ==> out@.map_values(|p: FilePath| components(p@)).contains(
                components((#[trigger] paths@[i])@),
            ),
        forall|i: int|
            0 <= i < paths@.len() && (forall|k: int|
                0 <= k < i ==> components((#[trigger] paths@[k])@) != components(paths@[i]@))
                ==> paths_view(out@).contains((#[trigger] paths@[i])@),
{
    let given = paths_view(paths@);
    let sorted = paths_view(out@);
    law_sorting_keeps_every_path(given, sorted);
    assert forall|i: int, j: int| 0 <= i < j < out@.len() implies path_before(
        (#[trigger] out@[i])@,
        (#[trigger] out@[j])@,
    ) by {
        assert(path_before(sorted[i], sorted[j]));
    }
    assert forall|j: int| 0 <= j < out@.len() implies given.contains((#[trigger] out@[j])@) by {
        assert(given.contains(sorted[j]));
    }
    assert forall|i: int|
        0 <= i < paths@.len() && (forall|k: int|
            0 <= k < i ==> components((#[trigger] paths@[k])@) != components(paths@[i]@)) implies sorted.contains(
        (#[trigger] paths@[i])@,
    ) by {
        assert forall|k: int| 0 <= k < i implies components(#[trigger] given[k]) != components(given[i]) by {
            assert(components(paths@[k]@) != components(paths@[i]@));
        }
        assert(sorted.contains(given[i]));
    }
    let taken = out@.map_values(|p: FilePath| components(p@));
    assert(taken =~= sorted.map_values(|p: Seq<u8>| components(p)));
    assert forall|i: int| 0 <= i < paths@.len() implies taken.contains(
        components((#[trigger] paths@[i])@),
    ) by {
        assert(given[i] == paths@[i]@);
        assert(taken.contains(components(given[i])));
    }
}

/// What is found first has nothing of it before, and what is found last nothing after; nothing is
/// found exactly if it stands nowhere.
pub proof fn law_text_is_found_at_both_ends(
    hay: &[u8],
    needle: &[u8],
    first: Option<usize>,
    last: Option<usize>,
)
    requires
        call_ensures(find_first, (hay, needle), first),
        call_ensures(find_last, (hay, needle), last),
    ensures
        first is Some <==> occurs_in(hay@, needle@),
        last is Some <==> occurs_in(hay@, needle@),
        first matches Some(at) ==> occurs_at(hay@, needle@, at as int) && forall|j: int|
            0 <= j < at ==> !#[trigger] occurs_at(hay@, needle@, j),
        last matches Some(at) ==> occurs_at(hay@, needle@, at as int) && forall|j: int|
            at < j ==> !#[trigger] occurs_at(hay@, needle@, j),
{
}

/// The parts of a text, put together with the separator between them, are the text, and none of them
/// holds the separator.
pub proof fn law_parts_are_the_text(text: &[u8], sep: u8, parts: Vec<Vec<u8>>)
    requires
        call_ensures(split_bytes, (text, sep), parts),
    ensures
        rejoined(crate::bytes::byte_strings(parts@), sep) == text@,
        forall|i: int|
            0 <= i < parts@.len() ==> !crate::bytes::byte_strings(parts@)[i].contains(sep)
                && #[trigger] crate::bytes::byte_strings(parts@)[i] == parts@[i]@,
{
    law_pieces_make_up_the_text(text@, sep);
}

/// A report names the system by both its names, and the build by whether it is one for debugging.
pub proof fn law_report_names_system_and_build(
    os: &str,
    arch: &str,
    text: String,
    debug: bool,
    profile: String,
)
    requires
        call_ensures(os_arch, (os, arch), text),
        call_ensures(build_profile, (debug,), profile),
    ensures
        text@.len() == os@.len() + 1 + arch@.len(),
        text@.take(os@.len() as int) == os@,
        text@[os@.len() as int] == '/',
        text@.skip(os@.len() as int + 1) == arch@,
        debug ==> profile@ == "pre-release"@,
        !debug ==> profile@ == "stable"@,
{
    reveal_strlit("/");
    assert(text@.take(os@.len() as int) =~= os@);
    assert(text@.skip(os@.len() as int + 1) =~= arch@);
}

/// A report holds a log exactly if one is wanted and there is one: that of the game that runs, and
/// the last one that was followed only where none runs.
pub proof fn law_report_holds_the_wanted_log(
    wanted: bool,
    running: Option<FilePath>,
    last: Option<&FilePath>,
    log: Option<FilePath>,
)
    requires
        call_ensures(report_log, (wanted, running, last), log),
    ensures
        log is Some <==> wanted && (running is Some || last is Some),
        log is Some && running is Some ==> log->0@ == running->0@,
        log is Some && running is None ==> log->0@ == last->0@,
{
}

/// The prefixes of a text are those of the lines before a line break and then those of the lines
/// after it, and a single line gives the prefix that it names, if it names one.
pub proof fn law_text_gives_the_prefixes_of_its_lines(
    before: &[u8],
    after: &[u8],
    whole: &[u8],
    a: Vec<FilePath>,
    b: Vec<FilePath>,
    both: Vec<FilePath>,
    named: Option<FilePath>,
)
    requires
        whole@ == before@.push(NEWLINE) + after@,
        call_ensures(prefixes_in_text, (before,), a),
        call_ensures(prefixes_in_text, (after,), b),
        call_ensures(prefixes_in_text, (whole,), both),
        call_ensures(prefix_in_line, (before,), named),
    ensures
        both@.len() == a@.len() + b@.len(),
        forall|i: int| 0 <= i < a@.len() ==> (#[trigger] both@[i])@ == a@[i]@,
        forall|i: int| a@.len() <= i < both@.len() ==> (#[trigger] both@[i])@ == b@[i - a@.len()]@,
        !before@.contains(NEWLINE) ==> a@.len() == (if named is Some {
            1int
        } else {
            0int
        }),
        !before@.contains(NEWLINE) && named is Some ==> a@[0]@ == named->0@,
{
    law_pieces_around_a_separator(before@, after@, NEWLINE);
    law_lines_name_prefixes_in_order(pieces(before@, NEWLINE), pieces(after@, NEWLINE));
    let (va, vb, vw) = (paths_view(a@), paths_view(b@), paths_view(both@));
    assert(vw == va + vb);
    assert(va.len() == a@.len() && vb.len() == b@.len() && vw.len() == both@.len());
    assert forall|i: int| 0 <= i < a@.len() implies (#[trigger] both@[i])@ == a@[i]@ by {
        assert(vw[i] == both@[i]@);
        assert(va[i] == a@[i]@);
    }
    assert forall|i: int| a@.len() <= i < both@.len() implies (#[trigger] both@[i])@ == b@[i
        - a@.len()]@ by {
        assert(vw[i] == both@[i]@);
        assert(vb[i - a@.len()] == b@[i - a@.len()]@);
    }
    if !before@.contains(NEWLINE) {
        lemma_one_piece(before@, NEWLINE);
        reveal_with_fuel(crate::game_log::line_prefixes, 2);
        assert(pieces(before@, NEWLINE).drop_last() =~= Seq::<Seq<u8>>::empty());
        if named is Some {
            assert(va[0] == a@[0]@);
        }
    }
}

/// Joining a name adds one step, of that name, to the steps of a path.
pub proof fn law_joined_name_is_one_more_step(
    base: FilePath,
    name: &str,
    whole: FilePath,
    steps: Vec<Part>,
    more: Vec<Part>,
)
    requires
        !encode_utf8(name@).contains(SLASH),
        encode_utf8(name@).len() > 0,
        encode_utf8(name@) != seq![DOT],
        encode_utf8(name@) != seq![DOT, DOT],
        call_ensures(FilePath::join, (&base, name), whole),
        call_ensures(FilePath::components, (&base,), steps),
        call_ensures(FilePath::components, (&whole,), more),
    ensures
        more@.len() == steps@.len() + 1,
        forall|i: int| 0 <= i < steps@.len() ==> (#[trigger] more@[i])@ == steps@[i]@,
        more@.last() is Named,
        more@.last()->Named_0@ == encode_utf8(name@),
{
    law_name_is_one_step(encode_utf8(name@));
    law_join_appends_steps(base@, encode_utf8(name@));
    let (few, all) = (parts_view(steps@), parts_view(more@));
    assert(few.len() == steps@.len() && all.len() == more@.len());
    assert forall|i: int| 0 <= i < steps@.len() implies (#[trigger] more@[i])@ == steps@[i]@ by {
        assert(all[i] == more@[i]@);
        assert(few[i] == steps@[i]@);
    }
    assert(all.last() == more@.last()@);
}

/// On Windows, what lies below a directory begins with the directory and ends in the rest, with a
/// backslash between them exactly where one is needed.
pub proof fn law_place_below_holds_both(base: FilePath, rest: &str, place: FilePath, verbatim: bool)
    requires
        call_ensures(place_below, (&base, rest), place),
        call_ensures(starts_verbatim, (&base,), verbatim),
    ensures
        ({
            let tail = encode_utf8(rest@);
            let gap = place@.len() - base@.len() - tail.len();
            let drive = base@.len() == 2 && base@[1] == 0x3a && (0x41 <= base@[0] <= 0x5a || 0x61
                <= base@[0] <= 0x7a);
            &&& verbatim <==> base@.len() >= 4 && base@.take(4) == seq![0x5cu8, 0x5c, 0x3f, 0x5c]
            &&& place@.take(base@.len() as int) == base@
            &&& place@.skip(place@.len() - tail.len()) == tail
            &&& gap == 0 || (gap == 1 && place@[base@.len() as int] == 0x5c)
            &&& gap == 0 <==> base@.len() == 0 || base@.last() == 0x5c || (base@.last() == 0x2f
                && !verbatim) || drive
        }),
{
    law_place_is_the_directory_and_the_rest(base@, encode_utf8(rest@));
    if base@.len() >= 4 {
        let four = seq![0x5cu8, 0x5c, 0x3f, 0x5c];
        assert(base@.take(4) =~= seq![base@[0], base@[1], base@[2], base@[3]]);
        if base@.take(4) == four {
            assert(base@.take(4)[0] == four[0] && base@.take(4)[1] == four[1] && base@.take(4)[2]
                == four[2] && base@.take(4)[3] == four[3]);
        }
        if verbatim {
            assert(base@.take(4) =~= four);
        }
    }
}

/// At first no game is announced or followed, and no log was found.
pub proof fn law_nothing_is_followed_at_first(track: MonitorTrack)
    requires
        call_ensures(MonitorTrack::new, (), track),
    ensures
        track.announced is None,
        track.resolution is None,
        track.last_log is None,
{
}

} // verus!
