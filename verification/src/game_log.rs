//! Finding the game's log, telling one log from another, and reading on in it.

use vstd::prelude::*;
use vstd::string::StringExecFns;
#[allow(unused_imports)]
use vstd::utf8::{decode_utf8, encode_utf8, is_ascii_chars_encode_utf8, valid_utf8};

use crate::bytes::{copy_range, find_first, find_last, split_bytes, stands_at};
#[allow(unused_imports)]
use crate::bytes::{byte_strings, free_of, law_needle_stays_within_a_piece, occurs_at, occurs_in, pieces};
use crate::path::{sorted_distinct, FilePath};
#[allow(unused_imports)]
use crate::path::{
    holds_same, is_first_of_its_kind, is_sorted_distinct, joined, opt_path, paths_view, same_path,
    SLASH,
};
use crate::text::decimal_text;
use crate::windows_path::{place_below, starts_verbatim};
#[allow(unused_imports)]
use crate::windows_path::{below, is_verbatim};
#[allow(unused_imports)]
use crate::text::{decimal, law_decimal_is_injective, law_decimal_reads_back, number};

verus! {

/// The end of a line.
pub const NEWLINE: u8 = 0x0a;

/// The end of an entry in a process environment.
pub const NUL: u8 = 0x00;

/// Whether some line of `log` says that the inventory was synchronised.
pub open spec fn says_inventory_synced(log: Seq<u8>) -> bool {
    exists|k: int|
        0 <= k < pieces(log, NEWLINE).len() && occurs_in(
            #[trigger] pieces(log, NEWLINE)[k],
            encode_utf8("Inventory sync done"@),
        )
}

/// Whether some line of the log says that the inventory was synchronised.
pub fn contains_inventory_sync_trigger(bytes: &[u8]) -> (found: bool)
    ensures
        found == says_inventory_synced(bytes@),
{
    let needle = "Inventory sync done".as_bytes();
    let found = find_first(bytes, needle).is_some();
    proof {
        reveal_strlit("Inventory sync done");
        is_ascii_chars_encode_utf8("Inventory sync done"@);
        law_needle_stays_within_a_piece(bytes@, needle@, NEWLINE);
    }
    found
}

/// The announcement holds no line break, so it is found in the log as a whole exactly when it is
/// found in one of the lines.
pub proof fn law_sync_trigger_is_found_in_the_whole_log(log: Seq<u8>)
    ensures
        says_inventory_synced(log) == occurs_in(log, encode_utf8("Inventory sync done"@)),
{
    reveal_strlit("Inventory sync done");
    is_ascii_chars_encode_utf8("Inventory sync done"@);
    law_needle_stays_within_a_piece(log, encode_utf8("Inventory sync done"@), NEWLINE);
}

/// Where the game writes its log on Windows, below the local application data directory. The steps
/// are separated as they are in the game's own name for it, and by the backslash where only that
/// separates.
pub open spec fn log_below(local_appdata: Seq<u8>) -> Seq<u8> {
    below(
        local_appdata,
        if is_verbatim(local_appdata) {
            encode_utf8("Warframe\\EE.log"@)
        } else {
            encode_utf8("Warframe/EE.log"@)
        },
    )
}

/// Where the game writes its log on Windows, below the local application data directory.
pub fn inventory_log_below(local_appdata: &FilePath) -> (path: FilePath)
    ensures
        path@ == log_below(local_appdata@),
{
    if starts_verbatim(local_appdata) {
        place_below(local_appdata, "Warframe\\EE.log")
    } else {
        place_below(local_appdata, "Warframe/EE.log")
    }
}

/// The log below the local application data directory on Windows, if the game has written one.
///
/// `is_file` says whether a file stands at [`inventory_log_below`] that directory. A directory left
/// behind under that name is not a log.
pub fn inventory_log_under(local_appdata: &FilePath, is_file: bool) -> (path: Option<FilePath>)
    ensures
        opt_path(path) == (if is_file {
            Some(log_below(local_appdata@))
        } else {
            None
        }),
{
    if is_file {
        Some(inventory_log_below(local_appdata))
    } else {
        None
    }
}

/// The value of the first entry that starts with `lead`.
pub open spec fn first_value(entries: Seq<Seq<u8>>, lead: Seq<u8>) -> Option<Seq<u8>>
    decreases entries.len(),
{
    if entries.len() == 0 {
        None
    } else if occurs_at(entries[0], lead, 0) {
        Some(entries[0].skip(lead.len() as int))
    } else {
        first_value(entries.skip(1), lead)
    }
}

/// The Wine prefix that a process environment names. A name that is not UTF-8 is passed over.
pub open spec fn environ_prefix(environ: Seq<u8>) -> Option<Seq<u8>> {
    match first_value(pieces(environ, NUL), encode_utf8("WINEPREFIX="@)) {
        Some(value) => if valid_utf8(value) {
            Some(value)
        } else {
            None
        },
        None => None,
    }
}

/// Where `byte` first stands in `line`.
pub open spec fn first_place(line: Seq<u8>, byte: u8) -> int {
    choose|s: int|
        0 <= s < line.len() && line[s] == byte && forall|j: int| 0 <= j < s ==> #[trigger] line[j] != byte
}

/// Where `needle` last stands in `line`.
pub open spec fn last_place(line: Seq<u8>, needle: Seq<u8>) -> int {
    choose|p: int|
        #[trigger] occurs_at(line, needle, p) && forall|q: int| p < q ==> !#[trigger] occurs_at(line, needle, q)
}

/// The Wine prefix in a line that names a file on its drive: what stands between the first slash
/// and the last `/drive_c/`.
pub open spec fn line_prefix(line: Seq<u8>) -> Option<Seq<u8>> {
    let drive = encode_utf8("/drive_c/"@);
    if occurs_in(line, drive) {
        Some(line.subrange(first_place(line, SLASH), last_place(line, drive)))
    } else {
        None
    }
}

/// The Wine prefixes that lines name, in their order.
pub open spec fn line_prefixes(lines: Seq<Seq<u8>>) -> Seq<Seq<u8>>
    decreases lines.len(),
{
    if lines.len() == 0 {
        Seq::empty()
    } else {
        let before = line_prefixes(lines.drop_last());
        match line_prefix(lines.last()) {
            Some(prefix) => before.push(prefix),
            None => before,
        }
    }
}

/// The Wine prefixes that a text names, in the order of its lines.
pub open spec fn text_prefixes(text: Option<Seq<u8>>) -> Seq<Seq<u8>> {
    match text {
        Some(text) => line_prefixes(pieces(text, NEWLINE)),
        None => Seq::empty(),
    }
}

/// Every Wine prefix that a process gives away: in its environment, in the path of its executable,
/// and in its memory map.
pub open spec fn process_prefixes(
    environ: Option<Seq<u8>>,
    exe: Option<Seq<u8>>,
    maps: Option<Seq<u8>>,
) -> Seq<Seq<u8>> {
    let named = match environ {
        Some(environ) => match environ_prefix(environ) {
            Some(prefix) => seq![prefix],
            None => Seq::empty(),
        },
        None => Seq::empty(),
    };
    named + text_prefixes(exe) + text_prefixes(maps)
}

/// The bytes that may be missing.
pub open spec fn opt_bytes(bytes: Option<Vec<u8>>) -> Option<Seq<u8>> {
    match bytes {
        Some(bytes) => Some(bytes@),
        None => None,
    }
}

/// `std::str::from_utf8`: the text that the bytes encode, exactly when they are valid UTF-8.
#[verifier::external_body]
pub(crate) fn decode_text(bytes: &[u8]) -> (text: Option<&str>)
    ensures
        match text {
            Some(text) => valid_utf8(bytes@) && text@ == decode_utf8(bytes@),
            None => !valid_utf8(bytes@),
        },
{
    std::str::from_utf8(bytes).ok()
}

/// The Wine prefix that a process environment names.
pub fn prefix_in_environ(environ: &[u8]) -> (prefix: Option<FilePath>)
    ensures
        opt_path(prefix) == environ_prefix(environ@),
{
    let lead = "WINEPREFIX=".as_bytes();
    let entries = split_bytes(environ, NUL);
    let ghost texts = pieces(environ@, NUL);
    assert(texts == byte_strings(entries@));
    assert(texts.skip(0) == texts);
    let mut i: usize = 0;
    while i < entries.len()
        invariant
            i <= entries@.len(),
            lead@ == encode_utf8("WINEPREFIX="@),
            texts == byte_strings(entries@),
            texts == pieces(environ@, NUL),
            first_value(texts, lead@) == first_value(texts.skip(i as int), lead@),
        decreases entries@.len() - i,
    {
        let entry = entries[i].as_slice();
        assert(texts.skip(i as int)[0] == entry@);
        if stands_at(entry, lead, 0) {
            let value = copy_range(entry, lead.len(), entry.len());
            assert(value@ == entry@.skip(lead@.len() as int));
            assert(first_value(texts, lead@) == Some(value@));
            return match decode_text(value.as_slice()) {
                Some(_) => Some(FilePath::from_bytes(value)),
                None => None,
            };
        }
        assert(texts.skip(i as int).skip(1) == texts.skip(i + 1));
        i += 1;
    }
    None
}

/// A text that is a single slash stands exactly where a slash stands.
proof fn lemma_slash_places(line: Seq<u8>, slash: Seq<u8>, at: int)
    requires
        slash == seq![SLASH],
    ensures
        occurs_at(line, slash, at) <==> 0 <= at < line.len() && line[at] == SLASH,
{
    if 0 <= at < line.len() {
        assert(line.subrange(at, at + 1)[0] == line[at]);
        if line[at] == SLASH {
            assert(line.subrange(at, at + 1) =~= slash);
        }
    }
}

/// Where a text that begins with a slash stands, a slash stands.
proof fn lemma_begins_with_slash(line: Seq<u8>, needle: Seq<u8>, at: int)
    requires
        needle.len() > 0,
        needle[0] == SLASH,
        occurs_at(line, needle, at),
    ensures
        0 <= at < line.len(),
        line[at] == SLASH,
{
    assert(line.subrange(at, at + needle.len())[0] == line[at]);
}

/// The first slash is where it was found.
proof fn lemma_first_place(line: Seq<u8>, start: int)
    requires
        0 <= start < line.len(),
        line[start] == SLASH,
        forall|j: int| 0 <= j < start ==> #[trigger] line[j] != SLASH,
    ensures
        first_place(line, SLASH) == start,
{
    let place = first_place(line, SLASH);
    if place < start {
        assert(line[place] != SLASH);
    } else if start < place {
        assert(line[start] != SLASH);
    }
}

/// The last place is where it was found.
proof fn lemma_last_place(line: Seq<u8>, needle: Seq<u8>, end: int)
    requires
        occurs_at(line, needle, end),
        forall|q: int| end < q ==> !#[trigger] occurs_at(line, needle, q),
    ensures
        last_place(line, needle) == end,
{
    let place = last_place(line, needle);
    assert(occurs_at(line, needle, place));
}

/// The Wine prefix in a line that names a file on its drive.
#[verifier::spinoff_prover]
pub fn prefix_in_line(line: &[u8]) -> (prefix: Option<FilePath>)
    ensures
        opt_path(prefix) == line_prefix(line@),
{
    let drive = "/drive_c/".as_bytes();
    let slash = "/".as_bytes();
    proof {
        reveal_strlit("/drive_c/");
        reveal_strlit("/");
        is_ascii_chars_encode_utf8("/drive_c/"@);
        is_ascii_chars_encode_utf8("/"@);
        assert(drive@[0] == SLASH);
        assert(slash@ =~= seq![SLASH]);
    }
    match find_last(line, drive) {
        None => None,
        Some(end) => {
            proof {
                lemma_begins_with_slash(line@, drive@, end as int);
                lemma_slash_places(line@, slash@, end as int);
                lemma_last_place(line@, drive@, end as int);
            }
            match find_first(line, slash) {
                None => None,
                Some(start) => {
                    proof {
                        lemma_slash_places(line@, slash@, start as int);
                        assert forall|j: int| 0 <= j < start implies #[trigger] line@[j] != SLASH by {
                            lemma_slash_places(line@, slash@, j);
                        }
                        lemma_first_place(line@, start as int);
                    }
                    Some(FilePath::from_bytes(copy_range(line, start, end)))
                },
            }
        },
    }
}

/// The Wine prefixes that a text names, in the order of its lines.
pub fn prefixes_in_text(text: &[u8]) -> (prefixes: Vec<FilePath>)
    ensures
        paths_view(prefixes@) == line_prefixes(pieces(text@, NEWLINE)),
{
    let lines = split_bytes(text, NEWLINE);
    let ghost texts = pieces(text@, NEWLINE);
    assert(texts == byte_strings(lines@));
    let mut prefixes: Vec<FilePath> = Vec::new();
    let mut i: usize = 0;
    assert(paths_view(prefixes@) == line_prefixes(texts.take(0)));
    while i < lines.len()
        invariant
            i <= lines@.len(),
            texts == byte_strings(lines@),
            paths_view(prefixes@) == line_prefixes(texts.take(i as int)),
        decreases lines@.len() - i,
    {
        let ghost before = paths_view(prefixes@);
        assert(texts.take(i + 1).drop_last() == texts.take(i as int));
        assert(texts.take(i + 1).last() == lines@[i as int]@);
        match prefix_in_line(lines[i].as_slice()) {
            Some(prefix) => {
                let ghost found = prefix@;
                prefixes.push(prefix);
                assert(paths_view(prefixes@) == before.push(found));
            },
            None => {},
        }
        i += 1;
    }
    assert(texts.take(i as int) == texts);
    prefixes
}

/// The Wine prefixes that a process gives away, each once and in the order of paths.
///
/// `environ` is its environment, as bytes. `exe` is the path of its executable and `maps` its memory
/// map, both as text, which is given by its UTF-8 bytes. Each is missing where it could not be read.
pub fn wine_prefixes(
    environ: Option<Vec<u8>>,
    exe: Option<Vec<u8>>,
    maps: Option<Vec<u8>>,
) -> (prefixes: Vec<FilePath>)
    ensures
        is_sorted_distinct(
            process_prefixes(opt_bytes(environ), opt_bytes(exe), opt_bytes(maps)),
            paths_view(prefixes@),
        ),
{
    let ghost wanted = process_prefixes(opt_bytes(environ), opt_bytes(exe), opt_bytes(maps));
    let mut found: Vec<FilePath> = Vec::new();
    if let Some(environ) = &environ {
        if let Some(prefix) = prefix_in_environ(environ.as_slice()) {
            found.push(prefix);
        }
    }
    let mut from_exe: Vec<FilePath> = match &exe {
        Some(exe) => prefixes_in_text(exe.as_slice()),
        None => Vec::new(),
    };
    let mut from_maps: Vec<FilePath> = match &maps {
        Some(maps) => prefixes_in_text(maps.as_slice()),
        None => Vec::new(),
    };
    assert(paths_view(from_exe@) == text_prefixes(opt_bytes(exe)));
    assert(paths_view(from_maps@) == text_prefixes(opt_bytes(maps)));
    found.append(&mut from_exe);
    found.append(&mut from_maps);
    assert(paths_view(found@) == wanted);
    sorted_distinct(found.as_slice())
}

/// The files under which the system describes a process.
pub struct ProcessFiles {
    pub environ: FilePath,
    pub exe: FilePath,
    pub maps: FilePath,
}

/// The directory that describes a process.
pub open spec fn process_directory(proc_root: Seq<u8>, pid: u32) -> Seq<u8> {
    joined(proc_root, encode_utf8(decimal(pid as nat)))
}

/// The files under `proc_root` that describe the process `pid`.
pub fn process_files(proc_root: &FilePath, pid: u32) -> (files: ProcessFiles)
    ensures
        files.environ@ == joined(process_directory(proc_root@, pid), encode_utf8("environ"@)),
        files.exe@ == joined(process_directory(proc_root@, pid), encode_utf8("exe"@)),
        files.maps@ == joined(process_directory(proc_root@, pid), encode_utf8("maps"@)),
{
    let number = decimal_text(pid as u64);
    let directory = proc_root.join(number.as_str());
    ProcessFiles {
        environ: directory.join("environ"),
        exe: directory.join("exe"),
        maps: directory.join("maps"),
    }
}

/// The directory of user profiles in a Wine prefix.
pub fn users_directory(prefix: &FilePath) -> (path: FilePath)
    ensures
        path@ == joined(prefix@, encode_utf8("drive_c/users"@)),
{
    prefix.join("drive_c/users")
}

/// The places where the log of one user can be, the likelier one first.
pub open spec fn user_logs(user: Seq<u8>) -> Seq<Seq<u8>> {
    seq![
        joined(user, encode_utf8("AppData/Local/Warframe/EE.log"@)),
        joined(user, encode_utf8("Local Settings/Application Data/Warframe/EE.log"@)),
    ]
}

/// The places where the log of any of the users can be.
pub open spec fn all_user_logs(users: Seq<Seq<u8>>) -> Seq<Seq<u8>>
    decreases users.len(),
{
    if users.len() == 0 {
        Seq::empty()
    } else {
        all_user_logs(users.drop_last()) + user_logs(users.last())
    }
}

/// The places to look for a log in, given the profile directories of a Wine prefix: both places
/// of one user before those of the next.
pub fn log_candidates(users: &[FilePath]) -> (paths: Vec<FilePath>)
    ensures
        paths_view(paths@) == all_user_logs(paths_view(users@)),
{
    let ghost names = paths_view(users@);
    let mut paths: Vec<FilePath> = Vec::new();
    let mut i: usize = 0;
    assert(paths_view(paths@) == all_user_logs(names.take(0)));
    while i < users.len()
        invariant
            i <= users@.len(),
            names == paths_view(users@),
            paths_view(paths@) == all_user_logs(names.take(i as int)),
        decreases users@.len() - i,
    {
        let ghost before = paths_view(paths@);
        paths.push(users[i].join("AppData/Local/Warframe/EE.log"));
        paths.push(users[i].join("Local Settings/Application Data/Warframe/EE.log"));
        assert(paths_view(paths@) == before + user_logs(users@[i as int]@));
        assert(names.take(i + 1).drop_last() == names.take(i as int));
        assert(names.take(i + 1).last() == users@[i as int]@);
        i += 1;
    }
    assert(names.take(i as int) == names);
    paths
}

/// Whether `at` is the first place that holds `true`.
pub open spec fn is_first_true(values: Seq<bool>, at: int) -> bool {
    0 <= at < values.len() && values[at] && forall|j: int| 0 <= j < at ==> !#[trigger] values[j]
}

/// The log among the places to look for it in: the first one where there is a file. `is_file` says
/// of each place whether there is one.
pub fn first_log(candidates: Vec<FilePath>, is_file: &[bool]) -> (log: Option<FilePath>)
    requires
        is_file@.len() == candidates@.len(),
    ensures
        match log {
            Some(path) => exists|at: int| #[trigger]
                is_first_true(is_file@, at) && path@ == candidates@[at]@,
            None => !is_file@.contains(true) && forall|j: int|
                0 <= j < is_file@.len() ==> !#[trigger] is_file@[j],
        },
{
    let mut i: usize = 0;
    while i < candidates.len()
        invariant
            i <= candidates@.len(),
            is_file@.len() == candidates@.len(),
            forall|j: int| 0 <= j < i ==> !#[trigger] is_file@[j],
        decreases candidates@.len() - i,
    {
        if is_file[i] {
            assert(is_first_true(is_file@, i as int));
            return Some(candidates[i].clone());
        }
        i += 1;
    }
    None
}

/// What tells one log from another: its path and, where it is known, the second it was created.
pub open spec fn identity_text(path: Seq<char>, created: Option<u64>) -> Seq<char> {
    match created {
        Some(created) => path + ":"@ + decimal(created as nat),
        None => path,
    }
}

/// A text that stays the same while a log grows and changes when the log is replaced.
///
/// `path` is how the path of the log reads and `created` the whole second, since 1970, in which it
/// was created. Where that is not known the path alone tells logs apart.
pub fn log_identity(path: &str, created: Option<u64>) -> (identity: String)
    ensures
        identity@ == identity_text(path@, created),
{
    match created {
        Some(created) => path.to_owned().concat(":").concat(decimal_text(created).as_str()),
        None => path.to_owned(),
    }
}

/// At one path, two logs have the same identity exactly when they were created in the same second
/// or neither creation is known.
pub proof fn law_identity_follows_the_creation(path: Seq<char>, a: Option<u64>, b: Option<u64>)
    ensures
        identity_text(path, a) == identity_text(path, b) <==> a == b,
{
    reveal_strlit(":");
    if a is Some && b is Some && identity_text(path, a) == identity_text(path, b) {
        let lead = path + ":"@;
        let da = decimal(a->0 as nat);
        let db = decimal(b->0 as nat);
        assert((lead + da).skip(lead.len() as int) == da);
        assert((lead + db).skip(lead.len() as int) == db);
        law_decimal_is_injective(a->0 as nat, b->0 as nat);
    } else if a is Some != b is Some {
        assert(identity_text(path, a).len() != identity_text(path, b).len());
    }
}

/// Whether the log that is followed is another one than before: nothing was followed yet, the
/// process is another, or the log is found at another path. A log that disappears is no change.
pub open spec fn is_path_change(
    followed: Option<(u32, Option<Seq<u8>>)>,
    pid: u32,
    path: Option<Seq<u8>>,
) -> bool {
    match followed {
        None => true,
        Some((followed_pid, followed_path)) => followed_pid != pid || (path is Some && !(followed_path is Some
            && same_path(followed_path->0, path->0))),
    }
}

/// What was last followed: a process and, where it was found, its log.
pub open spec fn followed_view(followed: Option<(u32, Option<FilePath>)>) -> Option<(u32, Option<Seq<u8>>)> {
    match followed {
        Some((pid, path)) => Some((pid, opt_path(path))),
        None => None,
    }
}

/// Whether the log that is followed is another one than before.
///
/// Silent while the same path is followed, so that a monitor that asks many times a second can
/// report each change once.
pub fn monitor_path_changed(
    followed: Option<&(u32, Option<FilePath>)>,
    pid: u32,
    path: Option<&FilePath>,
) -> (changed: bool)
    ensures
        changed == is_path_change(
            match followed {
                Some(t) => followed_view(Some(*t)),
                None => None,
            },
            pid,
            match path {
                Some(p) => Some(p@),
                None => None,
            },
        ),
{
    match followed {
        None => true,
        Some((followed_pid, followed_path)) => {
            if *followed_pid != pid {
                return true;
            }
            match (followed_path, path) {
                (_, None) => false,
                (None, Some(_)) => true,
                (Some(held), Some(path)) => !held.same_as(path),
            }
        },
    }
}

/// Once a resolution is followed, seeing it again is no change.
pub proof fn law_followed_resolution_is_silent(pid: u32, path: Option<Seq<u8>>)
    ensures
        !is_path_change(Some((pid, path)), pid, path),
{
}

/// The first value is that of the first entry that starts with `lead`: the entry is `lead` and then
/// the value, and no entry before it starts so. There is none exactly if no entry does.
pub proof fn law_first_value_is_that_of_the_first_entry(entries: Seq<Seq<u8>>, lead: Seq<u8>)
    ensures
        first_value(entries, lead) matches Some(value) ==> exists|i: int|
            0 <= i < entries.len() && #[trigger] entries[i] == lead + value && forall|j: int|
                0 <= j < i ==> !occurs_at(#[trigger] entries[j], lead, 0),
        first_value(entries, lead) is None <==> forall|j: int|
            0 <= j < entries.len() ==> !occurs_at(#[trigger] entries[j], lead, 0),
    decreases entries.len(),
{
    if entries.len() > 0 {
        if occurs_at(entries[0], lead, 0) {
            assert(entries[0].subrange(0, lead.len() as int) == lead);
            assert(entries[0] =~= lead + entries[0].skip(lead.len() as int));
        } else {
            let rest = entries.skip(1);
            law_first_value_is_that_of_the_first_entry(rest, lead);
            assert forall|j: int| 1 <= j < entries.len() implies #[trigger] entries[j] == rest[j - 1] by {}
            if let Some(value) = first_value(rest, lead) {
                let i = choose|i: int|
                    0 <= i < rest.len() && #[trigger] rest[i] == lead + value && forall|j: int|
                        0 <= j < i ==> !occurs_at(#[trigger] rest[j], lead, 0);
                assert(entries[i + 1] == lead + value);
                assert forall|j: int| 0 <= j < i + 1 implies !occurs_at(#[trigger] entries[j], lead, 0) by {
                    if j > 0 {
                        assert(!occurs_at(rest[j - 1], lead, 0));
                    }
                }
            } else {
                assert forall|j: int| 0 <= j < entries.len() implies !occurs_at(
                    #[trigger] entries[j],
                    lead,
                    0,
                ) by {
                    if j > 0 {
                        assert(!occurs_at(rest[j - 1], lead, 0));
                    }
                }
            }
            if forall|j: int| 0 <= j < entries.len() ==> !occurs_at(#[trigger] entries[j], lead, 0) {
                assert forall|j: int| 0 <= j < rest.len() implies !occurs_at(
                    #[trigger] rest[j],
                    lead,
                    0,
                ) by {
                    assert(!occurs_at(entries[j + 1], lead, 0));
                }
            }
        }
    }
}

/// The prefix that an environment names is the value of its first `WINEPREFIX` entry, whole, and
/// there is one exactly if there is such an entry and its value is UTF-8.
pub proof fn law_environment_names_its_first_prefix(environ: Seq<u8>, i: int)
    requires
        0 <= i < pieces(environ, NUL).len(),
        occurs_at(pieces(environ, NUL)[i], encode_utf8("WINEPREFIX="@), 0),
        forall|j: int|
            0 <= j < i ==> !occurs_at(
                #[trigger] pieces(environ, NUL)[j],
                encode_utf8("WINEPREFIX="@),
                0,
            ),
    ensures
        ({
            let value = pieces(environ, NUL)[i].skip(encode_utf8("WINEPREFIX="@).len() as int);
            &&& environ_prefix(environ) is Some <==> valid_utf8(value)
            &&& environ_prefix(environ) is Some ==> environ_prefix(environ)->0 == value
        }),
{
    let entries = pieces(environ, NUL);
    let lead = encode_utf8("WINEPREFIX="@);
    law_first_value_is_that_of_the_first_entry(entries, lead);
    let value = first_value(entries, lead)->0;
    let k = choose|k: int|
        0 <= k < entries.len() && #[trigger] entries[k] == lead + value && forall|j: int|
            0 <= j < k ==> !occurs_at(#[trigger] entries[j], lead, 0);
    assert(entries[k].subrange(0, lead.len() as int) =~= lead);
    assert(occurs_at(entries[k], lead, 0));
    if k < i {
        assert(!occurs_at(entries[k], lead, 0));
    } else if i < k {
        assert(!occurs_at(entries[i], lead, 0));
    }
    assert(entries[i].skip(lead.len() as int) =~= value);
}

/// An environment without a `WINEPREFIX` entry names no prefix.
pub proof fn law_environment_without_an_entry_names_none(environ: Seq<u8>)
    requires
        forall|j: int|
            0 <= j < pieces(environ, NUL).len() ==> !occurs_at(
                #[trigger] pieces(environ, NUL)[j],
                encode_utf8("WINEPREFIX="@),
                0,
            ),
    ensures
        environ_prefix(environ) is None,
{
    law_first_value_is_that_of_the_first_entry(
        pieces(environ, NUL),
        encode_utf8("WINEPREFIX="@),
    );
}

/// Something that stands in a line stands there for the last time somewhere.
proof fn lemma_last_occurrence(line: Seq<u8>, needle: Seq<u8>, from: int) -> (last: int)
    requires
        occurs_at(line, needle, from),
    ensures
        occurs_at(line, needle, last),
        last >= from,
        forall|q: int| last < q ==> !#[trigger] occurs_at(line, needle, q),
    decreases line.len() - from,
{
    if exists|q: int| from < q && #[trigger] occurs_at(line, needle, q) {
        let q = choose|q: int| from < q && #[trigger] occurs_at(line, needle, q);
        lemma_last_occurrence(line, needle, q)
    } else {
        from
    }
}

/// A slash that stands in a line stands there for the first time somewhere.
proof fn lemma_first_slash(line: Seq<u8>, at: int) -> (first: int)
    requires
        0 <= at < line.len(),
        line[at] == SLASH,
    ensures
        0 <= first <= at,
        line[first] == SLASH,
        forall|j: int| 0 <= j < first ==> #[trigger] line[j] != SLASH,
    decreases at,
{
    if exists|j: int| 0 <= j < at && #[trigger] line[j] == SLASH {
        let j = choose|j: int| 0 <= j < at && #[trigger] line[j] == SLASH;
        lemma_first_slash(line, j)
    } else {
        at
    }
}

/// Whether `line` is made up of something without a slash, `prefix`, `drive` and a rest, where the
/// prefix is empty or begins with a slash, and `drive` stands nowhere after that.
pub open spec fn is_made_up_around(line: Seq<u8>, prefix: Seq<u8>, drive: Seq<u8>) -> bool {
    exists|lead: Seq<u8>, rest: Seq<u8>|
        {
            &&& line == #[trigger] (lead + prefix + drive + rest)
            &&& forall|i: int| 0 <= i < lead.len() ==> #[trigger] lead[i] != SLASH
            &&& prefix.len() > 0 ==> prefix[0] == SLASH
            &&& forall|q: int|
                lead.len() + prefix.len() < q ==> !#[trigger] occurs_at(line, drive, q)
        }
}

proof fn lemma_made_up_around(line: Seq<u8>, drive: Seq<u8>, start: int, end: int)
    requires
        0 <= start <= end,
        occurs_at(line, drive, end),
        forall|q: int| end < q ==> !#[trigger] occurs_at(line, drive, q),
        start < line.len(),
        line[start] == SLASH,
        forall|j: int| 0 <= j < start ==> #[trigger] line[j] != SLASH,
    ensures
        is_made_up_around(line, line.subrange(start, end), drive),
{
    let prefix = line.subrange(start, end);
    let lead = line.take(start);
    let rest = line.skip(end + drive.len());
    assert(line =~= lead + prefix + drive + rest) by {
        assert forall|i: int| 0 <= i < line.len() implies line[i] == (lead + prefix + drive + rest)[i] by {
            if end <= i < end + drive.len() {
                assert(line.subrange(end, end + drive.len())[i - end] == drive[i - end]);
            }
        }
    }
    assert forall|i: int| 0 <= i < lead.len() implies #[trigger] lead[i] != SLASH by {
        assert(line[i] != SLASH);
    }
}

proof fn lemma_places_around(line: Seq<u8>, drive: Seq<u8>)
    requires
        drive.len() > 0,
        drive[0] == SLASH,
        occurs_in(line, drive),
    ensures
        is_made_up_around(
            line,
            line.subrange(first_place(line, SLASH), last_place(line, drive)),
            drive,
        ),
{
    let some = choose|at: int| occurs_at(line, drive, at);
    let end = lemma_last_occurrence(line, drive, some);
    lemma_last_place(line, drive, end);
    lemma_begins_with_slash(line, drive, end);
    let start = lemma_first_slash(line, end);
    lemma_first_place(line, start);
    lemma_made_up_around(line, drive, start, end);
}

proof fn lemma_drive_begins_with_slash()
    ensures
        encode_utf8("/drive_c/"@).len() > 0,
        encode_utf8("/drive_c/"@)[0] == SLASH,
{
    reveal_strlit("/drive_c/");
    is_ascii_chars_encode_utf8("/drive_c/"@);
}

/// A line names a prefix exactly if it holds `/drive_c/`. It is then made up of something without a
/// slash, the prefix, `/drive_c/` and a rest, where the prefix is empty or begins with a slash, and
/// `/drive_c/` stands nowhere after that.
pub proof fn law_line_is_made_up_around_its_prefix(line: Seq<u8>)
    ensures
        line_prefix(line) is Some <==> occurs_in(line, encode_utf8("/drive_c/"@)),
        line_prefix(line) is Some ==> is_made_up_around(
            line,
            line_prefix(line)->0,
            encode_utf8("/drive_c/"@),
        ),
{
    lemma_drive_begins_with_slash();
    if occurs_in(line, encode_utf8("/drive_c/"@)) {
        lemma_places_around(line, encode_utf8("/drive_c/"@));
    }
}

/// What a line names is among the prefixes of the lines.
#[verifier::spinoff_prover]
proof fn lemma_named_prefix_is_held(lines: Seq<Seq<u8>>, k: int)
    requires
        0 <= k < lines.len(),
        line_prefix(lines[k]) is Some,
    ensures
        line_prefixes(lines).contains(line_prefix(lines[k])->0),
    decreases lines.len(),
{
    let init = lines.drop_last();
    let before = line_prefixes(init);
    let all = line_prefixes(lines);
    if k < init.len() {
        assert(init[k] == lines[k]);
        lemma_named_prefix_is_held(init, k);
        let i = choose|i: int| 0 <= i < before.len() && before[i] == line_prefix(lines[k])->0;
        assert(all[i] == before[i]);
    } else {
        assert(lines[k] == lines.last());
        assert(all[before.len() as int] == line_prefix(lines[k])->0);
    }
}

/// Each of the prefixes of the lines is named by one of them.
#[verifier::spinoff_prover]
proof fn lemma_held_prefix_is_named(lines: Seq<Seq<u8>>, i: int) -> (k: int)
    requires
        0 <= i < line_prefixes(lines).len(),
    ensures
        0 <= k < lines.len(),
        line_prefix(lines[k]) == Some(line_prefixes(lines)[i]),
    decreases lines.len(),
{
    let init = lines.drop_last();
    let before = line_prefixes(init);
    if i < before.len() {
        let k = lemma_held_prefix_is_named(init, i);
        assert(lines[k] == init[k]);
        assert(line_prefixes(lines)[i] == before[i]);
        k
    } else {
        assert(lines.len() > 0);
        assert(line_prefix(lines.last()) is Some);
        assert(line_prefixes(lines) == before.push(line_prefix(lines.last())->0));
        assert(i == before.len());
        lines.len() - 1
    }
}

/// The prefixes of lines are those that the lines name.
proof fn lemma_line_prefixes(lines: Seq<Seq<u8>>)
    ensures
        forall|k: int|
            0 <= k < lines.len() && line_prefix(#[trigger] lines[k]) is Some ==> line_prefixes(
                lines,
            ).contains(line_prefix(lines[k])->0),
        forall|p: Seq<u8>| #[trigger]
            line_prefixes(lines).contains(p) ==> exists|k: int|
                0 <= k < lines.len() && line_prefix(#[trigger] lines[k]) == Some(p),
{
    let all = line_prefixes(lines);
    assert forall|k: int|
        0 <= k < lines.len() && line_prefix(#[trigger] lines[k]) is Some implies all.contains(
        line_prefix(lines[k])->0,
    ) by {
        lemma_named_prefix_is_held(lines, k);
    }
    assert forall|p: Seq<u8>| #[trigger] all.contains(p) implies exists|k: int|
        0 <= k < lines.len() && line_prefix(#[trigger] lines[k]) == Some(p) by {
        let i = choose|i: int| 0 <= i < all.len() && all[i] == p;
        let k = lemma_held_prefix_is_named(lines, i);
        assert(line_prefix(lines[k]) == Some(p));
    }
}

/// Whether a text has a line that names this prefix.
pub open spec fn has_line_for(text: Option<Seq<u8>>, prefix: Seq<u8>) -> bool {
    text is Some && exists|k: int|
        0 <= k < pieces(text->0, NEWLINE).len() && line_prefix(
            #[trigger] pieces(text->0, NEWLINE)[k],
        ) == Some(prefix)
}

/// Sorting represents every path and makes up none.
proof fn lemma_sorting_represents(all: Seq<Seq<u8>>, found: Seq<Seq<u8>>, path: Seq<u8>)
    requires
        is_sorted_distinct(all, found),
    ensures
        all.contains(path) ==> holds_same(found, path),
        found.contains(path) ==> all.contains(path),
{
    if all.contains(path) {
        let i = choose|i: int| 0 <= i < all.len() && all[i] == path;
        assert(holds_same(found, all[i]));
    }
    if found.contains(path) {
        let j = choose|j: int| 0 <= j < found.len() && found[j] == path;
        assert(is_first_of_its_kind(all, found[j]));
        let i = choose|i: int| 0 <= i < all.len() && #[trigger] all[i] == path;
        assert(all[i] == path);
    }
}

/// The prefixes of a text are those that its lines name.
proof fn lemma_text_prefixes(text: Option<Seq<u8>>, prefix: Seq<u8>)
    ensures
        text_prefixes(text).contains(prefix) <==> has_line_for(text, prefix),
{
    if let Some(t) = text {
        lemma_line_prefixes(pieces(t, NEWLINE));
        if has_line_for(text, prefix) {
            let k = choose|k: int|
                0 <= k < pieces(t, NEWLINE).len() && line_prefix(#[trigger] pieces(t, NEWLINE)[k])
                    == Some(prefix);
            assert(line_prefixes(pieces(t, NEWLINE)).contains(line_prefix(pieces(t, NEWLINE)[k])->0));
        }
    }
}

proof fn lemma_contained_in_sum(a: Seq<Seq<u8>>, b: Seq<Seq<u8>>, c: Seq<Seq<u8>>, x: Seq<u8>)
    ensures
        (a + b + c).contains(x) <==> a.contains(x) || b.contains(x) || c.contains(x),
{
    let all = a + b + c;
    if a.contains(x) {
        let i = choose|i: int| 0 <= i < a.len() && a[i] == x;
        assert(all[i] == x);
    }
    if b.contains(x) {
        let i = choose|i: int| 0 <= i < b.len() && b[i] == x;
        assert(all[a.len() + i] == x);
    }
    if c.contains(x) {
        let i = choose|i: int| 0 <= i < c.len() && c[i] == x;
        assert(all[a.len() + b.len() + i] == x);
    }
    if all.contains(x) {
        let i = choose|i: int| 0 <= i < all.len() && all[i] == x;
        if i < a.len() {
            assert(a[i] == x);
        } else if i < a.len() + b.len() {
            assert(b[i - a.len()] == x);
        } else {
            assert(c[i - a.len() - b.len()] == x);
        }
    }
}

/// Each source of prefixes counts by itself: what a line of the executable's path or of the memory
/// map names is found whatever the environment holds, what the environment names is found whatever
/// the other two hold, and nothing else is found.
pub proof fn law_every_source_of_prefixes_counts(
    environ: Option<Seq<u8>>,
    exe: Option<Seq<u8>>,
    maps: Option<Seq<u8>>,
    found: Seq<Seq<u8>>,
    prefix: Seq<u8>,
)
    requires
        is_sorted_distinct(process_prefixes(environ, exe, maps), found),
    ensures
        environ is Some && environ_prefix(environ->0) == Some(prefix) ==> holds_same(found, prefix),
        has_line_for(exe, prefix) ==> holds_same(found, prefix),
        has_line_for(maps, prefix) ==> holds_same(found, prefix),
        found.contains(prefix) ==> (environ is Some && environ_prefix(environ->0) == Some(prefix))
            || has_line_for(exe, prefix) || has_line_for(maps, prefix),
{
    let named: Seq<Seq<u8>> = if environ is Some && environ_prefix(environ->0) is Some {
        seq![environ_prefix(environ->0)->0]
    } else {
        Seq::empty()
    };
    lemma_sorting_represents(process_prefixes(environ, exe, maps), found, prefix);
    lemma_text_prefixes(exe, prefix);
    lemma_text_prefixes(maps, prefix);
    lemma_contained_in_sum(named, text_prefixes(exe), text_prefixes(maps), prefix);
    if environ is Some && environ_prefix(environ->0) == Some(prefix) {
        assert(named[0] == prefix);
        assert(named.contains(prefix));
    }
    if named.contains(prefix) {
        assert(named[0] == prefix);
    }
    assert(process_prefixes(environ, exe, maps) == named + text_prefixes(exe) + text_prefixes(maps));
}

/// A change is reported exactly if nothing was followed, another process is followed, or a log is
/// found that is not the one that was followed. While the same log is found, or none, under the same
/// process, nothing is.
pub proof fn law_change_is_another_process_or_log(
    pid: u32,
    log: Option<Seq<u8>>,
    now_pid: u32,
    now_log: Option<Seq<u8>>,
)
    ensures
        is_path_change(None, now_pid, now_log),
        now_pid != pid ==> is_path_change(Some((pid, log)), now_pid, now_log),
        now_pid == pid && now_log is None ==> !is_path_change(Some((pid, log)), now_pid, now_log),
        now_pid == pid && now_log is Some && log is None ==> is_path_change(
            Some((pid, log)),
            now_pid,
            now_log,
        ),
        now_pid == pid && now_log is Some && log is Some ==> is_path_change(
            Some((pid, log)),
            now_pid,
            now_log,
        ) == !same_path(log->0, now_log->0),
{
}

/// The identity of a log begins with its path. What follows is nothing where the creation is not
/// known, and otherwise a colon and digits that read as the second of the creation.
pub proof fn law_identity_is_the_path_and_the_creation(path: Seq<char>, created: Option<u64>)
    ensures
        ({
            let identity = identity_text(path, created);
            &&& identity.len() >= path.len()
            &&& identity.take(path.len() as int) == path
            &&& created is None ==> identity == path
            &&& created matches Some(second) ==> {
                &&& identity.len() > path.len() + 1
                &&& identity[path.len() as int] == ':'
                &&& number(identity.skip(path.len() as int + 1)) == second
            }
        }),
{
    reveal_strlit(":");
    let identity = identity_text(path, created);
    assert(identity.take(path.len() as int) =~= path);
    if let Some(second) = created {
        law_decimal_reads_back(second as nat);
        assert(identity.skip(path.len() as int + 1) =~= decimal(second as nat));
    }
}

/// The log on Windows lies below the directory: its place begins with the directory and ends in
/// `EE.log`, under `Warframe`.
pub proof fn law_log_lies_below_its_directory(local_appdata: Seq<u8>)
    ensures
        ({
            let place = log_below(local_appdata);
            let tail = encode_utf8("EE.log"@);
            let folder = encode_utf8("Warframe"@);
            &&& place.len() >= local_appdata.len() + folder.len() + 1 + tail.len()
            &&& place.take(local_appdata.len() as int) == local_appdata
            &&& place.skip(place.len() - tail.len()) == tail
            &&& place.subrange(
                place.len() - tail.len() - 1 - folder.len(),
                place.len() - tail.len() - 1,
            ) == folder
            &&& place[place.len() - tail.len() - 1] == (if is_verbatim(local_appdata) {
                0x5cu8
            } else {
                0x2fu8
            })
        }),
{
    reveal_strlit("EE.log");
    reveal_strlit("Warframe");
    reveal_strlit("Warframe/EE.log");
    reveal_strlit("Warframe\\EE.log");
    is_ascii_chars_encode_utf8("EE.log"@);
    is_ascii_chars_encode_utf8("Warframe"@);
    is_ascii_chars_encode_utf8("Warframe/EE.log"@);
    is_ascii_chars_encode_utf8("Warframe\\EE.log"@);
    let place = log_below(local_appdata);
    let tail = encode_utf8("EE.log"@);
    let folder = encode_utf8("Warframe"@);
    assert(place.take(local_appdata.len() as int) =~= local_appdata);
    assert(place.skip(place.len() - tail.len()) =~= tail);
    assert(place.subrange(
        place.len() - tail.len() - 1 - folder.len(),
        place.len() - tail.len() - 1,
    ) =~= folder);
}

/// The prefixes of two runs of lines are those of the first and then those of the second.
pub proof fn law_lines_name_prefixes_in_order(a: Seq<Seq<u8>>, b: Seq<Seq<u8>>)
    ensures
        line_prefixes(a + b) == line_prefixes(a) + line_prefixes(b),
    decreases b.len(),
{
    if b.len() == 0 {
        assert(a + b =~= a);
        assert(line_prefixes(a) + line_prefixes(b) =~= line_prefixes(a));
    } else {
        law_lines_name_prefixes_in_order(a, b.drop_last());
        assert((a + b).drop_last() =~= a + b.drop_last());
        assert((a + b).last() == b.last());
        assert(line_prefixes(a + b) =~= line_prefixes(a) + line_prefixes(b));
    }
}

} // verus!
