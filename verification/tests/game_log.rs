use tennoscope::game_log::{
    contains_inventory_sync_trigger, first_log, inventory_log_below, inventory_log_under, log_candidates,
    log_identity, monitor_path_changed, prefix_in_environ, prefix_in_line, prefixes_in_text,
    process_files, users_directory, wine_prefixes,
};
use tennoscope::log_places::log_places;
use tennoscope::path::FilePath;

fn shown(path: &FilePath) -> String {
    String::from_utf8(path.as_bytes().to_vec()).unwrap()
}

fn all_shown(paths: &[FilePath]) -> Vec<String> {
    paths.iter().map(shown).collect()
}

#[test]
fn monitor_path_changed_fires_on_the_first_observation() {
    assert!(monitor_path_changed(None, 42, None));
}

#[test]
fn monitor_path_changed_is_silent_while_the_same_path_is_tracked() {
    let path = FilePath::from_text("/prefix/drive_c/EE.log");
    let followed = Some((42, Some(path.clone())));
    assert!(!monitor_path_changed(followed.as_ref(), 42, Some(&path)));
}

#[test]
fn monitor_path_changed_silent_when_the_log_disappears() {
    let path = Some((42u32, Some(FilePath::from_text("/p/EE.log"))));
    assert!(!monitor_path_changed(path.as_ref(), 42, None));
}

#[test]
fn monitor_path_changed_fires_when_the_pid_changes() {
    let followed = Some((42u32, Some(FilePath::from_text("/p/EE.log"))));
    assert!(monitor_path_changed(
        followed.as_ref(),
        43,
        Some(&FilePath::from_text("/p/EE.log"))
    ));
}

#[test]
fn monitor_path_changed_fires_when_the_path_moves() {
    let followed = Some((42u32, Some(FilePath::from_text("/p/EE.log"))));
    assert!(monitor_path_changed(
        followed.as_ref(),
        42,
        Some(&FilePath::from_text("/q/EE.log"))
    ));
}

#[test]
fn a_log_that_is_found_later_is_a_change() {
    let followed = Some((42u32, None));
    assert!(monitor_path_changed(
        followed.as_ref(),
        42,
        Some(&FilePath::from_text("/p/EE.log"))
    ));
    assert!(!monitor_path_changed(followed.as_ref(), 42, None));
    assert!(monitor_path_changed(followed.as_ref(), 43, None));
}

#[test]
fn another_spelling_of_the_followed_path_is_no_change() {
    let followed = Some((42u32, Some(FilePath::from_text("/p//./EE.log"))));
    assert!(!monitor_path_changed(
        followed.as_ref(),
        42,
        Some(&FilePath::from_text("/p/EE.log/"))
    ));
}

#[test]
fn the_sync_announcement_is_found_within_a_line() {
    assert!(contains_inventory_sync_trigger(
        b"12.3 Sys [Info]: Inventory sync done\nnext"
    ));
    assert!(contains_inventory_sync_trigger(b"Inventory sync done"));
    assert!(!contains_inventory_sync_trigger(b"Inventory sync\n done"));
    assert!(!contains_inventory_sync_trigger(b"Inventory sync don"));
    assert!(!contains_inventory_sync_trigger(b""));
}

#[test]
fn the_log_below_local_application_data_has_to_be_a_file() {
    let root = FilePath::from_text(r"C:\Users\me\AppData\Local");
    assert_eq!(
        inventory_log_under(&root, true).map(|path| shown(&path)),
        Some(r"C:\Users\me\AppData\Local\Warframe/EE.log".to_owned())
    );
    assert!(inventory_log_under(&root, false).is_none());
}

#[test]
fn the_log_is_joined_as_on_windows() {
    for (root, log) in [
        (r"C:\x", r"C:\x\Warframe/EE.log"),
        (r"C:\x\", r"C:\x\Warframe/EE.log"),
        ("C:/x/", "C:/x/Warframe/EE.log"),
        ("C:", "C:Warframe/EE.log"),
        ("z:", "z:Warframe/EE.log"),
        ("1:", r"1:\Warframe/EE.log"),
        (r"C:\", r"C:\Warframe/EE.log"),
        ("", "Warframe/EE.log"),
        (r"\\?\C:\x", r"\\?\C:\x\Warframe\EE.log"),
        (r"\\?\C:\x\", r"\\?\C:\x\Warframe\EE.log"),
        (r"\\?\C:\x/", r"\\?\C:\x/\Warframe\EE.log"),
        (r"\\server\share", r"\\server\share\Warframe/EE.log"),
    ] {
        assert_eq!(shown(&inventory_log_below(&FilePath::from_text(root))), log);
    }
}

#[test]
fn places_follow_the_prefixes_and_pass_over_what_cannot_be_listed() {
    let listings = [
        Some(vec![FilePath::from_text("/a/u1"), FilePath::from_text("/a/u2")]),
        None,
        Some(vec![]),
        Some(vec![FilePath::from_text("/b/u1")]),
    ];
    let places = log_places(&listings);
    assert_eq!(
        all_shown(&places),
        [
            "/a/u1/AppData/Local/Warframe/EE.log",
            "/a/u1/Local Settings/Application Data/Warframe/EE.log",
            "/a/u2/AppData/Local/Warframe/EE.log",
            "/a/u2/Local Settings/Application Data/Warframe/EE.log",
            "/b/u1/AppData/Local/Warframe/EE.log",
            "/b/u1/Local Settings/Application Data/Warframe/EE.log",
        ]
    );
    let is_file = [false, false, true, true, true, false];
    assert_eq!(
        first_log(places, &is_file).map(|path| shown(&path)),
        Some("/a/u2/AppData/Local/Warframe/EE.log".to_owned())
    );
    assert!(log_places(&[]).is_empty());
}

#[test]
fn the_environment_names_a_prefix() {
    let environ = b"HOME=/home/me\0WINEPREFIX=/games/pfx\0WINEPREFIX=/other\0";
    assert_eq!(
        prefix_in_environ(environ).map(|path| shown(&path)),
        Some("/games/pfx".to_owned())
    );
    assert!(prefix_in_environ(b"HOME=/home/me\0XWINEPREFIX=/x\0").is_none());
}

#[test]
fn a_prefix_that_is_not_text_is_passed_over() {
    assert!(prefix_in_environ(b"WINEPREFIX=/games/\xff\0WINEPREFIX=/other\0").is_none());
    assert_eq!(
        prefix_in_environ("WINEPREFIX=/spiele/für\0".as_bytes()).map(|path| shown(&path)),
        Some("/spiele/für".to_owned())
    );
}

#[test]
fn a_line_names_what_stands_before_the_last_drive() {
    let line = b"7f00-7f01 r-xp 0 00:01 12 /a/drive_c/b/drive_c/Warframe.exe";
    assert_eq!(
        prefix_in_line(line).map(|path| shown(&path)),
        Some("/a/drive_c/b".to_owned())
    );
    assert_eq!(
        prefix_in_line(b"/drive_c/drive_c/x").map(|path| shown(&path)),
        Some("/drive_c".to_owned())
    );
    assert_eq!(
        prefix_in_line(b"/drive_c/x").map(|path| shown(&path)),
        Some(String::new())
    );
    assert!(prefix_in_line(b"/a/drive_d/x").is_none());
    assert!(prefix_in_line(b"no path here").is_none());
}

#[test]
fn a_text_names_a_prefix_per_line() {
    let text = b"x /a/drive_c/1\nnothing\ny /b/drive_c/2\r\n/c/drive_c/3";
    assert_eq!(all_shown(&prefixes_in_text(text)), ["/a", "/b", "/c"]);
}

#[test]
fn the_prefixes_of_a_process_are_sorted_and_distinct() {
    let prefixes = wine_prefixes(
        Some(b"WINEPREFIX=/z/pfx\0".to_vec()),
        Some(b"/a/pfx/drive_c/Warframe.exe".to_vec()),
        Some(b"1 /z/pfx/drive_c/x\n2 /m/drive_c/y\n3 /a/pfx/drive_c/z".to_vec()),
    );
    assert_eq!(all_shown(&prefixes), ["/a/pfx", "/m", "/z/pfx"]);
    assert!(wine_prefixes(None, None, None).is_empty());
}

#[test]
fn one_prefix_in_two_spellings_counts_once() {
    let prefixes = wine_prefixes(
        Some(b"WINEPREFIX=/games//pfx\0".to_vec()),
        None,
        Some(b"1 /games/pfx/drive_c/x".to_vec()),
    );
    assert_eq!(all_shown(&prefixes), ["/games//pfx"]);
}

#[test]
fn the_places_to_look_in_follow_the_layout() {
    let files = process_files(&FilePath::from_text("/proc"), 4711);
    assert_eq!(shown(&files.environ), "/proc/4711/environ");
    assert_eq!(shown(&files.exe), "/proc/4711/exe");
    assert_eq!(shown(&files.maps), "/proc/4711/maps");
    assert_eq!(
        shown(&users_directory(&FilePath::from_text("/pfx"))),
        "/pfx/drive_c/users"
    );
    let users = [FilePath::from_text("/u/a"), FilePath::from_text("/u/b")];
    assert_eq!(
        all_shown(&log_candidates(&users)),
        [
            "/u/a/AppData/Local/Warframe/EE.log",
            "/u/a/Local Settings/Application Data/Warframe/EE.log",
            "/u/b/AppData/Local/Warframe/EE.log",
            "/u/b/Local Settings/Application Data/Warframe/EE.log",
        ]
    );
}

#[test]
fn the_first_place_with_a_file_is_the_log() {
    let places = || vec![FilePath::from_text("/a"), FilePath::from_text("/b"), FilePath::from_text("/c")];
    assert_eq!(
        first_log(places(), &[false, true, true]).map(|path| shown(&path)),
        Some("/b".to_owned())
    );
    assert!(first_log(places(), &[false, false, false]).is_none());
    assert!(first_log(vec![], &[]).is_none());
}

#[test]
fn the_identity_of_a_log_changes_with_its_creation() {
    assert_eq!(
        log_identity("/p/EE.log", Some(1700000000)),
        "/p/EE.log:1700000000"
    );
    assert_eq!(log_identity("/p/EE.log", None), "/p/EE.log");
    assert_eq!(log_identity("/p/EE.log", Some(0)), "/p/EE.log:0");
    assert_ne!(
        log_identity("/p/EE.log", Some(1)),
        log_identity("/p/EE.log", Some(2))
    );
}
