use tennoscope::bytes::{find_first, find_last, split_bytes};
use tennoscope::keyed::{NameMap, NameSet};
use tennoscope::path::{sorted_distinct, FilePath};
use tennoscope::text::{decimal_text, position_of, same_text};

fn path(text: &str) -> FilePath {
    FilePath::from_text(text)
}

#[test]
fn joining_follows_the_slashes() {
    assert_eq!(path("/a").join("b").as_bytes(), b"/a/b");
    assert_eq!(path("/a/").join("b").as_bytes(), b"/a/b");
    assert_eq!(path("").join("b").as_bytes(), b"b");
    assert_eq!(path("/a").join("/b").as_bytes(), b"/b");
}

#[test]
fn paths_compare_by_their_components() {
    for (a, b) in [
        ("/a/b", "/a//b"),
        ("/a/b", "/a/./b"),
        ("/a/b", "/a/b/"),
        ("./a", "./a/."),
        ("", ""),
    ] {
        assert!(path(a).same_as(&path(b)), "{a} {b}");
        assert_eq!(std::path::Path::new(a), std::path::Path::new(b));
    }
    for (a, b) in [
        ("/a/b", "a/b"),
        ("./a", "a"),
        ("a/..", "."),
        ("/a", "/b"),
        ("", "."),
    ] {
        assert!(!path(a).same_as(&path(b)), "{a} {b}");
        assert_ne!(std::path::Path::new(a), std::path::Path::new(b));
    }
}

#[test]
fn paths_are_ordered_as_the_standard_library_orders_them() {
    let texts = [
        "/", "/a", "/a/b", "/a-b", "/a//b/c", "a", "a/b", ".", "./a", "..", "../a", "", "/..", "b",
    ];
    for a in texts {
        for b in texts {
            let expected = std::path::Path::new(a) < std::path::Path::new(b);
            assert_eq!(path(a).goes_before(&path(b)), expected, "{a} {b}");
        }
    }
}

#[test]
fn sorting_drops_later_spellings() {
    let sorted = sorted_distinct(&[path("/b"), path("/a//x"), path("/b/"), path("/a/x"), path("/a")]);
    let bytes: Vec<&[u8]> = sorted.iter().map(FilePath::as_bytes).collect();
    assert_eq!(bytes, [b"/a".as_slice(), b"/a//x", b"/b"]);
}

#[test]
fn numbers_are_written_in_decimal() {
    for n in [0, 7, 10, 4711, 1700000000, u64::MAX] {
        assert_eq!(decimal_text(n), n.to_string());
    }
}

#[test]
fn texts_are_found_by_their_characters() {
    assert!(same_text("für", "für"));
    assert!(!same_text("fur", "für"));
    let list = ["a".to_owned(), "b".to_owned(), "a".to_owned()];
    assert_eq!(position_of(&list, "a"), Some(0));
    assert_eq!(position_of(&list, "b"), Some(1));
    assert_eq!(position_of(&list, "c"), None);
}

#[test]
fn bytes_are_searched_from_both_ends() {
    assert_eq!(find_first(b"abcabc", b"bc"), Some(1));
    assert_eq!(find_last(b"abcabc", b"bc"), Some(4));
    assert_eq!(find_first(b"abc", b"x"), None);
    assert_eq!(find_last(b"ab", b"abc"), None);
    assert_eq!(
        split_bytes(b"a,,b,", b','),
        [b"a".to_vec(), vec![], b"b".to_vec(), vec![]]
    );
}

#[test]
fn names_map_to_their_latest_value() {
    let mut map: NameMap<u32> = NameMap::new();
    assert!(map.is_empty());
    map.insert("a".to_owned(), 1);
    map.insert("b".to_owned(), 2);
    map.insert("a".to_owned(), 3);
    assert_eq!(map.len(), 2);
    assert_eq!(map.get("a"), Some(&3));
    assert_eq!(map.get("c"), None);
    assert!(map.contains("b"));
    map.clear();
    assert!(map.is_empty() && !map.contains("a"));
}

#[test]
fn a_name_is_in_a_set_once() {
    let mut set = NameSet::new();
    assert!(set.insert("a".to_owned()));
    assert!(!set.insert("a".to_owned()));
    set.remove("a");
    assert!(!set.contains("a"));
    assert!(set.insert("a".to_owned()));
    set.clear();
    assert!(!set.contains("a"));
}
