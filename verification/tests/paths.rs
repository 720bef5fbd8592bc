use bitfun_sandbox::host::Platform;
use bitfun_sandbox::path_order::{order_paths, sort_distinct};
use bitfun_sandbox::paths::{is_absolute, join_path};
use bitfun_sandbox::text::{
    contains_text, eq_ignore_ascii_case, join, replace_char, split_once, starts_with,
    to_decimal, trim, trim_quotes,
};
use std::path::Path;

const UNIX: [&str; 14] = [
    "", "/", "a", "/a", "a/b", "/a/b", "/a//b", "/a/./b", "./a", "a/.", "..", "/a/../b", "a.b",
    "/a/b/",
];

#[test]
fn unix_paths_agree_with_the_system() {
    for a in UNIX {
        assert_eq!(is_absolute(a, Platform::Linux), a.starts_with('/'));
        for b in UNIX {
            let order = match Path::new(a).cmp(Path::new(b)) {
                std::cmp::Ordering::Less => -1i8,
                std::cmp::Ordering::Equal => 0,
                std::cmp::Ordering::Greater => 1,
            };
            assert_eq!(order_paths(a, b, Platform::Linux), order, "{} {}", a, b);
            let joined = Path::new(a).join(b);
            assert_eq!(join_path(a, b, Platform::Linux), joined.to_str().unwrap());
        }
    }
}

#[test]
fn windows_paths() {
    let w = Platform::Windows;
    for p in ["C:\\", "C:/x", "\\\\server\\share", "\\\\?\\C:", "\\\\.\\COM1", "\\\\?\\UNC\\a\\b\\c"] {
        assert!(is_absolute(p, w), "{}", p);
    }
    for p in ["C:", "C:x", "\\x", "/x", "x", "", "\\\\server"] {
        assert!(!is_absolute(p, w), "{}", p);
    }
    assert_eq!(join_path("C:\\a", "b", w), "C:\\a\\b");
    assert_eq!(join_path("C:\\a\\", "b", w), "C:\\a\\b");
    assert_eq!(join_path("C:", "b", w), "C:b");
    assert_eq!(join_path("\\\\s\\h\\a", "/b", w), "\\\\s\\h/b");
    assert_eq!(join_path("\\\\?\\C:\\a\\b", "..\\.\\c", w), "\\\\?\\C:\\a\\c");
    assert_eq!(order_paths("C:\\a\\b", "c:/a//b/.", w), 0);
    assert_eq!(order_paths("C:\\a", "C:\\A", w), 1);
    assert_eq!(order_paths("C:\\a\\b", "D:\\a", w), -1);
}

#[test]
fn sorted_lists_keep_the_first_writing() {
    let list: Vec<String> =
        ["/b", "/a/", "/a", "/b/.", "/a/c"].iter().map(|s| s.to_string()).collect();
    assert_eq!(sort_distinct(&list, Platform::Linux), ["/a/", "/a/c", "/b"]);
}

#[test]
fn texts() {
    assert_eq!(trim("\u{3000} a b\t\n"), "a b");
    assert_eq!(trim_quotes("\"'a'b\""), "a'b");
    assert!(starts_with("äbc", "äb"));
    assert!(!starts_with("a", "ab"));
    assert!(contains_text("xäby", "äb"));
    assert!(contains_text("x", ""));
    assert!(!contains_text("", "x"));
    assert!(eq_ignore_ascii_case("NuL", "nUl"));
    assert!(!eq_ignore_ascii_case("Ä", "ä"));
    assert_eq!(replace_char("a~b~", '~', "/h"), "a/hb/h");
    assert_eq!(split_once("k=v=w", '='), Some(("k".to_string(), "v=w".to_string())));
    assert_eq!(split_once("kv", '='), None);
    assert_eq!(join(&vec!["a".to_string(), "".to_string(), "b".to_string()], ", "), "a, , b");
    assert_eq!(to_decimal(0), "0");
    assert_eq!(to_decimal(10709), "10709");
    assert_eq!(to_decimal(usize::MAX), usize::MAX.to_string());
}
