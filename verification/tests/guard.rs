use bitfun_sandbox::dots::resolve_dots;
use bitfun_sandbox::guard::{is_inside, is_subpath, normalize_path};
use bitfun_sandbox::host::{Host, Platform};
use bitfun_sandbox::{is_path_allowed, SandboxPolicy};

const SYSTEMS: [Platform; 4] =
    [Platform::Windows, Platform::Linux, Platform::MacOs, Platform::Other];

#[test]
fn full_access_allows_everything() {
    for platform in SYSTEMS {
        let policy = SandboxPolicy::new_full_access();
        let result = is_path_allowed(
            "C:/Users/admin/Desktop/test.txt",
            &policy,
            "D:/project",
            platform,
        );
        assert!(result.allowed);
        assert!(result.reason.is_none());
    }
}

#[test]
fn read_only_blocks_everything() {
    for platform in SYSTEMS {
        let policy = SandboxPolicy::new_read_only();
        let result = is_path_allowed("D:/project/test.txt", &policy, "D:/project", platform);
        assert!(!result.allowed);
        assert!(result.reason.unwrap().contains("read-only"));
    }
}

#[test]
fn workspace_write_allows_project_dir() {
    for platform in SYSTEMS {
        let host = Host::new(platform);
        let policy = SandboxPolicy::new_workspace_write("D:/project".to_string(), &host);
        let result = is_path_allowed("D:/project/src/lib.rs", &policy, "D:/project", platform);
        assert!(result.allowed);
    }
}

#[test]
fn workspace_write_denies_desktop() {
    for platform in SYSTEMS {
        let host = Host::new(platform);
        let policy = SandboxPolicy::new_workspace_write("D:/project".to_string(), &host);
        let result = is_path_allowed(
            "C:/Users/admin/Desktop/test.txt",
            &policy,
            "D:/project",
            platform,
        );
        assert!(!result.allowed);
    }
}

#[test]
fn workspace_write_denies_explicit_denied_path() {
    for platform in SYSTEMS {
        let host = Host::new(platform);
        let mut policy = SandboxPolicy::new_workspace_write("D:/project".to_string(), &host);
        policy.denied_write_paths.push("D:/secrets".to_string());
        let result = is_path_allowed("D:/secrets/key.pem", &policy, "D:/project", platform);
        assert!(!result.allowed);
    }
}

fn workspace(roots: &[&str], extra: &[&str], denied: &[&str]) -> SandboxPolicy {
    let mut policy = SandboxPolicy::new_workspace_write("/w".to_string(), &Host::new(Platform::Linux));
    policy.writable_roots = roots.iter().map(|s| s.to_string()).collect();
    policy.extra_writable_roots = extra.iter().map(|s| s.to_string()).collect();
    policy.denied_write_paths = denied.iter().map(|s| s.to_string()).collect();
    policy
}

#[test]
fn reasons_name_what_is_wrong() {
    let policy = workspace(&["/w"], &["/extra"], &["/w/secret", "/w/secret/inner"]);
    let check = |p: &str| is_path_allowed(p, &policy, "/w", Platform::Linux);
    assert_eq!(
        check("/w/secret/inner/a").reason.unwrap(),
        "path is in the denied zone: /w/secret"
    );
    assert_eq!(check("/w/secret").reason.unwrap(), "path is in the denied zone: /w/secret");
    assert_eq!(
        check("/elsewhere").reason.unwrap(),
        "path is outside the allowed project directory"
    );
    assert!(check("/extra/file").allowed);
    assert!(check("/w").allowed);
    let mut read_only = policy.clone();
    read_only.mode = bitfun_sandbox::SandboxMode::ReadOnly;
    assert_eq!(
        is_path_allowed("/w/a", &read_only, "/w", Platform::Linux).reason.unwrap(),
        "sandbox is in read-only mode, all writes are blocked"
    );
}

#[test]
fn denied_path_wins_over_writable_root() {
    let policy = workspace(&["/w", "/w/secret/open"], &[], &["/w/secret"]);
    assert!(!is_path_allowed("/w/secret/open/a", &policy, "/w", Platform::Linux).allowed);
    assert!(is_path_allowed("/w/other", &policy, "/w", Platform::Linux).allowed);
}

#[test]
fn sibling_with_the_same_start_is_outside() {
    let policy = workspace(&["/work"], &[], &[]);
    assert!(!is_path_allowed("/workshop/a", &policy, "/work", Platform::Linux).allowed);
    assert!(is_path_allowed("/work/shop", &policy, "/work", Platform::Linux).allowed);
}

#[test]
fn windows_ignores_case_and_slashes() {
    let policy = workspace(&["D:\\Project"], &[], &["D:/PROJECT/Secret"]);
    let check = |p: &str| is_path_allowed(p, &policy, "D:\\Project", Platform::Windows).allowed;
    assert!(check("d:/project/SRC/main.rs"));
    assert!(check("D:\\PROJECT\\src"));
    assert!(!check("d:\\project\\secret\\key"));
    let check = |p: &str| is_path_allowed(p, &policy, "D:\\Project", Platform::Linux).allowed;
    assert!(!check("d:/project/src"));
}

#[test]
fn normalized_paths() {
    assert_eq!(normalize_path("C:\\Users\\ÄB", Platform::Windows), "c:/users/äb");
    assert_eq!(normalize_path("C:\\Users\\AB", Platform::Linux), "C:\\Users\\AB");
}

#[test]
fn subpaths() {
    assert!(is_subpath("/a", "/a"));
    assert!(is_subpath("/a", "/a/b/c"));
    assert!(!is_subpath("/a", "/ab"));
    assert!(!is_subpath("/a/b", "/a"));
    assert!(is_subpath("/", "/tmp"));
    assert!(is_subpath("/a/", "/a/b"));
    assert!(is_subpath("/a/", "/a/"));
    assert!(!is_subpath("/a/", "/a"));
    assert!(!is_subpath("/a/", "/ab"));
    assert!(is_subpath("", "/a"));
    assert!(!is_subpath("", "a"));
}

#[test]
fn dots_are_no_way_out() {
    let policy = workspace(&["/w"], &[], &["/w/secret"]);
    let check = |p: &str| is_path_allowed(p, &policy, "/w", Platform::Linux).allowed;
    assert!(!check("/w/../etc/passwd"));
    assert!(!check("/w/.."));
    assert!(!check("/w/a/../../etc"));
    assert!(!check("/w/a/../secret/key"));
    assert!(!check("/w/./secret"));
    assert!(check("/w/a/../b"));
    assert!(check("/etc/../w/b"));
    assert!(check("/../w/b"));
    assert!(check("/w//a/./b/"));
    assert!(!check("../w/b"));
    assert!(!check("w/b"));
    for (long, short) in [
        ("/w/a/../b/c", "/w/b/c"),
        ("/w/secret/x/../key", "/w/secret/key"),
        ("/w/x/../secret", "/w/secret"),
        ("/x/..", "/"),
        ("/x/../w", "/w"),
        ("w/x/../y", "w/y"),
        ("./x/../w", "./w"),
    ] {
        assert_eq!(check(long), check(short));
        assert_eq!(
            resolve_dots(long, Platform::Linux),
            resolve_dots(short, Platform::Linux)
        );
    }
}

#[test]
fn dots_are_no_way_out_on_windows() {
    let policy = workspace(&["D:\\Work"], &[], &["D:\\Work\\Secret\\"]);
    let check = |p: &str| is_path_allowed(p, &policy, "D:\\Work", Platform::Windows).allowed;
    assert!(!check("d:/work/../windows/x"));
    assert!(!check("D:\\WORK\\a\\..\\..\\x"));
    assert!(!check("D:\\work\\a\\..\\SECRET\\k"));
    assert!(check("D:\\x\\..\\work\\.\\a"));
    assert!(!check("D:work\\a"));
    assert!(!check("E:\\work\\a"));
    for (long, short) in [
        ("D:\\work\\x\\..\\a", "D:\\work\\a"),
        ("d:\\work/x\\../secret\\k", "d:\\work/secret\\k"),
        ("\\\\s\\h\\x\\..", "\\\\s\\h"),
        ("D:/x/..\\work", "D:\\work"),
    ] {
        assert_eq!(check(long), check(short));
        assert_eq!(
            resolve_dots(long, Platform::Windows),
            resolve_dots(short, Platform::Windows)
        );
    }
}

#[test]
fn directories_may_end_in_a_slash() {
    let policy = workspace(&["/w/", "/"], &[], &["/secrets/"]);
    let check = |p: &str| is_path_allowed(p, &policy, "/w", Platform::Linux);
    assert_eq!(
        check("/secrets/key").reason.unwrap(),
        "path is in the denied zone: /secrets/"
    );
    assert!(!check("/secrets").allowed);
    assert!(check("/w/a").allowed);
    assert!(check("/w").allowed);
    assert!(check("/elsewhere").allowed);
}

#[test]
fn relative_paths_are_compared_from_where_they_start() {
    for (p, root, inside) in [
        ("a/b", "a", true),
        ("./a", ".", true),
        ("a", ".", true),
        (".", ".", true),
        ("..", ".", false),
        ("../x", ".", false),
        ("../x", "..", true),
        ("../../x", "..", false),
        ("/etc", ".", false),
        ("/etc", "", false),
        ("a/../../b", "..", true),
    ] {
        assert_eq!(is_inside(p, root, Platform::Linux), inside, "{} {}", p, root);
    }
    for (p, root, inside) in [
        ("C:\\x", "C:", true),
        ("C:x", "C:\\", false),
        ("C:\\..\\x", "c:/X", true),
        ("\\\\s\\h\\a\\..\\b", "//S/H/B", true),
        ("\\\\s\\h\\..\\b", "\\\\s\\h", true),
        ("\\x", "C:\\", false),
    ] {
        assert_eq!(is_inside(p, root, Platform::Windows), inside, "{} {}", p, root);
    }
}

#[test]
fn paths_without_dots() {
    assert_eq!(resolve_dots("/a/./b/../c//", Platform::Linux), ("/a/c".to_string(), 0));
    assert_eq!(resolve_dots("/..", Platform::Linux), ("/".to_string(), 0));
    assert_eq!(resolve_dots("a/../../b", Platform::Linux), ("./../b".to_string(), 1));
    assert_eq!(resolve_dots("", Platform::Linux), (".".to_string(), 0));
    assert_eq!(resolve_dots("c:/a/..", Platform::Windows), ("c:/".to_string(), 0));
    assert_eq!(resolve_dots("c:a\\b", Platform::Windows), ("c:./a/b".to_string(), 0));
}

#[test]
fn tighter_policy_allows_no_more() {
    let loose = workspace(&["/w", "/x"], &[], &["/w/a"]);
    let tight = workspace(&["/w"], &[], &["/w/a", "/w/b"]);
    for p in ["/w", "/w/a", "/w/b/c", "/x/y", "/z"] {
        let allowed_by_tight = is_path_allowed(p, &tight, "/w", Platform::Linux).allowed;
        let allowed_by_loose = is_path_allowed(p, &loose, "/w", Platform::Linux).allowed;
        assert!(!allowed_by_tight || allowed_by_loose);
    }
}

#[test]
fn results_can_be_cloned() {
    let policy = SandboxPolicy::new_read_only();
    let result = is_path_allowed("/a", &policy, "/", Platform::Linux);
    let copy = result.clone();
    assert_eq!(copy.allowed, result.allowed);
    assert_eq!(copy.reason, result.reason);
}
