use bitfun_sandbox::common::{parse_env, LaunchError};
use bitfun_sandbox::host::{Host, Platform};
use bitfun_sandbox::platform::windows::acl;
use bitfun_sandbox::platform::windows::acl::{
    dacl_has_write_allow_for_sid, dacl_has_write_deny_for_sid, full_access_entry, get_logon_sid,
    plan_allow_ace, plan_deny_write_ace, revoke_entry, Ace, AccessEntry, TokenGroup,
    DENY_WRITE_MASK,
};
use bitfun_sandbox::platform::windows::quoting::{argv_to_command_line, quote_windows_arg};
use bitfun_sandbox::platform::windows::wide::{
    make_env_block, order_keys, order_names, sort_entries, to_wide,
};
use bitfun_sandbox::platform::windows::{
    canonicalize_path, compute_allow_paths, list_null_devices, plan_cleanup, plan_deny_aces,
    run_sandboxed, wait_milliseconds, wait_outcome_of, Account, INFINITE, WAIT_TIMEOUT,
};
use bitfun_sandbox::{NetworkPolicy, SandboxMode, SandboxPolicy};
use windows_sys::Win32::Foundation;
use windows_sys::Win32::Security;
use windows_sys::Win32::Security::Authorization;
use windows_sys::Win32::Storage::FileSystem;
use windows_sys::Win32::System::Threading;

fn words(list: &[&str]) -> Vec<String> {
    list.iter().map(|s| s.to_string()).collect()
}

#[test]
fn arguments_are_quoted() {
    for (arg, expected) in [
        ("plain", "plain"),
        ("", "\"\""),
        ("a b", "\"a b\""),
        ("a\tb", "\"a\tb\""),
        ("say \"hi\"", "\"say \\\"hi\\\"\""),
        ("C:\\dir\\", "C:\\dir\\"),
        ("C:\\my dir\\", "\"C:\\my dir\\\\\""),
        ("a\\\"b", "\"a\\\\\\\"b\""),
        ("a\\\\b c", "\"a\\\\b c\""),
        ("\"", "\"\\\"\""),
    ] {
        assert_eq!(quote_windows_arg(arg), expected);
    }
}

#[test]
fn arguments_are_joined() {
    assert_eq!(argv_to_command_line(&words(&["cmd", "/C", "echo hello", ""])), "cmd /C \"echo hello\" \"\"");
    assert_eq!(argv_to_command_line(&[]), "");
}

/// Splits a command line by the rules of Windows for the arguments after the program.
fn read_back(line: &str) -> Vec<String> {
    let chars: Vec<char> = line.chars().collect();
    let mut args = Vec::new();
    let mut current: Option<String> = None;
    let mut inside = false;
    let mut i = 0;
    while i < chars.len() {
        let mut n = 0;
        while i + n < chars.len() && chars[i + n] == '\\' {
            n += 1;
        }
        if i + n < chars.len() && chars[i + n] == '"' {
            let text = current.get_or_insert_with(String::new);
            text.push_str(&"\\".repeat(n / 2));
            if n % 2 == 1 {
                text.push('"');
            } else {
                inside = !inside;
            }
            i += n + 1;
        } else if !inside && (chars[i] == ' ' || chars[i] == '\t') {
            args.extend(current.take());
            i += 1;
        } else {
            current.get_or_insert_with(String::new).push(chars[i]);
            i += 1;
        }
    }
    args.extend(current);
    args
}

#[test]
fn arguments_read_back() {
    let argv = words(&[
        "prog", "", "a b", "c\\", "d e\\\\", "\"", "\\\"", "x\\\\\"y z\\", "\t", "\\\\server\\s",
    ]);
    assert_eq!(read_back(&argv_to_command_line(&argv)), argv);
}

#[test]
fn texts_become_wide() {
    assert_eq!(to_wide(""), [0]);
    assert_eq!(to_wide("aß€"), [0x61, 0xdf, 0x20ac, 0]);
    assert_eq!(to_wide("\u{1f600}"), [0xd83d, 0xde00, 0]);
    for text in ["", "plain", "\u{ffff}\u{10000}\u{10ffff}", "Ωmega"] {
        let expected: Vec<u16> = text.encode_utf16().chain(std::iter::once(0)).collect();
        assert_eq!(to_wide(text), expected);
    }
}

#[test]
fn environment_blocks() {
    let env = parse_env(&words(&["b=2", "A=1", "a=3", "_x="]));
    let sorted: Vec<String> =
        sort_entries(&env).into_iter().map(|(k, v)| format!("{}={}", k, v)).collect();
    assert_eq!(sorted, ["A=1", "a=3", "b=2", "_x="]);
    let expected: Vec<u16> = "A=1\0a=3\0b=2\0_x=\0\0".encode_utf16().collect();
    assert_eq!(make_env_block(&env), expected);
    assert_eq!(make_env_block(&parse_env(&[])), [0]);
}

#[test]
fn names_are_ordered_by_upper_case() {
    assert_eq!(order_names("path", "PATH"), 1);
    assert_eq!(order_names("PATH", "path"), -1);
    assert_eq!(order_names("ß", "SS"), 1);
    assert_eq!(order_names("z", "ä"), -1);
    assert_eq!(order_names("a", "a"), 0);
    assert_eq!(order_names("a", "B"), -1);
    assert_eq!(order_names("ä", "Ö"), -1);
    assert_eq!(order_names("b", "A_"), 1);
    assert_eq!(order_keys("A", "x", "B", "a"), -1);
    assert_eq!(order_keys("A", "x", "A", "a"), 1);
}

fn policy(mode: SandboxMode) -> SandboxPolicy {
    SandboxPolicy {
        mode,
        writable_roots: words(&["D:\\work", "D:\\gone"]),
        extra_writable_roots: words(&["E:\\extra"]),
        denied_write_paths: words(&["D:\\secret", "D:/secret/"]),
        network: NetworkPolicy::Restricted,
    }
}

fn host() -> Host {
    let mut host = Host::new(Platform::Windows);
    host.env.insert("Temp".to_string(), "C:\\Temp".to_string());
    host.env.insert("TMP".to_string(), "C:\\TEMP\\.".to_string());
    host.env.insert("USERPROFILE".to_string(), "C:\\Users\\ada".to_string());
    host.existing = words(&[
        "D:\\work",
        "E:\\extra",
        "D:\\secret",
        "D:/secret/",
        "C:\\Temp",
        "C:\\TEMP\\.",
        "C:\\Users\\ada/Desktop",
        "C:\\Users\\ada/Music",
    ]);
    host.canonical.insert("C:\\Users\\ada/Music".to_string(), "F:\\Music".to_string());
    host
}

#[test]
fn paths_for_workspace_write() {
    let paths = compute_allow_paths(&policy(SandboxMode::WorkspaceWrite), "D:\\work", &host());
    assert_eq!(paths.allow, ["D:\\work", "E:\\extra", "C:\\Temp", "C:\\TEMP\\."]);
    assert_eq!(paths.deny, ["C:\\Users\\ada/Desktop", "F:\\Music", "D:\\secret"]);
}

#[test]
fn paths_for_the_other_modes() {
    let paths = compute_allow_paths(&policy(SandboxMode::ReadOnly), "D:\\work", &host());
    assert!(paths.allow.is_empty());
    assert_eq!(paths.deny, ["D:\\work", "E:\\extra", "D:\\secret"]);
    let paths = compute_allow_paths(&policy(SandboxMode::FullAccess), "D:\\work", &host());
    assert!(paths.allow.is_empty());
    assert_eq!(paths.deny, ["D:\\secret"]);
}

#[test]
fn profile_directory_has_no_third_name() {
    let mut host = Host::new(Platform::Windows);
    host.env.insert("HOMEDIR".to_string(), "C:\\h".to_string());
    host.existing = words(&["C:\\h/Desktop"]);
    let workspace = SandboxPolicy::new_full_access();
    let mut workspace = workspace;
    workspace.mode = SandboxMode::WorkspaceWrite;
    assert!(compute_allow_paths(&workspace, "D:\\w", &host).deny.is_empty());
    host.env.insert("HOME".to_string(), "C:\\h".to_string());
    assert_eq!(compute_allow_paths(&workspace, "D:\\w", &host).deny, ["C:\\h/Desktop"]);
}

#[test]
fn canonical_paths_fall_back() {
    assert_eq!(canonicalize_path("C:\\Users\\ada/Music", &host()), "F:\\Music");
    assert_eq!(canonicalize_path("x", &host()), "x");
}

#[test]
fn every_account_is_denied() {
    let aces = plan_deny_aces(&words(&["A", "B"]));
    let list: Vec<(&str, Account)> = aces.iter().map(|a| (a.path.as_str(), a.account)).collect();
    assert_eq!(
        list,
        [
            ("A", Account::User),
            ("A", Account::Users),
            ("A", Account::Everyone),
            ("B", Account::User),
            ("B", Account::Users),
            ("B", Account::Everyone),
        ]
    );
    assert_eq!(Account::User.well_known_sid(), None);
    assert_eq!(Account::Users.well_known_sid(), Some("S-1-5-32-545"));
    assert_eq!(Account::Everyone.well_known_sid(), Some("S-1-1-0"));
}

#[test]
fn cleanup_takes_away_what_was_added() {
    let aces = plan_deny_aces(&words(&["A", "B"]));
    let cleanup = plan_cleanup(&aces, &vec![true, false, true, false, true]);
    let list: Vec<(&str, Account)> =
        cleanup.iter().map(|a| (a.path.as_str(), a.account)).collect();
    assert_eq!(list, [("A", Account::User), ("A", Account::Everyone), ("B", Account::Users)]);
    assert!(plan_cleanup(&aces, &Vec::new()).is_empty());
}

fn ace(kind: u8, flags: u8, mask: u32, sid: &[u8]) -> Ace {
    Ace { kind, flags, mask, sid: sid.to_vec() }
}

#[test]
fn existing_entries_are_found() {
    let me = vec![1u8, 2, 3];
    let write = acl::FILE_GENERIC_WRITE;
    assert!(dacl_has_write_allow_for_sid(&vec![ace(0, 0, write, &me)], &me));
    assert!(dacl_has_write_allow_for_sid(&vec![ace(0, 3, 0x001f_01ff, &me)], &me));
    assert!(!dacl_has_write_allow_for_sid(&vec![ace(1, 0, write, &me)], &me));
    assert!(!dacl_has_write_allow_for_sid(&vec![ace(0, 8, write, &me)], &me));
    assert!(!dacl_has_write_allow_for_sid(&vec![ace(0, 0, write, &[1, 2])], &me));
    assert!(dacl_has_write_allow_for_sid(&vec![ace(0, 0, 0x2, &me)], &me));
    assert!(dacl_has_write_allow_for_sid(&vec![ace(0, 0, acl::FILE_GENERIC_READ, &me)], &me));
    assert!(!dacl_has_write_allow_for_sid(&vec![ace(0, 0, 0x1, &me)], &me));
    assert!(!dacl_has_write_allow_for_sid(&vec![ace(0, 0, acl::DELETE, &me)], &me));
    assert!(!dacl_has_write_allow_for_sid(&Vec::new(), &me));
    assert!(dacl_has_write_deny_for_sid(
        &vec![ace(0, 0, write, &me), ace(1, 3, acl::DELETE, &me)],
        &me
    ));
    assert!(dacl_has_write_deny_for_sid(&vec![ace(1, 3, write, &me)], &me));
    assert!(!dacl_has_write_deny_for_sid(&vec![ace(1, 3, 0x1, &me)], &me));
    assert!(!dacl_has_write_deny_for_sid(&vec![ace(0, 0, DENY_WRITE_MASK, &me)], &me));
    assert!(!dacl_has_write_deny_for_sid(&vec![ace(1, 9, DENY_WRITE_MASK, &me)], &me));
}

#[test]
fn entries_are_planned() {
    let me = vec![1u8];
    let allow = Some(AccessEntry { permissions: 0x0012_01bf, mode: 1, inheritance: 3 });
    assert_eq!(plan_allow_ace(&Vec::new(), &me), allow);
    assert_eq!(plan_allow_ace(&vec![ace(0, 0, 0x1, &me)], &me), allow);
    assert_eq!(plan_allow_ace(&vec![ace(0, 0, 0x0012_01bf, &me)], &me), None);
    assert_eq!(plan_allow_ace(&vec![ace(0, 0, acl::FILE_GENERIC_WRITE, &me)], &me), None);
    let deny = Some(AccessEntry { permissions: 0x4013_0156, mode: 3, inheritance: 3 });
    assert_eq!(plan_deny_write_ace(&Vec::new(), &me), deny);
    assert_eq!(plan_deny_write_ace(&vec![ace(1, 0, 0x1, &me)], &me), deny);
    assert_eq!(plan_deny_write_ace(&vec![ace(1, 0, acl::DELETE, &me)], &me), None);
    assert_eq!(plan_deny_write_ace(&vec![ace(1, 0, DENY_WRITE_MASK, &me)], &me), None);
    assert_eq!(plan_deny_write_ace(&vec![ace(1, 0, 0x0013_0156, &me)], &me), None);
    assert_eq!(revoke_entry(), AccessEntry { permissions: 0, mode: 4, inheritance: 3 });
    assert_eq!(full_access_entry(), AccessEntry { permissions: 0x1000_0000, mode: 1, inheritance: 0 });
}

#[test]
fn constants_are_those_of_windows() {
    assert_eq!(acl::FILE_GENERIC_READ, FileSystem::FILE_GENERIC_READ);
    assert_eq!(acl::FILE_GENERIC_WRITE, FileSystem::FILE_GENERIC_WRITE);
    assert_eq!(acl::FILE_GENERIC_EXECUTE, FileSystem::FILE_GENERIC_EXECUTE);
    assert_eq!(acl::FILE_WRITE_DATA, FileSystem::FILE_WRITE_DATA);
    assert_eq!(acl::FILE_APPEND_DATA, FileSystem::FILE_APPEND_DATA);
    assert_eq!(acl::FILE_WRITE_EA, FileSystem::FILE_WRITE_EA);
    assert_eq!(acl::FILE_DELETE_CHILD, FileSystem::FILE_DELETE_CHILD);
    assert_eq!(acl::FILE_WRITE_ATTRIBUTES, FileSystem::FILE_WRITE_ATTRIBUTES);
    assert_eq!(acl::DELETE, FileSystem::DELETE);
    assert_eq!(acl::GENERIC_ALL, Foundation::GENERIC_ALL);
    assert_eq!(acl::GENERIC_WRITE_MASK, Foundation::GENERIC_WRITE);
    assert_eq!(acl::GRANT_ACCESS, Authorization::GRANT_ACCESS);
    assert_eq!(acl::DENY_ACCESS, Authorization::DENY_ACCESS);
    assert_eq!(acl::REVOKE_ACCESS, Authorization::REVOKE_ACCESS);
    assert_eq!(acl::OBJECT_INHERIT_ACE, Security::OBJECT_INHERIT_ACE);
    assert_eq!(acl::CONTAINER_INHERIT_ACE, Security::CONTAINER_INHERIT_ACE);
    assert_eq!(u32::from(acl::INHERIT_ONLY_ACE), Security::INHERIT_ONLY_ACE);
    assert_eq!(INFINITE, Threading::INFINITE);
    assert_eq!(WAIT_TIMEOUT, Foundation::WAIT_TIMEOUT);
}

#[test]
fn logon_group_is_found() {
    let group = |attributes: u32, sid: &[u8]| TokenGroup { attributes, sid: sid.to_vec() };
    let groups = vec![
        group(0x4000_0000, &[1]),
        group(0xc000_0000, &[]),
        group(0xc000_0007, &[2]),
        group(0xc000_0000, &[3]),
    ];
    assert_eq!(get_logon_sid(&groups), Some(vec![2]));
    assert_eq!(get_logon_sid(&vec![group(0x8000_0000, &[1])]), None);
}

#[test]
fn waits_and_outcomes() {
    assert_eq!(wait_milliseconds(0), 0xffff_ffff);
    assert_eq!(wait_milliseconds(5000), 5000);
    assert_eq!(wait_milliseconds(0x1_0000_0005), 5);
    let done = wait_outcome_of(0, 7);
    assert_eq!((done.exit_code, done.timed_out), (7, false));
    let failed = wait_outcome_of(0, 0xc000_0005);
    assert_eq!((failed.exit_code, failed.timed_out), (0xc000_0005u32 as i32, false));
    let stopped = wait_outcome_of(0x102, 7);
    assert_eq!((stopped.exit_code, stopped.timed_out), (192, true));
}

#[test]
fn null_devices_stay_writable() {
    assert_eq!(list_null_devices(), ["NUL", "CON"]);
}

#[test]
fn restricted_run() {
    let mut host = host();
    host.env = parse_env(&words(&["B=1", "A=2"]));
    let run = run_sandboxed(
        policy(SandboxMode::ReadOnly),
        &words(&["cmd", "/C", "echo hi"]),
        "D:\\work",
        &words(&["B=3"]),
        1000,
        &host,
    )
    .unwrap();
    assert_eq!(run.command_line, "cmd /C \"echo hi\"");
    let expected: Vec<u16> = "A=2\0B=3\0\0".encode_utf16().collect();
    assert_eq!(run.environment, expected);
    assert_eq!(run.cwd, "D:\\work");
    assert_eq!(run.wait_ms, 1000);
    assert_eq!(run.paths.deny, ["D:\\work", "E:\\extra", "D:\\secret"]);
    assert_eq!(run.deny_aces.len(), 9);
    let empty = run_sandboxed(policy(SandboxMode::ReadOnly), &[], "D:\\work", &[], 0, &host);
    assert_eq!(empty.unwrap_err(), LaunchError::NoCommand);
}
