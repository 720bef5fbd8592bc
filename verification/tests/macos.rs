use bitfun_sandbox::host::{Host, Platform};
use bitfun_sandbox::platform::macos::{
    canonicalize_path, generate_seatbelt_policy, run_sandboxed,
};
use bitfun_sandbox::{NetworkPolicy, SandboxMode, SandboxPolicy};

fn words(list: &[&str]) -> Vec<String> {
    list.iter().map(|s| s.to_string()).collect()
}

fn host() -> Host {
    let mut host = Host::new(Platform::MacOs);
    host.seatbelt_base = "(version 1)".to_string();
    host.seatbelt_network = "(allow system-socket)".to_string();
    host.canonical.insert("/tmp".to_string(), "/private/tmp".to_string());
    host
}

fn policy(mode: SandboxMode) -> SandboxPolicy {
    SandboxPolicy {
        mode,
        writable_roots: words(&["/tmp", "relative"]),
        extra_writable_roots: words(&["/x"]),
        denied_write_paths: Vec::new(),
        network: NetworkPolicy::Restricted,
    }
}

#[test]
fn paths_in_rules() {
    assert_eq!(canonicalize_path("/tmp", &host()).as_deref(), Some("/private/tmp"));
    assert_eq!(canonicalize_path("/x", &host()).as_deref(), Some("/x"));
    assert_eq!(canonicalize_path("relative", &host()), None);
}

#[test]
fn seatbelt_policy_for_workspace_write() {
    let (text, params) =
        generate_seatbelt_policy(&policy(SandboxMode::WorkspaceWrite), "/w", &host());
    assert_eq!(
        text,
        "(version 1)\n; allow read-only file operations\n(allow file-read*)\n\
         (allow file-write*\n(subpath (param \"WRITABLE_ROOT_0\"))\n\
         (subpath (param \"WRITABLE_ROOT_1\"))\n(subpath (param \"WRITABLE_ROOT_2\"))\n)\n"
    );
    let pair = |a: &str, b: &str| (a.to_string(), b.to_string());
    assert_eq!(
        params,
        vec![
            pair("WRITABLE_ROOT_0", "/w"),
            pair("WRITABLE_ROOT_1", "/private/tmp"),
            pair("WRITABLE_ROOT_2", "/x"),
        ]
    );
}

#[test]
fn seatbelt_policy_for_the_other_modes() {
    let (text, params) = generate_seatbelt_policy(&policy(SandboxMode::ReadOnly), "/w", &host());
    assert_eq!(text, "(version 1)\n; allow read-only file operations\n(allow file-read*)\n\n");
    assert!(params.is_empty());
    let mut open = policy(SandboxMode::FullAccess);
    open.network = NetworkPolicy::Enabled;
    let (text, params) = generate_seatbelt_policy(&open, "/w", &host());
    assert_eq!(
        text,
        "(version 1)\n; allow read-only file operations\n(allow file-read*)\n\
         (allow file-write* (regex #\"^/\"))\n\
         (allow network-outbound)\n(allow network-inbound)\n(allow system-socket)"
    );
    assert!(params.is_empty());
}

#[test]
fn seatbelt_policy_without_writable_paths() {
    let mut none = policy(SandboxMode::WorkspaceWrite);
    none.writable_roots = words(&["relative"]);
    none.extra_writable_roots = Vec::new();
    let (text, params) = generate_seatbelt_policy(&none, ".", &host());
    assert_eq!(text, "(version 1)\n; allow read-only file operations\n(allow file-read*)\n\n");
    assert!(params.is_empty());
}

#[test]
fn many_parameters_have_distinct_names() {
    let mut many = policy(SandboxMode::WorkspaceWrite);
    many.writable_roots = (0..12).map(|i| format!("/r{}", i)).collect();
    many.extra_writable_roots = Vec::new();
    let (_, params) = generate_seatbelt_policy(&many, "/w", &host());
    assert_eq!(params.len(), 13);
    assert_eq!(params[10].0, "WRITABLE_ROOT_10");
    assert_eq!(params[12], ("WRITABLE_ROOT_12".to_string(), "/r11".to_string()));
}

#[test]
fn denied_paths_follow_the_writable_ones() {
    let mut denying = policy(SandboxMode::WorkspaceWrite);
    denying.writable_roots = Vec::new();
    denying.extra_writable_roots = Vec::new();
    denying.denied_write_paths = words(&["/w/secret", "relative", "/tmp"]);
    let (text, params) = generate_seatbelt_policy(&denying, "/w", &host());
    assert_eq!(
        text,
        "(version 1)\n; allow read-only file operations\n(allow file-read*)\n\
         (allow file-write*\n(subpath (param \"WRITABLE_ROOT_0\"))\n)\n\
         (deny file-write*\n(subpath (param \"DENIED_PATH_0\"))\n\
         (subpath (param \"DENIED_PATH_1\"))\n(subpath (param \"DENIED_PATH_2\"))\n)\n"
    );
    let pair = |a: &str, b: &str| (a.to_string(), b.to_string());
    assert_eq!(
        params,
        vec![
            pair("WRITABLE_ROOT_0", "/w"),
            pair("DENIED_PATH_0", "/w/secret"),
            pair("DENIED_PATH_1", "/w/relative"),
            pair("DENIED_PATH_2", "/private/tmp"),
        ]
    );
    let (_, params) = generate_seatbelt_policy(&denying, "/tmp", &host());
    assert_eq!(params[2], pair("DENIED_PATH_1", "/private/tmp/relative"));
    let (_, params) = generate_seatbelt_policy(&denying, ".", &host());
    assert_eq!(params[1], pair("DENIED_PATH_1", "./relative"));
    denying.mode = SandboxMode::ReadOnly;
    assert!(generate_seatbelt_policy(&denying, "/w", &host()).1.is_empty());
}

#[test]
fn sandbox_exec_runs_the_command() {
    let run = run_sandboxed(
        policy(SandboxMode::WorkspaceWrite),
        &words(&["ls", "-l"]),
        "/w",
        &words(&["A=1"]),
        5,
        &host(),
    );
    let (text, _) = generate_seatbelt_policy(&policy(SandboxMode::WorkspaceWrite), "/w", &host());
    assert_eq!(run.program, "/usr/bin/sandbox-exec");
    assert_eq!(
        run.args,
        [
            "-p",
            text.as_str(),
            "-DWRITABLE_ROOT_0=/w",
            "-DWRITABLE_ROOT_1=/private/tmp",
            "-DWRITABLE_ROOT_2=/x",
            "--",
            "ls",
            "-l",
        ]
    );
    assert_eq!(run.cwd, "/w");
    assert_eq!(run.env.get("A", false).as_deref(), Some("1"));
    assert_eq!(run.timeout_ms, 5);
}
