use bitfun_sandbox::host::{Host, Platform};
use bitfun_sandbox::platform::linux::{
    build_bwrap_args, existing_writable_paths, plan_landlock_rules, run_sandboxed, Access,
};
use bitfun_sandbox::platform::Launch;
use bitfun_sandbox::{NetworkPolicy, SandboxMode, SandboxPolicy};

fn words(list: &[&str]) -> Vec<String> {
    list.iter().map(|s| s.to_string()).collect()
}

fn policy(mode: SandboxMode, network: NetworkPolicy) -> SandboxPolicy {
    SandboxPolicy {
        mode,
        writable_roots: words(&["/w", "/gone"]),
        extra_writable_roots: words(&["/extra"]),
        denied_write_paths: words(&["/w/secret", "/missing"]),
        network,
    }
}

fn host() -> Host {
    let mut host = Host::new(Platform::Linux);
    host.existing = words(&["/w", "/extra", "/w/secret", "/run/user/1000"]);
    host
}

const BASE: [&str; 9] =
    ["--ro-bind", "/", "/", "--dev", "/dev", "--proc", "/proc", "--tmpfs", "/tmp"];

const ROOTS: [&str; 6] = ["--bind", "/w", "/w", "--bind", "/extra", "/extra"];

const DENIED: [&str; 3] = ["--ro-bind", "/w/secret", "/w/secret"];

#[test]
fn mounts_for_workspace_write() {
    let args = build_bwrap_args(
        &policy(SandboxMode::WorkspaceWrite, NetworkPolicy::Restricted),
        "/w",
        &host(),
    );
    let expected =
        [&BASE[..], &ROOTS[..], &["--bind", "/w", "/w", "--unshare-net"], &DENIED[..]].concat();
    assert_eq!(args, expected);
}

#[test]
fn mounts_for_read_only() {
    let mut host = host();
    host.env.insert("XDG_RUNTIME_DIR".to_string(), "/run/user/1000".to_string());
    let read_only = policy(SandboxMode::ReadOnly, NetworkPolicy::Restricted);
    let args = build_bwrap_args(&read_only, "/w", &host);
    assert_eq!(args, [&BASE[..], &["--unshare-net"], &DENIED[..]].concat());
    let args = build_bwrap_args(&SandboxPolicy::new_read_only(), "/w", &host);
    assert_eq!(args, [&BASE[..], &["--unshare-net"]].concat());
}

#[test]
fn network_and_session_directory() {
    let mut host = host();
    host.env.insert("XDG_RUNTIME_DIR".to_string(), "/run/user/1000".to_string());
    let open = policy(SandboxMode::FullAccess, NetworkPolicy::Enabled);
    let args = build_bwrap_args(&open, "/elsewhere", &host);
    let expected = [
        &BASE[..],
        &ROOTS[..],
        &["--bind-try", "/run/user/1000", "/run/user/1000"],
        &DENIED[..],
    ]
    .concat();
    assert_eq!(args, expected);
    let restricted = policy(SandboxMode::WorkspaceWrite, NetworkPolicy::Restricted);
    let expected = [
        &BASE[..],
        &ROOTS[..],
        &["--unshare-net", "--bind-try", "/run/user/1000", "/run/user/1000"],
        &DENIED[..],
    ]
    .concat();
    assert_eq!(build_bwrap_args(&restricted, "/elsewhere", &host), expected);
    host.env.insert("XDG_RUNTIME_DIR".to_string(), "/run/user/7".to_string());
    assert_eq!(
        build_bwrap_args(&open, "/elsewhere", &host),
        [&BASE[..], &ROOTS[..], &DENIED[..]].concat()
    );
}

#[test]
fn writable_paths_must_exist() {
    let p = policy(SandboxMode::WorkspaceWrite, NetworkPolicy::Restricted);
    assert_eq!(existing_writable_paths(&p, &host()), ["/w", "/extra"]);
}

#[test]
fn landlock_rules_by_mode() {
    let plan = |mode| plan_landlock_rules(&policy(mode, NetworkPolicy::Restricted), &host());
    assert!(plan(SandboxMode::FullAccess).is_none());
    let rules = plan(SandboxMode::ReadOnly).unwrap();
    assert_eq!(rules.len(), 1);
    assert_eq!((rules[0].path.as_str(), rules[0].access, rules[0].required), ("/", Access::Read, true));
    let rules = plan(SandboxMode::WorkspaceWrite).unwrap();
    let list: Vec<(&str, Access, bool)> =
        rules.iter().map(|r| (r.path.as_str(), r.access, r.required)).collect();
    assert_eq!(
        list,
        [("/", Access::Read, true), ("/w", Access::All, false), ("/extra", Access::All, false)]
    );
}

#[test]
fn bubblewrap_runs_the_command() {
    let mut host = host();
    host.bwrap = Some("/usr/bin/bwrap".to_string());
    let launch = run_sandboxed(
        SandboxPolicy::new_read_only(),
        &words(&["ls", "-l"]),
        "/w",
        &words(&["A=1"]),
        5,
        &host,
    );
    match launch {
        Launch::Direct(run) => {
            assert_eq!(run.program, "/usr/bin/bwrap");
            assert_eq!(
                run.args,
                [&BASE[..], &["--unshare-net", "--", "ls", "-l"]].concat()
            );
            assert_eq!(run.cwd, "/w");
            assert_eq!(run.env.get("A", false).as_deref(), Some("1"));
            assert_eq!(run.timeout_ms, 5);
        }
        _ => panic!("bubblewrap is to be started"),
    }
}

#[test]
fn landlock_runs_the_command_as_it_is() {
    let launch = run_sandboxed(
        SandboxPolicy::new_read_only(),
        &words(&["ls", "-l"]),
        "/w",
        &[],
        0,
        &host(),
    );
    match launch {
        Launch::Landlocked { rules, run } => {
            assert_eq!(rules.unwrap().len(), 1);
            assert_eq!(run.program, "ls");
            assert_eq!(run.args, ["-l"]);
        }
        _ => panic!("Landlock is to be used"),
    }
}
