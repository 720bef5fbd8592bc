use bitfun_sandbox::host::{Host, Platform};
use bitfun_sandbox::{is_path_allowed, NetworkPolicy, SandboxMode, SandboxPolicy};

#[test]
fn new_workspace_write_includes_temp() {
    let host = Host::new(Platform::Linux);
    let policy = SandboxPolicy::new_workspace_write("/tmp/test-project".to_string(), &host);
    assert_eq!(policy.mode, SandboxMode::WorkspaceWrite);
    assert!(policy.writable_roots.iter().any(|p| p.contains("test-project")));
}

#[test]
fn new_full_access_policy() {
    let policy = SandboxPolicy::new_full_access();
    assert_eq!(policy.mode, SandboxMode::FullAccess);
    assert_eq!(policy.network, NetworkPolicy::Enabled);
}

fn furnished_host(platform: Platform) -> Host {
    let mut host = Host::new(platform);
    host.env.insert("TEMP".to_string(), "/t1".to_string());
    host.env.insert("TMP".to_string(), "/t2".to_string());
    host.env.insert("TMPDIR".to_string(), "/t3".to_string());
    host.env.insert("HOME".to_string(), "/home/ada".to_string());
    host.existing = vec![
        "/t1".to_string(),
        "/t3".to_string(),
        "/home/ada/Desktop".to_string(),
        "/home/ada/Music".to_string(),
    ];
    host
}

#[test]
fn workspace_write_takes_what_exists() {
    let policy =
        SandboxPolicy::new_workspace_write("/w".to_string(), &furnished_host(Platform::Linux));
    assert_eq!(policy.writable_roots, ["/w", "/t1", "/t3"]);
    assert!(policy.extra_writable_roots.is_empty());
    assert_eq!(policy.denied_write_paths, ["/home/ada/Desktop", "/home/ada/Music"]);
    assert_eq!(policy.network, NetworkPolicy::Restricted);
}

#[test]
fn personal_directories_are_denied() {
    let policy =
        SandboxPolicy::new_workspace_write("/home/ada".to_string(), &furnished_host(Platform::Linux));
    let check =
        |p: &str| is_path_allowed(p, &policy, "/home/ada", Platform::Linux).allowed;
    assert!(!check("/home/ada/Desktop/t.txt"));
    assert!(!check("/home/ada/Music"));
    assert!(check("/home/ada/Documents/t.txt"));
    assert!(check("/home/ada/code/main.rs"));
}

#[test]
fn home_comes_from_the_first_variable_set() {
    let mut host = furnished_host(Platform::Linux);
    host.existing.push("/profile/Videos".to_string());
    host.env.insert("USERPROFILE".to_string(), "/profile".to_string());
    assert_eq!(SandboxPolicy::default_denied_paths(&host), ["/profile/Videos"]);
    let mut host = Host::new(Platform::Linux);
    host.existing.push("/third/Pictures".to_string());
    host.env.insert("HOMEDIR".to_string(), "/third".to_string());
    assert_eq!(SandboxPolicy::default_denied_paths(&host), ["/third/Pictures"]);
}

#[test]
fn empty_home_denies_nothing() {
    let mut host = Host::new(Platform::Linux);
    host.existing.push("/Desktop".to_string());
    host.env.insert("HOME".to_string(), String::new());
    assert!(SandboxPolicy::default_denied_paths(&host).is_empty());
    assert!(SandboxPolicy::default_denied_paths(&Host::new(Platform::Linux)).is_empty());
}

#[test]
fn read_only_policy_is_empty() {
    let policy = SandboxPolicy::new_read_only();
    assert_eq!(policy.mode, SandboxMode::ReadOnly);
    assert_eq!(policy.network, NetworkPolicy::Restricted);
    assert!(policy.all_writable_paths().is_empty());
    assert!(policy.denied_write_paths.is_empty());
}

#[test]
fn writable_paths_are_roots_and_extras() {
    let mut policy = SandboxPolicy::new_read_only();
    policy.writable_roots = vec!["/a".to_string(), "/b".to_string()];
    policy.extra_writable_roots = vec!["/c".to_string()];
    assert_eq!(policy.all_writable_paths(), ["/a", "/b", "/c"]);
    let copy = policy.clone();
    assert_eq!(copy.all_writable_paths(), policy.all_writable_paths());
    assert_eq!(copy.mode, policy.mode);
}

#[test]
fn default_modes() {
    assert_eq!(SandboxMode::default(), SandboxMode::WorkspaceWrite);
    assert_eq!(NetworkPolicy::default(), NetworkPolicy::Restricted);
}
