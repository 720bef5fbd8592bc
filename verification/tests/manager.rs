use bitfun_sandbox::common::LaunchError;
use bitfun_sandbox::host::{Host, Platform};
use bitfun_sandbox::platform::Launch;
use bitfun_sandbox::{SandboxManager, SandboxPolicy, SandboxType, SandboxablePreference};

const SYSTEMS: [Platform; 4] =
    [Platform::Windows, Platform::Linux, Platform::MacOs, Platform::Other];

fn words(list: &[&str]) -> Vec<String> {
    list.iter().map(|s| s.to_string()).collect()
}

#[test]
fn select_sandbox_forbid_returns_none() {
    for platform in SYSTEMS {
        let manager = SandboxManager::new();
        let policy =
            SandboxPolicy::new_workspace_write("/tmp/test".to_string(), &Host::new(platform));
        let sandbox_type =
            manager.select_sandbox_type(&policy, SandboxablePreference::Forbid, platform);
        assert_eq!(sandbox_type, SandboxType::NoSandbox);
    }
}

#[test]
fn select_sandbox_full_access_auto_returns_none() {
    for platform in SYSTEMS {
        let manager = SandboxManager::new();
        let policy = SandboxPolicy::new_full_access();
        let sandbox_type =
            manager.select_sandbox_type(&policy, SandboxablePreference::Auto, platform);
        assert_eq!(sandbox_type, SandboxType::NoSandbox);
    }
}

#[test]
fn select_sandbox_workspace_write_auto_returns_platform() {
    let manager = SandboxManager::new();
    let select = |platform: Platform| {
        let policy =
            SandboxPolicy::new_workspace_write("/tmp/test".to_string(), &Host::new(platform));
        manager.select_sandbox_type(&policy, SandboxablePreference::Auto, platform)
    };
    assert_eq!(select(Platform::Windows), SandboxType::WindowsRestrictedToken);
    assert_eq!(select(Platform::Linux), SandboxType::LinuxLandlock);
    assert_eq!(select(Platform::MacOs), SandboxType::MacosSeatbelt);
}

#[test]
fn execute_full_access_runs_unsandboxed() {
    for platform in SYSTEMS {
        let manager = SandboxManager::new();
        let policy = SandboxPolicy::new_full_access();
        let windows = platform == Platform::Windows;
        let mut command = vec![
            if windows { "cmd".to_string() } else { "echo".to_string() },
            if windows { "/C".to_string() } else { "hello".to_string() },
        ];
        if windows {
            command.push("echo hello".to_string());
        }
        let launch =
            manager.execute(policy, &command, ".", &[], 5000, &Host::new(platform)).unwrap();
        match launch {
            Launch::Direct(run) => {
                assert_eq!(run.program, command[0]);
                assert_eq!(run.args, command[1..].to_vec());
                assert_eq!(run.cwd, ".");
                assert_eq!(run.timeout_ms, 5000);
                assert!(run.env.entries().is_empty());
            }
            _ => panic!("the command is to be run as it is"),
        }
    }
}

#[test]
fn required_sandbox_is_selected_with_full_access_too() {
    let manager = SandboxManager::default();
    let policy = SandboxPolicy::new_full_access();
    let select = |platform: Platform| {
        manager.select_sandbox_type(&policy, SandboxablePreference::Require, platform)
    };
    assert_eq!(select(Platform::Linux), SandboxType::LinuxLandlock);
    assert_eq!(select(Platform::Other), SandboxType::NoSandbox);
    assert_eq!(SandboxablePreference::default(), SandboxablePreference::Auto);
}

#[test]
fn defaults_of_the_platforms() {
    assert_eq!(SandboxType::platform_default(Platform::MacOs), Some(SandboxType::MacosSeatbelt));
    assert_eq!(SandboxType::platform_default(Platform::Linux), Some(SandboxType::LinuxLandlock));
    assert_eq!(
        SandboxType::platform_default(Platform::Windows),
        Some(SandboxType::WindowsRestrictedToken)
    );
    assert_eq!(SandboxType::platform_default(Platform::Other), None);
}

#[test]
fn metric_tags() {
    assert_eq!(SandboxType::NoSandbox.as_metric_tag(), "none");
    assert_eq!(SandboxType::MacosSeatbelt.as_metric_tag(), "seatbelt");
    assert_eq!(SandboxType::LinuxLandlock.as_metric_tag(), "landlock");
    assert_eq!(SandboxType::WindowsRestrictedToken.as_metric_tag(), "windows_restricted_token");
}

#[test]
fn empty_command_is_an_error() {
    for platform in SYSTEMS {
        let manager = SandboxManager::new();
        for policy in [SandboxPolicy::new_full_access(), SandboxPolicy::new_read_only()] {
            let result = manager.execute(policy, &[], ".", &[], 0, &Host::new(platform));
            assert_eq!(result.unwrap_err(), LaunchError::NoCommand);
        }
    }
    assert_eq!(LaunchError::NoCommand.message(), "no command to execute");
}

#[test]
fn platform_without_sandbox_is_an_error() {
    let manager = SandboxManager::new();
    let host = Host::new(Platform::Other);
    let command = words(&["ls"]);
    let result =
        manager.execute_auto(SandboxPolicy::new_read_only(), &command, ".", &[], 0, &host);
    let error = result.unwrap_err();
    assert_eq!(error, LaunchError::Unsupported);
    assert_eq!(error.message(), "sandboxing is not supported on this platform");
    assert!(manager
        .execute_auto(SandboxPolicy::new_full_access(), &command, ".", &[], 0, &host)
        .is_ok());
}

#[test]
fn restricted_policies_use_the_platform() {
    let manager = SandboxManager::new();
    let command = words(&["ls", "-l"]);
    let launch = |host: &Host| {
        manager.execute(SandboxPolicy::new_read_only(), &command, "/w", &[], 7, host).unwrap()
    };
    assert!(matches!(launch(&Host::new(Platform::Windows)), Launch::Restricted(_)));
    match launch(&Host::new(Platform::MacOs)) {
        Launch::Direct(run) => assert_eq!(run.program, "/usr/bin/sandbox-exec"),
        _ => panic!("sandbox-exec is to be started"),
    }
    assert!(matches!(launch(&Host::new(Platform::Linux)), Launch::Landlocked { .. }));
    let mut host = Host::new(Platform::Linux);
    host.bwrap = Some("/usr/bin/bwrap".to_string());
    match launch(&host) {
        Launch::Direct(run) => {
            assert_eq!(run.program, "/usr/bin/bwrap");
            assert_eq!(run.timeout_ms, 7);
        }
        _ => panic!("bubblewrap is to be started"),
    }
}
