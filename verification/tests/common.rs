use bitfun_sandbox::common::{
    finish, next_action, parse_env, run_unsandboxed, LaunchError, WaitAction, WaitEvent,
    WaitOutcome,
};
use bitfun_sandbox::env::EnvMap;
use bitfun_sandbox::host::{Host, Platform};

fn words(list: &[&str]) -> Vec<String> {
    list.iter().map(|s| s.to_string()).collect()
}

fn pair(a: &str, b: &str) -> (String, String) {
    (a.to_string(), b.to_string())
}

#[test]
fn settings_are_parsed() {
    let env = parse_env(&words(&["A=1", "B=x=y", "nothing", "C=", "=v", "A=2"]));
    assert_eq!(env.entries(), vec![pair("A", "2"), pair("B", "x=y"), pair("C", ""), pair("", "v")]);
    assert!(parse_env(&[]).entries().is_empty());
}

#[test]
fn last_setting_wins() {
    let env = parse_env(&words(&["A=1", "B=2", "A=3"]));
    assert_eq!(env.get("A", false).as_deref(), Some("3"));
    assert_eq!(env.get("B", false).as_deref(), Some("2"));
    assert_eq!(env.get("a", false), None);
    assert_eq!(env.get("a", true).as_deref(), Some("3"));
}

#[test]
fn maps_are_extended() {
    let mut env = EnvMap::new();
    env.insert("A".to_string(), "1".to_string());
    env.insert("B".to_string(), "2".to_string());
    env.extend(&parse_env(&words(&["B=3", "C=4"])));
    assert_eq!(env.entries(), vec![pair("A", "1"), pair("B", "3"), pair("C", "4")]);
    assert_eq!(env.clone().entries(), env.entries());
}

#[test]
fn unsandboxed_run_is_the_command() {
    let run = run_unsandboxed(&words(&["ls", "-l", "x"]), "/w", &words(&["K=V"]), 9).unwrap();
    assert_eq!(run.program, "ls");
    assert_eq!(run.args, ["-l", "x"]);
    assert_eq!(run.cwd, "/w");
    assert_eq!(run.env.entries(), vec![pair("K", "V")]);
    assert_eq!(run.timeout_ms, 9);
    assert_eq!(run_unsandboxed(&[], "/w", &[], 0).unwrap_err(), LaunchError::NoCommand);
}

fn finished(exit_code: i32, timed_out: bool) -> WaitAction {
    WaitAction::Finish(WaitOutcome { exit_code, timed_out })
}

#[test]
fn waiting_without_limit() {
    assert_eq!(next_action(0, WaitEvent::Started), WaitAction::Block);
    assert_eq!(next_action(0, WaitEvent::Exited(Some(3))), finished(3, false));
    assert_eq!(next_action(0, WaitEvent::Exited(None)), finished(-1, false));
    assert_eq!(next_action(0, WaitEvent::Failed), WaitAction::Fail);
    assert_eq!(next_action(0, WaitEvent::Running(u64::MAX)), WaitAction::Block);
}

#[test]
fn waiting_with_limit() {
    assert_eq!(next_action(100, WaitEvent::Started), WaitAction::Poll);
    assert_eq!(next_action(100, WaitEvent::Running(0)), WaitAction::Sleep(50));
    assert_eq!(next_action(100, WaitEvent::Running(99)), WaitAction::Sleep(50));
    assert_eq!(
        next_action(100, WaitEvent::Running(100)),
        WaitAction::Kill(WaitOutcome { exit_code: 192, timed_out: true })
    );
    assert_eq!(next_action(100, WaitEvent::Exited(Some(0))), finished(0, false));
    assert_eq!(next_action(100, WaitEvent::Exited(None)), finished(-1, false));
    assert_eq!(next_action(100, WaitEvent::Failed), finished(-1, false));
}

#[test]
fn results_are_put_together() {
    let r = finish(WaitOutcome { exit_code: 192, timed_out: true }, vec![1, 2], vec![3]);
    assert_eq!(r.exit_code, 192);
    assert!(r.timed_out);
    assert_eq!(r.stdout, [1, 2]);
    assert_eq!(r.stderr, [3]);
}

#[test]
fn host_facts() {
    let mut host = Host::new(Platform::Linux);
    assert!(!host.path_exists("/a"));
    host.existing.push("/a".to_string());
    assert!(host.path_exists("/a"));
    assert!(!host.path_exists("/a/"));
    host.canonical.insert("a".to_string(), "/w/a".to_string());
    assert_eq!(host.canonicalized("a").as_deref(), Some("/w/a"));
    assert_eq!(host.canonicalized("b"), None);
    assert_eq!(host.home(), None);
    host.env.insert("HOME".to_string(), "/h".to_string());
    assert_eq!(host.home().as_deref(), Some("/h"));
    assert_eq!(host.var("home"), None);
    host.platform = Platform::Windows;
    assert_eq!(host.var("home").as_deref(), Some("/h"));
}
