//! Running a command: what is to be run, and how the wait for it goes on.

use crate::env::{law_set_then_get, lookup, with_pair, EnvMap, Pair};
use crate::text::{halves, lemma_position_of, position_of, split_once};
use vstd::prelude::*;

verus! {

/// Result of a sandboxed or unsandboxed command execution.
#[derive(Debug)]
pub struct ExecResult {
    /// The exit code of the command.
    pub exit_code: i32,
    /// What the command wrote to its standard output.
    pub stdout: Vec<u8>,
    /// What the command wrote to its standard error.
    pub stderr: Vec<u8>,
    /// Whether the command was stopped because its time was over.
    pub timed_out: bool,
}

/// Why a command is not run at all.
#[derive(Clone, Copy, Debug, PartialEq, Eq, Structural)]
pub enum LaunchError {
    /// The command is empty.
    NoCommand,
    /// The platform has no sandbox.
    Unsupported,
}

impl LaunchError {
    /// The message for the user.
    pub open spec fn text(self) -> Seq<char> {
        match self {
            LaunchError::NoCommand => "no command to execute"@,
            LaunchError::Unsupported => "sandboxing is not supported on this platform"@,
        }
    }

    /// Gives the message for the user.
    pub fn message(self) -> (r: &'static str)
        ensures
            r@ == self.text(),
    {
        match self {
            LaunchError::NoCommand => "no command to execute",
            LaunchError::Unsupported => "sandboxing is not supported on this platform",
        }
    }
}

/// A program to start, with its standard input closed and its outputs captured.
#[derive(Debug)]
pub struct Invocation {
    /// The program.
    pub program: String,
    /// Its arguments.
    pub args: Vec<String>,
    /// The directory it starts in.
    pub cwd: String,
    /// The variables that it gets besides those of this process.
    pub env: EnvMap,
    /// After how many milliseconds it is stopped; 0 for never.
    pub timeout_ms: u64,
}

impl Invocation {
    /// The program and its arguments.
    pub open spec fn line(&self) -> Seq<Seq<char>> {
        seq![self.program@] + self.args.deep_view()
    }
}

/// The variables set by the `KEY=VALUE` texts of `args`, the later ones over the earlier.
/// A text without `=` sets none.
pub open spec fn parsed_env(args: Seq<Seq<char>>) -> Seq<Pair>
    decreases args.len(),
{
    if args.len() == 0 {
        Seq::empty()
    } else {
        let before = parsed_env(args.drop_last());
        match halves(args.last(), '=') {
            Some((key, value)) => with_pair(before, key, value),
            None => before,
        }
    }
}

/// Parse KEY=VALUE environment variable strings into a map.
pub fn parse_env(env_args: &[String]) -> (r: EnvMap)
    ensures
        r.pairs() == parsed_env(env_args.deep_view()),
{
    let ghost all = env_args.deep_view();
    let n: usize = env_args.len();
    let mut map = EnvMap::new();
    for i in 0..n
        invariant
            n == env_args@.len(),
            all == env_args.deep_view(),
            map.pairs() == parsed_env(all.take(i as int)),
    {
        assert(all.take(i + 1).drop_last() == all.take(i as int));
        assert(all.take(i + 1).last() == env_args@[i as int]@);
        match split_once(env_args[i].as_str(), '=') {
            Some((key, value)) => {
                map.insert(key, value);
            },
            None => {},
        }
    }
    assert(all.take(n as int) == all);
    map
}

/// The last setting of a variable counts, and leaves the other variables alone. A value may hold
/// `=`.
pub proof fn law_last_setting_wins(
    args: Seq<Seq<char>>,
    key: Seq<char>,
    value: Seq<char>,
    other: Seq<char>,
)
    requires
        !key.contains('='),
    ensures
        lookup(parsed_env(args.push(key.push('=') + value)), key, false) == Some(value),
        other != key ==> lookup(parsed_env(args.push(key.push('=') + value)), other, false)
            == lookup(parsed_env(args), other, false),
{
    let text = key.push('=') + value;
    lemma_position_of(text, '=');
    let at = position_of(text, '=');
    assert(text[key.len() as int] == '=');
    if at < key.len() {
        assert(key[at] == text[at]);
    }
    assert(text.take(at) == key);
    assert(text.skip(at + 1) == value);
    assert(args.push(text).drop_last() == args);
    law_set_then_get(parsed_env(args), key, value, other);
}

/// A text without `=` sets no variable.
pub proof fn law_other_texts_set_nothing(args: Seq<Seq<char>>, text: Seq<char>)
    requires
        !text.contains('='),
    ensures
        parsed_env(args.push(text)) == parsed_env(args),
{
    lemma_position_of(text, '=');
    if position_of(text, '=') < text.len() {
        assert(text[position_of(text, '=')] == '=');
    }
    assert(args.push(text).drop_last() == args);
}

/// Copies the strings of a slice, from the given index on.
pub fn copy_from(list: &[String], from: usize) -> (r: Vec<String>)
    requires
        from <= list@.len(),
    ensures
        r.deep_view() == list.deep_view().skip(from as int),
{
    let ghost all = list.deep_view();
    let n: usize = list.len();
    let mut r: Vec<String> = Vec::new();
    assert(r.deep_view() == all.subrange(from as int, from as int));
    for i in from..n
        invariant
            n == list@.len(),
            from <= i,
            all == list.deep_view(),
            r.deep_view() == all.subrange(from as int, i as int),
    {
        let ghost before = r.deep_view();
        r.push(list[i].clone());
        assert(r.deep_view() == before.push(all[i as int]));
        assert(all.subrange(from as int, i + 1) == before.push(all[i as int]));
    }
    assert(all.subrange(from as int, n as int) == all.skip(from as int));
    r
}

/// Whether `run` starts the command as it is, in the directory, with the variables and the timeout.
pub open spec fn runs_as_given(
    run: Invocation,
    command: Seq<Seq<char>>,
    cwd: Seq<char>,
    env_args: Seq<Seq<char>>,
    timeout_ms: u64,
) -> bool {
    &&& run.line() == command
    &&& run.cwd@ == cwd
    &&& run.env.pairs() == parsed_env(env_args)
    &&& run.timeout_ms == timeout_ms
}

/// Says how to run a command without any sandboxing (full-access mode).
pub fn run_unsandboxed(command: &[String], cwd: &str, env_args: &[String], timeout_ms: u64) -> (r:
    Result<Invocation, LaunchError>)
    ensures
        match r {
            Ok(run) => command@.len() > 0 && runs_as_given(
                run,
                command.deep_view(),
                cwd@,
                env_args.deep_view(),
                timeout_ms,
            ),
            Err(e) => command@.len() == 0 && e == LaunchError::NoCommand,
        },
{
    if command.len() == 0 {
        return Err(LaunchError::NoCommand);
    }
    let run = Invocation {
        program: command[0].clone(),
        args: copy_from(command, 1),
        cwd: cwd.to_owned(),
        env: parse_env(env_args),
        timeout_ms,
    };
    assert(run.line() == command.deep_view());
    Ok(run)
}

/// What is learnt of a child process that is waited for.
#[derive(Clone, Copy, Debug, PartialEq, Eq, Structural)]
pub enum WaitEvent {
    /// The process was started.
    Started,
    /// The process has ended, with its exit code if it has one.
    Exited(Option<i32>),
    /// The process still runs, after the given number of milliseconds.
    Running(u64),
    /// Asking for its state failed.
    Failed,
}

/// What to do next about a child process.
#[derive(Clone, Copy, Debug, PartialEq, Eq, Structural)]
pub enum WaitAction {
    /// Wait until it ends.
    Block,
    /// Ask for its state.
    Poll,
    /// Sleep for the given number of milliseconds, then ask for its state.
    Sleep(u64),
    /// Stop it and give the outcome.
    Kill(WaitOutcome),
    /// Give the outcome.
    Finish(WaitOutcome),
    /// Report that waiting failed.
    Fail,
}

/// How the wait for a child process ended.
#[derive(Clone, Copy, Debug, PartialEq, Eq, Structural)]
pub struct WaitOutcome {
    /// The exit code.
    pub exit_code: i32,
    /// Whether the process was stopped because its time was over.
    pub timed_out: bool,
}

/// The exit code of a process that ended without one, or whose state cannot be read.
pub const NO_EXIT_CODE: i32 = -1;

/// The exit code of a process that was stopped because its time was over.
pub const TIMEOUT_EXIT_CODE: i32 = 192;

/// How many milliseconds lie between two looks at a running process.
pub const POLL_INTERVAL_MS: u64 = 50;

/// What follows an event, with the given timeout in milliseconds (0 for none).
pub open spec fn wait_step(timeout_ms: u64, event: WaitEvent) -> WaitAction {
    match event {
        WaitEvent::Started => if timeout_ms == 0 {
            WaitAction::Block
        } else {
            WaitAction::Poll
        },
        WaitEvent::Exited(code) => WaitAction::Finish(
            (WaitOutcome {
                exit_code: match code {
                    Some(c) => c,
                    None => NO_EXIT_CODE,
                },
                timed_out: false,
            }),
        ),
        WaitEvent::Running(elapsed_ms) => if timeout_ms == 0 {
            WaitAction::Block
        } else if elapsed_ms >= timeout_ms {
            WaitAction::Kill((WaitOutcome { exit_code: TIMEOUT_EXIT_CODE, timed_out: true }))
        } else {
            WaitAction::Sleep(POLL_INTERVAL_MS)
        },
        WaitEvent::Failed => if timeout_ms == 0 {
            WaitAction::Fail
        } else {
            WaitAction::Finish((WaitOutcome { exit_code: NO_EXIT_CODE, timed_out: false }))
        },
    }
}

/// Decides what to do after an event.
pub fn next_action(timeout_ms: u64, event: WaitEvent) -> (r: WaitAction)
    ensures
        r == wait_step(timeout_ms, event),
{
    match event {
        WaitEvent::Started => if timeout_ms == 0 {
            WaitAction::Block
        } else {
            WaitAction::Poll
        },
        WaitEvent::Exited(code) => {
            let exit_code: i32 = match code {
                Some(c) => c,
                None => NO_EXIT_CODE,
            };
            WaitAction::Finish(WaitOutcome { exit_code, timed_out: false })
        },
        WaitEvent::Running(elapsed_ms) => if timeout_ms == 0 {
            WaitAction::Block
        } else if elapsed_ms >= timeout_ms {
            WaitAction::Kill(WaitOutcome { exit_code: TIMEOUT_EXIT_CODE, timed_out: true })
        } else {
            WaitAction::Sleep(POLL_INTERVAL_MS)
        },
        WaitEvent::Failed => if timeout_ms == 0 {
            WaitAction::Fail
        } else {
            WaitAction::Finish(WaitOutcome { exit_code: NO_EXIT_CODE, timed_out: false })
        },
    }
}

/// Puts together what a run gives back.
pub fn finish(outcome: WaitOutcome, stdout: Vec<u8>, stderr: Vec<u8>) -> (r: ExecResult)
    ensures
        r.exit_code == outcome.exit_code,
        r.timed_out == outcome.timed_out,
        r.stdout == stdout,
        r.stderr == stderr,
{
    ExecResult { exit_code: outcome.exit_code, stdout, stderr, timed_out: outcome.timed_out }
}

/// How the wait for a process ends that gives these events one after the other; nothing if it
/// does not end with them.
pub open spec fn wait_outcome(timeout_ms: u64, events: Seq<WaitEvent>) -> Option<WaitOutcome>
    decreases events.len(),
{
    if events.len() == 0 {
        None
    } else {
        match wait_step(timeout_ms, events[0]) {
            WaitAction::Finish(outcome) => Some(outcome),
            WaitAction::Kill(outcome) => Some(outcome),
            WaitAction::Fail => None,
            _ => wait_outcome(timeout_ms, events.drop_first()),
        }
    }
}

/// A command is stopped for its time only if it has a limit and was seen running when that limit
/// was over; it then gives the exit code of a stopped command.
pub proof fn law_stopped_after_timeout(timeout_ms: u64, events: Seq<WaitEvent>)
    ensures
        wait_outcome(timeout_ms, events) matches Some(outcome) ==> (outcome.timed_out ==> {
            &&& outcome.exit_code == TIMEOUT_EXIT_CODE
            &&& timeout_ms > 0
            &&& exists|i: int|
                0 <= i < events.len() && (#[trigger] events[i] matches WaitEvent::Running(t) && t
                    >= timeout_ms)
        }),
    decreases events.len(),
{
    if events.len() > 0 {
        let rest = events.drop_first();
        law_stopped_after_timeout(timeout_ms, rest);
        if let Some(outcome) = wait_outcome(timeout_ms, events) {
            if outcome.timed_out {
                if events[0] matches WaitEvent::Running(t) && t >= timeout_ms {
                    assert(0 <= 0 < events.len());
                } else {
                    let i = choose|i: int|
                        0 <= i < rest.len() && (#[trigger] rest[i] matches WaitEvent::Running(t)
                            && t >= timeout_ms);
                    assert(rest[i] == events[i + 1]);
                }
            }
        }
    }
}

/// A command that ends while its time is not over gives its own exit code.
pub proof fn law_exit_code_is_kept(timeout_ms: u64, before: Seq<WaitEvent>, code: i32)
    requires
        forall|i: int|
            0 <= i < before.len() ==> match #[trigger] before[i] {
                WaitEvent::Started => true,
                WaitEvent::Running(t) => timeout_ms == 0 || t < timeout_ms,
                _ => false,
            },
    ensures
        wait_outcome(timeout_ms, before.push(WaitEvent::Exited(Some(code)))) == Some(
            (WaitOutcome { exit_code: code, timed_out: false }),
        ),
    decreases before.len(),
{
    let all = before.push(WaitEvent::Exited(Some(code)));
    if before.len() == 0 {
        assert(all[0] == WaitEvent::Exited(Some(code)));
    } else {
        assert(all[0] == before[0]);
        let rest = before.drop_first();
        assert forall|i: int| 0 <= i < rest.len() implies match #[trigger] rest[i] {
            WaitEvent::Started => true,
            WaitEvent::Running(t) => timeout_ms == 0 || t < timeout_ms,
            _ => false,
        } by {
            assert(rest[i] == before[i + 1]);
        }
        law_exit_code_is_kept(timeout_ms, rest, code);
        assert(all.drop_first() == rest.push(WaitEvent::Exited(Some(code))));
    }
}

/// A command that still runs when its time is over is stopped, and gives the exit code 192.
pub proof fn law_time_is_up(timeout_ms: u64, before: Seq<WaitEvent>, elapsed_ms: u64)
    requires
        0 < timeout_ms <= elapsed_ms,
        forall|i: int|
            0 <= i < before.len() ==> match #[trigger] before[i] {
                WaitEvent::Started => true,
                WaitEvent::Running(t) => t < timeout_ms,
                _ => false,
            },
    ensures
        wait_step(timeout_ms, WaitEvent::Running(elapsed_ms)) is Kill,
        wait_outcome(timeout_ms, before.push(WaitEvent::Running(elapsed_ms))) == Some(
            (WaitOutcome { exit_code: 192, timed_out: true }),
        ),
    decreases before.len(),
{
    let all = before.push(WaitEvent::Running(elapsed_ms));
    if before.len() > 0 {
        assert(all[0] == before[0]);
        let rest = before.drop_first();
        assert forall|i: int| 0 <= i < rest.len() implies match #[trigger] rest[i] {
            WaitEvent::Started => true,
            WaitEvent::Running(t) => t < timeout_ms,
            _ => false,
        } by {
            assert(rest[i] == before[i + 1]);
        }
        law_time_is_up(timeout_ms, rest, elapsed_ms);
        assert(all.drop_first() == rest.push(WaitEvent::Running(elapsed_ms)));
    }
}

/// While a command runs and its time is not over, it is looked at every 50 milliseconds; without a
/// limit, the wait goes on until it ends.
pub proof fn law_waiting_goes_on(timeout_ms: u64, elapsed_ms: u64)
    ensures
        elapsed_ms < timeout_ms ==> wait_step(timeout_ms, WaitEvent::Running(elapsed_ms))
            == WaitAction::Sleep(50),
        timeout_ms > 0 ==> wait_step(timeout_ms, WaitEvent::Started) == WaitAction::Poll,
        wait_step(0, WaitEvent::Started) == WaitAction::Block,
        wait_step(0, WaitEvent::Running(elapsed_ms)) == WaitAction::Block,
{
}

/// A command that ends without an exit code gives -1. So does one whose state cannot be read, if it
/// has a limit; without one the wait fails.
pub proof fn law_no_exit_code(timeout_ms: u64)
    ensures
        wait_outcome(timeout_ms, seq![WaitEvent::Exited(None)]) == Some(
            (WaitOutcome { exit_code: -1i32, timed_out: false }),
        ),
        timeout_ms > 0 ==> wait_outcome(timeout_ms, seq![WaitEvent::Failed]) == Some(
            (WaitOutcome { exit_code: -1i32, timed_out: false }),
        ),
        wait_step(0, WaitEvent::Failed) == WaitAction::Fail,
{
}

/// A command that is run as given is its first word, started with the other words, in the directory,
/// with the limit, and with the variables that were set for it.
pub proof fn law_runs_as_given(
    run: Invocation,
    command: Seq<Seq<char>>,
    cwd: Seq<char>,
    env_args: Seq<Seq<char>>,
    timeout_ms: u64,
    key: Seq<char>,
    value: Seq<char>,
)
    requires
        runs_as_given(run, command, cwd, env_args.push(key.push('=') + value), timeout_ms),
        !key.contains('='),
    ensures
        command.len() > 0,
        run.program@ == command[0],
        run.args.deep_view() == command.skip(1),
        run.cwd@ == cwd,
        run.timeout_ms == timeout_ms,
        lookup(run.env.pairs(), key, false) == Some(value),
{
    law_last_setting_wins(env_args, key, value, key);
    assert(run.line()[0] == run.program@);
    assert(run.line().skip(1) == run.args.deep_view());
}

/// What is said to the user of a command that is not run.
pub proof fn law_messages()
    ensures
        LaunchError::NoCommand.text() == "no command to execute"@,
        LaunchError::Unsupported.text() == "sandboxing is not supported on this platform"@,
{
}

} // verus!
