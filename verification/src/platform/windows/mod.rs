//! Windows sandbox: restricted tokens and access control lists.
//!
//! 1. The command runs with a token that has no privileges.
//! 2. The paths to protect are computed from the policy.
//! 3. Before it runs, each protected path gets entries that deny writing to the user, to all users
//!    and to everyone.
//! 4. After it ran, wherever an entry was added, the entries of its account are taken away. Those
//!    that the account had on that path before go with it.

pub mod acl;
pub mod quoting;
pub mod wide;

use crate::common::{parse_env, parsed_env, LaunchError, WaitOutcome, TIMEOUT_EXIT_CODE};
use crate::env::{with_pairs, Pair};
use crate::host::{variable, Host, Platform};
use crate::path_order::{order_paths, law_path_order_total, same_path};
use crate::platform::windows::quoting::{argv_to_command_line, command_line,
    law_arguments_read_back, read_arguments};
use crate::platform::windows::wide::{env_block, make_env_block};
use crate::policy::{add_variable, keep_existing, law_those_existing, lemma_personal_directories,
    list_personal_directories, path_of_variable, personal_directories, those_existing, SandboxMode, SandboxPolicy};
use crate::rules::append_all;
use vstd::prelude::*;

verus! {

/// Computed allow and deny paths for access control entries. No path occurs twice in a list.
#[derive(Debug)]
pub struct AllowDenyPaths {
    /// The paths that may be written.
    pub allow: Vec<String>,
    /// The paths that must not be written.
    pub deny: Vec<String>,
}

/// The canonical form of a path, or the path itself if it has none.
pub open spec fn canonical_or_same(host: &Host, p: Seq<char>) -> Seq<char> {
    match host.canonical_form(p) {
        Some(c) => c,
        None => p,
    }
}

/// The paths without those that are the same as an earlier one.
pub open spec fn each_once(paths: Seq<Seq<char>>) -> Seq<Seq<char>>
    decreases paths.len(),
{
    if paths.len() == 0 {
        paths
    } else {
        let before = each_once(paths.drop_last());
        if holds(before, paths.last()) {
            before
        } else {
            before.push(paths.last())
        }
    }
}

/// Whether the same path is in the list.
pub open spec fn holds(paths: Seq<Seq<char>>, p: Seq<char>) -> bool {
    exists|i: int| 0 <= i < paths.len() && same_path(#[trigger] paths[i], p, Platform::Windows)
}

/// The canonical forms of those paths that exist, each once.
pub open spec fn protectable(host: &Host, paths: Seq<Seq<char>>) -> Seq<Seq<char>> {
    each_once(
        those_existing(paths, host.existing.deep_view()).map_values(
            |p: Seq<char>| canonical_or_same(host, p),
        ),
    )
}

/// The personal directories in the profile of the user: `USERPROFILE`, or `HOME` if that is not
/// set.
pub open spec fn profile_directories(env: Seq<Pair>, platform: Platform) -> Seq<Seq<char>> {
    let home = if variable(env, "USERPROFILE"@, platform) is Some {
        variable(env, "USERPROFILE"@, platform)
    } else {
        variable(env, "HOME"@, platform)
    };
    match home {
        Some(h) => if h.len() == 0 {
            Seq::empty()
        } else {
            personal_directories(h)
        },
        None => Seq::empty(),
    }
}

/// The paths that a policy lets a command write: with workspace-write, the working directory, the
/// writable roots and the temporary directories.
pub open spec fn allowed_candidates(policy: SandboxPolicy, cwd: Seq<char>, host: &Host) -> Seq<
    Seq<char>,
> {
    if policy.mode is WorkspaceWrite {
        seq![cwd] + policy.writable() + path_of_variable(host.env.pairs(), "TEMP"@, host.platform)
            + path_of_variable(host.env.pairs(), "TMP"@, host.platform)
    } else {
        Seq::empty()
    }
}

/// The paths that a policy protects: with workspace-write the personal directories, in read-only
/// mode the working directory and all writable paths, and in every mode the denied paths.
pub open spec fn denied_candidates(policy: SandboxPolicy, cwd: Seq<char>, host: &Host) -> Seq<
    Seq<char>,
> {
    (match policy.mode {
        SandboxMode::WorkspaceWrite => profile_directories(host.env.pairs(), host.platform),
        SandboxMode::ReadOnly => seq![cwd] + policy.writable(),
        SandboxMode::FullAccess => Seq::empty(),
    }) + policy.denied()
}

/// Canonicalizes a path, falling back to the original on failure.
pub fn canonicalize_path(p: &str, host: &Host) -> (r: String)
    ensures
        r@ == canonical_or_same(host, p@),
{
    match host.canonicalized(p) {
        Some(c) => c,
        None => p.to_owned(),
    }
}

fn holds_same_path(list: &Vec<String>, p: &str) -> (r: bool)
    ensures
        r == holds(list.deep_view(), p@),
{
    let n: usize = list.len();
    for i in 0..n
        invariant
            n == list@.len(),
            forall|k: int|
                0 <= k < i ==> !same_path(
                    #[trigger] list.deep_view()[k],
                    p@,
                    Platform::Windows,
                ),
    {
        assert(list.deep_view()[i as int] == list@[i as int]@);
        proof {
            law_path_order_total(list@[i as int]@, p@, Platform::Windows);
        }
        if order_paths(list[i].as_str(), p, Platform::Windows) == 0 {
            assert(same_path(list.deep_view()[i as int], p@, Platform::Windows));
            return true;
        }
    }
    false
}

fn list_protectable(host: &Host, paths: &Vec<String>) -> (r: Vec<String>)
    ensures
        r.deep_view() == protectable(host, paths.deep_view()),
{
    let kept = keep_existing(paths, host);
    let ghost all = kept.deep_view().map_values(|p: Seq<char>| canonical_or_same(host, p));
    let n: usize = kept.len();
    let mut r: Vec<String> = Vec::new();
    assert(r.deep_view() == each_once(all.take(0)));
    for i in 0..n
        invariant
            n == kept@.len(),
            all == kept.deep_view().map_values(|p: Seq<char>| canonical_or_same(host, p)),
            r.deep_view() == each_once(all.take(i as int)),
    {
        assert(all.take(i + 1).drop_last() == all.take(i as int));
        let p = canonicalize_path(kept[i].as_str(), host);
        assert(all.take(i + 1).last() == p@);
        let ghost before = r.deep_view();
        let ghost x = p@;
        if !holds_same_path(&r, p.as_str()) {
            r.push(p);
            assert(r.deep_view() == before.push(x));
        }
    }
    assert(all.take(n as int) == all);
    r
}

fn list_profile_directories(host: &Host) -> (r: Vec<String>)
    ensures
        r.deep_view() == profile_directories(host.env.pairs(), host.platform),
{
    let home = match host.var("USERPROFILE") {
        Some(h) => Some(h),
        None => host.var("HOME"),
    };
    let r: Vec<String> = match home {
        Some(h) => if h.as_str().is_empty() {
            Vec::new()
        } else {
            list_personal_directories(h.as_str())
        },
        None => Vec::new(),
    };
    assert(r.deep_view() == profile_directories(host.env.pairs(), host.platform));
    r
}

/// Computes the allow and deny paths from the sandbox policy.
pub fn compute_allow_paths(policy: &SandboxPolicy, cwd: &str, host: &Host) -> (r: AllowDenyPaths)
    ensures
        r.allow.deep_view() == protectable(host, allowed_candidates(*policy, cwd@, host)),
        r.deny.deep_view() == protectable(host, denied_candidates(*policy, cwd@, host)),
{
    let mut allow: Vec<String> = Vec::new();
    let mut deny: Vec<String> = Vec::new();
    assert(allow.deep_view() == Seq::<Seq<char>>::empty());
    assert(deny.deep_view() == Seq::<Seq<char>>::empty());
    match policy.mode {
        SandboxMode::WorkspaceWrite => {
            allow.push(cwd.to_owned());
            assert(allow.deep_view() == seq![cwd@]);
            append_all(&mut allow, &policy.writable_roots);
            append_all(&mut allow, &policy.extra_writable_roots);
            assert(allow.deep_view() == seq![cwd@] + policy.writable());
            add_variable(&mut allow, "TEMP", host);
            add_variable(&mut allow, "TMP", host);
            append_all(&mut deny, &list_profile_directories(host));
            assert(deny.deep_view() == profile_directories(host.env.pairs(), host.platform));
        },
        SandboxMode::ReadOnly => {
            deny.push(cwd.to_owned());
            assert(deny.deep_view() == seq![cwd@]);
            append_all(&mut deny, &policy.writable_roots);
            append_all(&mut deny, &policy.extra_writable_roots);
            assert(deny.deep_view() == seq![cwd@] + policy.writable());
        },
        SandboxMode::FullAccess => {},
    }
    append_all(&mut deny, &policy.denied_write_paths);
    AllowDenyPaths { allow: list_protectable(host, &allow), deny: list_protectable(host, &deny) }
}

/// An account that entries are about.
#[derive(Clone, Copy, Debug, PartialEq, Eq, Structural)]
pub enum Account {
    /// The current user.
    User,
    /// All users of the machine.
    Users,
    /// Everyone.
    Everyone,
}

impl Account {
    /// The well-known identifier of the account, if it has one.
    pub open spec fn well_known(self) -> Option<Seq<char>> {
        match self {
            Account::User => None,
            Account::Users => Some("S-1-5-32-545"@),
            Account::Everyone => Some("S-1-1-0"@),
        }
    }

    /// Gives the well-known identifier of the account, if it has one.
    pub fn well_known_sid(self) -> (r: Option<&'static str>)
        ensures
            match r {
                Some(s) => self.well_known() == Some(s@),
                None => self.well_known() is None,
            },
    {
        match self {
            Account::User => None,
            Account::Users => Some("S-1-5-32-545"),
            Account::Everyone => Some("S-1-1-0"),
        }
    }
}

/// The names of the devices that a command may always write to.
pub open spec fn null_devices() -> Seq<Seq<char>> {
    seq!["NUL"@, "CON"@]
}

/// Lists the devices that a command may always write to.
pub fn list_null_devices() -> (r: Vec<String>)
    ensures
        r.deep_view() == null_devices(),
{
    let r: Vec<String> = vec!["NUL".to_owned(), "CON".to_owned()];
    assert(r.deep_view() == null_devices());
    r
}

/// An entry that denies an account writing to a path.
#[derive(Debug)]
pub struct DenyAce {
    /// The path.
    pub path: String,
    /// The account.
    pub account: Account,
}

impl View for DenyAce {
    type V = (Seq<char>, Account);

    open spec fn view(&self) -> (Seq<char>, Account) {
        (self.path@, self.account)
    }
}

impl Clone for DenyAce {
    fn clone(&self) -> (r: Self)
        ensures
            r@ == self@,
    {
        DenyAce { path: self.path.clone(), account: self.account }
    }
}

/// What a list of entries denies.
pub open spec fn aces_view(aces: Seq<DenyAce>) -> Seq<(Seq<char>, Account)> {
    aces.map_values(|a: DenyAce| a@)
}

/// The entries that protect the paths: for each path one for each account, so that none of them
/// is a way in.
pub open spec fn deny_aces(paths: Seq<Seq<char>>) -> Seq<(Seq<char>, Account)>
    decreases paths.len(),
{
    if paths.len() == 0 {
        Seq::empty()
    } else {
        deny_aces(paths.drop_last()) + seq![
            (paths.last(), Account::User),
            (paths.last(), Account::Users),
            (paths.last(), Account::Everyone),
        ]
    }
}

/// Lists the entries that protect the paths.
pub fn plan_deny_aces(paths: &Vec<String>) -> (r: Vec<DenyAce>)
    ensures
        aces_view(r@) == deny_aces(paths.deep_view()),
{
    let ghost all = paths.deep_view();
    let n: usize = paths.len();
    let mut r: Vec<DenyAce> = Vec::new();
    assert(aces_view(r@) == deny_aces(all.take(0)));
    for i in 0..n
        invariant
            n == paths@.len(),
            all == paths.deep_view(),
            aces_view(r@) == deny_aces(all.take(i as int)),
    {
        assert(all.take(i + 1).drop_last() == all.take(i as int));
        assert(all.take(i + 1).last() == paths@[i as int]@);
        let ghost before = aces_view(r@);
        r.push(DenyAce { path: paths[i].clone(), account: Account::User });
        r.push(DenyAce { path: paths[i].clone(), account: Account::Users });
        r.push(DenyAce { path: paths[i].clone(), account: Account::Everyone });
        let ghost p = paths@[i as int]@;
        assert(aces_view(r@) == before + seq![
            (p, Account::User),
            (p, Account::Users),
            (p, Account::Everyone),
        ]);
    }
    assert(all.take(n as int) == all);
    r
}

/// Whether the entry with the given number was added.
pub open spec fn was_added(added: Seq<bool>, i: int) -> bool {
    0 <= i < added.len() && added[i]
}

/// Those entries that were added, in their order.
pub open spec fn added_aces(aces: Seq<(Seq<char>, Account)>, added: Seq<bool>) -> Seq<
    (Seq<char>, Account),
>
    decreases aces.len(),
{
    if aces.len() == 0 {
        aces
    } else if was_added(added, aces.len() - 1) {
        added_aces(aces.drop_last(), added).push(aces.last())
    } else {
        added_aces(aces.drop_last(), added)
    }
}

/// Lists the paths and accounts to clean up after the command ran, given for which of them an entry
/// was added. An entry for which nothing is said was not added.
pub fn plan_cleanup(aces: &Vec<DenyAce>, added: &Vec<bool>) -> (r: Vec<DenyAce>)
    ensures
        aces_view(r@) == added_aces(aces_view(aces@), added@),
{
    let ghost all = aces_view(aces@);
    let n: usize = aces.len();
    let mut r: Vec<DenyAce> = Vec::new();
    assert(aces_view(r@) == added_aces(all.take(0), added@));
    for i in 0..n
        invariant
            n == aces@.len(),
            all == aces_view(aces@),
            aces_view(r@) == added_aces(all.take(i as int), added@),
    {
        assert(all.take(i + 1).drop_last() == all.take(i as int));
        assert(all.take(i + 1).last() == aces@[i as int]@);
        let ghost before = aces_view(r@);
        if i < added.len() && added[i] {
            r.push(aces[i].clone());
            assert(aces_view(r@) == before.push(aces@[i as int]@));
        }
    }
    assert(all.take(n as int) == all);
    r
}

/// The wait that never ends.
pub const INFINITE: u32 = 0xffff_ffff;

/// The result of a wait whose time was over.
pub const WAIT_TIMEOUT: u32 = 0x0000_0102;

/// How many milliseconds to wait for a command with the given limit: without one, the wait never
/// ends. Only the lower 32 bits of the limit count.
pub open spec fn wait_limit(timeout_ms: u64) -> int {
    if timeout_ms == 0 {
        INFINITE as int
    } else {
        timeout_ms as int % 0x1_0000_0000
    }
}

/// Tells how many milliseconds to wait for a command with the given limit.
pub fn wait_milliseconds(timeout_ms: u64) -> (r: u32)
    ensures
        r == wait_limit(timeout_ms),
{
    if timeout_ms > 0 {
        let low: u64 = timeout_ms % 0x1_0000_0000;
        low as u32
    } else {
        INFINITE
    }
}

/// How the run of a command ended, given the result of the wait and the exit code that the system
/// reports.
pub open spec fn ended(wait_result: u32, exit_code: u32) -> WaitOutcome {
    if wait_result == WAIT_TIMEOUT {
        WaitOutcome { exit_code: TIMEOUT_EXIT_CODE, timed_out: true }
    } else {
        WaitOutcome { exit_code: exit_code as i32, timed_out: false }
    }
}

/// How the run of a command ended, given the result of the wait and the exit code that the system
/// reports. The exit code is read as a signed number.
pub fn wait_outcome_of(wait_result: u32, exit_code: u32) -> (r: WaitOutcome)
    ensures
        r == ended(wait_result, exit_code),
        r.timed_out == (wait_result == WAIT_TIMEOUT),
        r.timed_out ==> r.exit_code == TIMEOUT_EXIT_CODE,
        !r.timed_out ==> r.exit_code == (if exit_code < 0x8000_0000 {
            exit_code as int
        } else {
            exit_code - 0x1_0000_0000
        }),
{
    if wait_result == WAIT_TIMEOUT {
        WaitOutcome { exit_code: TIMEOUT_EXIT_CODE, timed_out: true }
    } else {
        let signed: i64 = if exit_code < 0x8000_0000 {
            exit_code as i64
        } else {
            exit_code as i64 - 0x1_0000_0000
        };
        assert(signed as i32 == exit_code as i32) by {
            assert(exit_code >= 0x8000_0000u32 ==> exit_code as i32 == (exit_code as i64
                - 0x1_0000_0000) as i32) by (bit_vector);
            assert(exit_code < 0x8000_0000u32 ==> exit_code as i32 == exit_code as i64 as i32)
                by (bit_vector);
        }
        WaitOutcome { exit_code: signed as i32, timed_out: false }
    }
}

/// A command to run with a restricted token.
#[derive(Debug)]
pub struct RestrictedRun {
    /// The command line.
    pub command_line: String,
    /// The environment block.
    pub environment: Vec<u16>,
    /// The directory it starts in.
    pub cwd: String,
    /// How many milliseconds to wait for it.
    pub wait_ms: u32,
    /// The paths that may and must not be written.
    pub paths: AllowDenyPaths,
    /// The entries to add before it runs.
    pub deny_aces: Vec<DenyAce>,
}

/// Whether `run` runs the command with a restricted token as the policy says.
pub open spec fn runs_restricted(
    run: RestrictedRun,
    policy: SandboxPolicy,
    command: Seq<Seq<char>>,
    cwd: Seq<char>,
    env_args: Seq<Seq<char>>,
    timeout_ms: u64,
    host: &Host,
) -> bool {
    &&& run.command_line@ == command_line(command)
    &&& run.environment@ == env_block(with_pairs(host.env.pairs(), parsed_env(env_args)))
    &&& run.cwd@ == cwd
    &&& run.wait_ms == wait_limit(timeout_ms)
    &&& run.paths.allow.deep_view() == protectable(host, allowed_candidates(policy, cwd, host))
    &&& run.paths.deny.deep_view() == protectable(host, denied_candidates(policy, cwd, host))
    &&& aces_view(run.deny_aces@) == deny_aces(run.paths.deny.deep_view())
}

/// Says how to run a command with a restricted token.
pub fn run_sandboxed(
    policy: SandboxPolicy,
    command: &[String],
    cwd: &str,
    env_args: &[String],
    timeout_ms: u64,
    host: &Host,
) -> (r: Result<RestrictedRun, LaunchError>)
    ensures
        match r {
            Ok(run) => command@.len() > 0 && runs_restricted(
                run,
                policy,
                command.deep_view(),
                cwd@,
                env_args.deep_view(),
                timeout_ms,
                host,
            ),
            Err(e) => command@.len() == 0 && e == LaunchError::NoCommand,
        },
{
    if command.len() == 0 {
        return Err(LaunchError::NoCommand);
    }
    let mut env = host.env.clone();
    env.extend(&parse_env(env_args));
    let paths = compute_allow_paths(&policy, cwd, host);
    let deny_aces = plan_deny_aces(&paths.deny);
    Ok(
        RestrictedRun {
            command_line: argv_to_command_line(command),
            environment: make_env_block(&env),
            cwd: cwd.to_owned(),
            wait_ms: wait_milliseconds(timeout_ms),
            paths,
            deny_aces,
        },
    )
}

/// No path occurs twice in a list of paths that each occur once, and every path of the list it was
/// made from is in it.
pub proof fn law_each_once(paths: Seq<Seq<char>>)
    ensures
        forall|i: int, j: int|
            0 <= i < j < each_once(paths).len() ==> !same_path(
                #[trigger] each_once(paths)[i],
                #[trigger] each_once(paths)[j],
                Platform::Windows,
            ),
        forall|k: int| 0 <= k < paths.len() ==> holds(each_once(paths), #[trigger] paths[k]),
        forall|x: Seq<char>| #[trigger] each_once(paths).contains(x) ==> paths.contains(x),
    decreases paths.len(),
{
    if paths.len() > 0 {
        let front = paths.drop_last();
        law_each_once(front);
        let before = each_once(front);
        let r = each_once(paths);
        assert forall|k: int| 0 <= k < paths.len() implies holds(r, #[trigger] paths[k]) by {
            if k < front.len() {
                assert(front[k] == paths[k]);
                assert(holds(before, front[k]));
                let i = choose|i: int|
                    0 <= i < before.len() && same_path(
                        #[trigger] before[i],
                        paths[k],
                        Platform::Windows,
                    );
                assert(r[i] == before[i]);
            } else if !holds(before, paths.last()) {
                assert(r[before.len() as int] == paths.last());
            }
        }
        assert forall|x: Seq<char>| #[trigger] r.contains(x) implies paths.contains(x) by {
            let i = choose|i: int| 0 <= i < r.len() && r[i] == x;
            if i < before.len() {
                assert(before.contains(x));
                let k = choose|k: int| 0 <= k < front.len() && front[k] == x;
                assert(paths[k] == x);
            } else {
                assert(paths[paths.len() - 1] == x);
            }
        }
    }
}

/// In read-only mode no path may be written, and every writable path that exists is protected.
pub proof fn law_read_only_protects(
    policy: SandboxPolicy,
    cwd: Seq<char>,
    host: &Host,
    p: Seq<char>,
)
    requires
        policy.mode is ReadOnly,
        p == cwd || policy.writable().contains(p) || policy.denied().contains(p),
        host.has_path(p),
    ensures
        protectable(host, allowed_candidates(policy, cwd, host)).len() == 0,
        holds(
            protectable(host, denied_candidates(policy, cwd, host)),
            canonical_or_same(host, p),
        ),
{
    let existing = host.existing.deep_view();
    let none = those_existing(allowed_candidates(policy, cwd, host), existing);
    assert(none.len() == 0);
    let all = denied_candidates(policy, cwd, host);
    if p == cwd {
        assert(all[0] == p);
    } else if policy.writable().contains(p) {
        let i = choose|i: int| 0 <= i < policy.writable().len() && policy.writable()[i] == p;
        assert(all[i + 1] == p);
    } else {
        let i = choose|i: int| 0 <= i < policy.denied().len() && policy.denied()[i] == p;
        assert(all[1 + policy.writable().len() + i] == p);
    }
    law_those_existing(all, existing, p);
    let kept = those_existing(all, existing);
    let forms = kept.map_values(|x: Seq<char>| canonical_or_same(host, x));
    let k = choose|k: int| 0 <= k < kept.len() && kept[k] == p;
    law_each_once(forms);
    assert(forms[k] == canonical_or_same(host, p));
}

/// After the command ran, an account is cleaned up on a path exactly when an entry was added for the
/// account on that path. To clean up is to take away all entries that the account has there, as
/// [`acl::revoke_entry`] says, and not only the one that was added.
pub proof fn law_cleanup_is_exact(
    aces: Seq<(Seq<char>, Account)>,
    added: Seq<bool>,
    x: (Seq<char>, Account),
)
    ensures
        added_aces(aces, added).contains(x) <==> exists|i: int|
            0 <= i < aces.len() && was_added(added, i) && #[trigger] aces[i] == x,
    decreases aces.len(),
{
    if aces.len() > 0 {
        let front = aces.drop_last();
        law_cleanup_is_exact(front, added, x);
        let before = added_aces(front, added);
        let r = added_aces(aces, added);
        let n = aces.len() - 1;
        assert(aces[n] == aces.last());
        if r.contains(x) {
            let k = choose|k: int| 0 <= k < r.len() && r[k] == x;
            if k < before.len() {
                assert(before[k] == x);
                let i = choose|i: int|
                    0 <= i < front.len() && was_added(added, i) && #[trigger] front[i] == x;
                assert(aces[i] == x);
            }
        }
        if exists|i: int| 0 <= i < aces.len() && was_added(added, i) && #[trigger] aces[i] == x {
            let i = choose|i: int|
                0 <= i < aces.len() && was_added(added, i) && #[trigger] aces[i] == x;
            if i < n {
                assert(front[i] == x);
                let k = choose|k: int| 0 <= k < before.len() && before[k] == x;
                assert(r[k] == x);
            } else {
                assert(r[before.len() as int] == x);
            }
        }
    }
}

/// Every protected path gets an entry for every account.
pub proof fn law_every_account_is_denied(
    paths: Seq<Seq<char>>,
    p: Seq<char>,
    account: Account,
)
    requires
        paths.contains(p),
    ensures
        deny_aces(paths).contains((p, account)),
    decreases paths.len(),
{
    let front = paths.drop_last();
    let before = deny_aces(front);
    let more = seq![
        (paths.last(), Account::User),
        (paths.last(), Account::Users),
        (paths.last(), Account::Everyone),
    ];
    let r = before + more;
    let k = choose|k: int| 0 <= k < paths.len() && paths[k] == p;
    if k < front.len() {
        assert(front[k] == p);
        law_every_account_is_denied(front, p, account);
        let i = choose|i: int| 0 <= i < before.len() && before[i] == (p, account);
        assert(r[i] == (p, account));
    } else {
        let at: int = match account {
            Account::User => 0,
            Account::Users => 1,
            Account::Everyone => 2,
        };
        assert(more[at] == (p, account));
        assert(r[before.len() + at] == (p, account));
    }
}

/// The wait for a command is its limit, for every limit that fits 32 bits; without a limit it never
/// ends. A longer limit waits as one that is shorter by 2 to the power of 32 does.
pub proof fn law_wait_is_the_limit(timeout_ms: u64)
    ensures
        0 < timeout_ms <= 0xffff_ffff ==> wait_limit(timeout_ms) == timeout_ms,
        wait_limit(0) == 0xffff_ffff,
        timeout_ms > 0x1_0000_0000 ==> wait_limit(timeout_ms) == wait_limit(
            (timeout_ms - 0x1_0000_0000) as u64,
        ),
        wait_limit(0x1_0000_0000) == 0,
{
}

/// What Windows calls a wait without end and a wait whose time was over, and the exit code of a
/// command that was stopped.
pub proof fn law_wait_codes()
    ensures
        INFINITE == 4294967295,
        WAIT_TIMEOUT == 258,
        TIMEOUT_EXIT_CODE == 192,
{
}

proof fn lemma_protectable(host: &Host, paths: Seq<Seq<char>>, p: Seq<char>)
    ensures
        paths.contains(p) && host.has_path(p) ==> holds(
            protectable(host, paths),
            canonical_or_same(host, p),
        ),
        protectable(host, paths).contains(p) ==> exists|x: Seq<char>| #[trigger]
            paths.contains(x) && host.has_path(x) && p == canonical_or_same(host, x),
{
    let existing = host.existing.deep_view();
    let kept = those_existing(paths, existing);
    let forms = kept.map_values(|x: Seq<char>| canonical_or_same(host, x));
    law_each_once(forms);
    law_those_existing(paths, existing, p);
    if paths.contains(p) && host.has_path(p) {
        let k = choose|k: int| 0 <= k < kept.len() && kept[k] == p;
        assert(forms[k] == canonical_or_same(host, p));
    }
    if protectable(host, paths).contains(p) {
        assert(forms.contains(p));
        let k = choose|k: int| 0 <= k < forms.len() && forms[k] == p;
        law_those_existing(paths, existing, kept[k]);
        assert(kept.contains(kept[k]));
        assert(paths.contains(kept[k]));
    }
}

/// With workspace-write, a command may write to the working directory, the writable paths and the
/// directories that `TEMP` and `TMP` name, as far as they exist, each in its canonical form. It may
/// write to nothing else, and in the other modes to nothing at all.
pub proof fn law_allowed_paths(policy: SandboxPolicy, cwd: Seq<char>, host: &Host, p: Seq<char>)
    ensures
        policy.mode == SandboxMode::WorkspaceWrite && host.has_path(p) && ({
            ||| p == cwd
            ||| policy.writable().contains(p)
            ||| host.spec_var("TEMP"@) == Some(p)
            ||| host.spec_var("TMP"@) == Some(p)
        }) ==> holds(
            protectable(host, allowed_candidates(policy, cwd, host)),
            match host.canonical_form(p) {
                Some(c) => c,
                None => p,
            },
        ),
        policy.mode != SandboxMode::WorkspaceWrite ==> protectable(
            host,
            allowed_candidates(policy, cwd, host),
        ).len() == 0,
        protectable(host, allowed_candidates(policy, cwd, host)).contains(p) ==> exists|
            x: Seq<char>,
        | #[trigger]
            host.has_path(x) && p == (match host.canonical_form(x) {
                Some(c) => c,
                None => x,
            }) && ({
                ||| x == cwd
                ||| policy.writable().contains(x)
                ||| host.spec_var("TEMP"@) == Some(x)
                ||| host.spec_var("TMP"@) == Some(x)
            }),
{
    let all = allowed_candidates(policy, cwd, host);
    lemma_protectable(host, all, p);
    if policy.mode is WorkspaceWrite {
        let temp = path_of_variable(host.env.pairs(), "TEMP"@, host.platform);
        let tmp = path_of_variable(host.env.pairs(), "TMP"@, host.platform);
        let w = policy.writable();
        assert(all == seq![cwd] + w + temp + tmp);
        assert(all[0] == cwd);
        if w.contains(p) {
            let i = choose|i: int| 0 <= i < w.len() && w[i] == p;
            assert(all[i + 1] == p);
        }
        if host.spec_var("TEMP"@) == Some(p) {
            assert(all[1 + w.len() as int] == p);
        }
        if host.spec_var("TMP"@) == Some(p) {
            assert(all[1 + w.len() + temp.len() as int] == p);
        }
        if protectable(host, all).contains(p) {
            let x = choose|x: Seq<char>| #[trigger]
                all.contains(x) && host.has_path(x) && p == canonical_or_same(host, x);
            let i = choose|i: int| 0 <= i < all.len() && all[i] == x;
            if 1 <= i < 1 + w.len() {
                assert(w[i - 1] == x);
            } else if 1 + w.len() <= i < 1 + w.len() + temp.len() {
                assert(temp[i - 1 - w.len()] == x);
            } else if i > 0 {
                assert(tmp[i - 1 - w.len() - temp.len()] == x);
            }
            assert(host.has_path(x));
        }
    } else {
        assert(those_existing(all, host.existing.deep_view()).len() == 0);
    }
}

/// With workspace-write, the personal directories in the profile of the user are protected, as far
/// as they exist, each in its canonical form. The profile is what `USERPROFILE` names, or `HOME`
/// where that is not set.
pub proof fn law_profile_is_protected(
    policy: SandboxPolicy,
    cwd: Seq<char>,
    host: &Host,
    home: Seq<char>,
    p: Seq<char>,
)
    requires
        policy.mode == SandboxMode::WorkspaceWrite,
        host.spec_var("USERPROFILE"@) == Some(home) || (host.spec_var("USERPROFILE"@) is None
            && host.spec_var("HOME"@) == Some(home)),
        home.len() > 0,
        host.has_path(p),
        ({
            ||| p == home + "/Desktop"@
            ||| p == home + "/Documents"@
            ||| p == home + "/Downloads"@
            ||| p == home + "/Pictures"@
            ||| p == home + "/Music"@
            ||| p == home + "/Videos"@
        }),
    ensures
        holds(
            protectable(host, denied_candidates(policy, cwd, host)),
            match host.canonical_form(p) {
                Some(c) => c,
                None => p,
            },
        ),
{
    let all = denied_candidates(policy, cwd, host);
    lemma_personal_directories(home, p);
    let profile = personal_directories(home);
    assert(profile_directories(host.env.pairs(), host.platform) == profile);
    let i = choose|i: int| 0 <= i < profile.len() && profile[i] == p;
    assert(all[i] == p);
    lemma_protectable(host, all, p);
}

/// A denied path that exists is protected in every mode, in its canonical form.
pub proof fn law_denied_is_protected(
    policy: SandboxPolicy,
    cwd: Seq<char>,
    host: &Host,
    p: Seq<char>,
)
    requires
        policy.denied().contains(p),
        host.has_path(p),
    ensures
        holds(
            protectable(host, denied_candidates(policy, cwd, host)),
            match host.canonical_form(p) {
                Some(c) => c,
                None => p,
            },
        ),
{
    let all = denied_candidates(policy, cwd, host);
    let first = all.len() - policy.denied().len();
    let i = choose|i: int| 0 <= i < policy.denied().len() && policy.denied()[i] == p;
    assert(all[first + i] == p);
    lemma_protectable(host, all, p);
}

/// Nothing is protected but what the policy denies, in read-only mode the working directory and the
/// writable paths, and with workspace-write directories in the profile.
pub proof fn law_only_these_are_protected(
    policy: SandboxPolicy,
    cwd: Seq<char>,
    host: &Host,
    p: Seq<char>,
)
    requires
        protectable(host, denied_candidates(policy, cwd, host)).contains(p),
    ensures
        exists|x: Seq<char>| #[trigger]
            host.has_path(x) && p == (match host.canonical_form(x) {
                Some(c) => c,
                None => x,
            }) && ({
                ||| policy.denied().contains(x)
                ||| policy.mode == SandboxMode::ReadOnly && (x == cwd || policy.writable().contains(
                    x,
                ))
                ||| policy.mode == SandboxMode::WorkspaceWrite && exists|home: Seq<char>|
                    (host.spec_var("USERPROFILE"@) == Some(home) || host.spec_var("HOME"@) == Some(
                        home,
                    )) && home.len() > 0 && #[trigger] personal_directories(home).contains(x)
            }),
{
    let all = denied_candidates(policy, cwd, host);
    lemma_protectable(host, all, p);
    let x = choose|x: Seq<char>| #[trigger]
        all.contains(x) && host.has_path(x) && p == canonical_or_same(host, x);
    assert(host.has_path(x));
    let i = choose|i: int| 0 <= i < all.len() && all[i] == x;
    let first = all.len() - policy.denied().len();
    if i >= first {
        assert(policy.denied()[i - first] == x);
    } else if policy.mode is ReadOnly {
        if i > 0 {
            assert(policy.writable()[i - 1] == x);
        }
    } else {
        let profile = profile_directories(host.env.pairs(), host.platform);
        assert(profile[i] == x);
        let home = if host.spec_var("USERPROFILE"@) is Some {
            host.spec_var("USERPROFILE"@)->0
        } else {
            host.spec_var("HOME"@)->0
        };
        assert(personal_directories(home).contains(x));
    }
}

/// Entries are added for protected paths and for no others.
pub proof fn law_only_protected_paths_get_entries(
    paths: Seq<Seq<char>>,
    p: Seq<char>,
    account: Account,
)
    ensures
        deny_aces(paths).contains((p, account)) <==> paths.contains(p),
        deny_aces(paths).len() == 3 * paths.len(),
    decreases paths.len(),
{
    if paths.contains(p) {
        law_every_account_is_denied(paths, p, account);
    }
    if paths.len() > 0 {
        let front = paths.drop_last();
        law_only_protected_paths_get_entries(front, p, account);
        let before = deny_aces(front);
        let r = deny_aces(paths);
        if r.contains((p, account)) {
            let k = choose|k: int| 0 <= k < r.len() && r[k] == (p, account);
            if k < before.len() {
                assert(before[k] == (p, account));
                let i = choose|i: int| 0 <= i < front.len() && front[i] == p;
                assert(paths[i] == p);
            } else {
                assert(r[k].0 == paths.last());
                assert(paths[paths.len() - 1] == p);
            }
        }
    }
}

/// The accounts besides the user are all users and everyone, by the identifiers that Windows gives
/// them.
pub proof fn law_accounts()
    ensures
        Account::User.well_known() is None,
        Account::Users.well_known() == Some("S-1-5-32-545"@),
        Account::Everyone.well_known() == Some("S-1-1-0"@),
{
}

/// The null device and the console may always be written.
pub proof fn law_null_devices(d: Seq<char>)
    ensures
        null_devices().contains(d) <==> d == "NUL"@ || d == "CON"@,
{
    assert(null_devices()[0] == "NUL"@);
    assert(null_devices()[1] == "CON"@);
}

/// A planned run puts the command on its command line so that the program reads it back, gives it
/// the variables of this process and those set for it, and waits as long as the limit says.
pub proof fn law_planned_run(
    run: RestrictedRun,
    policy: SandboxPolicy,
    command: Seq<Seq<char>>,
    cwd: Seq<char>,
    env_args: Seq<Seq<char>>,
    timeout_ms: u64,
    host: &Host,
)
    requires
        runs_restricted(run, policy, command, cwd, env_args, timeout_ms, host),
    ensures
        read_arguments(run.command_line@, None, false) == command,
        run.environment@ == env_block(with_pairs(host.env.pairs(), parsed_env(env_args))),
        run.cwd@ == cwd,
        0 < timeout_ms <= 0xffff_ffff ==> run.wait_ms == timeout_ms,
        timeout_ms == 0 ==> run.wait_ms == 0xffff_ffff,
        forall|p: Seq<char>, account: Account|
            run.paths.deny.deep_view().contains(p) ==> #[trigger] aces_view(
                run.deny_aces@,
            ).contains((p, account)),
{
    law_arguments_read_back(command);
    assert forall|p: Seq<char>, account: Account|
        run.paths.deny.deep_view().contains(p) implies #[trigger] aces_view(
        run.deny_aces@,
    ).contains((p, account)) by {
        law_every_account_is_denied(run.paths.deny.deep_view(), p, account);
    }
}

/// A run whose time was over gives the exit code 192. Any other gives the exit code that the system
/// reports, read as a signed number: it differs from that by nothing or by 2 to the power of 32.
pub proof fn law_ended(wait_result: u32, exit_code: u32)
    ensures
        wait_result == 258 ==> ended(wait_result, exit_code).timed_out && ended(
            wait_result,
            exit_code,
        ).exit_code == 192,
        wait_result != 258 ==> !ended(wait_result, exit_code).timed_out,
        wait_result != 258 && exit_code <= 0x7fff_ffff ==> ended(wait_result, exit_code).exit_code
            == exit_code,
        wait_result != 258 && exit_code > 0x7fff_ffff ==> ended(wait_result, exit_code).exit_code
            == exit_code - 4294967296,
{
    assert(exit_code >= 0x8000_0000u32 ==> exit_code as i32 as i64 == exit_code as i64
        - 0x1_0000_0000) by (bit_vector);
    assert(exit_code < 0x8000_0000u32 ==> exit_code as i32 as i64 == exit_code as i64)
        by (bit_vector);
}

} // verus!
