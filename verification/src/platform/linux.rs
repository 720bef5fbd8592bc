//! Linux sandbox: bubblewrap mounts, with Landlock rules where bubblewrap is missing.
//!
//! - bubblewrap gives the command a file system of its own: everything read-only, then, unless the
//!   policy is read-only, what may be written, then the denied paths read-only again, and no network
//!   where the policy restricts it.
//! - Landlock rules let the process itself read everywhere and write to the writable roots. A rule
//!   cannot take back what another grants, so a denied path inside a writable root is held back by
//!   the mounts of bubblewrap alone.

use crate::common::{copy_from, parse_env, runs_as_given, Invocation};
use crate::env::{lookup, EnvMap};
use crate::guard::{lies_in, lies_in_any};
use crate::host::{Host, Platform};
use crate::platform::Launch;
use crate::policy::{keep_existing, law_those_existing, those_existing, NetworkPolicy, SandboxMode, SandboxPolicy};
use crate::rules::append_all;
use vstd::prelude::*;

verus! {

/// What a mount shows at its path.
#[derive(Clone, Copy, Debug, PartialEq, Eq, Structural)]
pub enum MountKind {
    /// The files of the host, for reading.
    ReadOnly,
    /// The files of the host, for reading and writing.
    Writable,
    /// The files of the host, for reading and writing, if they are there.
    WritableIfThere,
    /// A small set of devices.
    Devices,
    /// The processes of the sandbox.
    Processes,
    /// An empty directory in memory.
    Temporary,
}

impl MountKind {
    /// The bubblewrap option.
    pub open spec fn option(self) -> Seq<char> {
        match self {
            MountKind::ReadOnly => "--ro-bind"@,
            MountKind::Writable => "--bind"@,
            MountKind::WritableIfThere => "--bind-try"@,
            MountKind::Devices => "--dev"@,
            MountKind::Processes => "--proc"@,
            MountKind::Temporary => "--tmpfs"@,
        }
    }

    /// Whether the mount shows files of the host.
    pub open spec fn shows_host(self) -> bool {
        self is ReadOnly || self.writes_host()
    }

    /// Whether files of the host can be written through the mount.
    pub open spec fn writes_host(self) -> bool {
        self is Writable || self is WritableIfThere
    }

    fn name(self) -> (r: &'static str)
        ensures
            r@ == self.option(),
    {
        match self {
            MountKind::ReadOnly => "--ro-bind",
            MountKind::Writable => "--bind",
            MountKind::WritableIfThere => "--bind-try",
            MountKind::Devices => "--dev",
            MountKind::Processes => "--proc",
            MountKind::Temporary => "--tmpfs",
        }
    }
}

/// A mount: what it shows, and where.
pub type MountAt = (MountKind, Seq<char>);

/// The options that make a mount. Where it shows files of the host, it shows them at their own
/// path.
pub open spec fn mount_options(m: MountAt) -> Seq<Seq<char>> {
    if m.0.shows_host() {
        seq![m.0.option(), m.1, m.1]
    } else {
        seq![m.0.option(), m.1]
    }
}

/// The options that make the mounts, one after the other.
pub open spec fn all_mount_options(mounts: Seq<MountAt>) -> Seq<Seq<char>>
    decreases mounts.len(),
{
    if mounts.len() == 0 {
        Seq::empty()
    } else {
        all_mount_options(mounts.drop_last()) + mount_options(mounts.last())
    }
}

/// Mounts of one kind at the given paths.
pub open spec fn mounts_of(kind: MountKind, paths: Seq<Seq<char>>) -> Seq<MountAt> {
    paths.map_values(|p: Seq<char>| (kind, p))
}

/// The mounts that every sandbox starts from.
pub open spec fn base_mounts() -> Seq<MountAt> {
    seq![
        (MountKind::ReadOnly, "/"@),
        (MountKind::Devices, "/dev"@),
        (MountKind::Processes, "/proc"@),
        (MountKind::Temporary, "/tmp"@),
    ]
}

/// The mount at a path that files of the host can be written through, if the path exists.
pub open spec fn mount_if_existing(kind: MountKind, p: Seq<char>, existing: Seq<Seq<char>>) -> Seq<
    MountAt,
> {
    if existing.contains(p) {
        seq![(kind, p)]
    } else {
        Seq::empty()
    }
}

/// The mounts that let a command write to the writable roots and to the working directory, as far as
/// they exist. A read-only policy has none.
pub open spec fn root_mounts(policy: SandboxPolicy, cwd: Seq<char>, existing: Seq<Seq<char>>) -> Seq<
    MountAt,
> {
    if policy.mode is ReadOnly {
        Seq::empty()
    } else {
        mounts_of(MountKind::Writable, those_existing(policy.writable(), existing))
            + mount_if_existing(MountKind::Writable, cwd, existing)
    }
}

/// The mount for the sockets of the user's session, if their directory exists. A read-only policy
/// has none.
pub open spec fn session_mount(
    policy: SandboxPolicy,
    existing: Seq<Seq<char>>,
    runtime_dir: Option<Seq<char>>,
) -> Seq<MountAt> {
    if policy.mode is ReadOnly {
        Seq::empty()
    } else {
        match runtime_dir {
            Some(dir) => mount_if_existing(MountKind::WritableIfThere, dir, existing),
            None => Seq::empty(),
        }
    }
}

/// The mounts that keep the denied paths that exist from being written.
pub open spec fn denied_mounts(policy: SandboxPolicy, existing: Seq<Seq<char>>) -> Seq<MountAt> {
    mounts_of(MountKind::ReadOnly, those_existing(policy.denied(), existing))
}

/// All mounts of a sandbox, in the order in which they are made: the base, what may be written, and
/// over these the denied paths.
pub open spec fn sandbox_mounts(
    policy: SandboxPolicy,
    cwd: Seq<char>,
    existing: Seq<Seq<char>>,
    runtime_dir: Option<Seq<char>>,
) -> Seq<MountAt> {
    base_mounts() + root_mounts(policy, cwd, existing) + session_mount(
        policy,
        existing,
        runtime_dir,
    ) + denied_mounts(policy, existing)
}

/// The option that takes the network away, where the policy restricts it.
pub open spec fn network_options(network: NetworkPolicy) -> Seq<Seq<char>> {
    if network is Restricted {
        seq!["--unshare-net"@]
    } else {
        Seq::empty()
    }
}

/// The bubblewrap options for a policy: the base, the roots and the working directory, the network,
/// the session and the denied paths.
pub open spec fn bwrap_options(
    policy: SandboxPolicy,
    cwd: Seq<char>,
    existing: Seq<Seq<char>>,
    runtime_dir: Option<Seq<char>>,
) -> Seq<Seq<char>> {
    all_mount_options(base_mounts() + root_mounts(policy, cwd, existing)) + network_options(
        policy.network,
    ) + all_mount_options(
        session_mount(policy, existing, runtime_dir) + denied_mounts(policy, existing),
    )
}

proof fn lemma_more_mount_options(a: Seq<MountAt>, b: Seq<MountAt>)
    ensures
        all_mount_options(a + b) == all_mount_options(a) + all_mount_options(b),
    decreases b.len(),
{
    if b.len() == 0 {
        assert(a + b == a);
    } else {
        lemma_more_mount_options(a, b.drop_last());
        assert((a + b).drop_last() == a + b.drop_last());
    }
}

fn push_mount(args: &mut Vec<String>, kind: MountKind, path: &str)
    ensures
        final(args).deep_view() == old(args).deep_view() + mount_options((kind, path@)),
{
    let ghost before = args.deep_view();
    args.push(kind.name().to_owned());
    args.push(path.to_owned());
    assert(args.deep_view() == before + seq![kind.option(), path@]);
    if kind == MountKind::ReadOnly || kind == MountKind::Writable || kind
        == MountKind::WritableIfThere {
        args.push(path.to_owned());
        assert(args.deep_view() == before + seq![kind.option(), path@, path@]);
    }
}

fn push_mounts(args: &mut Vec<String>, kind: MountKind, paths: &Vec<String>)
    ensures
        final(args).deep_view() == old(args).deep_view() + all_mount_options(
            mounts_of(kind, paths.deep_view()),
        ),
{
    let ghost before = args.deep_view();
    let ghost mounts = mounts_of(kind, paths.deep_view());
    let n: usize = paths.len();
    assert(args.deep_view() == before + all_mount_options(mounts.take(0)));
    for i in 0..n
        invariant
            n == paths@.len(),
            mounts == mounts_of(kind, paths.deep_view()),
            args.deep_view() == before + all_mount_options(mounts.take(i as int)),
    {
        assert(mounts.take(i + 1).drop_last() == mounts.take(i as int));
        assert(mounts.take(i + 1).last() == (kind, paths@[i as int]@));
        push_mount(args, kind, paths[i].as_str());
        assert(args.deep_view() == before + all_mount_options(mounts.take(i + 1)));
    }
    assert(mounts.take(n as int) == mounts);
}

fn copy_references(paths: &Vec<&String>) -> (r: Vec<String>)
    ensures
        r.deep_view() == paths.deep_view(),
{
    let ghost all = paths.deep_view();
    let n: usize = paths.len();
    let mut r: Vec<String> = Vec::new();
    for i in 0..n
        invariant
            n == paths@.len(),
            all == paths.deep_view(),
            r.deep_view() == all.take(i as int),
    {
        let ghost before = r.deep_view();
        r.push(paths[i].clone());
        assert(r.deep_view() == before.push(all[i as int]));
    }
    assert(all.take(n as int) == all);
    r
}

/// Lists the writable paths of a policy that exist.
pub fn existing_writable_paths(policy: &SandboxPolicy, host: &Host) -> (r: Vec<String>)
    ensures
        r.deep_view() == those_existing(policy.writable(), host.existing.deep_view()),
{
    keep_existing(&copy_references(&policy.all_writable_paths()), host)
}

fn push_base(args: &mut Vec<String>)
    ensures
        final(args).deep_view() == old(args).deep_view() + all_mount_options(base_mounts()),
{
    let ghost before = args.deep_view();
    let ghost base = base_mounts();
    proof {
        reveal_with_fuel(all_mount_options, 5);
        assert(base.drop_last().drop_last().drop_last().drop_last() == Seq::<MountAt>::empty());
    }
    push_mount(args, MountKind::ReadOnly, "/");
    push_mount(args, MountKind::Devices, "/dev");
    push_mount(args, MountKind::Processes, "/proc");
    push_mount(args, MountKind::Temporary, "/tmp");
    assert(args.deep_view() == before + all_mount_options(base));
}

fn push_if_existing(args: &mut Vec<String>, kind: MountKind, path: &str, host: &Host)
    ensures
        final(args).deep_view() == old(args).deep_view() + all_mount_options(
            mount_if_existing(kind, path@, host.existing.deep_view()),
        ),
{
    let ghost before = args.deep_view();
    if host.path_exists(path) {
        push_mount(args, kind, path);
        proof {
            reveal_with_fuel(all_mount_options, 2);
            assert(seq![(kind, path@)].drop_last() == Seq::<MountAt>::empty());
        }
        assert(args.deep_view() == before + all_mount_options(seq![(kind, path@)]));
    } else {
        assert(args.deep_view() == before + Seq::<Seq<char>>::empty());
    }
}

fn push_roots(args: &mut Vec<String>, policy: &SandboxPolicy, cwd: &str, host: &Host)
    ensures
        final(args).deep_view() == old(args).deep_view() + all_mount_options(
            root_mounts(*policy, cwd@, host.existing.deep_view()),
        ),
{
    let ghost before = args.deep_view();
    if policy.mode == SandboxMode::ReadOnly {
        assert(args.deep_view() == before + Seq::<Seq<char>>::empty());
        return ;
    }
    let ghost existing = host.existing.deep_view();
    let ghost roots = mounts_of(MountKind::Writable, those_existing(policy.writable(), existing));
    let ghost here = mount_if_existing(MountKind::Writable, cwd@, existing);
    push_mounts(args, MountKind::Writable, &existing_writable_paths(policy, host));
    push_if_existing(args, MountKind::Writable, cwd, host);
    proof {
        lemma_more_mount_options(roots, here);
    }
    assert(args.deep_view() == before + all_mount_options(roots + here));
}

fn push_session(args: &mut Vec<String>, policy: &SandboxPolicy, host: &Host)
    ensures
        final(args).deep_view() == old(args).deep_view() + all_mount_options(
            session_mount(
                *policy,
                host.existing.deep_view(),
                host.spec_var("XDG_RUNTIME_DIR"@),
            ),
        ),
{
    let ghost before = args.deep_view();
    if policy.mode == SandboxMode::ReadOnly {
        assert(args.deep_view() == before + Seq::<Seq<char>>::empty());
        return ;
    }
    match host.var("XDG_RUNTIME_DIR") {
        Some(dir) => push_if_existing(args, MountKind::WritableIfThere, dir.as_str(), host),
        None => {
            assert(args.deep_view() == before + Seq::<Seq<char>>::empty());
        },
    }
}

/// Builds the bubblewrap options for a policy.
pub fn build_bwrap_args(policy: &SandboxPolicy, cwd: &str, host: &Host) -> (r: Vec<String>)
    ensures
        r.deep_view() == bwrap_options(
            *policy,
            cwd@,
            host.existing.deep_view(),
            host.spec_var("XDG_RUNTIME_DIR"@),
        ),
{
    let ghost existing = host.existing.deep_view();
    let ghost roots = root_mounts(*policy, cwd@, existing);
    let ghost session = session_mount(*policy, existing, host.spec_var("XDG_RUNTIME_DIR"@));
    let ghost denied = denied_mounts(*policy, existing);
    let mut args: Vec<String> = Vec::new();
    push_base(&mut args);
    assert(args.deep_view() == all_mount_options(base_mounts()));
    push_roots(&mut args, policy, cwd, host);
    let ghost before = args.deep_view();
    if policy.network == NetworkPolicy::Restricted {
        args.push("--unshare-net".to_owned());
    }
    assert(args.deep_view() == before + network_options(policy.network));
    push_session(&mut args, policy, host);
    push_mounts(&mut args, MountKind::ReadOnly, &keep_existing(&policy.denied_write_paths, host));
    proof {
        lemma_more_mount_options(base_mounts(), roots);
        lemma_more_mount_options(session, denied);
    }
    assert(args.deep_view() == before + network_options(policy.network) + all_mount_options(
        session + denied,
    ));
    args
}

/// Says how to run a command in the file system that bubblewrap sets up.
pub fn run_with_bwrap(
    bwrap_path: &str,
    policy: &SandboxPolicy,
    command: &[String],
    cwd: &str,
    extra_env: EnvMap,
    timeout_ms: u64,
    host: &Host,
) -> (r: Invocation)
    ensures
        r.program@ == bwrap_path@,
        r.args.deep_view() == bwrap_options(
            *policy,
            cwd@,
            host.existing.deep_view(),
            host.spec_var("XDG_RUNTIME_DIR"@),
        ) + seq!["--"@] + command.deep_view(),
        r.cwd@ == cwd@,
        r.env == extra_env,
        r.timeout_ms == timeout_ms,
{
    let mut args = build_bwrap_args(policy, cwd, host);
    let ghost before = args.deep_view();
    args.push("--".to_owned());
    assert(args.deep_view() == before + seq!["--"@]);
    append_all(&mut args, &copy_from(command, 0));
    assert(command.deep_view().skip(0) == command.deep_view());
    Invocation {
        program: bwrap_path.to_owned(),
        args,
        cwd: cwd.to_owned(),
        env: extra_env,
        timeout_ms,
    }
}

/// What a Landlock rule grants.
#[derive(Clone, Copy, Debug, PartialEq, Eq, Structural)]
pub enum Access {
    /// Reading and running files.
    Read,
    /// Everything.
    All,
}

/// A Landlock rule: what it grants beneath a path.
#[derive(Debug)]
pub struct LandlockRule {
    /// The path.
    pub path: String,
    /// What is granted.
    pub access: Access,
    /// Whether the rules must not be put in force without this one.
    pub required: bool,
}

impl View for LandlockRule {
    type V = (Seq<char>, Access, bool);

    open spec fn view(&self) -> (Seq<char>, Access, bool) {
        (self.path@, self.access, self.required)
    }
}

/// The Landlock rules for a policy; none at all with full access. Everything may be read. With
/// workspace-write, everything is granted beneath the writable roots that exist; a root whose rule
/// cannot be made is left out.
pub open spec fn landlock_rules(policy: SandboxPolicy, existing: Seq<Seq<char>>) -> Option<
    Seq<(Seq<char>, Access, bool)>,
> {
    match policy.mode {
        SandboxMode::FullAccess => None,
        SandboxMode::ReadOnly => Some(seq![("/"@, Access::Read, true)]),
        SandboxMode::WorkspaceWrite => Some(
            seq![("/"@, Access::Read, true)] + those_existing(
                policy.writable(),
                existing,
            ).map_values(|p: Seq<char>| (p, Access::All, false)),
        ),
    }
}

/// Lists the Landlock rules for a policy.
pub fn plan_landlock_rules(policy: &SandboxPolicy, host: &Host) -> (r: Option<Vec<LandlockRule>>)
    ensures
        match r {
            Some(rules) => landlock_rules(*policy, host.existing.deep_view()) == Some(
                rules@.map_values(|x: LandlockRule| x@),
            ),
            None => landlock_rules(*policy, host.existing.deep_view()) is None,
        },
{
    if policy.mode == SandboxMode::FullAccess {
        return None;
    }
    let mut rules: Vec<LandlockRule> = Vec::new();
    rules.push(LandlockRule { path: "/".to_owned(), access: Access::Read, required: true });
    let ghost base = seq![("/"@, Access::Read, true)];
    assert(rules@.map_values(|x: LandlockRule| x@) == base);
    if policy.mode == SandboxMode::WorkspaceWrite {
        let roots = existing_writable_paths(policy, host);
        let ghost more = roots.deep_view().map_values(|p: Seq<char>| (p, Access::All, false));
        let n: usize = roots.len();
        assert(more.take(0) == Seq::<(Seq<char>, Access, bool)>::empty());
        for i in 0..n
            invariant
                n == roots@.len(),
                more == roots.deep_view().map_values(|p: Seq<char>| (p, Access::All, false)),
                rules@.map_values(|x: LandlockRule| x@) == base + more.take(i as int),
        {
            let ghost before = rules@.map_values(|x: LandlockRule| x@);
            rules.push(
                LandlockRule { path: roots[i].clone(), access: Access::All, required: false },
            );
            assert(rules@.map_values(|x: LandlockRule| x@) == before.push(more[i as int]));
            assert(base + more.take(i + 1) == before.push(more[i as int]));
        }
        assert(more.take(n as int) == more);
    }
    Some(rules)
}

/// Whether `launch` runs the command in the sandbox of this system: through bubblewrap if it is
/// there, and otherwise as it is, after the Landlock rules were put in force.
pub open spec fn runs_confined(
    launch: Launch,
    policy: SandboxPolicy,
    command: Seq<Seq<char>>,
    cwd: Seq<char>,
    env_args: Seq<Seq<char>>,
    timeout_ms: u64,
    host: &Host,
) -> bool {
    match host.bwrap {
        Some(bwrap) => {
            &&& launch matches Launch::Direct(run)
            &&& runs_as_given(
                run,
                seq![bwrap@] + bwrap_options(
                    policy,
                    cwd,
                    host.existing.deep_view(),
                    host.spec_var("XDG_RUNTIME_DIR"@),
                ) + seq!["--"@] + command,
                cwd,
                env_args,
                timeout_ms,
            )
        },
        None => {
            &&& launch matches Launch::Landlocked { rules, run }
            &&& match rules {
                Some(list) => landlock_rules(policy, host.existing.deep_view()) == Some(
                    list@.map_values(|x: LandlockRule| x@),
                ),
                None => landlock_rules(policy, host.existing.deep_view()) is None,
            }
            &&& runs_as_given(run, command, cwd, env_args, timeout_ms)
        },
    }
}

/// Says how to run a command in the sandbox of this system.
pub fn run_sandboxed(
    policy: SandboxPolicy,
    command: &[String],
    cwd: &str,
    env_args: &[String],
    timeout_ms: u64,
    host: &Host,
) -> (r: Launch)
    requires
        host.bwrap is Some || command@.len() > 0,
    ensures
        runs_confined(
            r,
            policy,
            command.deep_view(),
            cwd@,
            env_args.deep_view(),
            timeout_ms,
            host,
        ),
{
    let extra_env = parse_env(env_args);
    match &host.bwrap {
        Some(bwrap) => {
            let run = run_with_bwrap(
                bwrap.as_str(),
                &policy,
                command,
                cwd,
                extra_env,
                timeout_ms,
                host,
            );
            assert(run.line() == seq![bwrap@] + bwrap_options(
                policy,
                cwd@,
                host.existing.deep_view(),
                host.spec_var("XDG_RUNTIME_DIR"@),
            ) + seq!["--"@] + command.deep_view());
            Launch::Direct(run)
        },
        None => {
            let run = Invocation {
                program: command[0].clone(),
                args: copy_from(command, 1),
                cwd: cwd.to_owned(),
                env: extra_env,
                timeout_ms,
            };
            assert(run.line() == command.deep_view());
            Launch::Landlocked { rules: plan_landlock_rules(&policy, host), run }
        },
    }
}

/// Whether the path `p` is `root` or lies beneath it.
pub open spec fn beneath(p: Seq<char>, root: Seq<char>) -> bool {
    lies_in(p, root, Platform::Linux)
}

/// Whether the path lies beneath one of `roots`.
pub open spec fn beneath_any(p: Seq<char>, roots: Seq<Seq<char>>) -> bool {
    lies_in_any(p, roots, Platform::Linux)
}

/// The kind of the mount that a path is seen through: of those it lies beneath, the last one
/// made.
pub open spec fn seen_through(mounts: Seq<MountAt>, p: Seq<char>) -> Option<MountKind>
    decreases mounts.len(),
{
    if mounts.len() == 0 {
        None
    } else if beneath(p, mounts.last().1) {
        Some(mounts.last().0)
    } else {
        seen_through(mounts.drop_last(), p)
    }
}

proof fn lemma_seen_through_later(a: Seq<MountAt>, b: Seq<MountAt>, p: Seq<char>)
    ensures
        seen_through(a + b, p) == (if seen_through(b, p) is Some {
            seen_through(b, p)
        } else {
            seen_through(a, p)
        }),
    decreases b.len(),
{
    if b.len() == 0 {
        assert(a + b == a);
    } else {
        lemma_seen_through_later(a, b.drop_last(), p);
        assert((a + b).drop_last() == a + b.drop_last());
        assert((a + b).last() == b.last());
    }
}

proof fn lemma_seen_through_kind(kind: MountKind, paths: Seq<Seq<char>>, p: Seq<char>)
    ensures
        seen_through(mounts_of(kind, paths), p) == (if beneath_any(p, paths) {
            Some(kind)
        } else {
            None
        }),
    decreases paths.len(),
{
    let mounts = mounts_of(kind, paths);
    if paths.len() > 0 {
        let front = paths.drop_last();
        lemma_seen_through_kind(kind, front, p);
        assert(mounts.drop_last() == mounts_of(kind, front));
        assert(mounts.last() == (kind, paths.last()));
        if beneath(p, paths.last()) {
            assert(beneath(p, paths[paths.len() - 1]));
        } else {
            if beneath_any(p, front) {
                let i = choose|i: int| 0 <= i < front.len() && beneath(p, #[trigger] front[i]);
                assert(beneath(p, paths[i]));
            }
            if beneath_any(p, paths) {
                let i = choose|i: int| 0 <= i < paths.len() && beneath(p, #[trigger] paths[i]);
                assert(beneath(p, front[i]));
            }
        }
    }
}

proof fn lemma_seen_through_one(m: MountAt, p: Seq<char>)
    ensures
        seen_through(seq![m], p) == (if beneath(p, m.1) {
            Some(m.0)
        } else {
            None
        }),
{
    reveal_with_fuel(seen_through, 2);
    assert(seq![m].drop_last() == Seq::<MountAt>::empty());
    assert(seq![m].last() == m);
}

proof fn lemma_seen_through_base(p: Seq<char>)
    ensures
        seen_through(base_mounts(), p) matches Some(kind) ==> !kind.writes_host(),
{
    reveal_with_fuel(seen_through, 5);
    let base = base_mounts();
    assert(base.drop_last().drop_last().drop_last().drop_last() == Seq::<MountAt>::empty());
}

/// What a path is seen through, decided from the last mount to the first.
proof fn lemma_seen_through_sandbox(
    policy: SandboxPolicy,
    cwd: Seq<char>,
    existing: Seq<Seq<char>>,
    runtime_dir: Option<Seq<char>>,
    p: Seq<char>,
)
    ensures
        ({
            let seen = seen_through(sandbox_mounts(policy, cwd, existing, runtime_dir), p);
            if beneath_any(p, those_existing(policy.denied(), existing)) {
                seen == Some(MountKind::ReadOnly)
            } else if policy.mode is ReadOnly {
                seen matches Some(kind) ==> !kind.writes_host()
            } else if runtime_dir is Some && existing.contains(runtime_dir->0) && beneath(
                p,
                runtime_dir->0,
            ) {
                seen == Some(MountKind::WritableIfThere)
            } else if existing.contains(cwd) && beneath(p, cwd) {
                seen == Some(MountKind::Writable)
            } else if beneath_any(p, those_existing(policy.writable(), existing)) {
                seen == Some(MountKind::Writable)
            } else {
                seen matches Some(kind) ==> !kind.writes_host()
            }
        }),
{
    let base = base_mounts();
    let writable = root_mounts(policy, cwd, existing);
    let session = session_mount(policy, existing, runtime_dir);
    let denied = denied_mounts(policy, existing);
    lemma_seen_through_base(p);
    lemma_seen_through_kind(MountKind::ReadOnly, those_existing(policy.denied(), existing), p);
    lemma_seen_through_later(base, writable, p);
    lemma_seen_through_later(base + writable, session, p);
    lemma_seen_through_later(base + writable + session, denied, p);
    if !(policy.mode is ReadOnly) {
        let roots = mounts_of(MountKind::Writable, those_existing(policy.writable(), existing));
        let here = mount_if_existing(MountKind::Writable, cwd, existing);
        lemma_seen_through_kind(MountKind::Writable, those_existing(policy.writable(), existing), p);
        lemma_seen_through_one((MountKind::Writable, cwd), p);
        if runtime_dir is Some {
            lemma_seen_through_one((MountKind::WritableIfThere, runtime_dir->0), p);
        }
        lemma_seen_through_later(roots, here, p);
    }
}

proof fn lemma_beneath_kept(p: Seq<char>, paths: Seq<Seq<char>>, existing: Seq<Seq<char>>)
    requires
        beneath_any(p, those_existing(paths, existing)),
    ensures
        beneath_any(p, paths),
{
    let kept = those_existing(paths, existing);
    let i = choose|i: int|
        0 <= i < kept.len() && lies_in(p, #[trigger] kept[i], Platform::Linux);
    law_those_existing(paths, existing, kept[i]);
    assert(kept.contains(kept[i]));
    let j = choose|j: int| 0 <= j < paths.len() && paths[j] == kept[i];
    assert(lies_in(p, paths[j], Platform::Linux));
}

proof fn lemma_kept_holds(
    p: Seq<char>,
    paths: Seq<Seq<char>>,
    existing: Seq<Seq<char>>,
    x: Seq<char>,
)
    requires
        paths.contains(x),
        existing.contains(x),
        beneath(p, x),
    ensures
        beneath_any(p, those_existing(paths, existing)),
{
    law_those_existing(paths, existing, x);
    let kept = those_existing(paths, existing);
    let i = choose|i: int| 0 <= i < kept.len() && kept[i] == x;
    assert(lies_in(p, kept[i], Platform::Linux));
}

/// Files of the host can be written only under a policy that is not read-only, and only beneath a
/// writable root, beneath the working directory, or in the directory of the user's session.
pub proof fn law_only_roots_are_writable(
    policy: SandboxPolicy,
    cwd: Seq<char>,
    existing: Seq<Seq<char>>,
    runtime_dir: Option<Seq<char>>,
    p: Seq<char>,
)
    requires
        seen_through(sandbox_mounts(policy, cwd, existing, runtime_dir), p) matches Some(kind)
            && kind.writes_host(),
    ensures
        !(policy.mode is ReadOnly),
        ({
            ||| beneath_any(p, policy.writable())
            ||| beneath(p, cwd)
            ||| runtime_dir matches Some(dir) && beneath(p, dir)
        }),
{
    lemma_seen_through_sandbox(policy, cwd, existing, runtime_dir, p);
    if beneath_any(p, those_existing(policy.writable(), existing)) {
        lemma_beneath_kept(p, policy.writable(), existing);
    }
}

/// A read-only policy lets no file of the host be written, whatever roots it names.
pub proof fn law_read_only_mounts(
    policy: SandboxPolicy,
    cwd: Seq<char>,
    existing: Seq<Seq<char>>,
    runtime_dir: Option<Seq<char>>,
    p: Seq<char>,
)
    requires
        policy.mode is ReadOnly,
    ensures
        seen_through(sandbox_mounts(policy, cwd, existing, runtime_dir), p) matches Some(kind)
            ==> !kind.writes_host(),
{
    lemma_seen_through_sandbox(policy, cwd, existing, runtime_dir, p);
}

/// The options of a read-only policy make no mount that files of the host can be written through.
pub proof fn law_read_only_has_no_writable_mount(
    policy: SandboxPolicy,
    cwd: Seq<char>,
    existing: Seq<Seq<char>>,
    runtime_dir: Option<Seq<char>>,
    i: int,
)
    requires
        policy.mode is ReadOnly,
        0 <= i < sandbox_mounts(policy, cwd, existing, runtime_dir).len(),
    ensures
        !sandbox_mounts(policy, cwd, existing, runtime_dir)[i].0.writes_host(),
{
    let base = base_mounts();
    let denied = denied_mounts(policy, existing);
    assert(sandbox_mounts(policy, cwd, existing, runtime_dir) == base + denied);
}

/// What lies beneath a denied path that exists is seen read-only, also inside a writable root or
/// the working directory.
pub proof fn law_denied_is_read_only(
    policy: SandboxPolicy,
    cwd: Seq<char>,
    existing: Seq<Seq<char>>,
    runtime_dir: Option<Seq<char>>,
    p: Seq<char>,
    denied: Seq<char>,
)
    requires
        policy.denied().contains(denied),
        existing.contains(denied),
        beneath(p, denied),
    ensures
        seen_through(sandbox_mounts(policy, cwd, existing, runtime_dir), p) == Some(
            MountKind::ReadOnly,
        ),
{
    lemma_seen_through_sandbox(policy, cwd, existing, runtime_dir, p);
    lemma_kept_holds(p, policy.denied(), existing, denied);
}

/// Unless the policy is read-only, what lies beneath a writable root that exists, and beneath no
/// denied path, can be written.
pub proof fn law_roots_can_be_written(
    policy: SandboxPolicy,
    cwd: Seq<char>,
    existing: Seq<Seq<char>>,
    runtime_dir: Option<Seq<char>>,
    p: Seq<char>,
    root: Seq<char>,
)
    requires
        !(policy.mode is ReadOnly),
        policy.writable().contains(root),
        existing.contains(root),
        beneath(p, root),
        !beneath_any(p, policy.denied()),
    ensures
        seen_through(sandbox_mounts(policy, cwd, existing, runtime_dir), p) matches Some(kind)
            && kind.writes_host(),
{
    lemma_seen_through_sandbox(policy, cwd, existing, runtime_dir, p);
    lemma_kept_holds(p, policy.writable(), existing, root);
    if beneath_any(p, those_existing(policy.denied(), existing)) {
        lemma_beneath_kept(p, policy.denied(), existing);
    }
}

/// The options are those that make the mounts of the sandbox, one after the other. Among them,
/// behind those for the roots and the working directory, stands the one that takes the network
/// away, if and only if the policy restricts the network.
pub proof fn law_network_option(
    policy: SandboxPolicy,
    cwd: Seq<char>,
    existing: Seq<Seq<char>>,
    runtime_dir: Option<Seq<char>>,
)
    ensures
        ({
            let options = bwrap_options(policy, cwd, existing, runtime_dir);
            let mounts = all_mount_options(sandbox_mounts(policy, cwd, existing, runtime_dir));
            let at = all_mount_options(base_mounts() + root_mounts(policy, cwd, existing)).len();
            if policy.network is Restricted {
                at < options.len() && options[at as int] == "--unshare-net"@ && options.remove(
                    at as int,
                ) == mounts
            } else {
                options == mounts
            }
        }),
{
    let first = base_mounts() + root_mounts(policy, cwd, existing);
    let last = session_mount(policy, existing, runtime_dir) + denied_mounts(policy, existing);
    let options = bwrap_options(policy, cwd, existing, runtime_dir);
    let at = all_mount_options(first).len() as int;
    assert(sandbox_mounts(policy, cwd, existing, runtime_dir) == first + last);
    lemma_more_mount_options(first, last);
    if policy.network is Restricted {
        assert(options.remove(at) == all_mount_options(first) + all_mount_options(last));
    } else {
        assert(options == all_mount_options(first) + all_mount_options(last));
    }
}

/// With Landlock alone, everything is granted beneath a path exactly when the policy is
/// workspace-write and the path is a writable root that exists.
pub proof fn law_landlock_grants(
    policy: SandboxPolicy,
    existing: Seq<Seq<char>>,
    root: Seq<char>,
)
    ensures
        (landlock_rules(policy, existing) matches Some(rules) && rules.contains(
            (root, Access::All, false),
        )) <==> (policy.mode is WorkspaceWrite && policy.writable().contains(root)
            && existing.contains(root)),
{
    let kept = those_existing(policy.writable(), existing);
    law_those_existing(policy.writable(), existing, root);
    if policy.mode is WorkspaceWrite {
        let rules = landlock_rules(policy, existing)->0;
        if rules.contains((root, Access::All, false)) {
            let i = choose|i: int| 0 <= i < rules.len() && rules[i] == (root, Access::All, false);
            assert(kept[i - 1] == root);
        }
        if kept.contains(root) {
            let k = choose|k: int| 0 <= k < kept.len() && kept[k] == root;
            assert(rules[k + 1] == (root, Access::All, false));
        }
    }
}

/// The options of each kind of mount: files of the host are shown at their own path.
pub proof fn law_mount_options(p: Seq<char>)
    ensures
        mount_options((MountKind::ReadOnly, p)) == seq!["--ro-bind"@, p, p],
        mount_options((MountKind::Writable, p)) == seq!["--bind"@, p, p],
        mount_options((MountKind::WritableIfThere, p)) == seq!["--bind-try"@, p, p],
        mount_options((MountKind::Devices, p)) == seq!["--dev"@, p],
        mount_options((MountKind::Processes, p)) == seq!["--proc"@, p],
        mount_options((MountKind::Temporary, p)) == seq!["--tmpfs"@, p],
{
}

/// The options of a mount stand together among those of all mounts, in the order of the mounts.
pub proof fn law_options_in_order(a: Seq<MountAt>, m: MountAt, b: Seq<MountAt>)
    ensures
        all_mount_options(a.push(m) + b) == all_mount_options(a) + mount_options(m)
            + all_mount_options(b),
{
    lemma_more_mount_options(a.push(m), b);
    assert(a.push(m).drop_last() == a);
}

/// Every sandbox starts from the whole file system read-only, with devices, processes and a
/// temporary directory of its own.
pub proof fn law_base_comes_first(
    policy: SandboxPolicy,
    cwd: Seq<char>,
    existing: Seq<Seq<char>>,
    runtime_dir: Option<Seq<char>>,
)
    ensures
        bwrap_options(policy, cwd, existing, runtime_dir).len() >= 9,
        bwrap_options(policy, cwd, existing, runtime_dir).take(9) == seq![
            "--ro-bind"@,
            "/"@,
            "/"@,
            "--dev"@,
            "/dev"@,
            "--proc"@,
            "/proc"@,
            "--tmpfs"@,
            "/tmp"@,
        ],
{
    let roots = root_mounts(policy, cwd, existing);
    let base = base_mounts();
    lemma_more_mount_options(base, roots);
    reveal_with_fuel(all_mount_options, 5);
    assert(base.drop_last().drop_last().drop_last().drop_last() == Seq::<MountAt>::empty());
    let first = all_mount_options(base);
    assert(first == seq![
        "--ro-bind"@,
        "/"@,
        "/"@,
        "--dev"@,
        "/dev"@,
        "--proc"@,
        "/proc"@,
        "--tmpfs"@,
        "/tmp"@,
    ]);
    assert(bwrap_options(policy, cwd, existing, runtime_dir).take(9) == first);
}

/// Unless the policy is read-only, the writable paths, the working directory and the directory of the
/// session are bound for writing if they exist; the denied paths are bound read-only if they exist.
/// Nothing else is mounted besides the base.
pub proof fn law_what_is_mounted(
    policy: SandboxPolicy,
    cwd: Seq<char>,
    existing: Seq<Seq<char>>,
    runtime_dir: Option<Seq<char>>,
    kind: MountKind,
    p: Seq<char>,
)
    ensures
        sandbox_mounts(policy, cwd, existing, runtime_dir).contains((kind, p)) <==> ({
            ||| kind == MountKind::ReadOnly && p == "/"@
            ||| kind == MountKind::Devices && p == "/dev"@
            ||| kind == MountKind::Processes && p == "/proc"@
            ||| kind == MountKind::Temporary && p == "/tmp"@
            ||| kind == MountKind::Writable && policy.mode != SandboxMode::ReadOnly
                && existing.contains(p) && (p == cwd || policy.writable().contains(p))
            ||| kind == MountKind::WritableIfThere && policy.mode != SandboxMode::ReadOnly
                && existing.contains(p) && runtime_dir == Some(p)
            ||| kind == MountKind::ReadOnly && existing.contains(p) && policy.denied().contains(p)
        }),
{
    let base = base_mounts();
    let roots = root_mounts(policy, cwd, existing);
    let session = session_mount(policy, existing, runtime_dir);
    let denied = denied_mounts(policy, existing);
    let all = sandbox_mounts(policy, cwd, existing, runtime_dir);
    let x = (kind, p);
    lemma_in_either(base, roots, x);
    lemma_in_either(base + roots, session, x);
    lemma_in_either(base + roots + session, denied, x);
    assert(base[0] == (MountKind::ReadOnly, "/"@));
    assert(base[1] == (MountKind::Devices, "/dev"@));
    assert(base[2] == (MountKind::Processes, "/proc"@));
    assert(base[3] == (MountKind::Temporary, "/tmp"@));
    lemma_mounts_of(MountKind::ReadOnly, policy.denied(), existing, x);
    if policy.mode is ReadOnly {
    } else {
        let w = mounts_of(MountKind::Writable, those_existing(policy.writable(), existing));
        let here = mount_if_existing(MountKind::Writable, cwd, existing);
        lemma_in_either(w, here, x);
        lemma_mounts_of(MountKind::Writable, policy.writable(), existing, x);
        if existing.contains(cwd) {
            assert(here[0] == (MountKind::Writable, cwd));
        }
        if runtime_dir is Some && existing.contains(runtime_dir->0) {
            assert(session[0] == (MountKind::WritableIfThere, runtime_dir->0));
        }
    }
}

proof fn lemma_in_either(a: Seq<MountAt>, b: Seq<MountAt>, x: MountAt)
    ensures
        (a + b).contains(x) <==> a.contains(x) || b.contains(x),
{
    let all = a + b;
    if a.contains(x) {
        let i = choose|i: int| 0 <= i < a.len() && a[i] == x;
        assert(all[i] == x);
    }
    if b.contains(x) {
        let i = choose|i: int| 0 <= i < b.len() && b[i] == x;
        assert(all[a.len() + i] == x);
    }
    if all.contains(x) {
        let i = choose|i: int| 0 <= i < all.len() && all[i] == x;
        if i < a.len() {
            assert(a[i] == x);
        } else {
            assert(b[i - a.len()] == x);
        }
    }
}

proof fn lemma_mounts_of(
    kind: MountKind,
    paths: Seq<Seq<char>>,
    existing: Seq<Seq<char>>,
    x: MountAt,
)
    ensures
        mounts_of(kind, those_existing(paths, existing)).contains(x) <==> x.0 == kind
            && paths.contains(x.1) && existing.contains(x.1),
{
    let kept = those_existing(paths, existing);
    let mounts = mounts_of(kind, kept);
    law_those_existing(paths, existing, x.1);
    if mounts.contains(x) {
        let i = choose|i: int| 0 <= i < mounts.len() && mounts[i] == x;
        assert(kept[i] == x.1);
    }
    if x.0 == kind && kept.contains(x.1) {
        let i = choose|i: int| 0 <= i < kept.len() && kept[i] == x.1;
        assert(mounts[i] == x);
    }
}

/// Without full access, everything may be read: the first rule grants that, and it must be in force.
/// In read-only mode there is no other rule. With full access there is none.
pub proof fn law_landlock_reads(policy: SandboxPolicy, existing: Seq<Seq<char>>)
    ensures
        landlock_rules(policy, existing) is None <==> policy.mode == SandboxMode::FullAccess,
        landlock_rules(policy, existing) matches Some(rules) ==> rules.len() > 0 && rules[0] == (
            "/"@,
            Access::Read,
            true,
        ),
        landlock_rules(policy, existing) matches Some(rules) ==> forall|i: int|
            0 < i < rules.len() ==> (#[trigger] rules[i]).1 == Access::All && !rules[i].2,
        policy.mode == SandboxMode::ReadOnly ==> landlock_rules(policy, existing)->0.len() == 1,
{
}

/// With bubblewrap, the command follows the options and `--`, and the directory of the session is the
/// value of `XDG_RUNTIME_DIR`.
pub proof fn law_command_follows_the_options(
    launch: Launch,
    policy: SandboxPolicy,
    command: Seq<Seq<char>>,
    cwd: Seq<char>,
    env_args: Seq<Seq<char>>,
    timeout_ms: u64,
    host: &Host,
)
    requires
        host.bwrap is Some,
        runs_confined(launch, policy, command, cwd, env_args, timeout_ms, host),
    ensures
        launch matches Launch::Direct(run) && run.program@ == host.bwrap->0@
            && run.args.deep_view() == bwrap_options(
            policy,
            cwd,
            host.existing.deep_view(),
            lookup(host.env.pairs(), "XDG_RUNTIME_DIR"@, host.platform == Platform::Windows),
        ) + seq!["--"@] + command,
{
    if let Launch::Direct(run) = launch {
        let line = run.line();
        assert(line[0] == run.program@);
        assert(line.skip(1) == run.args.deep_view());
        let options = bwrap_options(
            policy,
            cwd,
            host.existing.deep_view(),
            host.spec_var("XDG_RUNTIME_DIR"@),
        );
        let all = seq![host.bwrap->0@] + options + seq!["--"@] + command;
        assert(line == all);
        assert(all.skip(1) == options + seq!["--"@] + command);
    }
}

} // verus!
