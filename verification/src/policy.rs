//! Sandbox policy definition.

use crate::env::Pair;
use crate::host::{home_directory, variable, Host, Platform};
use crate::rules::append_all;
use crate::text::concat;
use vstd::prelude::*;

verus! {

/// Sandbox mode determining the level of filesystem restriction.
#[derive(Debug, Clone, Copy, PartialEq, Eq, Structural)]
pub enum SandboxMode {
    /// Only allow writes to project directory and temp directories.
    WorkspaceWrite,
    /// No writes allowed at all (read-only access).
    ReadOnly,
    /// No restrictions: run without sandboxing.
    FullAccess,
}

impl Default for SandboxMode {
    fn default() -> (r: Self)
        ensures
            r == SandboxMode::WorkspaceWrite,
    {
        SandboxMode::WorkspaceWrite
    }
}

/// Network access policy.
#[derive(Debug, Clone, Copy, PartialEq, Eq, Structural)]
pub enum NetworkPolicy {
    /// Network access is blocked.
    Restricted,
    /// Network access is allowed.
    Enabled,
}

impl Default for NetworkPolicy {
    fn default() -> (r: Self)
        ensures
            r == NetworkPolicy::Restricted,
    {
        NetworkPolicy::Restricted
    }
}

/// Sandbox policy describing filesystem and network restrictions.
#[derive(Debug)]
pub struct SandboxPolicy {
    /// Sandbox mode.
    pub mode: SandboxMode,
    /// Directories that are writable (project dir, worktree, tmp).
    pub writable_roots: Vec<String>,
    /// Additional writable paths from user configuration.
    pub extra_writable_roots: Vec<String>,
    /// Paths that are explicitly denied for writing (Desktop, Documents, etc.).
    pub denied_write_paths: Vec<String>,
    /// Network access policy.
    pub network: NetworkPolicy,
}

/// The value of a variable, as a list of at most one path.
pub open spec fn path_of_variable(env: Seq<Pair>, name: Seq<char>, platform: Platform) -> Seq<
    Seq<char>,
> {
    match variable(env, name, platform) {
        Some(v) => seq![v],
        None => Seq::empty(),
    }
}

/// The temporary directories that the environment names.
pub open spec fn temp_directories(env: Seq<Pair>, platform: Platform) -> Seq<Seq<char>> {
    path_of_variable(env, "TEMP"@, platform) + path_of_variable(env, "TMP"@, platform)
        + path_of_variable(env, "TMPDIR"@, platform)
}

/// The personal directories in the home directory `home`.
pub open spec fn personal_directories(home: Seq<char>) -> Seq<Seq<char>> {
    let base = home + "/"@;
    seq![
        base + "Desktop"@,
        base + "Documents"@,
        base + "Downloads"@,
        base + "Pictures"@,
        base + "Music"@,
        base + "Videos"@,
    ]
}

/// The personal directories of the user; none if the home directory is unknown or empty.
pub open spec fn sensitive_directories(env: Seq<Pair>, platform: Platform) -> Seq<Seq<char>> {
    match home_directory(env, platform) {
        Some(home) => if home.len() == 0 {
            Seq::empty()
        } else {
            personal_directories(home)
        },
        None => Seq::empty(),
    }
}

/// Those of `paths` that are among `existing`.
pub open spec fn those_existing(paths: Seq<Seq<char>>, existing: Seq<Seq<char>>) -> Seq<Seq<char>>
    decreases paths.len(),
{
    if paths.len() == 0 {
        paths
    } else if existing.contains(paths.last()) {
        those_existing(paths.drop_last(), existing).push(paths.last())
    } else {
        those_existing(paths.drop_last(), existing)
    }
}

/// The paths that exist are those of the list that do, in their order: none is lost and none is
/// added.
pub proof fn law_those_existing(paths: Seq<Seq<char>>, existing: Seq<Seq<char>>, p: Seq<char>)
    ensures
        those_existing(paths, existing).contains(p) <==> paths.contains(p) && existing.contains(p),
    decreases paths.len(),
{
    if paths.len() > 0 {
        let front = paths.drop_last();
        law_those_existing(front, existing, p);
        let r = those_existing(front, existing);
        assert(paths == front.push(paths.last()));
        if paths.contains(p) {
            let i = choose|i: int| 0 <= i < paths.len() && paths[i] == p;
            if i < front.len() {
                assert(front[i] == p);
            }
        }
        if front.contains(p) {
            let i = choose|i: int| 0 <= i < front.len() && front[i] == p;
            assert(paths[i] == p);
        }
        assert(paths[paths.len() - 1] == paths.last());
        if existing.contains(paths.last()) {
            let t = r.push(paths.last());
            if r.contains(p) {
                let i = choose|i: int| 0 <= i < r.len() && r[i] == p;
                assert(t[i] == p);
            }
            assert(t[r.len() as int] == paths.last());
            if t.contains(p) {
                let i = choose|i: int| 0 <= i < t.len() && t[i] == p;
                if i < r.len() {
                    assert(r[i] == p);
                }
            }
        }
    }
}

/// Keeps the paths that exist.
pub fn keep_existing(paths: &Vec<String>, host: &Host) -> (r: Vec<String>)
    ensures
        r.deep_view() == those_existing(paths.deep_view(), host.existing.deep_view()),
{
    let ghost all = paths.deep_view();
    let n: usize = paths.len();
    let mut r: Vec<String> = Vec::new();
    assert(r.deep_view() == all.take(0));
    for i in 0..n
        invariant
            n == paths@.len(),
            all == paths.deep_view(),
            r.deep_view() == those_existing(all.take(i as int), host.existing.deep_view()),
    {
        assert(all.take(i + 1).drop_last() == all.take(i as int));
        assert(all.take(i + 1).last() == paths@[i as int]@);
        let ghost before = r.deep_view();
        if host.path_exists(paths[i].as_str()) {
            r.push(paths[i].clone());
            assert(r.deep_view() == before.push(paths@[i as int]@));
        }
    }
    assert(all.take(n as int) == all);
    r
}

/// Puts the value of a variable, if it is set, at the end of the list.
pub fn add_variable(list: &mut Vec<String>, name: &str, host: &Host)
    ensures
        final(list).deep_view() == old(list).deep_view() + path_of_variable(
            host.env.pairs(),
            name@,
            host.platform,
        ),
{
    let ghost before = list.deep_view();
    match host.var(name) {
        Some(v) => {
            let ghost y = v@;
            list.push(v);
            assert(list.deep_view() == before + seq![y]);
        },
        None => {
            assert(list.deep_view() == before + Seq::<Seq<char>>::empty());
        },
    }
}

/// Lists the temporary directories that the environment names.
pub fn list_temp_directories(host: &Host) -> (r: Vec<String>)
    ensures
        r.deep_view() == temp_directories(host.env.pairs(), host.platform),
{
    let mut r: Vec<String> = Vec::new();
    add_variable(&mut r, "TEMP", host);
    assert(r.deep_view() == path_of_variable(host.env.pairs(), "TEMP"@, host.platform));
    add_variable(&mut r, "TMP", host);
    add_variable(&mut r, "TMPDIR", host);
    r
}

/// Lists the personal directories in the home directory `home`.
pub fn list_personal_directories(home: &str) -> (r: Vec<String>)
    ensures
        r.deep_view() == personal_directories(home@),
{
    let base = concat(home, "/");
    let base = base.as_str();
    let r: Vec<String> = vec![
        concat(base, "Desktop"),
        concat(base, "Documents"),
        concat(base, "Downloads"),
        concat(base, "Pictures"),
        concat(base, "Music"),
        concat(base, "Videos"),
    ];
    assert(r.deep_view() == personal_directories(home@));
    r
}

/// Lists the personal directories of the user.
pub fn list_sensitive_directories(host: &Host) -> (r: Vec<String>)
    ensures
        r.deep_view() == sensitive_directories(host.env.pairs(), host.platform),
{
    match host.home() {
        Some(home) => if home.as_str().is_empty() {
            let r: Vec<String> = Vec::new();
            assert(r.deep_view() == Seq::<Seq<char>>::empty());
            r
        } else {
            list_personal_directories(home.as_str())
        },
        None => {
            let r: Vec<String> = Vec::new();
            assert(r.deep_view() == Seq::<Seq<char>>::empty());
            r
        },
    }
}

impl Clone for SandboxPolicy {
    fn clone(&self) -> (r: Self)
        ensures
            r.mode == self.mode,
            r.writable_roots@ == self.writable_roots@,
            r.extra_writable_roots@ == self.extra_writable_roots@,
            r.denied_write_paths@ == self.denied_write_paths@,
            r.network == self.network,
    {
        let r = SandboxPolicy {
            mode: self.mode,
            writable_roots: self.writable_roots.clone(),
            extra_writable_roots: self.extra_writable_roots.clone(),
            denied_write_paths: self.denied_write_paths.clone(),
            network: self.network,
        };
        assert(r.writable_roots@ == self.writable_roots@);
        assert(r.extra_writable_roots@ == self.extra_writable_roots@);
        assert(r.denied_write_paths@ == self.denied_write_paths@);
        r
    }
}

impl SandboxPolicy {
    /// The paths under which writing may be allowed.
    pub open spec fn writable(&self) -> Seq<Seq<char>> {
        self.writable_roots.deep_view() + self.extra_writable_roots.deep_view()
    }

    /// The paths under which writing is denied.
    pub open spec fn denied(&self) -> Seq<Seq<char>> {
        self.denied_write_paths.deep_view()
    }

    /// Whether this is the policy that a workspace starts with.
    pub open spec fn is_default_workspace(&self, dir: Seq<char>, host: &Host) -> bool {
        &&& self.mode == SandboxMode::WorkspaceWrite
        &&& self.writable() == seq![dir] + those_existing(
            temp_directories(host.env.pairs(), host.platform),
            host.existing.deep_view(),
        )
        &&& self.denied() == those_existing(
            sensitive_directories(host.env.pairs(), host.platform),
            host.existing.deep_view(),
        )
        &&& self.network == NetworkPolicy::Restricted
    }

    /// Whether this is the policy that allows no writing.
    pub open spec fn is_default_read_only(&self) -> bool {
        &&& self.mode == SandboxMode::ReadOnly
        &&& self.writable().len() == 0
        &&& self.denied().len() == 0
        &&& self.network == NetworkPolicy::Restricted
    }

    /// Whether this is the policy that restricts nothing.
    pub open spec fn is_default_full_access(&self) -> bool {
        &&& self.mode == SandboxMode::FullAccess
        &&& self.writable().len() == 0
        &&& self.denied().len() == 0
        &&& self.network == NetworkPolicy::Enabled
    }

    /// Create a workspace-write policy for the given project directory.
    pub fn new_workspace_write(workspace_dir: String, host: &Host) -> (r: Self)
        ensures
            r.is_default_workspace(workspace_dir@, host),
            r.mode == SandboxMode::WorkspaceWrite,
            r.writable_roots.deep_view() == seq![workspace_dir@] + those_existing(
                temp_directories(host.env.pairs(), host.platform),
                host.existing.deep_view(),
            ),
            r.extra_writable_roots.deep_view() == Seq::<Seq<char>>::empty(),
            r.denied_write_paths.deep_view() == those_existing(
                sensitive_directories(host.env.pairs(), host.platform),
                host.existing.deep_view(),
            ),
            r.network == NetworkPolicy::Restricted,
    {
        let mut writable_roots: Vec<String> = Vec::new();
        let ghost dir = workspace_dir@;
        writable_roots.push(workspace_dir);
        assert(writable_roots.deep_view() == seq![dir]);
        let temp = keep_existing(&list_temp_directories(host), host);
        append_all(&mut writable_roots, &temp);
        let extra: Vec<String> = Vec::new();
        assert(extra.deep_view() == Seq::<Seq<char>>::empty());
        let r = SandboxPolicy {
            mode: SandboxMode::WorkspaceWrite,
            writable_roots,
            extra_writable_roots: extra,
            denied_write_paths: Self::default_denied_paths(host),
            network: NetworkPolicy::Restricted,
        };
        assert(r.writable() == r.writable_roots.deep_view());
        r
    }

    /// Create a read-only policy.
    pub fn new_read_only() -> (r: Self)
        ensures
            r.is_default_read_only(),
            r.mode == SandboxMode::ReadOnly,
            r.writable_roots@ == Seq::<String>::empty(),
            r.extra_writable_roots@ == Seq::<String>::empty(),
            r.denied_write_paths@ == Seq::<String>::empty(),
            r.network == NetworkPolicy::Restricted,
    {
        SandboxPolicy {
            mode: SandboxMode::ReadOnly,
            writable_roots: Vec::new(),
            extra_writable_roots: Vec::new(),
            denied_write_paths: Vec::new(),
            network: NetworkPolicy::Restricted,
        }
    }

    /// Create a full-access policy (no sandboxing).
    pub fn new_full_access() -> (r: Self)
        ensures
            r.is_default_full_access(),
            r.mode == SandboxMode::FullAccess,
            r.writable_roots@ == Seq::<String>::empty(),
            r.extra_writable_roots@ == Seq::<String>::empty(),
            r.denied_write_paths@ == Seq::<String>::empty(),
            r.network == NetworkPolicy::Enabled,
    {
        SandboxPolicy {
            mode: SandboxMode::FullAccess,
            writable_roots: Vec::new(),
            extra_writable_roots: Vec::new(),
            denied_write_paths: Vec::new(),
            network: NetworkPolicy::Enabled,
        }
    }

    /// Returns all writable paths (roots + extra).
    pub fn all_writable_paths(&self) -> (r: Vec<&String>)
        ensures
            r.deep_view() == self.writable(),
    {
        let ghost all = self.writable();
        let n: usize = self.writable_roots.len();
        let m: usize = self.extra_writable_roots.len();
        let mut r: Vec<&String> = Vec::new();
        for i in 0..n
            invariant
                n == self.writable_roots@.len(),
                all == self.writable(),
                r.deep_view() == all.take(i as int),
        {
            let ghost before = r.deep_view();
            r.push(&self.writable_roots[i]);
            assert(r.deep_view() == before.push(all[i as int]));
        }
        for i in 0..m
            invariant
                n == self.writable_roots@.len(),
                m == self.extra_writable_roots@.len(),
                all == self.writable(),
                r.deep_view() == all.take(n + i),
        {
            let ghost before = r.deep_view();
            r.push(&self.extra_writable_roots[i]);
            assert(r.deep_view() == before.push(all[n + i]));
        }
        assert(all.take(n + m) == all);
        r
    }

    /// Default denied paths: Desktop, Documents, Downloads, Pictures, Music, Videos, as far as they
    /// exist in the home directory.
    pub fn default_denied_paths(host: &Host) -> (r: Vec<String>)
        ensures
            r.deep_view() == those_existing(
                sensitive_directories(host.env.pairs(), host.platform),
                host.existing.deep_view(),
            ),
    {
        keep_existing(&list_sensitive_directories(host), host)
    }
}

pub proof fn lemma_personal_directories(home: Seq<char>, d: Seq<char>)
    ensures
        personal_directories(home).contains(d) <==> ({
            ||| d == home + "/Desktop"@
            ||| d == home + "/Documents"@
            ||| d == home + "/Downloads"@
            ||| d == home + "/Pictures"@
            ||| d == home + "/Music"@
            ||| d == home + "/Videos"@
        }),
{
    reveal_strlit("/");
    reveal_strlit("Desktop");
    reveal_strlit("/Desktop");
    reveal_strlit("Documents");
    reveal_strlit("/Documents");
    reveal_strlit("Downloads");
    reveal_strlit("/Downloads");
    reveal_strlit("Pictures");
    reveal_strlit("/Pictures");
    reveal_strlit("Music");
    reveal_strlit("/Music");
    reveal_strlit("Videos");
    reveal_strlit("/Videos");
    assert(home + "/"@ + "Desktop"@ == home + "/Desktop"@);
    assert(home + "/"@ + "Documents"@ == home + "/Documents"@);
    assert(home + "/"@ + "Downloads"@ == home + "/Downloads"@);
    assert(home + "/"@ + "Pictures"@ == home + "/Pictures"@);
    assert(home + "/"@ + "Music"@ == home + "/Music"@);
    assert(home + "/"@ + "Videos"@ == home + "/Videos"@);
    let all = personal_directories(home);
    assert(all[0] == home + "/Desktop"@);
    assert(all[1] == home + "/Documents"@);
    assert(all[2] == home + "/Downloads"@);
    assert(all[3] == home + "/Pictures"@);
    assert(all[4] == home + "/Music"@);
    assert(all[5] == home + "/Videos"@);
}

/// Where the home directory is known and not empty, the default denied paths are these directories in
/// it, as far as they exist, and no others.
pub proof fn law_default_denied_paths(
    env: Seq<Pair>,
    platform: Platform,
    existing: Seq<Seq<char>>,
    home: Seq<char>,
    d: Seq<char>,
)
    requires
        home_directory(env, platform) == Some(home),
        home.len() > 0,
    ensures
        those_existing(sensitive_directories(env, platform), existing).contains(d) <==> ({
            &&& existing.contains(d)
            &&& {
                ||| d == home + "/Desktop"@
                ||| d == home + "/Documents"@
                ||| d == home + "/Downloads"@
                ||| d == home + "/Pictures"@
                ||| d == home + "/Music"@
                ||| d == home + "/Videos"@
            }
        }),
{
    lemma_personal_directories(home, d);
    law_those_existing(sensitive_directories(env, platform), existing, d);
}

/// Without a home directory, or with an empty one, nothing is denied by default.
pub proof fn law_no_home_denies_nothing(
    env: Seq<Pair>,
    platform: Platform,
    existing: Seq<Seq<char>>,
)
    requires
        home_directory(env, platform) matches Some(home) ==> home.len() == 0,
    ensures
        those_existing(sensitive_directories(env, platform), existing).len() == 0,
{
}

/// The values of `TEMP`, `TMP` and `TMPDIR` are the temporary directories, and no others are.
pub proof fn law_temporary_directories(
    env: Seq<Pair>,
    platform: Platform,
    existing: Seq<Seq<char>>,
    d: Seq<char>,
)
    ensures
        those_existing(temp_directories(env, platform), existing).contains(d) <==> ({
            &&& existing.contains(d)
            &&& {
                ||| variable(env, "TEMP"@, platform) == Some(d)
                ||| variable(env, "TMP"@, platform) == Some(d)
                ||| variable(env, "TMPDIR"@, platform) == Some(d)
            }
        }),
{
    let a = path_of_variable(env, "TEMP"@, platform);
    let b = path_of_variable(env, "TMP"@, platform);
    let c = path_of_variable(env, "TMPDIR"@, platform);
    let all = temp_directories(env, platform);
    law_those_existing(all, existing, d);
    assert(all == a + b + c);
    if variable(env, "TEMP"@, platform) == Some(d) {
        assert(all[0] == d);
    }
    if variable(env, "TMP"@, platform) == Some(d) {
        assert(all[a.len() as int] == d);
    }
    if variable(env, "TMPDIR"@, platform) == Some(d) {
        assert(all[(a.len() + b.len()) as int] == d);
    }
    if all.contains(d) {
        let i = choose|i: int| 0 <= i < all.len() && all[i] == d;
        if i < a.len() {
            assert(a[i] == d);
        } else if i < a.len() + b.len() {
            assert(b[i - a.len()] == d);
        } else {
            assert(c[i - a.len() - b.len()] == d);
        }
    }
}

/// The writable paths are the roots and the extra roots, the denied paths are those denied.
pub proof fn law_paths_of_policy(policy: SandboxPolicy, p: Seq<char>)
    ensures
        policy.writable().contains(p) <==> policy.writable_roots.deep_view().contains(p)
            || policy.extra_writable_roots.deep_view().contains(p),
        policy.denied().contains(p) <==> exists|i: int|
            0 <= i < policy.denied_write_paths@.len() && (#[trigger] policy.denied_write_paths@[i])@
                == p,
{
    let a = policy.writable_roots.deep_view();
    let b = policy.extra_writable_roots.deep_view();
    let all = policy.writable();
    if a.contains(p) {
        let i = choose|i: int| 0 <= i < a.len() && a[i] == p;
        assert(all[i] == p);
    }
    if b.contains(p) {
        let i = choose|i: int| 0 <= i < b.len() && b[i] == p;
        assert(all[a.len() + i] == p);
    }
    if all.contains(p) {
        let i = choose|i: int| 0 <= i < all.len() && all[i] == p;
        if i < a.len() {
            assert(a[i] == p);
        } else {
            assert(b[i - a.len()] == p);
        }
    }
    if policy.denied().contains(p) {
        let i = choose|i: int| 0 <= i < policy.denied().len() && policy.denied()[i] == p;
        assert(policy.denied_write_paths@[i]@ == p);
    }
    if exists|i: int|
        0 <= i < policy.denied_write_paths@.len() && (#[trigger] policy.denied_write_paths@[i])@
            == p {
        let i = choose|i: int|
            0 <= i < policy.denied_write_paths@.len() && (#[trigger] policy.denied_write_paths@[i])@
                == p;
        assert(policy.denied()[i] == p);
    }
}

} // verus!
