//! macOS sandbox: a Seatbelt policy for `sandbox-exec`.
//!
//! - workspace-write: allow file-write* to writable roots, deny it to denied paths and elsewhere
//! - read-only: allow file-read* only, deny all file-write*
//! - full-access: no sandbox (handled by the caller)

use crate::common::{copy_from, parse_env, runs_as_given, Invocation};
use crate::env::{pairs_view, Pair};
use crate::guard::{lies_in, lies_in_any};
use crate::host::{Host, Platform};
use crate::paths::{is_absolute, is_absolute_path, join_path, joined_path, law_joined_is_absolute,
    path_prefix};
use crate::policy::{NetworkPolicy, SandboxMode, SandboxPolicy};
use crate::rules::append_all;
use crate::text::{concat, decimal, digit, join, joined, law_joined, to_decimal};
use vstd::prelude::*;

verus! {

/// The path of `sandbox-exec`, fixed so that no search path can point elsewhere.
pub const MACOS_PATH_TO_SEATBELT_EXECUTABLE: &'static str = "/usr/bin/sandbox-exec";

/// The section that allows reading the entire file system.
pub const READ_SECTION: &'static str = "; allow read-only file operations\n(allow file-read*)";

/// The section that allows writing everywhere.
pub const WRITE_ANYWHERE_SECTION: &'static str = r#"(allow file-write* (regex #"^/"))"#;

/// What stands before the further network rules.
pub const NETWORK_SECTION: &'static str = "(allow network-outbound)\n(allow network-inbound)\n";

/// The form of a path that rules can name: its canonical form, or the path itself if it has none
/// and is absolute.
pub open spec fn rule_path(host: &Host, p: Seq<char>) -> Option<Seq<char>> {
    match host.canonical_form(p) {
        Some(c) => Some(c),
        None => if is_absolute_path(p, Platform::MacOs) {
            Some(p)
        } else {
            None
        },
    }
}

/// The paths in the form that rules can name, without those that have none.
pub open spec fn rule_paths(host: &Host, paths: Seq<Seq<char>>) -> Seq<Seq<char>>
    decreases paths.len(),
{
    if paths.len() == 0 {
        Seq::empty()
    } else {
        let before = rule_paths(host, paths.drop_last());
        match rule_path(host, paths.last()) {
            Some(p) => before.push(p),
            None => before,
        }
    }
}

/// The paths that a policy lets a command write beneath: with workspace-write, the working
/// directory and the writable paths.
pub open spec fn written_paths(policy: SandboxPolicy, cwd: Seq<char>, host: &Host) -> Seq<
    Seq<char>,
> {
    if policy.mode is WorkspaceWrite {
        rule_paths(host, seq![cwd] + policy.writable())
    } else {
        Seq::empty()
    }
}

/// The form in which rules name a denied path: the form of the path itself if it has one, and
/// otherwise the path as it is meant in the working directory.
pub open spec fn denied_form(host: &Host, cwd: Seq<char>, p: Seq<char>) -> Seq<char> {
    match rule_path(host, p) {
        Some(c) => c,
        None => joined_path(
            match rule_path(host, cwd) {
                Some(c) => c,
                None => cwd,
            },
            p,
            Platform::MacOs,
        ),
    }
}

/// The paths that a policy keeps a command from writing beneath, although they may lie beneath a
/// path that it may write: with workspace-write, the denied paths.
pub open spec fn denied_paths(policy: SandboxPolicy, cwd: Seq<char>, host: &Host) -> Seq<
    Seq<char>,
> {
    if policy.mode is WorkspaceWrite {
        policy.denied().map_values(|p: Seq<char>| denied_form(host, cwd, p))
    } else {
        Seq::empty()
    }
}

/// What the names of the parameters for writable paths begin with.
pub const WRITABLE: &'static str = "WRITABLE_ROOT_";

/// What the names of the parameters for denied paths begin with.
pub const DENIED: &'static str = "DENIED_PATH_";

/// The name of the parameter with the given number.
pub open spec fn parameter(start: Seq<char>, n: nat) -> Seq<char> {
    start + decimal(n)
}

/// The parameters for the paths, each with the path it stands for.
pub open spec fn parameters(start: Seq<char>, paths: Seq<Seq<char>>) -> Seq<Pair> {
    Seq::new(paths.len(), |i: int| (parameter(start, i as nat), paths[i]))
}

/// All parameters of a policy: those for the writable paths, then those for the denied ones.
pub open spec fn all_parameters(policy: SandboxPolicy, cwd: Seq<char>, host: &Host) -> Seq<Pair> {
    parameters(WRITABLE@, written_paths(policy, cwd, host)) + parameters(
        DENIED@,
        denied_paths(policy, cwd, host),
    )
}

/// The rule entry for the path that the parameter with the given number stands for.
pub open spec fn entry(start: Seq<char>, n: nat) -> Seq<char> {
    "(subpath (param \""@ + parameter(start, n) + "\"))"@
}

/// The rule entries for `n` paths.
pub open spec fn entries(start: Seq<char>, n: nat) -> Seq<Seq<char>> {
    Seq::new(n, |i: int| entry(start, i as nat))
}

/// The rule that begins with `head` and is about `n` paths; empty if there is none.
pub open spec fn path_rule(head: Seq<char>, start: Seq<char>, n: nat) -> Seq<char> {
    if n == 0 {
        Seq::empty()
    } else {
        head + joined(entries(start, n), "\n"@) + "\n)"@
    }
}

/// How the rule that allows writing begins.
pub const ALLOW_WRITE: &'static str = "(allow file-write*\n";

/// How the rule that denies writing begins. It follows the rule that allows writing, and of two
/// rules the later one holds.
pub const DENY_WRITE: &'static str = "\n(deny file-write*\n";

/// The section on writing.
pub open spec fn write_section(policy: SandboxPolicy, cwd: Seq<char>, host: &Host) -> Seq<char> {
    match policy.mode {
        SandboxMode::WorkspaceWrite => path_rule(
            ALLOW_WRITE@,
            WRITABLE@,
            written_paths(policy, cwd, host).len(),
        ) + path_rule(DENY_WRITE@, DENIED@, denied_paths(policy, cwd, host).len()),
        SandboxMode::ReadOnly => Seq::empty(),
        SandboxMode::FullAccess => WRITE_ANYWHERE_SECTION@,
    }
}

/// The section on the network; empty where the policy restricts it.
pub open spec fn network_section(network: NetworkPolicy, rules: Seq<char>) -> Seq<char> {
    match network {
        NetworkPolicy::Enabled => NETWORK_SECTION@ + rules,
        NetworkPolicy::Restricted => Seq::empty(),
    }
}

/// The Seatbelt policy.
pub open spec fn seatbelt_policy(policy: SandboxPolicy, cwd: Seq<char>, host: &Host) -> Seq<char> {
    joined(
        seq![
            host.seatbelt_base@,
            READ_SECTION@,
            write_section(policy, cwd, host),
            network_section(policy.network, host.seatbelt_network@),
        ],
        "\n"@,
    )
}

/// The option that gives a parameter its value.
pub open spec fn definition(p: Pair) -> Seq<char> {
    "-D"@ + p.0 + "="@ + p.1
}

/// The arguments of `sandbox-exec`.
pub open spec fn seatbelt_args(
    policy: SandboxPolicy,
    command: Seq<Seq<char>>,
    cwd: Seq<char>,
    host: &Host,
) -> Seq<Seq<char>> {
    seq!["-p"@, seatbelt_policy(policy, cwd, host)] + all_parameters(
        policy,
        cwd,
        host,
    ).map_values(|p: Pair| definition(p)) + seq!["--"@] + command
}

/// Finds the form of a path that rules can name.
pub fn canonicalize_path(p: &str, host: &Host) -> (r: Option<String>)
    ensures
        match r {
            Some(c) => rule_path(host, p@) == Some(c@),
            None => rule_path(host, p@) is None,
        },
{
    match host.canonicalized(p) {
        Some(c) => Some(c),
        None => if is_absolute(p, Platform::MacOs) {
            Some(p.to_owned())
        } else {
            None
        },
    }
}

fn list_written_paths(policy: &SandboxPolicy, cwd: &str, host: &Host) -> (r: Vec<String>)
    ensures
        policy.mode is WorkspaceWrite ==> r.deep_view() == written_paths(*policy, cwd@, host),
{
    let ghost all = seq![cwd@] + policy.writable();
    let roots = policy.all_writable_paths();
    let n: usize = roots.len();
    let mut r: Vec<String> = Vec::new();
    proof {
        reveal_with_fuel(rule_paths, 2);
        assert(all.take(1).drop_last() == Seq::<Seq<char>>::empty());
        assert(all.take(1).last() == cwd@);
    }
    match canonicalize_path(cwd, host) {
        Some(p) => {
            let ghost y = p@;
            r.push(p);
            assert(r.deep_view() == Seq::<Seq<char>>::empty().push(y));
        },
        None => {
            assert(r.deep_view() == Seq::<Seq<char>>::empty());
        },
    }
    assert(r.deep_view() == rule_paths(host, all.take(1)));
    for i in 0..n
        invariant
            n == roots@.len(),
            roots.deep_view() == policy.writable(),
            all == seq![cwd@] + policy.writable(),
            r.deep_view() == rule_paths(host, all.take(i + 1)),
    {
        assert(all.take(i + 2).drop_last() == all.take(i + 1));
        assert(roots.deep_view()[i as int] == roots@[i as int]@);
        assert(all.take(i + 2).last() == roots@[i as int]@);
        let ghost before = r.deep_view();
        match canonicalize_path(roots[i].as_str(), host) {
            Some(p) => {
                let ghost y = p@;
                r.push(p);
                assert(r.deep_view() == before.push(y));
            },
            None => {},
        }
    }
    assert(all.take(n + 1) == all);
    r
}

fn make_denied_form(p: &str, cwd: &str, host: &Host) -> (r: String)
    ensures
        r@ == denied_form(host, cwd@, p@),
{
    match canonicalize_path(p, host) {
        Some(c) => c,
        None => match canonicalize_path(cwd, host) {
            Some(c) => join_path(c.as_str(), p, Platform::MacOs),
            None => join_path(cwd, p, Platform::MacOs),
        },
    }
}

fn list_denied_paths(policy: &SandboxPolicy, cwd: &str, host: &Host) -> (r: Vec<String>)
    ensures
        policy.mode is WorkspaceWrite ==> r.deep_view() == denied_paths(*policy, cwd@, host),
{
    let ghost all = policy.denied().map_values(|p: Seq<char>| denied_form(host, cwd@, p));
    let n: usize = policy.denied_write_paths.len();
    let mut r: Vec<String> = Vec::new();
    for i in 0..n
        invariant
            n == policy.denied_write_paths@.len(),
            all == policy.denied().map_values(|p: Seq<char>| denied_form(host, cwd@, p)),
            r.deep_view() == all.take(i as int),
    {
        let ghost before = r.deep_view();
        let p = make_denied_form(policy.denied_write_paths[i].as_str(), cwd, host);
        assert(p@ == all[i as int]);
        r.push(p);
        assert(r.deep_view() == before.push(all[i as int]));
    }
    assert(all.take(n as int) == all);
    r
}

fn make_parameter(start: &str, n: usize) -> (r: String)
    ensures
        r@ == parameter(start@, n as nat),
{
    concat(start, to_decimal(n).as_str())
}

fn add_parameters(list: &mut Vec<(String, String)>, start: &str, paths: &Vec<String>)
    ensures
        pairs_view(final(list)@) == pairs_view(old(list)@) + parameters(
            start@,
            paths.deep_view(),
        ),
{
    let ghost first = pairs_view(list@);
    let ghost all = parameters(start@, paths.deep_view());
    let n: usize = paths.len();
    assert(pairs_view(list@) == first + all.take(0));
    for i in 0..n
        invariant
            n == paths@.len(),
            all == parameters(start@, paths.deep_view()),
            pairs_view(list@) == first + all.take(i as int),
    {
        let ghost before = pairs_view(list@);
        list.push((make_parameter(start, i), paths[i].clone()));
        assert(pairs_view(list@) == before.push(all[i as int]));
        assert(first + all.take(i + 1) == before.push(all[i as int]));
    }
    assert(all.take(n as int) == all);
}

fn make_path_rule(head: &str, start: &str, n: usize) -> (r: String)
    ensures
        r@ == path_rule(head@, start@, n as nat),
{
    if n == 0 {
        return String::new();
    }
    let ghost all = entries(start@, n as nat);
    let mut list: Vec<String> = Vec::new();
    for i in 0..n
        invariant
            all == entries(start@, n as nat),
            list.deep_view() == all.take(i as int),
    {
        let ghost before = list.deep_view();
        let e = concat(
            concat("(subpath (param \"", make_parameter(start, i).as_str()).as_str(),
            "\"))",
        );
        list.push(e);
        assert(list.deep_view() == before.push(all[i as int]));
    }
    assert(all.take(n as int) == all);
    let body = join(&list, "\n");
    concat(concat(head, body.as_str()).as_str(), "\n)")
}

/// Generates the Seatbelt policy, and the parameters that it uses.
pub fn generate_seatbelt_policy(policy: &SandboxPolicy, cwd: &str, host: &Host) -> (r: (
    String,
    Vec<(String, String)>,
))
    ensures
        r.0@ == seatbelt_policy(*policy, cwd@, host),
        pairs_view(r.1@) == all_parameters(*policy, cwd@, host),
{
    let mut written: Vec<String> = Vec::new();
    let mut denied: Vec<String> = Vec::new();
    if policy.mode == SandboxMode::WorkspaceWrite {
        written = list_written_paths(policy, cwd, host);
        denied = list_denied_paths(policy, cwd, host);
    }
    assert(written.deep_view() == written_paths(*policy, cwd@, host));
    assert(denied.deep_view() == denied_paths(*policy, cwd@, host));
    let write = match policy.mode {
        SandboxMode::WorkspaceWrite => {
            let allow = make_path_rule(ALLOW_WRITE, WRITABLE, written.len());
            let deny = make_path_rule(DENY_WRITE, DENIED, denied.len());
            concat(allow.as_str(), deny.as_str())
        },
        SandboxMode::ReadOnly => String::new(),
        SandboxMode::FullAccess => WRITE_ANYWHERE_SECTION.to_owned(),
    };
    let network = match policy.network {
        NetworkPolicy::Enabled => concat(NETWORK_SECTION, host.seatbelt_network.as_str()),
        NetworkPolicy::Restricted => String::new(),
    };
    let sections: Vec<String> = vec![
        host.seatbelt_base.clone(),
        READ_SECTION.to_owned(),
        write,
        network,
    ];
    assert(sections.deep_view() == seq![
        host.seatbelt_base@,
        READ_SECTION@,
        write_section(*policy, cwd@, host),
        network_section(policy.network, host.seatbelt_network@),
    ]);
    let mut params: Vec<(String, String)> = Vec::new();
    add_parameters(&mut params, WRITABLE, &written);
    assert(pairs_view(params@) == parameters(WRITABLE@, written.deep_view()));
    add_parameters(&mut params, DENIED, &denied);
    (join(&sections, "\n"), params)
}

/// Says how to run a command under `sandbox-exec`.
pub fn run_sandboxed(
    policy: SandboxPolicy,
    command: &[String],
    cwd: &str,
    env_args: &[String],
    timeout_ms: u64,
    host: &Host,
) -> (r: Invocation)
    ensures
        runs_as_given(
            r,
            seq![MACOS_PATH_TO_SEATBELT_EXECUTABLE@] + seatbelt_args(
                policy,
                command.deep_view(),
                cwd@,
                host,
            ),
            cwd@,
            env_args.deep_view(),
            timeout_ms,
        ),
{
    let (text, params) = generate_seatbelt_policy(&policy, cwd, host);
    let ghost head = seq!["-p"@, text@];
    let ghost defined = all_parameters(policy, cwd@, host).map_values(|p: Pair| definition(p));
    let mut args: Vec<String> = Vec::new();
    args.push("-p".to_owned());
    args.push(text);
    assert(args.deep_view() == head);
    let n: usize = params.len();
    assert(args.deep_view() == head + defined.take(0));
    for i in 0..n
        invariant
            n == params@.len(),
            defined == pairs_view(params@).map_values(|p: Pair| definition(p)),
            args.deep_view() == head + defined.take(i as int),
    {
        let ghost before = args.deep_view();
        let d = concat(
            concat(concat("-D", params[i].0.as_str()).as_str(), "=").as_str(),
            params[i].1.as_str(),
        );
        assert(d@ == defined[i as int]);
        args.push(d);
        assert(args.deep_view() == before.push(defined[i as int]));
        assert(head + defined.take(i + 1) == before.push(defined[i as int]));
    }
    assert(defined.take(n as int) == defined);
    let ghost before = args.deep_view();
    args.push("--".to_owned());
    assert(args.deep_view() == before + seq!["--"@]);
    append_all(&mut args, &copy_from(command, 0));
    assert(command.deep_view().skip(0) == command.deep_view());
    Invocation {
        program: MACOS_PATH_TO_SEATBELT_EXECUTABLE.to_owned(),
        args,
        cwd: cwd.to_owned(),
        env: parse_env(env_args),
        timeout_ms,
    }
}

proof fn lemma_decimal_distinct(a: nat, b: nat)
    requires
        decimal(a) == decimal(b),
    ensures
        a == b,
    decreases a,
{
    let x = decimal(a);
    let y = decimal(b);
    assert(x.last() == digit(a % 10));
    assert(y.last() == digit(b % 10));
    assert(a % 10 == b % 10);
    lemma_decimal_not_empty(a / 10);
    lemma_decimal_not_empty(b / 10);
    if a >= 10 && b >= 10 {
        assert(x.drop_last() == decimal(a / 10));
        assert(y.drop_last() == decimal(b / 10));
        lemma_decimal_distinct(a / 10, b / 10);
    }
}

proof fn lemma_decimal_not_empty(n: nat)
    ensures
        decimal(n).len() > 0,
{
}

/// No two parameters have the same name, neither two of a kind nor two of different kinds.
pub proof fn law_parameters_distinct(i: nat, j: nat)
    ensures
        i != j ==> parameter(WRITABLE@, i) != parameter(WRITABLE@, j),
        i != j ==> parameter(DENIED@, i) != parameter(DENIED@, j),
        parameter(WRITABLE@, i) != parameter(DENIED@, j),
{
    lemma_parameter_distinct(WRITABLE@, i, j);
    lemma_parameter_distinct(DENIED@, i, j);
    reveal_strlit("WRITABLE_ROOT_");
    reveal_strlit("DENIED_PATH_");
    assert(parameter(WRITABLE@, i)[0] == 'W');
    assert(parameter(DENIED@, j)[0] == 'D');
}

proof fn lemma_parameter_distinct(start: Seq<char>, i: nat, j: nat)
    ensures
        i != j ==> parameter(start, i) != parameter(start, j),
{
    if parameter(start, i) == parameter(start, j) {
        let n = start.len() as int;
        assert(parameter(start, i).skip(n) == decimal(i));
        assert(parameter(start, j).skip(n) == decimal(j));
        lemma_decimal_distinct(i, j);
    }
}

/// A read-only policy has no section on writing and no parameter.
pub proof fn law_read_only_section(policy: SandboxPolicy, cwd: Seq<char>, host: &Host)
    requires
        policy.mode is ReadOnly,
    ensures
        write_section(policy, cwd, host).len() == 0,
        all_parameters(policy, cwd, host).len() == 0,
{
}

/// With workspace-write, the parameters for writable paths stand for those and for nothing else:
/// each is the working directory or a writable path, in the form that rules can name.
pub proof fn law_parameters_are_roots(policy: SandboxPolicy, cwd: Seq<char>, host: &Host, i: int)
    requires
        0 <= i < written_paths(policy, cwd, host).len(),
    ensures
        exists|p: Seq<char>|
            (p == cwd || policy.writable().contains(p)) && #[trigger] rule_path(host, p) == Some(
                all_parameters(policy, cwd, host)[i].1,
            ),
{
    let all = seq![cwd] + policy.writable();
    lemma_rule_paths_from(host, all, i);
    let k = choose|k: int|
        0 <= k < all.len() && rule_path(host, #[trigger] all[k]) == Some(rule_paths(host, all)[i]);
    assert(all[k] == cwd || all[k] == policy.writable()[k - 1]);
    assert(rule_path(host, all[k]) == Some(all_parameters(policy, cwd, host)[i].1));
}

/// Whether the rules of a policy let a command write to the path: it lies beneath a path that they
/// allow, and beneath none that the rule behind denies.
pub open spec fn rules_allow_write(
    policy: SandboxPolicy,
    cwd: Seq<char>,
    host: &Host,
    p: Seq<char>,
) -> bool {
    match policy.mode {
        SandboxMode::WorkspaceWrite => lies_in_any(
            p,
            written_paths(policy, cwd, host),
            Platform::MacOs,
        ) && !lies_in_any(p, denied_paths(policy, cwd, host), Platform::MacOs),
        SandboxMode::ReadOnly => false,
        SandboxMode::FullAccess => true,
    }
}

/// With workspace-write, every denied path has a parameter and an entry in the rule that denies
/// writing, which stands at the end of the section; so nothing beneath it can be written, also
/// inside a writable root.
pub proof fn law_denied_is_covered(
    policy: SandboxPolicy,
    cwd: Seq<char>,
    host: &Host,
    denied: Seq<char>,
    p: Seq<char>,
)
    requires
        policy.mode is WorkspaceWrite,
        policy.denied().contains(denied),
    ensures
        exists|i: int|
            0 <= i < denied_paths(policy, cwd, host).len() && #[trigger] denied_paths(
                policy,
                cwd,
                host,
            )[i] == denied_form(host, cwd, denied) && all_parameters(policy, cwd, host).contains(
                (parameter(DENIED@, i as nat), denied_form(host, cwd, denied)),
            ) && entries(DENIED@, denied_paths(policy, cwd, host).len()).contains(
                entry(DENIED@, i as nat),
            ),
        write_section(policy, cwd, host) == path_rule(
            ALLOW_WRITE@,
            WRITABLE@,
            written_paths(policy, cwd, host).len(),
        ) + (DENY_WRITE@ + joined(entries(DENIED@, denied_paths(policy, cwd, host).len()), "\n"@)
            + "\n)"@),
        lies_in(p, denied_form(host, cwd, denied), Platform::MacOs) ==> !rules_allow_write(
            policy,
            cwd,
            host,
            p,
        ),
{
    let paths = denied_paths(policy, cwd, host);
    let c = denied_form(host, cwd, denied);
    let i = choose|i: int| 0 <= i < policy.denied().len() && policy.denied()[i] == denied;
    let first = parameters(WRITABLE@, written_paths(policy, cwd, host));
    let all = all_parameters(policy, cwd, host);
    assert(paths[i] == c);
    assert(all[first.len() + i] == (parameter(DENIED@, i as nat), c));
    assert(entries(DENIED@, paths.len())[i] == entry(DENIED@, i as nat));
    if lies_in(p, c, Platform::MacOs) {
        assert(lies_in(p, paths[i], Platform::MacOs));
    }
}

/// From an absolute working directory, rules name every denied path by an absolute one, as long as
/// canonical forms are absolute.
pub proof fn law_denied_form_is_absolute(host: &Host, cwd: Seq<char>, p: Seq<char>)
    requires
        is_absolute_path(cwd, Platform::MacOs),
        host.canonical_form(cwd) matches Some(c) ==> is_absolute_path(c, Platform::MacOs),
        host.canonical_form(p) matches Some(c) ==> is_absolute_path(c, Platform::MacOs),
    ensures
        is_absolute_path(denied_form(host, cwd, p), Platform::MacOs),
{
    if rule_path(host, p) is None {
        assert(path_prefix(p, Platform::MacOs) is None);
        law_joined_is_absolute(rule_path(host, cwd)->0, p, Platform::MacOs);
    }
}

proof fn lemma_rule_paths_from(host: &Host, paths: Seq<Seq<char>>, i: int)
    requires
        0 <= i < rule_paths(host, paths).len(),
    ensures
        exists|k: int|
            0 <= k < paths.len() && rule_path(host, #[trigger] paths[k]) == Some(
                rule_paths(host, paths)[i],
            ),
    decreases paths.len(),
{
    if paths.len() > 0 {
        let front = paths.drop_last();
        let before = rule_paths(host, front);
        if i < before.len() {
            lemma_rule_paths_from(host, front, i);
            let k = choose|k: int|
                0 <= k < front.len() && rule_path(host, #[trigger] front[k]) == Some(before[i]);
            assert(paths[k] == front[k]);
        } else {
            assert(paths[paths.len() - 1] == paths.last());
        }
    }
}

/// The working directory and every writable path can be written with workspace-write: each has a
/// parameter, with its canonical form or, where it has none and begins with `/`, as it is.
pub proof fn law_roots_have_parameters(
    policy: SandboxPolicy,
    cwd: Seq<char>,
    host: &Host,
    p: Seq<char>,
)
    requires
        policy.mode == SandboxMode::WorkspaceWrite,
        p == cwd || policy.writable().contains(p),
        host.canonical_form(p) is Some || (p.len() > 0 && p[0] == '/'),
    ensures
        exists|i: int|
            0 <= i < written_paths(policy, cwd, host).len() && #[trigger] all_parameters(
                policy,
                cwd,
                host,
            )[i] == ("WRITABLE_ROOT_"@ + decimal(i as nat), match host.canonical_form(p) {
                Some(c) => c,
                None => p,
            }),
        written_paths(policy, cwd, host).len() <= all_parameters(policy, cwd, host).len(),
{
    let all = seq![cwd] + policy.writable();
    let k: int = if p == cwd {
        0
    } else {
        1 + choose|i: int| 0 <= i < policy.writable().len() && policy.writable()[i] == p
    };
    assert(all[k] == p);
    let c = match host.canonical_form(p) {
        Some(c) => c,
        None => p,
    };
    assert(rule_path(host, p) == Some(c));
    lemma_rule_path_kept(host, all, k, c);
    let paths = written_paths(policy, cwd, host);
    let i = choose|i: int| 0 <= i < paths.len() && paths[i] == c;
    assert(all_parameters(policy, cwd, host)[i] == ("WRITABLE_ROOT_"@ + decimal(i as nat), c));
}

proof fn lemma_rule_path_kept(host: &Host, paths: Seq<Seq<char>>, k: int, c: Seq<char>)
    requires
        0 <= k < paths.len(),
        rule_path(host, paths[k]) == Some(c),
    ensures
        rule_paths(host, paths).contains(c),
    decreases paths.len(),
{
    let front = paths.drop_last();
    let before = rule_paths(host, front);
    let r = rule_paths(host, paths);
    if k < front.len() {
        assert(front[k] == paths[k]);
        lemma_rule_path_kept(host, front, k, c);
        let i = choose|i: int| 0 <= i < before.len() && before[i] == c;
        assert(r[i] == c);
    } else {
        assert(r[before.len() as int] == c);
    }
}

/// Only with workspace-write are there parameters, and those for denied paths follow those for
/// writable ones, under names of their own.
pub proof fn law_parameters_of_denied(
    policy: SandboxPolicy,
    cwd: Seq<char>,
    host: &Host,
    i: int,
)
    ensures
        policy.mode != SandboxMode::WorkspaceWrite ==> all_parameters(policy, cwd, host).len() == 0,
        policy.mode == SandboxMode::WorkspaceWrite ==> all_parameters(policy, cwd, host).len()
            == written_paths(policy, cwd, host).len() + policy.denied().len(),
        policy.mode == SandboxMode::WorkspaceWrite && 0 <= i < policy.denied().len()
            ==> all_parameters(policy, cwd, host)[written_paths(policy, cwd, host).len() + i] == (
            "DENIED_PATH_"@ + decimal(i as nat),
            denied_form(host, cwd, policy.denied()[i]),
        ),
{
}

/// The Seatbelt policy is the base, the rule that allows reading everything, the rules on writing,
/// and those on the network, each on lines of its own. Writing is allowed everywhere with full access
/// and nowhere in read-only mode; the network has rules only where it is not restricted.
pub proof fn law_seatbelt_sections(policy: SandboxPolicy, cwd: Seq<char>, host: &Host)
    ensures
        seatbelt_policy(policy, cwd, host) == host.seatbelt_base@ + "\n"@
            + "; allow read-only file operations\n(allow file-read*)"@ + "\n"@ + write_section(
            policy,
            cwd,
            host,
        ) + "\n"@ + network_section(policy.network, host.seatbelt_network@),
        policy.mode == SandboxMode::ReadOnly ==> write_section(policy, cwd, host).len() == 0,
        policy.mode == SandboxMode::FullAccess ==> write_section(policy, cwd, host)
            == r#"(allow file-write* (regex #"^/"))"#@,
        network_section(NetworkPolicy::Restricted, host.seatbelt_network@).len() == 0,
        network_section(NetworkPolicy::Enabled, host.seatbelt_network@)
            == "(allow network-outbound)\n(allow network-inbound)\n"@ + host.seatbelt_network@,
{
    let a = host.seatbelt_base@;
    let b = READ_SECTION@;
    let c = write_section(policy, cwd, host);
    let d = network_section(policy.network, host.seatbelt_network@);
    let sep = "\n"@;
    assert(seq![a] + seq![b, c, d] == seq![a, b, c, d]);
    assert(seq![b] + seq![c, d] == seq![b, c, d]);
    assert(seq![c] + seq![d] == seq![c, d]);
    law_joined(seq![a], seq![b, c, d], sep);
    law_joined(seq![b], seq![c, d], sep);
    law_joined(seq![c], seq![d], sep);
    law_joined(seq![d], seq![d], sep);
    assert(a + sep + (b + sep + (c + sep + d)) == a + sep + b + sep + c + sep + d);
}

/// With workspace-write, the rule that allows writing has one entry for each writable path, and the
/// rule behind it that denies writing one for each denied path. A rule about no path is left out.
pub proof fn law_write_rules(policy: SandboxPolicy, cwd: Seq<char>, host: &Host, i: nat)
    requires
        policy.mode == SandboxMode::WorkspaceWrite,
    ensures
        ({
            let allow = written_paths(policy, cwd, host).len();
            let deny = policy.denied().len();
            write_section(policy, cwd, host) == (if allow == 0 {
                Seq::empty()
            } else {
                "(allow file-write*\n"@ + joined(entries("WRITABLE_ROOT_"@, allow), "\n"@) + "\n)"@
            }) + (if deny == 0 {
                Seq::empty()
            } else {
                "\n(deny file-write*\n"@ + joined(entries("DENIED_PATH_"@, deny), "\n"@) + "\n)"@
            })
        }),
        entry("WRITABLE_ROOT_"@, i) == "(subpath (param \""@ + ("WRITABLE_ROOT_"@ + decimal(i))
            + "\"))"@,
        entry("DENIED_PATH_"@, i) == "(subpath (param \""@ + ("DENIED_PATH_"@ + decimal(i))
            + "\"))"@,
        forall|n: nat, k: int|
            0 <= k < n ==> #[trigger] entries("WRITABLE_ROOT_"@, n)[k] == entry(
                "WRITABLE_ROOT_"@,
                k as nat,
            ),
        forall|n: nat, k: int|
            0 <= k < n ==> #[trigger] entries("DENIED_PATH_"@, n)[k] == entry(
                "DENIED_PATH_"@,
                k as nat,
            ),
        entries("WRITABLE_ROOT_"@, i).len() == i,
        entries("DENIED_PATH_"@, i).len() == i,
{
}

/// `sandbox-exec` gets the policy behind `-p`, then each parameter as `-DNAME=VALUE`, and the command
/// behind `--`.
pub proof fn law_seatbelt_arguments(
    policy: SandboxPolicy,
    command: Seq<Seq<char>>,
    cwd: Seq<char>,
    host: &Host,
    i: int,
)
    ensures
        ({
            let args = seatbelt_args(policy, command, cwd, host);
            let n = all_parameters(policy, cwd, host).len();
            &&& args.len() == 3 + n + command.len()
            &&& args[0] == "-p"@
            &&& args[1] == seatbelt_policy(policy, cwd, host)
            &&& 0 <= i < n ==> args[2 + i] == "-D"@ + all_parameters(policy, cwd, host)[i].0 + "="@
                + all_parameters(policy, cwd, host)[i].1
            &&& args[2 + n as int] == "--"@
            &&& args.skip(3 + n as int) == command
        }),
        MACOS_PATH_TO_SEATBELT_EXECUTABLE@ == "/usr/bin/sandbox-exec"@,
{
    let args = seatbelt_args(policy, command, cwd, host);
    let n = all_parameters(policy, cwd, host).len() as int;
    assert(args.skip(3 + n) == command);
}

/// A denied path in a rule is the canonical form of the path, or the path itself if it begins with
/// `/`, or the path behind the working directory and a `/`.
pub proof fn law_denied_forms(host: &Host, cwd: Seq<char>, p: Seq<char>)
    requires
        host.canonical_form(cwd) is None,
        cwd.len() > 0 && cwd[0] == '/' && cwd.last() != '/',
    ensures
        host.canonical_form(p) is Some ==> denied_form(host, cwd, p) == host.canonical_form(p)->0,
        host.canonical_form(p) is None && p.len() > 0 && p[0] == '/' ==> denied_form(host, cwd, p)
            == p,
        host.canonical_form(p) is None && p.len() > 0 && p[0] != '/' ==> denied_form(host, cwd, p)
            == cwd + seq!['/'] + p,
{
    assert(cwd.push('/') + p == cwd + seq!['/'] + p);
}

/// A rule cannot name a path exactly when it has no canonical form and does not begin with `/`.
pub proof fn law_unnamed_paths(host: &Host, p: Seq<char>)
    ensures
        rule_path(host, p) is None <==> host.canonical_form(p) is None && !(p.len() > 0 && p[0]
            == '/'),
        host.canonical_form(p) is Some ==> rule_path(host, p) == host.canonical_form(p),
        rule_path(host, p) is Some && host.canonical_form(p) is None ==> rule_path(host, p) == Some(
            p,
        ),
{
}

} // verus!
