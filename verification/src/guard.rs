//! Sandbox path guard: checks whether a write target is allowed by the sandbox policy.

use crate::dots::{count_parents, is_detour, law_parent_step_cancels, law_parts_go_on, law_unix_parts,
    lemma_no_parents, lemma_piece_then, lemma_text_goes_on, lemma_text_of_next, lemma_tidied_names,
    levels_up, resolve_dots, stem, tidied, tidy_parts, tidy_text, token, with_detour, without_dots};
use crate::env::Pair;
use crate::host::{home_directory, Host, Platform};
use crate::paths::{body_parts, is_slash, is_verbatim, lemma_prefix_fits, lemma_separator_at, part,
    path_parts, path_prefix, piece_parts, prefix_len, separates, separator_at, PathPart, CUR_DIR,
    NORMAL, PARENT_DIR, ROOT_DIR};
use crate::policy::{law_default_denied_paths, law_paths_of_policy, law_temporary_directories,
    law_those_existing, sensitive_directories, temp_directories, those_existing, NetworkPolicy,
    SandboxMode, SandboxPolicy};
use crate::text::{all_ascii, ascii_lower, chars_of, concat, has_prefix, lowercase, replace_char,
    replaced, same_ignoring_ascii_case, starts_with, to_lowercase};
use vstd::prelude::*;

verus! {

/// Result of a sandbox path check.
#[derive(Debug)]
pub struct PathCheckResult {
    /// Whether the path is allowed.
    pub allowed: bool,
    /// Reason for denial (if not allowed).
    pub reason: Option<String>,
}

impl Clone for PathCheckResult {
    fn clone(&self) -> (r: Self)
        ensures
            r == *self,
    {
        PathCheckResult {
            allowed: self.allowed,
            reason: match &self.reason {
                Some(why) => Some(why.clone()),
                None => None,
            },
        }
    }
}

/// The form of a path that comparisons use: on Windows with `/` for `\` and in lower case, and
/// elsewhere the path itself.
pub open spec fn normalized(p: Seq<char>, platform: Platform) -> Seq<char> {
    if platform is Windows {
        lowercase(replaced(p, '\\', "/"@))
    } else {
        p
    }
}

/// The form of an ASCII path that comparisons use on Windows: with `/` for `\`, and every letter in
/// lower case.
pub open spec fn ascii_normalized(p: Seq<char>) -> Seq<char> {
    replaced(p, '\\', "/"@).map_values(|c: char| ascii_lower(c))
}

/// Whether `parent` is a parent directory of `child`, or they are equal: `child` continues
/// `parent`, with a `/` at the end of `parent` or right behind it.
pub open spec fn is_within(parent: Seq<char>, child: Seq<char>) -> bool {
    ||| parent == child
    ||| has_prefix(child, parent) && {
        ||| parent.len() > 0 && parent.last() == '/'
        ||| parent.len() < child.len() && child[parent.len() as int] == '/'
    }
}

/// Whether the path `p` lies in the directory `root`. Both are compared with their dots resolved,
/// and neither may lead further up than the other.
pub open spec fn lies_in(p: Seq<char>, root: Seq<char>, platform: Platform) -> bool {
    let inner = normalized(p, platform);
    let outer = normalized(root, platform);
    &&& is_within(without_dots(outer, platform), without_dots(inner, platform))
    &&& levels_up(outer, platform) == levels_up(inner, platform)
}

/// Whether the path `p` lies in one of the directories `roots`.
pub open spec fn lies_in_any(p: Seq<char>, roots: Seq<Seq<char>>, platform: Platform) -> bool {
    exists|i: int| 0 <= i < roots.len() && lies_in(p, #[trigger] roots[i], platform)
}

/// Whether the policy allows writing to `target`.
pub open spec fn allows(policy: SandboxPolicy, target: Seq<char>, platform: Platform) -> bool {
    match policy.mode {
        SandboxMode::FullAccess => true,
        SandboxMode::WorkspaceWrite => !lies_in_any(target, policy.denied(), platform)
            && lies_in_any(target, policy.writable(), platform),
        SandboxMode::ReadOnly => false,
    }
}

/// The first of `roots` that `p` lies in.
pub open spec fn first_holding(p: Seq<char>, roots: Seq<Seq<char>>, platform: Platform) -> Seq<char>
    decreases roots.len(),
{
    if roots.len() == 0 {
        Seq::empty()
    } else if lies_in(p, roots[0], platform) {
        roots[0]
    } else {
        first_holding(p, roots.drop_first(), platform)
    }
}

/// Why the policy denies writing to `target`.
pub open spec fn denial(policy: SandboxPolicy, target: Seq<char>, platform: Platform) -> Seq<char> {
    if policy.mode is ReadOnly {
        "sandbox is in read-only mode, all writes are blocked"@
    } else if lies_in_any(target, policy.denied(), platform) {
        "path is in the denied zone: "@ + first_holding(target, policy.denied(), platform)
    } else {
        "path is outside the allowed project directory"@
    }
}

/// Normalizes a path for comparison (case-insensitive on Windows).
pub fn normalize_path(p: &str, platform: Platform) -> (r: String)
    ensures
        r@ == normalized(p@, platform),
        platform is Windows && all_ascii(p@) ==> r@ == ascii_normalized(p@),
{
    if platform == Platform::Windows {
        proof {
            lemma_replaced_one_by_one(p@);
        }
        to_lowercase(replace_char(p, '\\', "/").as_str())
    } else {
        p.to_owned()
    }
}

/// Checks whether `parent` is a parent directory of `child` (or they are equal).
pub fn is_subpath(parent: &str, child: &str) -> (r: bool)
    ensures
        r == is_within(parent@, child@),
{
    if !starts_with(child, parent) {
        assert(parent@ == child@ ==> has_prefix(child@, parent@)) by {
            assert(child@.take(child@.len() as int) == child@);
        }
        return false;
    }
    let p = chars_of(parent);
    let c = chars_of(child);
    if p.len() == c.len() {
        assert(child@.take(child@.len() as int) == child@);
        true
    } else {
        (p.len() > 0 && p[p.len() - 1] == '/') || c[p.len()] == '/'
    }
}

/// Checks whether the path `p` lies in the directory `root`.
pub fn is_inside(p: &str, root: &str, platform: Platform) -> (r: bool)
    ensures
        r == lies_in(p@, root@, platform),
{
    let (inner, inner_up) = resolve_dots(normalize_path(p, platform).as_str(), platform);
    let (outer, outer_up) = resolve_dots(normalize_path(root, platform).as_str(), platform);
    is_subpath(outer.as_str(), inner.as_str()) && outer_up == inner_up
}

/// Checks whether a write target path is allowed by the sandbox policy.
///
/// - `WorkspaceWrite`: allow writes to `writable_roots` and `extra_writable_roots`, deny writes to
///   `denied_write_paths`.
/// - `ReadOnly`: deny all writes.
/// - `FullAccess`: allow everything.
pub fn is_path_allowed(
    target: &str,
    policy: &SandboxPolicy,
    project_dir: &str,
    platform: Platform,
) -> (r: PathCheckResult)
    ensures
        r.allowed == allows(*policy, target@, platform),
        match r.reason {
            Some(why) => !r.allowed && why@ == denial(*policy, target@, platform),
            None => r.allowed,
        },
{
    match policy.mode {
        SandboxMode::FullAccess => PathCheckResult { allowed: true, reason: None },
        SandboxMode::ReadOnly => PathCheckResult {
            allowed: false,
            reason: Some("sandbox is in read-only mode, all writes are blocked".to_owned()),
        },
        SandboxMode::WorkspaceWrite => {
            let ghost denied = policy.denied();
            let ghost roots = policy.writable();
            let n: usize = policy.denied_write_paths.len();
            assert(denied.skip(0) == denied);
            for i in 0..n
                invariant
                    n == policy.denied_write_paths@.len(),
                    denied == policy.denied(),
                    policy.mode is WorkspaceWrite,
                    forall|k: int|
                        0 <= k < i ==> !lies_in(target@, #[trigger] denied[k], platform),
                    first_holding(target@, denied, platform) == first_holding(
                        target@,
                        denied.skip(i as int),
                        platform,
                    ),
            {
                assert(denied[i as int] == policy.denied_write_paths@[i as int]@);
                assert(denied.skip(i as int)[0] == denied[i as int]);
                assert(denied.skip(i as int).drop_first() == denied.skip(i + 1));
                if is_inside(target, policy.denied_write_paths[i].as_str(), platform) {
                    assert(lies_in(target@, denied[i as int], platform));
                    return PathCheckResult {
                        allowed: false,
                        reason: Some(
                            concat(
                                "path is in the denied zone: ",
                                policy.denied_write_paths[i].as_str(),
                            ),
                        ),
                    };
                }
            }
            let writable = policy.all_writable_paths();
            let m: usize = writable.len();
            for i in 0..m
                invariant
                    m == writable@.len(),
                    roots == policy.writable(),
                    roots == writable.deep_view(),
                    policy.mode is WorkspaceWrite,
                    !lies_in_any(target@, policy.denied(), platform),
                    forall|k: int| 0 <= k < i ==> !lies_in(target@, #[trigger] roots[k], platform),
            {
                assert(roots[i as int] == writable@[i as int]@);
                if is_inside(target, writable[i].as_str(), platform) {
                    assert(lies_in(target@, roots[i as int], platform));
                    return PathCheckResult { allowed: true, reason: None };
                }
            }
            PathCheckResult {
                allowed: false,
                reason: Some("path is outside the allowed project directory".to_owned()),
            }
        },
    }
}

/// Full access allows every write.
pub proof fn law_full_access_allows(policy: SandboxPolicy, target: Seq<char>, platform: Platform)
    requires
        policy.mode is FullAccess,
    ensures
        allows(policy, target, platform),
{
}

/// A read-only policy denies every write, whatever roots it names.
pub proof fn law_read_only_denies(policy: SandboxPolicy, target: Seq<char>, platform: Platform)
    requires
        policy.mode is ReadOnly,
    ensures
        !allows(policy, target, platform),
{
}

/// What lies in a denied directory is denied, also inside a writable root.
pub proof fn law_denied_wins(policy: SandboxPolicy, target: Seq<char>, platform: Platform, i: int)
    requires
        policy.mode is WorkspaceWrite,
        0 <= i < policy.denied().len(),
        lies_in(target, policy.denied()[i], platform),
    ensures
        !allows(policy, target, platform),
{
}

/// What lies in a writable root is allowed, unless it lies in a denied directory.
pub proof fn law_root_is_writable(
    policy: SandboxPolicy,
    target: Seq<char>,
    platform: Platform,
    i: int,
)
    requires
        policy.mode is WorkspaceWrite,
        0 <= i < policy.writable().len(),
        lies_in(target, policy.writable()[i], platform),
        !lies_in_any(target, policy.denied(), platform),
    ensures
        allows(policy, target, platform),
{
}

/// What lies in no writable root is denied.
pub proof fn law_outside_is_denied(policy: SandboxPolicy, target: Seq<char>, platform: Platform)
    requires
        policy.mode is WorkspaceWrite,
        !lies_in_any(target, policy.writable(), platform),
    ensures
        !allows(policy, target, platform),
{
}

/// Denying more directories and writing to fewer allows no new write.
pub proof fn law_tighter_policy(
    policy: SandboxPolicy,
    tighter: SandboxPolicy,
    target: Seq<char>,
    platform: Platform,
)
    requires
        policy.mode == tighter.mode,
        forall|d: Seq<char>| #[trigger]
            policy.denied().contains(d) ==> tighter.denied().contains(d),
        forall|w: Seq<char>| #[trigger]
            tighter.writable().contains(w) ==> policy.writable().contains(w),
        allows(tighter, target, platform),
    ensures
        allows(policy, target, platform),
{
    if policy.mode is WorkspaceWrite {
        if lies_in_any(target, policy.denied(), platform) {
            let i = choose|i: int|
                0 <= i < policy.denied().len() && lies_in(
                    target,
                    #[trigger] policy.denied()[i],
                    platform,
                );
            let d = policy.denied()[i];
            assert(policy.denied().contains(d));
            let j = choose|j: int| 0 <= j < tighter.denied().len() && tighter.denied()[j] == d;
            assert(lies_in(target, tighter.denied()[j], platform));
        }
        let i = choose|i: int|
            0 <= i < tighter.writable().len() && lies_in(
                target,
                #[trigger] tighter.writable()[i],
                platform,
            );
        let w = tighter.writable()[i];
        assert(tighter.writable().contains(w));
        let j = choose|j: int| 0 <= j < policy.writable().len() && policy.writable()[j] == w;
        assert(lies_in(target, policy.writable()[j], platform));
    }
}

/// A directory lies in itself, and what lies in a part of a directory lies in the directory.
pub proof fn law_lies_in(a: Seq<char>, b: Seq<char>, c: Seq<char>, platform: Platform)
    ensures
        lies_in(a, a, platform),
        lies_in(a, b, platform) && lies_in(b, c, platform) ==> lies_in(a, c, platform),
{
    let x = without_dots(normalized(a, platform), platform);
    let y = without_dots(normalized(b, platform), platform);
    let z = without_dots(normalized(c, platform), platform);
    if is_within(y, x) && is_within(z, y) && y != x && z != y {
        assert(x.take(z.len() as int) == x.take(y.len() as int).take(z.len() as int));
        if z.len() < y.len() {
            assert(x[z.len() as int] == x.take(y.len() as int)[z.len() as int]);
        }
    }
}

/// Of two directories that a path lies in, one lies in the other.
pub proof fn law_common_path_overlaps(
    p: Seq<char>,
    a: Seq<char>,
    b: Seq<char>,
    platform: Platform,
)
    requires
        lies_in(p, a, platform),
        lies_in(p, b, platform),
    ensures
        lies_in(a, b, platform) || lies_in(b, a, platform),
{
    let x = without_dots(normalized(p, platform), platform);
    let y = without_dots(normalized(a, platform), platform);
    let z = without_dots(normalized(b, platform), platform);
    assert(x.take(x.len() as int) == x);
    assert(has_prefix(x, y) && has_prefix(x, z));
    if y.len() <= z.len() {
        assert(z.take(y.len() as int) == x.take(z.len() as int).take(y.len() as int));
        assert(x.take(z.len() as int).take(y.len() as int) == x.take(y.len() as int));
        if y.len() < z.len() {
            assert(z[y.len() as int] == x[y.len() as int]);
        } else {
            assert(y == z);
        }
    } else {
        assert(y.take(z.len() as int) == x.take(y.len() as int).take(z.len() as int));
        assert(x.take(y.len() as int).take(z.len() as int) == x.take(z.len() as int));
        assert(y[z.len() as int] == x[z.len() as int]);
    }
}

/// Where a path leads into a directory and back with `..`, anywhere and on any platform, the verdict
/// is that on the path without this detour: `..` is no way out of a writable root, and no way round
/// a denied path. The detour is one in the form of the path that comparisons use.
pub proof fn law_parent_step_changes_nothing(
    policy: SandboxPolicy,
    long: Seq<char>,
    short: Seq<char>,
    before: Seq<char>,
    c: char,
    name: Seq<char>,
    d: char,
    after: Seq<char>,
    root: Seq<char>,
    platform: Platform,
)
    requires
        is_detour(before, c, name, d, after, platform),
        normalized(long, platform) == with_detour(before, c, name, d, after),
        normalized(short, platform) == before + after,
    ensures
        lies_in(long, root, platform) == lies_in(short, root, platform),
        lies_in(root, long, platform) == lies_in(root, short, platform),
        allows(policy, long, platform) == allows(policy, short, platform),
{
    law_parent_step_cancels(before, c, name, d, after, platform);
    assert forall|r: Seq<char>| #[trigger]
        lies_in(long, r, platform) == lies_in(short, r, platform) by {}
    assert(lies_in_any(long, policy.denied(), platform) == lies_in_any(
        short,
        policy.denied(),
        platform,
    ));
    assert(lies_in_any(long, policy.writable(), platform) == lies_in_any(
        short,
        policy.writable(),
        platform,
    ));
}

/// On Windows, a detour in an ASCII path is one whichever slashes stand around the name, so the
/// verdict does not depend on them. What [`normalize_path`] states of ASCII paths is asked of both.
pub proof fn law_parent_step_with_any_slash(
    policy: SandboxPolicy,
    before: Seq<char>,
    c: char,
    name: Seq<char>,
    d: char,
    after: Seq<char>,
)
    requires
        is_slash(c),
        is_slash(d),
        is_detour(
            ascii_normalized(before),
            '/',
            ascii_normalized(name),
            '/',
            ascii_normalized(after),
            Platform::Windows,
        ),
        ({
            let long = with_detour(before, c, name, d, after);
            normalized(long, Platform::Windows) == ascii_normalized(long)
        }),
        normalized(before + after, Platform::Windows) == ascii_normalized(before + after),
    ensures
        allows(policy, with_detour(before, c, name, d, after), Platform::Windows) == allows(
            policy,
            before + after,
            Platform::Windows,
        ),
{
    let long = with_detour(before, c, name, d, after);
    let a = ascii_normalized(before);
    let n = ascii_normalized(name);
    let z = ascii_normalized(after);
    lemma_ascii_normalized(before);
    lemma_ascii_normalized(name);
    lemma_ascii_normalized(after);
    lemma_ascii_normalized(long);
    lemma_ascii_normalized(before + after);
    assert(ascii_normalized(long) == with_detour(a, '/', n, '/', z));
    assert(ascii_normalized(before + after) == a + z);
    law_parent_step_changes_nothing(
        policy,
        long,
        before + after,
        a,
        '/',
        n,
        '/',
        z,
        Seq::empty(),
        Platform::Windows,
    );
}

proof fn lemma_ascii_normalized(p: Seq<char>)
    ensures
        ascii_normalized(p).len() == p.len(),
        forall|i: int|
            0 <= i < p.len() ==> #[trigger] ascii_normalized(p)[i] == (if p[i] == '\\' {
                '/'
            } else {
                ascii_lower(p[i])
            }),
{
    lemma_replaced_one_by_one(p);
}

/// On Windows, `/` and `\` are the same separator.
pub proof fn law_separators_alike(p: Seq<char>)
    ensures
        normalized(replaced(p, '\\', "/"@), Platform::Windows) == normalized(p, Platform::Windows),
{
    lemma_replaced_twice(p);
}

proof fn lemma_replaced_twice(p: Seq<char>)
    ensures
        replaced(replaced(p, '\\', "/"@), '\\', "/"@) == replaced(p, '\\', "/"@),
{
    lemma_replaced_one_by_one(p);
    let q = replaced(p, '\\', "/"@);
    lemma_replaced_one_by_one(q);
    assert(replaced(q, '\\', "/"@) == q);
}

proof fn lemma_replaced_one_by_one(p: Seq<char>)
    ensures
        replaced(p, '\\', "/"@).len() == p.len(),
        forall|i: int|
            0 <= i < p.len() ==> #[trigger] replaced(p, '\\', "/"@)[i] == (if p[i] == '\\' {
                '/'
            } else {
                p[i]
            }),
        all_ascii(p) ==> all_ascii(replaced(p, '\\', "/"@)),
    decreases p.len(),
{
    reveal_strlit("/");
    if p.len() > 0 {
        let front = p.drop_last();
        lemma_replaced_one_by_one(front);
        let q = replaced(front, '\\', "/"@);
        let r = replaced(p, '\\', "/"@);
        assert forall|i: int| 0 <= i < p.len() implies #[trigger] r[i] == (if p[i] == '\\' {
            '/'
        } else {
            p[i]
        }) by {
            if i < front.len() {
                assert(r[i] == q[i]);
                assert(front[i] == p[i]);
            }
        }
    }
}

/// On Windows, ASCII paths that differ only in the case of their letters compare as equal.
pub proof fn law_ascii_case_ignored(p: Seq<char>, q: Seq<char>)
    requires
        same_ignoring_ascii_case(p, q),
    ensures
        ascii_normalized(p) == ascii_normalized(q),
{
    lemma_replaced_one_by_one(p);
    lemma_replaced_one_by_one(q);
    let a = ascii_normalized(p);
    let b = ascii_normalized(q);
    assert forall|i: int| 0 <= i < a.len() implies a[i] == b[i] by {
        assert(ascii_lower(p[i]) == ascii_lower(q[i]));
        assert(a[i] == ascii_lower(replaced(p, '\\', "/"@)[i]));
        assert(b[i] == ascii_lower(replaced(q, '\\', "/"@)[i]));
    }
    assert(a == b);
}

/// A workspace-write policy with the default denied paths denies writing to the personal
/// directories of the user, as far as they exist.
pub proof fn law_personal_directories_denied(
    policy: SandboxPolicy,
    env: Seq<Pair>,
    existing: Seq<Seq<char>>,
    platform: Platform,
    dir: Seq<char>,
    target: Seq<char>,
)
    requires
        policy.mode is WorkspaceWrite,
        policy.denied() == those_existing(sensitive_directories(env, platform), existing),
        sensitive_directories(env, platform).contains(dir),
        existing.contains(dir),
        lies_in(target, dir, platform),
    ensures
        !allows(policy, target, platform),
{
    law_those_existing(sensitive_directories(env, platform), existing, dir);
    let i = choose|i: int| 0 <= i < policy.denied().len() && policy.denied()[i] == dir;
    assert(lies_in(target, policy.denied()[i], platform));
}

/// Whether `s` is a name: not empty, without separators, and neither `.` nor `..`.
pub open spec fn is_plain_name(s: Seq<char>, platform: Platform) -> bool {
    &&& s.len() > 0
    &&& forall|i: int|
        0 <= i < s.len() ==> #[trigger] s[i] != '/' && (platform is Windows ==> s[i] != '\\')
    &&& s != seq!['.']
    &&& s != seq!['.', '.']
}

/// The parts of a path with its dots resolved, where a name and then more follow a directory.
proof fn lemma_tidy_beneath(base: Seq<char>, m: Seq<char>, after: Seq<char>, platform: Platform)
    requires
        base.len() > 0,
        base.last() == '/',
        is_plain_name(m, platform),
        after.len() > 0 ==> after[0] == '/',
        forall|i: int|
            0 <= i < after.len() - 1 ==> !(#[trigger] after[i] == '.' && after[i + 1] == '.'),
        path_prefix(base + m + after, platform) == path_prefix(base, platform),
        prefix_len(base, platform) < base.len(),
        !is_verbatim(base, platform),
    ensures
        ({
            let name = part(NORMAL, m, Seq::empty());
            let more = body_parts(after, platform, false);
            &&& tidy_parts(base + m + after, platform) == tidy_parts(base, platform).push(name)
                + more
            &&& forall|i: int| 0 <= i < more.len() ==> (#[trigger] more[i]).rank == NORMAL
            &&& (base + m + after).take(prefix_len(base, platform)) == base.take(
                prefix_len(base, platform),
            )
        }),
{
    let name = part(NORMAL, m, Seq::empty());
    let more = body_parts(after, platform, false);
    let all = base + m + after;
    let s = m + after;
    lemma_prefix_fits(base);
    assert(all == base + s);
    law_parts_go_on(base, s, platform);
    assert forall|i: int| 0 <= i < m.len() implies !separates(#[trigger] m[i], platform, false) by {
        assert(m[i] != '/');
    }
    lemma_piece_then(m, after, platform);
    lemma_no_parents(after, platform);
    let names = seq![name] + more;
    assert forall|i: int| 0 <= i < names.len() implies (#[trigger] names[i]).rank == NORMAL by {
        if i > 0 {
            assert(names[i] == more[i - 1]);
        }
    }
    lemma_tidied_names(path_parts(base, platform), names);
    assert(tidy_parts(base, platform) + names == tidy_parts(base, platform).push(name) + more);
    assert(all.take(prefix_len(base, platform)) == base.take(prefix_len(base, platform)));
}

/// What lies beneath a directory lies in it, however far down: names behind the directory and a `/`
/// lead into it. The texts are those that comparisons use.
pub proof fn law_beneath_is_inside(
    p: Seq<char>,
    root: Seq<char>,
    base: Seq<char>,
    m: Seq<char>,
    after: Seq<char>,
    platform: Platform,
)
    requires
        normalized(root, platform) == base + m,
        normalized(p, platform) == base + m + after,
        base.len() > 0,
        base.last() == '/',
        is_plain_name(m, platform),
        after.len() > 0 ==> after[0] == '/',
        forall|i: int|
            0 <= i < after.len() - 1 ==> !(#[trigger] after[i] == '.' && after[i + 1] == '.'),
        path_prefix(base + m, platform) == path_prefix(base, platform),
        path_prefix(base + m + after, platform) == path_prefix(base, platform),
        prefix_len(base, platform) < base.len(),
        !is_verbatim(base, platform),
    ensures
        lies_in(p, root, platform),
{
    let none = Seq::<char>::empty();
    let name = part(NORMAL, m, Seq::empty());
    let more = body_parts(after, platform, false);
    let prefix = base.take(prefix_len(base, platform));
    let t = tidy_parts(base, platform);
    assert(base + m + none == base + m);
    lemma_tidy_beneath(base, m, none, platform);
    lemma_tidy_beneath(base, m, after, platform);
    assert(t.push(name) + body_parts(none, platform, false) == t.push(name));
    lemma_text_goes_on(t.push(name), more, prefix);
    let outer = tidy_text(t.push(name), prefix);
    let inner = tidy_text(t.push(name) + more, prefix);
    assert(without_dots(base + m, platform) == outer);
    assert(without_dots(base + m + after, platform) == inner);
    if more.len() == 0 {
        assert(t.push(name) + more == t.push(name));
    }
}

/// A directory whose name only begins like that of another does not lie in the other, and neither does
/// anything beneath it. The texts are those that comparisons use.
pub proof fn law_sibling_is_outside(
    p: Seq<char>,
    root: Seq<char>,
    base: Seq<char>,
    m: Seq<char>,
    n: Seq<char>,
    after: Seq<char>,
    platform: Platform,
)
    requires
        normalized(root, platform) == base + m,
        normalized(p, platform) == base + (m + n) + after,
        base.len() > 0,
        base.last() == '/',
        is_plain_name(m, platform),
        n.len() > 0,
        forall|i: int|
            0 <= i < n.len() ==> #[trigger] n[i] != '/' && (platform is Windows ==> n[i] != '\\'),
        after.len() > 0 ==> after[0] == '/',
        forall|i: int|
            0 <= i < after.len() - 1 ==> !(#[trigger] after[i] == '.' && after[i + 1] == '.'),
        path_prefix(base + m, platform) == path_prefix(base, platform),
        path_prefix(base + (m + n) + after, platform) == path_prefix(base, platform),
        prefix_len(base, platform) < base.len(),
        !is_verbatim(base, platform),
    ensures
        !lies_in(p, root, platform),
{
    let none = Seq::<char>::empty();
    let mn = m + n;
    let prefix = base.take(prefix_len(base, platform));
    let t = tidy_parts(base, platform);
    assert(is_plain_name(mn, platform)) by {
        assert forall|i: int| 0 <= i < mn.len() implies #[trigger] mn[i] != '/' && (
        platform is Windows ==> mn[i] != '\\') by {
            if i < m.len() {
                assert(mn[i] == m[i]);
            } else {
                assert(mn[i] == n[i - m.len()]);
            }
        }
        if mn == seq!['.', '.'] {
            assert(mn.len() == 2);
            assert(mn[0] == m[0]);
            assert(m =~= seq!['.']);
        }
        assert(mn.len() > 1);
    }
    assert(base + m + none == base + m);
    lemma_tidy_beneath(base, m, none, platform);
    lemma_tidy_beneath(base, mn, after, platform);
    let x = part(NORMAL, m, Seq::empty());
    let y = part(NORMAL, mn, Seq::empty());
    let more = body_parts(after, platform, false);
    assert(t.push(x) + body_parts(none, platform, false) == t.push(x));
    lemma_text_of_next(t, x, prefix);
    lemma_text_of_next(t, y, prefix);
    lemma_text_goes_on(t.push(y), more, prefix);
    let outer = tidy_text(t.push(x), prefix);
    let longer = tidy_text(t.push(y), prefix);
    let inner = tidy_text(t.push(y) + more, prefix);
    let k = outer.len() as int;
    assert(without_dots(base + m, platform) == outer);
    assert(without_dots(base + mn + after, platform) == inner);
    assert(longer[k] == n[0]);
    assert(inner[k] == inner.take(longer.len() as int)[k]);
    assert(outer.last() == m.last());
    assert(m[m.len() - 1] == m.last());
}

/// With one writable root, the directories beside it are not writable, even if their names begin like
/// its own.
pub proof fn law_siblings_are_denied(
    policy: SandboxPolicy,
    p: Seq<char>,
    base: Seq<char>,
    m: Seq<char>,
    n: Seq<char>,
    after: Seq<char>,
    platform: Platform,
)
    requires
        platform != Platform::Windows,
        policy.mode == SandboxMode::WorkspaceWrite,
        policy.writable() == seq![base + m],
        p == base + (m + n) + after,
        base.len() > 0,
        base.last() == '/',
        is_plain_name(m, platform),
        n.len() > 0,
        !n.contains('/'),
        after.len() > 0 ==> after[0] == '/',
        forall|i: int|
            0 <= i < after.len() - 1 ==> !(#[trigger] after[i] == '.' && after[i + 1] == '.'),
    ensures
        !allows(policy, p, platform),
{
    assert forall|i: int| 0 <= i < n.len() implies #[trigger] n[i] != '/' by {
        assert(n.contains(n[i]));
    }
    law_sibling_is_outside(p, base + m, base, m, n, after, platform);
    assert(policy.writable()[0] == base + m);
}

/// The parts of a path with its dots resolved, on systems with Unix paths: a root comes first if at
/// all, and the others are `..` and names without separators.
proof fn lemma_tidy_shape(parts: Seq<PathPart>)
    requires
        forall|i: int| 0 <= i < parts.len() ==> is_unix_part(#[trigger] parts[i], i),
    ensures
        forall|i: int| 0 <= i < tidied(parts).len() ==> is_tidy_part(#[trigger] tidied(parts)[i], i),
        tidied(parts).len() <= parts.len(),
        tidied(parts).len() > 0 && tidied(parts)[0].rank == ROOT_DIR <==> parts.len() > 0
            && parts[0].rank == ROOT_DIR,
    decreases parts.len(),
{
    if parts.len() > 0 {
        let front = parts.drop_last();
        let x = parts.last();
        assert(parts[parts.len() - 1] == x);
        assert forall|i: int| 0 <= i < front.len() implies is_unix_part(#[trigger] front[i], i) by {
            assert(front[i] == parts[i]);
        }
        lemma_tidy_shape(front);
        let t = tidied(front);
        let r = tidied(parts);
        if front.len() > 0 {
            assert(front[0] == parts[0]);
        }
        assert forall|i: int| 0 <= i < r.len() implies is_tidy_part(#[trigger] r[i], i) by {
            if i < t.len() {
                assert(r[i] == t[i]);
            }
        }
        if t.len() > 0 && t.last().rank == NORMAL && t.len() == 1 {
            assert(t[0] == t.last());
        }
    }
}

spec fn is_unix_part(x: PathPart, i: int) -> bool {
    ||| x == part(ROOT_DIR, Seq::empty(), Seq::empty()) && i == 0
    ||| x.rank == CUR_DIR
    ||| x == part(PARENT_DIR, Seq::empty(), Seq::empty())
    ||| is_name_part(x)
}

spec fn is_tidy_part(x: PathPart, i: int) -> bool {
    ||| x == part(ROOT_DIR, Seq::empty(), Seq::empty()) && i == 0
    ||| x == part(PARENT_DIR, Seq::empty(), Seq::empty())
    ||| is_name_part(x)
}

spec fn is_name_part(x: PathPart) -> bool {
    &&& x == part(NORMAL, x.head, Seq::empty())
    &&& x.head.len() > 0
    &&& !x.head.contains('/')
    &&& x.head != seq!['.', '.']
}

proof fn lemma_body_shape(s: Seq<char>, platform: Platform, k: int)
    requires
        platform != Platform::Windows,
        0 <= k < body_parts(s, platform, false).len(),
    ensures
        ({
            let x = body_parts(s, platform, false)[k];
            x == part(PARENT_DIR, Seq::empty(), Seq::empty()) || is_name_part(x)
        }),
    decreases s.len(),
{
    if s.len() > 0 {
        lemma_separator_at(s, platform, false);
        let at = separator_at(s, platform, false);
        let rest = if at < s.len() {
            s.skip(at + 1)
        } else {
            Seq::empty()
        };
        let piece = s.take(at);
        let first = piece_parts(piece, false);
        let all = body_parts(s, platform, false);
        assert(all == first + body_parts(rest, platform, false));
        if k < first.len() {
            assert(all[k] == first[k]);
            assert forall|i: int| 0 <= i < piece.len() implies piece[i] != '/' by {
                assert(piece[i] == s[i]);
                assert(!separates(s[i], platform, false));
            }
        } else {
            assert(all[k] == body_parts(rest, platform, false)[k - first.len()]);
            lemma_body_shape(rest, platform, k - first.len());
        }
    }
}

proof fn lemma_unix_shape(p: Seq<char>, platform: Platform)
    requires
        platform != Platform::Windows,
    ensures
        forall|i: int|
            0 <= i < path_parts(p, platform).len() ==> is_unix_part(
                #[trigger] path_parts(p, platform)[i],
                i,
            ),
        path_parts(p, platform).len() > 0 && path_parts(p, platform)[0].rank == ROOT_DIR
            <==> p.len() > 0 && p[0] == '/',
{
    reveal(path_parts);
    let all = path_parts(p, platform);
    let root = part(ROOT_DIR, Seq::empty(), Seq::empty());
    let here = part(CUR_DIR, Seq::empty(), Seq::empty());
    assert(p.skip(0) == p);
    let none = Seq::<PathPart>::empty();
    let (first, rest) = if p.len() > 0 && p[0] == '/' {
        (none.push(root), p.skip(1))
    } else if p.len() > 0 && p[0] == '.' && (p.len() == 1 || p[1] == '/') {
        (none.push(here), p.skip(1))
    } else {
        (none, p)
    };
    let more = body_parts(rest, platform, false);
    assert(all == first + more);
    assert forall|i: int| 0 <= i < all.len() implies is_unix_part(#[trigger] all[i], i) by {
        if i < first.len() {
            assert(all[i] == first[i]);
        } else {
            assert(all[i] == more[i - first.len()]);
            lemma_body_shape(rest, platform, i - first.len());
        }
    }
    if all.len() > 0 && first.len() == 0 {
        assert(all[0] == more[0]);
        lemma_body_shape(rest, platform, 0);
    }
}

proof fn lemma_tidy_unix(p: Seq<char>, platform: Platform)
    requires
        platform != Platform::Windows,
    ensures
        is_tidy(tidy_parts(p, platform)),
        tidy_parts(p, platform).len() > 0 && tidy_parts(p, platform)[0].rank == ROOT_DIR <==> p.len()
            > 0 && p[0] == '/',
{
    lemma_unix_shape(p, platform);
    lemma_tidy_shape(path_parts(p, platform));
}

spec fn is_tidy(parts: Seq<PathPart>) -> bool {
    forall|i: int| 0 <= i < parts.len() ==> is_tidy_part(#[trigger] parts[i], i)
}

proof fn lemma_token(x: PathPart)
    requires
        is_tidy_part(x, 1),
    ensures
        token(x).len() > 0,
        forall|i: int| 0 <= i < token(x).len() ==> token(x)[i] != '/',
{
    if x.rank == NORMAL {
        assert forall|i: int| 0 <= i < token(x).len() implies token(x)[i] != '/' by {
            assert(x.head.contains(x.head[i]));
        }
    }
}

/// The text of tidy parts begins with the text of the first of them, behind which it ends or goes on
/// with a `/`.
proof fn lemma_text_begins(parts: Seq<PathPart>, k: int)
    requires
        is_tidy(parts),
        0 <= k < parts.len(),
        parts[k].rank != ROOT_DIR,
    ensures
        ({
            let all = tidy_text(parts, Seq::empty());
            let start = stem(parts.take(k), Seq::empty()) + token(parts[k]);
            &&& has_prefix(all, start)
            &&& all.len() > start.len() ==> all[start.len() as int] == '/'
            &&& all.len() == start.len() <==> k == parts.len() - 1
        }),
{
    let none = Seq::<char>::empty();
    let front = parts.take(k + 1);
    let more = parts.skip(k + 1);
    assert(front == parts.take(k).push(parts[k]));
    assert(is_tidy_part(parts[k], k));
    lemma_text_of_next(parts.take(k), parts[k], none);
    assert(parts == front + more);
    assert forall|i: int| 0 <= i < more.len() implies ((#[trigger] more[i]).rank == PARENT_DIR
        || more[i].rank == NORMAL) by {
        assert(more[i] == parts[k + 1 + i]);
        assert(is_tidy_part(parts[k + 1 + i], k + 1 + i));
    }
    lemma_text_goes_on(front, more, none);
    if more.len() == 0 {
        assert(front + more == front);
    }
}

proof fn lemma_same_token(x: PathPart, y: PathPart)
    requires
        is_tidy_part(x, 1),
        is_tidy_part(y, 1),
        token(x) == token(y),
    ensures
        x == y,
{
}

/// Tidy text that goes on from other tidy text behind a `/` comes from parts that go on from its
/// parts.
proof fn lemma_text_within(r: Seq<PathPart>, p: Seq<PathPart>, k: int)
    requires
        is_tidy(r),
        is_tidy(p),
        is_within(tidy_text(r, Seq::empty()), tidy_text(p, Seq::empty())),
        r.len() > 0 && r[0].rank == ROOT_DIR <==> p.len() > 0 && p[0].rank == ROOT_DIR,
        0 <= k <= r.len(),
    ensures
        k <= p.len(),
        r.take(k) == p.take(k),
    decreases k,
{
    if k == 0 {
        assert(r.take(0) == p.take(0));
    } else {
        lemma_text_within(r, p, k - 1);
        let i = k - 1;
        let none = Seq::<char>::empty();
        let outer = tidy_text(r, none);
        let inner = tidy_text(p, none);
        assert(is_tidy_part(r[i], i));
        assert(has_prefix(inner, outer)) by {
            assert(inner.take(inner.len() as int) == inner);
        }
        if i == 0 && r[0].rank == ROOT_DIR {
            assert(is_tidy_part(p[0], 0));
            assert(r[0] == p[0]);
        } else {
            let x = r[i];
            lemma_text_begins(r, i);
            lemma_token(x);
            let base = stem(r.take(i), none);
            let a = base + token(x);
            let m = base.len() as int;
            if i >= p.len() {
                assert(p.take(i) == p);
                assert(r.take(i) == p);
                lemma_stem_longer(p);
                assert(outer.len() >= a.len());
            } else {
                let y = p[i];
                assert(is_tidy_part(y, i));
                if i == 0 {
                    assert(y.rank != ROOT_DIR);
                }
                lemma_text_begins(p, i);
                lemma_token(y);
                let b = base + token(y);
                let na = token(x).len() as int;
                let nb = token(y).len() as int;
                assert(inner.take(a.len() as int) == outer.take(a.len() as int)) by {
                    assert(inner.take(outer.len() as int).take(a.len() as int) == inner.take(
                        a.len() as int,
                    ));
                }
                if na < nb {
                    assert(inner[m + na] == b[m + na]) by {
                        assert(inner.take(b.len() as int)[m + na] == inner[m + na]);
                    }
                    assert(b[m + na] == token(y)[na]);
                    if outer.len() > a.len() {
                        assert(inner.take(outer.len() as int)[m + na] == outer[m + na]);
                    } else {
                        assert(outer == a) by {
                            assert(outer.take(outer.len() as int) == outer);
                        }
                        assert(outer.last() == token(x)[na - 1]);
                    }
                } else if nb < na {
                    assert(inner.take(a.len() as int)[m + nb] == a[m + nb]);
                    assert(a[m + nb] == token(x)[nb]);
                } else {
                    assert(inner.take(a.len() as int) == inner.take(b.len() as int));
                    assert(a.skip(m) == token(x));
                    assert(b.skip(m) == token(y));
                    lemma_same_token(x, y);
                }
            }
        }
        assert(r.take(k) == r.take(i).push(r[i]));
        assert(p.take(k) == p.take(i).push(p[i]));
    }
}

proof fn lemma_stem_longer(parts: Seq<PathPart>)
    ensures
        stem(parts, Seq::empty()).len() >= tidy_text(parts, Seq::empty()).len(),
{
}

/// On systems with Unix paths, a path lies in a directory exactly when both start at a root or neither
/// does, the parts of the directory, with dots resolved, are the first parts of the path, and the path
/// leads no further up.
pub proof fn law_lies_in_by_parts(p: Seq<char>, root: Seq<char>, platform: Platform)
    requires
        platform != Platform::Windows,
    ensures
        lies_in(p, root, platform) <==> ({
            let outer = tidy_parts(root, platform);
            let inner = tidy_parts(p, platform);
            &&& (root.len() > 0 && root[0] == '/') == (p.len() > 0 && p[0] == '/')
            &&& outer.len() <= inner.len()
            &&& inner.take(outer.len() as int) == outer
            &&& levels_up(root, platform) == levels_up(p, platform)
        }),
{
    let none = Seq::<char>::empty();
    let outer = tidy_parts(root, platform);
    let inner = tidy_parts(p, platform);
    assert(root.take(0) == none && p.take(0) == none);
    lemma_tidy_unix(root, platform);
    lemma_tidy_unix(p, platform);
    let a = tidy_text(outer, none);
    let b = tidy_text(inner, none);
    lemma_first_character(outer);
    lemma_first_character(inner);
    if is_within(a, b) {
        assert(a[0] == b[0]) by {
            if a != b {
                assert(b.take(a.len() as int)[0] == b[0]);
            }
        }
        lemma_text_within(outer, inner, outer.len() as int);
        assert(outer.take(outer.len() as int) == outer);
    }
    if outer.len() <= inner.len() && inner.take(outer.len() as int) == outer && ((outer.len() > 0
        && outer[0].rank == ROOT_DIR) == (inner.len() > 0 && inner[0].rank == ROOT_DIR)) {
        let more = inner.skip(outer.len() as int);
        assert(inner == outer + more);
        if outer.len() > 0 && outer.last().rank == ROOT_DIR {
            assert(outer[outer.len() - 1] == outer.last());
            assert(is_tidy_part(outer.last(), outer.len() - 1));
            assert(outer.len() == 1);
            assert(a == seq!['/']);
            assert(b.take(1) == a);
        } else {
            if outer.len() > 0 {
                assert(is_tidy_part(outer[outer.len() - 1], outer.len() - 1));
            }
            assert forall|i: int| 0 <= i < more.len() implies ((#[trigger] more[i]).rank
                == PARENT_DIR || more[i].rank == NORMAL) by {
                assert(more[i] == inner[outer.len() + i]);
                assert(is_tidy_part(inner[outer.len() + i], outer.len() + i));
            }
            lemma_text_goes_on(outer, more, none);
            if more.len() == 0 {
                assert(outer + more == outer);
            }
        }
    }
}

proof fn lemma_first_character(parts: Seq<PathPart>)
    requires
        is_tidy(parts),
    ensures
        tidy_text(parts, Seq::empty()).len() > 0,
        tidy_text(parts, Seq::empty())[0] == (if parts.len() > 0 && parts[0].rank == ROOT_DIR {
            '/'
        } else {
            '.'
        }),
    decreases parts.len(),
{
    if parts.len() > 0 {
        let front = parts.drop_last();
        assert forall|i: int| 0 <= i < front.len() implies is_tidy_part(#[trigger] front[i], i) by {
            assert(front[i] == parts[i]);
        }
        lemma_first_character(front);
        assert(is_tidy_part(parts[parts.len() - 1], parts.len() - 1));
        if front.len() > 0 {
            assert(front[0] == parts[0]);
            assert(is_tidy_part(front[front.len() - 1], front.len() - 1));
        }
    }
}

/// Every path that starts at the root lies in the root.
pub proof fn law_root_holds_all(p: Seq<char>, platform: Platform)
    requires
        platform != Platform::Windows,
        p.len() > 0,
        p[0] == '/',
    ensures
        lies_in(p, seq!['/'], platform),
{
    let root = seq!['/'];
    law_lies_in_by_parts(p, root, platform);
    law_unix_parts(Seq::empty(), seq!['x'], platform);
    lemma_tidy_unix(p, platform);
    lemma_tidy_unix(root, platform);
    let parts = path_parts(root, platform);
    let outer = tidy_parts(root, platform);
    let inner = tidy_parts(p, platform);
    assert(parts.drop_last() == Seq::<PathPart>::empty());
    assert(outer == Seq::<PathPart>::empty().push(parts[0]));
    assert(outer[0] == part(ROOT_DIR, Seq::empty(), Seq::empty()));
    assert(is_tidy_part(inner[0], 0));
    assert(inner.take(1) == outer);
    lemma_unix_shape(p, platform);
    lemma_unix_shape(root, platform);
    lemma_no_parents_beneath_root(path_parts(p, platform));
    lemma_no_parents_beneath_root(parts);
}

/// What starts at a root leads above nothing.
proof fn lemma_no_parents_beneath_root(parts: Seq<PathPart>)
    requires
        forall|i: int| 0 <= i < parts.len() ==> is_unix_part(#[trigger] parts[i], i),
        parts.len() > 0,
        parts[0].rank == ROOT_DIR,
    ensures
        count_parents(tidied(parts)) == 0,
        tidied(parts).len() > 0,
        tidied(parts).last().rank == ROOT_DIR || tidied(parts).last().rank == NORMAL,
        tidied(parts)[0].rank == ROOT_DIR,
        forall|i: int| 0 < i < tidied(parts).len() ==> (#[trigger] tidied(parts)[i]).rank == NORMAL,
    decreases parts.len(),
{
    let front = parts.drop_last();
    let x = parts.last();
    assert(is_unix_part(parts[parts.len() - 1], parts.len() - 1));
    reveal_with_fuel(count_parents, 2);
    if parts.len() == 1 {
        assert(front == Seq::<PathPart>::empty());
        assert(tidied(front) == front);
        assert(tidied(parts) == front.push(x));
        assert(front.push(x).drop_last() == front);
    } else {
        assert(front[0] == parts[0]);
        assert forall|i: int| 0 <= i < front.len() implies is_unix_part(#[trigger] front[i], i) by {
            assert(front[i] == parts[i]);
        }
        lemma_no_parents_beneath_root(front);
        let t = tidied(front);
        let r = tidied(parts);
        if x.rank == PARENT_DIR && t.last().rank == NORMAL {
            assert(r == t.drop_last());
            assert(t.len() > 1) by {
                assert(t[0].rank == ROOT_DIR);
            }
            assert(r[r.len() - 1] == t[t.len() - 2]);
            assert forall|i: int| 0 < i < r.len() implies (#[trigger] r[i]).rank == NORMAL by {
                assert(r[i] == t[i]);
            }
        } else if x.rank == NORMAL {
            assert(r == t.push(x));
            assert(r.drop_last() == t);
            assert forall|i: int| 0 < i < r.len() implies (#[trigger] r[i]).rank == NORMAL by {
                if i < t.len() {
                    assert(r[i] == t[i]);
                }
            }
        }
    }
}

/// Why a write is denied: in read-only mode because of the mode; in the denied zone because of the
/// first denied path that holds the target, which is named; and otherwise because it lies outside.
pub proof fn law_reasons(
    policy: SandboxPolicy,
    target: Seq<char>,
    before: Seq<Seq<char>>,
    d: Seq<char>,
    after: Seq<Seq<char>>,
    platform: Platform,
)
    requires
        policy.denied() == before.push(d) + after,
        forall|i: int| 0 <= i < before.len() ==> !lies_in(target, #[trigger] before[i], platform),
    ensures
        policy.mode == SandboxMode::ReadOnly ==> denial(policy, target, platform)
            == "sandbox is in read-only mode, all writes are blocked"@,
        policy.mode != SandboxMode::ReadOnly && lies_in(target, d, platform) ==> denial(
            policy,
            target,
            platform,
        ) == "path is in the denied zone: "@ + d,
        policy.mode != SandboxMode::ReadOnly && !lies_in_any(target, policy.denied(), platform)
            ==> denial(policy, target, platform)
            == "path is outside the allowed project directory"@,
{
    let all = policy.denied();
    assert(all[before.len() as int] == d);
    if lies_in(target, d, platform) {
        assert(lies_in(target, all[before.len() as int], platform));
        lemma_first_holding(target, before, d, after, platform);
    }
}

proof fn lemma_first_holding(
    p: Seq<char>,
    before: Seq<Seq<char>>,
    d: Seq<char>,
    after: Seq<Seq<char>>,
    platform: Platform,
)
    requires
        forall|i: int| 0 <= i < before.len() ==> !lies_in(p, #[trigger] before[i], platform),
        lies_in(p, d, platform),
    ensures
        first_holding(p, before.push(d) + after, platform) == d,
    decreases before.len(),
{
    let all = before.push(d) + after;
    if before.len() == 0 {
        assert(all[0] == d);
    } else {
        let rest = before.drop_first();
        assert(all[0] == before[0]);
        assert(all.drop_first() == rest.push(d) + after);
        assert forall|i: int| 0 <= i < rest.len() implies !lies_in(p, #[trigger] rest[i], platform) by {
            assert(rest[i] == before[i + 1]);
        }
        lemma_first_holding(p, rest, d, after, platform);
    }
}

/// With workspace-write a write is allowed exactly when the target lies in a writable path and in no
/// denied one; with full access always, and in read-only mode never.
pub proof fn law_what_is_allowed(policy: SandboxPolicy, target: Seq<char>, platform: Platform)
    ensures
        policy.mode == SandboxMode::FullAccess ==> allows(policy, target, platform),
        policy.mode == SandboxMode::ReadOnly ==> !allows(policy, target, platform),
        policy.mode == SandboxMode::WorkspaceWrite ==> (allows(policy, target, platform) <==> ({
            &&& exists|r: Seq<char>|
                (policy.writable_roots.deep_view().contains(r)
                    || policy.extra_writable_roots.deep_view().contains(r)) && #[trigger] lies_in(
                    target,
                    r,
                    platform,
                )
            &&& forall|d: Seq<char>|
                policy.denied_write_paths.deep_view().contains(d) ==> !(#[trigger] lies_in(
                    target,
                    d,
                    platform,
                ))
        })),
{
    let w = policy.writable();
    let n = policy.denied();
    if lies_in_any(target, w, platform) {
        let i = choose|i: int| 0 <= i < w.len() && lies_in(target, #[trigger] w[i], platform);
        law_paths_of_policy(policy, w[i]);
        assert(w.contains(w[i]));
        assert(lies_in(target, w[i], platform));
    }
    if exists|r: Seq<char>|
        (policy.writable_roots.deep_view().contains(r)
            || policy.extra_writable_roots.deep_view().contains(r)) && #[trigger] lies_in(
            target,
            r,
            platform,
        ) {
        let r = choose|r: Seq<char>|
            (policy.writable_roots.deep_view().contains(r)
                || policy.extra_writable_roots.deep_view().contains(r)) && #[trigger] lies_in(
                target,
                r,
                platform,
            );
        law_paths_of_policy(policy, r);
        let i = choose|i: int| 0 <= i < w.len() && w[i] == r;
        assert(lies_in(target, w[i], platform));
    }
    if lies_in_any(target, n, platform) {
        let i = choose|i: int| 0 <= i < n.len() && lies_in(target, #[trigger] n[i], platform);
        assert(n.contains(n[i]));
        assert(policy.denied_write_paths.deep_view().contains(n[i]));
    } else {
        assert forall|d: Seq<char>| policy.denied_write_paths.deep_view().contains(d) implies !(
        #[trigger] lies_in(target, d, platform)) by {
            let i = choose|i: int| 0 <= i < n.len() && n[i] == d;
            assert(!lies_in(target, n[i], platform));
        }
    }
}

/// With the policy that a workspace starts with, one can write in the directory of the workspace and
/// in the existing directories that `TEMP`, `TMP` and `TMPDIR` name, unless that lies in a denied
/// directory; one cannot write in a personal directory of a known home, and nowhere else. The network
/// is closed.
pub proof fn law_default_workspace(
    policy: SandboxPolicy,
    dir: Seq<char>,
    host: &Host,
    home: Seq<char>,
    target: Seq<char>,
)
    requires
        policy.is_default_workspace(dir, host),
        home_directory(host.env.pairs(), host.platform) == Some(home),
        home.len() > 0,
    ensures
        policy.network == NetworkPolicy::Restricted,
        forall|d: Seq<char>|
            host.has_path(d) && ({
                ||| d == home + "/Desktop"@
                ||| d == home + "/Documents"@
                ||| d == home + "/Downloads"@
                ||| d == home + "/Pictures"@
                ||| d == home + "/Music"@
                ||| d == home + "/Videos"@
            }) && #[trigger] lies_in(target, d, host.platform) ==> !allows(
                policy,
                target,
                host.platform,
            ),
        allows(policy, target, host.platform) ==> exists|r: Seq<char>| #[trigger]
            lies_in(target, r, host.platform) && ({
                ||| r == dir
                ||| host.has_path(r) && ({
                    ||| host.spec_var("TEMP"@) == Some(r)
                    ||| host.spec_var("TMP"@) == Some(r)
                    ||| host.spec_var("TMPDIR"@) == Some(r)
                })
            }),
        forall|r: Seq<char>|
            #[trigger] lies_in(target, r, host.platform) && !lies_in_any(
                target,
                policy.denied(),
                host.platform,
            ) && ({
                ||| r == dir
                ||| host.has_path(r) && ({
                    ||| host.spec_var("TEMP"@) == Some(r)
                    ||| host.spec_var("TMP"@) == Some(r)
                    ||| host.spec_var("TMPDIR"@) == Some(r)
                })
            }) ==> allows(policy, target, host.platform),
{
    let env = host.env.pairs();
    let existing = host.existing.deep_view();
    let platform = host.platform;
    let denied = policy.denied();
    let w = policy.writable();
    let temp = those_existing(temp_directories(env, platform), existing);
    assert forall|d: Seq<char>|
        host.has_path(d) && ({
            ||| d == home + "/Desktop"@
            ||| d == home + "/Documents"@
            ||| d == home + "/Downloads"@
            ||| d == home + "/Pictures"@
            ||| d == home + "/Music"@
            ||| d == home + "/Videos"@
        }) && #[trigger] lies_in(target, d, platform) implies !allows(policy, target, platform) by {
        law_default_denied_paths(env, platform, existing, home, d);
        let i = choose|i: int| 0 <= i < denied.len() && denied[i] == d;
        assert(lies_in(target, denied[i], platform));
    }
    if allows(policy, target, platform) {
        let i = choose|i: int| 0 <= i < w.len() && lies_in(target, #[trigger] w[i], platform);
        if i > 0 {
            assert(w[i] == temp[i - 1]);
            assert(temp.contains(w[i]));
            law_temporary_directories(env, platform, existing, w[i]);
        }
        assert(lies_in(target, w[i], platform));
    }
    assert forall|r: Seq<char>|
        #[trigger] lies_in(target, r, platform) && !lies_in_any(target, denied, platform) && ({
            ||| r == dir
            ||| host.has_path(r) && ({
                ||| host.spec_var("TEMP"@) == Some(r)
                ||| host.spec_var("TMP"@) == Some(r)
                ||| host.spec_var("TMPDIR"@) == Some(r)
            })
        }) implies allows(policy, target, platform) by {
        law_temporary_directories(env, platform, existing, r);
        if r == dir {
            assert(w[0] == r);
            assert(lies_in(target, w[0], platform));
        } else {
            let i = choose|i: int| 0 <= i < temp.len() && temp[i] == r;
            assert(w[i + 1] == r);
            assert(lies_in(target, w[i + 1], platform));
        }
    }
}

/// The read-only policy allows no write and closes the network; the full-access policy allows every
/// write and leaves the network open.
pub proof fn law_other_defaults(policy: SandboxPolicy, target: Seq<char>, platform: Platform)
    ensures
        policy.is_default_read_only() ==> !allows(policy, target, platform) && policy.network
            == NetworkPolicy::Restricted && policy.mode == SandboxMode::ReadOnly,
        policy.is_default_full_access() ==> allows(policy, target, platform) && policy.network
            == NetworkPolicy::Enabled && policy.mode == SandboxMode::FullAccess,
{
}

} // verus!
