//! The order of paths, and lists of paths without repetition.

use crate::host::Platform;
use crate::paths::{path_parts, parts_view, split_path, Part, PathPart};
use crate::text::chars_of;
use vstd::prelude::*;

verus! {

/// The order of two texts by their characters: negative, zero or positive as `a` comes before
/// `b`, is `b`, or comes after it.
pub open spec fn text_order(a: Seq<char>, b: Seq<char>) -> int
    decreases a.len(),
{
    if a.len() == 0 || b.len() == 0 {
        if a.len() > 0 {
            1
        } else if b.len() > 0 {
            -1
        } else {
            0
        }
    } else if a[0] < b[0] {
        -1
    } else if b[0] < a[0] {
        1
    } else {
        text_order(a.drop_first(), b.drop_first())
    }
}

/// The order of two parts: by rank, then by their texts.
pub open spec fn part_order(a: PathPart, b: PathPart) -> int {
    if a.rank < b.rank {
        -1
    } else if b.rank < a.rank {
        1
    } else if text_order(a.head, b.head) != 0 {
        text_order(a.head, b.head)
    } else {
        text_order(a.tail, b.tail)
    }
}

/// The order of two lists of parts, by the first part in which they differ.
pub open spec fn parts_order(a: Seq<PathPart>, b: Seq<PathPart>) -> int
    decreases a.len(),
{
    if a.len() == 0 || b.len() == 0 {
        if a.len() > 0 {
            1
        } else if b.len() > 0 {
            -1
        } else {
            0
        }
    } else if part_order(a[0], b[0]) != 0 {
        part_order(a[0], b[0])
    } else {
        parts_order(a.drop_first(), b.drop_first())
    }
}

/// The order of two paths.
pub open spec fn path_order(a: Seq<char>, b: Seq<char>, platform: Platform) -> int {
    parts_order(path_parts(a, platform), path_parts(b, platform))
}

/// Whether two texts are the same path.
pub open spec fn same_path(a: Seq<char>, b: Seq<char>, platform: Platform) -> bool {
    path_parts(a, platform) == path_parts(b, platform)
}

/// Texts are totally ordered.
pub proof fn lemma_text_order_total(a: Seq<char>, b: Seq<char>)
    ensures
        text_order(a, b) == -text_order(b, a),
        text_order(a, b) == 0 <==> a == b,
        -1 <= text_order(a, b) <= 1,
    decreases a.len(),
{
    if a.len() > 0 && b.len() > 0 && a[0] == b[0] {
        lemma_text_order_total(a.drop_first(), b.drop_first());
        if a.drop_first() == b.drop_first() {
            assert(a == seq![a[0]] + a.drop_first());
            assert(b == seq![b[0]] + b.drop_first());
        }
    }
    if a.len() == 0 && b.len() == 0 {
        assert(a == b);
    }
}

/// The order of texts is transitive.
pub proof fn lemma_text_order_transitive(a: Seq<char>, b: Seq<char>, c: Seq<char>)
    requires
        text_order(a, b) <= 0,
        text_order(b, c) <= 0,
    ensures
        text_order(a, c) <= 0,
        text_order(a, b) < 0 || text_order(b, c) < 0 ==> text_order(a, c) < 0,
    decreases a.len(),
{
    if a.len() > 0 && b.len() > 0 && c.len() > 0 && a[0] == b[0] && b[0] == c[0] {
        lemma_text_order_transitive(a.drop_first(), b.drop_first(), c.drop_first());
    }
}

proof fn lemma_part_order_total(a: PathPart, b: PathPart)
    ensures
        part_order(a, b) == -part_order(b, a),
        part_order(a, b) == 0 <==> a == b,
        -1 <= part_order(a, b) <= 1,
{
    lemma_text_order_total(a.head, b.head);
    lemma_text_order_total(a.tail, b.tail);
}

proof fn lemma_part_order_transitive(a: PathPart, b: PathPart, c: PathPart)
    requires
        part_order(a, b) <= 0,
        part_order(b, c) <= 0,
    ensures
        part_order(a, c) <= 0,
        part_order(a, b) < 0 || part_order(b, c) < 0 ==> part_order(a, c) < 0,
{
    if a.rank == b.rank && b.rank == c.rank {
        lemma_text_order_transitive(a.head, b.head, c.head);
        if text_order(a.head, b.head) == 0 && text_order(b.head, c.head) == 0 {
            lemma_text_order_total(a.head, b.head);
            lemma_text_order_transitive(a.tail, b.tail, c.tail);
        }
    }
}

proof fn lemma_parts_order_total(a: Seq<PathPart>, b: Seq<PathPart>)
    ensures
        parts_order(a, b) == -parts_order(b, a),
        parts_order(a, b) == 0 <==> a == b,
        -1 <= parts_order(a, b) <= 1,
    decreases a.len(),
{
    if a.len() > 0 && b.len() > 0 {
        lemma_part_order_total(a[0], b[0]);
        lemma_parts_order_total(a.drop_first(), b.drop_first());
        if a[0] == b[0] && a.drop_first() == b.drop_first() {
            assert(a == seq![a[0]] + a.drop_first());
            assert(b == seq![b[0]] + b.drop_first());
        }
    }
    if a.len() == 0 && b.len() == 0 {
        assert(a == b);
    }
}

proof fn lemma_parts_order_transitive(a: Seq<PathPart>, b: Seq<PathPart>, c: Seq<PathPart>)
    requires
        parts_order(a, b) <= 0,
        parts_order(b, c) <= 0,
    ensures
        parts_order(a, c) <= 0,
        parts_order(a, b) < 0 || parts_order(b, c) < 0 ==> parts_order(a, c) < 0,
    decreases a.len(),
{
    if a.len() > 0 && b.len() > 0 && c.len() > 0 {
        lemma_part_order_transitive(a[0], b[0], c[0]);
        lemma_part_order_total(a[0], b[0]);
        lemma_part_order_total(b[0], c[0]);
        if part_order(a[0], b[0]) == 0 && part_order(b[0], c[0]) == 0 {
            lemma_parts_order_transitive(a.drop_first(), b.drop_first(), c.drop_first());
        }
    }
}

/// Paths are totally ordered: turning two round turns the order round, and only the same path is
/// equal in order.
pub proof fn law_path_order_total(a: Seq<char>, b: Seq<char>, platform: Platform)
    ensures
        path_order(a, b, platform) == -path_order(b, a, platform),
        path_order(a, b, platform) == 0 <==> same_path(a, b, platform),
{
    lemma_parts_order_total(path_parts(a, platform), path_parts(b, platform));
}

/// The order of paths is transitive.
pub proof fn law_path_order_transitive(
    a: Seq<char>,
    b: Seq<char>,
    c: Seq<char>,
    platform: Platform,
)
    requires
        path_order(a, b, platform) <= 0,
        path_order(b, c, platform) <= 0,
    ensures
        path_order(a, c, platform) <= 0,
        path_order(a, b, platform) < 0 || path_order(b, c, platform) < 0 ==> path_order(
            a,
            c,
            platform,
        ) < 0,
{
    lemma_parts_order_transitive(
        path_parts(a, platform),
        path_parts(b, platform),
        path_parts(c, platform),
    );
}

/// Tells the order of two texts: -1, 0 or 1 as `a` comes before `b`, is `b`, or comes after it.
pub fn order_texts(a: &Vec<char>, b: &Vec<char>) -> (r: i8)
    ensures
        r == text_order(a@, b@),
{
    let n: usize = a.len();
    let m: usize = b.len();
    let mut i: usize = 0;
    assert(a@.skip(0) == a@);
    assert(b@.skip(0) == b@);
    while i < n && i < m
        invariant
            i <= n,
            i <= m,
            n == a@.len(),
            m == b@.len(),
            text_order(a@, b@) == text_order(a@.skip(i as int), b@.skip(i as int)),
        decreases n - i,
    {
        assert(a@.skip(i as int)[0] == a@[i as int]);
        assert(b@.skip(i as int)[0] == b@[i as int]);
        if a[i] < b[i] {
            return -1;
        }
        if b[i] < a[i] {
            return 1;
        }
        assert(a@.skip(i as int).drop_first() == a@.skip(i + 1));
        assert(b@.skip(i as int).drop_first() == b@.skip(i + 1));
        i = i + 1;
    }
    if i < n {
        1
    } else if i < m {
        -1
    } else {
        0
    }
}

fn order_parts(a: &Part, b: &Part) -> (r: i8)
    ensures
        r == part_order(a@, b@),
{
    if a.rank < b.rank {
        return -1;
    }
    if b.rank < a.rank {
        return 1;
    }
    let by_head: i8 = order_texts(&a.head, &b.head);
    if by_head != 0 {
        by_head
    } else {
        order_texts(&a.tail, &b.tail)
    }
}

/// Tells the order of two paths: -1, 0 or 1 as `a` comes before `b`, is the same, or comes after.
pub fn order_paths(a: &str, b: &str, platform: Platform) -> (r: i8)
    ensures
        r == path_order(a@, b@, platform),
{
    let x = split_path(&chars_of(a), platform);
    let y = split_path(&chars_of(b), platform);
    let ghost s = parts_view(x@);
    let ghost t = parts_view(y@);
    let n: usize = x.len();
    let m: usize = y.len();
    let mut i: usize = 0;
    assert(s.skip(0) == s);
    assert(t.skip(0) == t);
    while i < n && i < m
        invariant
            i <= n,
            i <= m,
            n == x@.len(),
            m == y@.len(),
            s == parts_view(x@),
            t == parts_view(y@),
            parts_order(s, t) == parts_order(s.skip(i as int), t.skip(i as int)),
            s == path_parts(a@, platform),
            t == path_parts(b@, platform),
        decreases n - i,
    {
        assert(s.skip(i as int)[0] == x@[i as int]@);
        assert(t.skip(i as int)[0] == y@[i as int]@);
        let o: i8 = order_parts(&x[i], &y[i]);
        if o != 0 {
            return o;
        }
        assert(s.skip(i as int).drop_first() == s.skip(i + 1));
        assert(t.skip(i as int).drop_first() == t.skip(i + 1));
        i = i + 1;
    }
    if i < n {
        1
    } else if i < m {
        -1
    } else {
        0
    }
}

/// The ascending list `s` with `p` put in its place, unless `s` holds the same path already.
pub open spec fn with_path(s: Seq<Seq<char>>, p: Seq<char>, platform: Platform) -> Seq<Seq<char>>
    decreases s.len(),
{
    if s.len() == 0 {
        seq![p]
    } else if path_order(p, s[0], platform) == 0 {
        s
    } else if path_order(p, s[0], platform) < 0 {
        seq![p] + s
    } else {
        seq![s[0]] + with_path(s.drop_first(), p, platform)
    }
}

/// The paths of `s` in ascending order, each path once, written as it first occurs in `s`.
pub open spec fn sorted_distinct(s: Seq<Seq<char>>, platform: Platform) -> Seq<Seq<char>>
    decreases s.len(),
{
    if s.len() == 0 {
        s
    } else {
        with_path(sorted_distinct(s.drop_last(), platform), s.last(), platform)
    }
}

/// Whether `s` is strictly ascending.
pub open spec fn ascending(s: Seq<Seq<char>>, platform: Platform) -> bool {
    forall|i: int, j: int|
        0 <= i < j < s.len() ==> path_order(#[trigger] s[i], #[trigger] s[j], platform) < 0
}

proof fn lemma_with_path_at(s: Seq<Seq<char>>, p: Seq<char>, platform: Platform, k: int)
    requires
        0 <= k <= s.len(),
        forall|i: int| 0 <= i < k ==> path_order(p, #[trigger] s[i], platform) > 0,
        k < s.len() ==> path_order(p, s[k], platform) <= 0,
    ensures
        with_path(s, p, platform) == (if k < s.len() && path_order(p, s[k], platform) == 0 {
            s
        } else {
            s.insert(k, p)
        }),
    decreases k,
{
    if k == 0 {
        assert(s.insert(0, p) == seq![p] + s);
    } else {
        let t = s.drop_first();
        assert(path_order(p, s[0], platform) > 0);
        assert forall|i: int| 0 <= i < k - 1 implies path_order(p, #[trigger] t[i], platform)
            > 0 by {
            assert(t[i] == s[i + 1]);
        }
        lemma_with_path_at(t, p, platform, k - 1);
        if k < s.len() && path_order(p, s[k], platform) == 0 {
            assert(seq![s[0]] + t == s);
        } else {
            assert(seq![s[0]] + t.insert(k - 1, p) == s.insert(k, p));
        }
    }
}

proof fn lemma_with_path(s: Seq<Seq<char>>, p: Seq<char>, platform: Platform)
    requires
        ascending(s, platform),
    ensures
        ascending(with_path(s, p, platform), platform),
        exists|i: int|
            0 <= i < with_path(s, p, platform).len() && same_path(
                #[trigger] with_path(s, p, platform)[i],
                p,
                platform,
            ),
        forall|x: Seq<char>|
            s.contains(x) ==> #[trigger] with_path(s, p, platform).contains(x),
        forall|i: int|
            0 <= i < with_path(s, p, platform).len() ==> {
                let x = #[trigger] with_path(s, p, platform)[i];
                s.contains(x) || (x == p && forall|j: int|
                    0 <= j < s.len() ==> !same_path(#[trigger] s[j], p, platform))
            },
{
    let k = first_not_before(s, p, platform, 0);
    lemma_first_not_before(s, p, platform, 0);
    lemma_with_path_at(s, p, platform, k);
    let r = with_path(s, p, platform);
    if k < s.len() && path_order(p, s[k], platform) == 0 {
        law_path_order_total(p, s[k], platform);
        assert(same_path(r[k], p, platform));
        assert forall|i: int| 0 <= i < r.len() implies s.contains(#[trigger] r[i]) by {
            assert(s[i] == r[i]);
        }
    } else {
        assert(r == s.insert(k, p));
        assert(r[k] == p);
        assert(same_path(r[k], p, platform));
        assert forall|x: Seq<char>| s.contains(x) implies #[trigger] r.contains(x) by {
            let i = choose|i: int| 0 <= i < s.len() && s[i] == x;
            if i < k {
                assert(r[i] == x);
            } else {
                assert(r[i + 1] == x);
            }
        }
        assert forall|j: int| 0 <= j < s.len() implies !same_path(#[trigger] s[j], p, platform) by {
            law_path_order_total(p, s[j], platform);
            if k < j {
                law_path_order_transitive(p, s[k], s[j], platform);
            }
        }
        assert forall|i: int| 0 <= i < r.len() implies s.contains(#[trigger] r[i]) || r[i] == p by {
            if i < k {
                assert(s[i] == r[i]);
            } else if i > k {
                assert(s[i - 1] == r[i]);
            }
        }
        assert forall|i: int, j: int| 0 <= i < j < r.len() implies path_order(
            #[trigger] r[i],
            #[trigger] r[j],
            platform,
        ) < 0 by {
            if j == k {
                law_path_order_total(p, s[i], platform);
            } else if i == k {
                if k < j - 1 {
                    law_path_order_transitive(p, s[k], s[j - 1], platform);
                }
            } else {
                let a = if i < k {
                    i
                } else {
                    i - 1
                };
                let b = if j < k {
                    j
                } else {
                    j - 1
                };
                assert(r[i] == s[a] && r[j] == s[b]);
            }
        }
    }
}

/// The first position from `from` on at which `s` is not before `p`.
spec fn first_not_before(s: Seq<Seq<char>>, p: Seq<char>, platform: Platform, from: int) -> int
    decreases s.len() - from,
{
    if from < 0 || from >= s.len() || path_order(p, s[from], platform) <= 0 {
        from
    } else {
        first_not_before(s, p, platform, from + 1)
    }
}

proof fn lemma_first_not_before(s: Seq<Seq<char>>, p: Seq<char>, platform: Platform, from: int)
    requires
        0 <= from <= s.len(),
    ensures
        from <= first_not_before(s, p, platform, from) <= s.len(),
        forall|i: int|
            from <= i < first_not_before(s, p, platform, from) ==> path_order(
                p,
                #[trigger] s[i],
                platform,
            ) > 0,
        first_not_before(s, p, platform, from) < s.len() ==> path_order(
            p,
            s[first_not_before(s, p, platform, from)],
            platform,
        ) <= 0,
    decreases s.len() - from,
{
    if from < s.len() && path_order(p, s[from], platform) > 0 {
        lemma_first_not_before(s, p, platform, from + 1);
    }
}

/// Whether `x` stands in `s` with no earlier writing of the same path before it.
pub open spec fn first_written(s: Seq<Seq<char>>, x: Seq<char>, platform: Platform) -> bool {
    exists|k: int|
        0 <= k < s.len() && #[trigger] s[k] == x && forall|m: int|
            0 <= m < k ==> !same_path(#[trigger] s[m], x, platform)
}

/// Whether `s` holds the path `x`, however it is written.
pub open spec fn holds_path(s: Seq<Seq<char>>, x: Seq<char>, platform: Platform) -> bool {
    exists|i: int| 0 <= i < s.len() && same_path(#[trigger] s[i], x, platform)
}

proof fn lemma_first_written_longer(
    s: Seq<Seq<char>>,
    p: Seq<char>,
    x: Seq<char>,
    platform: Platform,
)
    ensures
        first_written(s, x, platform) ==> first_written(s.push(p), x, platform),
        !holds_path(s, p, platform) ==> first_written(s.push(p), p, platform),
{
    let r = s.push(p);
    if first_written(s, x, platform) {
        let k = choose|k: int|
            0 <= k < s.len() && #[trigger] s[k] == x && forall|m: int|
                0 <= m < k ==> !same_path(#[trigger] s[m], x, platform);
        assert(r[k] == x);
        assert forall|m: int| 0 <= m < k implies !same_path(#[trigger] r[m], x, platform) by {
            assert(r[m] == s[m]);
        }
    }
    if !holds_path(s, p, platform) {
        let k = s.len() as int;
        assert(r[k] == p);
        assert forall|m: int| 0 <= m < k implies !same_path(#[trigger] r[m], p, platform) by {
            assert(r[m] == s[m]);
        }
    }
}

proof fn lemma_holds_path_contains(
    s: Seq<Seq<char>>,
    r: Seq<Seq<char>>,
    x: Seq<char>,
    platform: Platform,
)
    requires
        forall|y: Seq<char>| s.contains(y) ==> #[trigger] r.contains(y),
        holds_path(s, x, platform),
    ensures
        holds_path(r, x, platform),
{
    let j = choose|j: int| 0 <= j < s.len() && same_path(#[trigger] s[j], x, platform);
    assert(s.contains(s[j]));
    assert(r.contains(s[j]));
    let i = choose|i: int| 0 <= i < r.len() && r[i] == s[j];
    assert(same_path(r[i], x, platform));
}

/// A sorted list without repetition is strictly ascending, holds nothing but paths of the list it
/// was made from, each as it was first written there, and leaves none of them out.
pub proof fn law_sorted_distinct(s: Seq<Seq<char>>, platform: Platform)
    ensures
        ascending(sorted_distinct(s, platform), platform),
        forall|i: int|
            0 <= i < sorted_distinct(s, platform).len() ==> first_written(
                s,
                #[trigger] sorted_distinct(s, platform)[i],
                platform,
            ),
        forall|k: int|
            0 <= k < s.len() ==> holds_path(
                sorted_distinct(s, platform),
                #[trigger] s[k],
                platform,
            ),
    decreases s.len(),
{
    if s.len() > 0 {
        let t = s.drop_last();
        let p = s.last();
        let u = sorted_distinct(t, platform);
        let r = sorted_distinct(s, platform);
        assert(s == t.push(p));
        law_sorted_distinct(t, platform);
        lemma_with_path(u, p, platform);
        assert forall|k: int| 0 <= k < s.len() implies holds_path(
            r,
            #[trigger] s[k],
            platform,
        ) by {
            if k < t.len() {
                assert(s[k] == t[k]);
                lemma_holds_path_contains(u, r, t[k], platform);
            }
        }
        assert forall|i: int| 0 <= i < r.len() implies first_written(
            s,
            #[trigger] r[i],
            platform,
        ) by {
            lemma_sorted_distinct_first(t, p, i, platform);
        }
    }
}

proof fn lemma_sorted_distinct_first(t: Seq<Seq<char>>, p: Seq<char>, i: int, platform: Platform)
    requires
        ascending(sorted_distinct(t, platform), platform),
        forall|j: int|
            0 <= j < sorted_distinct(t, platform).len() ==> first_written(
                t,
                #[trigger] sorted_distinct(t, platform)[j],
                platform,
            ),
        forall|k: int|
            0 <= k < t.len() ==> holds_path(
                sorted_distinct(t, platform),
                #[trigger] t[k],
                platform,
            ),
        0 <= i < with_path(sorted_distinct(t, platform), p, platform).len(),
    ensures
        first_written(t.push(p), with_path(sorted_distinct(t, platform), p, platform)[i], platform),
{
    let u = sorted_distinct(t, platform);
    lemma_with_path(u, p, platform);
    let x = with_path(u, p, platform)[i];
    lemma_first_written_longer(t, p, x, platform);
    if u.contains(x) {
        let j = choose|j: int| 0 <= j < u.len() && u[j] == x;
        assert(first_written(t, u[j], platform));
    } else if holds_path(t, p, platform) {
        let m = choose|m: int| 0 <= m < t.len() && same_path(#[trigger] t[m], p, platform);
        assert(holds_path(u, t[m], platform));
        let j = choose|j: int| 0 <= j < u.len() && same_path(#[trigger] u[j], t[m], platform);
        assert(same_path(u[j], p, platform));
    }
}

/// Puts `p` into the ascending list `list`, unless that holds the same path already.
fn put_path(list: &mut Vec<String>, p: String, platform: Platform)
    ensures
        final(list).deep_view() == with_path(old(list).deep_view(), p@, platform),
{
    let ghost s = list.deep_view();
    let n: usize = list.len();
    let mut k: usize = 0;
    while k < n
        invariant
            k <= n,
            n == list@.len(),
            s == list.deep_view(),
            list@ == old(list)@,
            forall|i: int| 0 <= i < k ==> path_order(p@, #[trigger] s[i], platform) > 0,
        decreases n - k,
    {
        let o: i8 = order_paths(p.as_str(), list[k].as_str(), platform);
        assert(o == path_order(p@, s[k as int], platform));
        if o <= 0 {
            proof {
                lemma_with_path_at(s, p@, platform, k as int);
            }
            if o < 0 {
                let ghost t = p@;
                list.insert(k, p);
                assert(list.deep_view() == s.insert(k as int, t));
            }
            return ;
        }
        k = k + 1;
    }
    proof {
        lemma_with_path_at(s, p@, platform, n as int);
    }
    let ghost t = p@;
    list.push(p);
    assert(list.deep_view() == s.insert(n as int, t));
}

/// Sorts paths and drops repetitions.
pub fn sort_distinct(paths: &Vec<String>, platform: Platform) -> (r: Vec<String>)
    ensures
        r.deep_view() == sorted_distinct(paths.deep_view(), platform),
{
    let ghost all = paths.deep_view();
    let n: usize = paths.len();
    let mut r: Vec<String> = Vec::new();
    assert(r.deep_view() == Seq::<Seq<char>>::empty());
    for i in 0..n
        invariant
            n == paths@.len(),
            all == paths.deep_view(),
            r.deep_view() == sorted_distinct(all.take(i as int), platform),
    {
        assert(all.take(i + 1).drop_last() == all.take(i as int));
        assert(all.take(i + 1).last() == paths@[i as int]@);
        put_path(&mut r, paths[i].clone(), platform);
    }
    assert(all.take(n as int) == all);
    r
}

/// The first character in which two texts differ decides which comes first, and a text comes before
/// any longer one that begins with it.
pub proof fn law_text_order(x: Seq<char>, c: char, a: Seq<char>, d: char, b: Seq<char>)
    ensures
        c < d ==> text_order(x + seq![c] + a, x + seq![d] + b) == -1,
        d < c ==> text_order(x + seq![c] + a, x + seq![d] + b) == 1,
        text_order(x, x + seq![d] + b) == -1,
        text_order(x + seq![c] + a, x) == 1,
    decreases x.len(),
{
    let s = x + seq![c] + a;
    let t = x + seq![d] + b;
    if x.len() == 0 {
        assert(s[0] == c && t[0] == d);
    } else {
        let rest = x.drop_first();
        assert(s[0] == x[0] && t[0] == x[0]);
        assert(s.drop_first() == rest + seq![c] + a);
        assert(t.drop_first() == rest + seq![d] + b);
        law_text_order(rest, c, a, d, b);
    }
}

/// The first part in which two paths differ decides which comes first, and a path comes before what
/// lies beneath it. Names are ordered as texts.
pub proof fn law_parts_order(
    x: Seq<PathPart>,
    p: PathPart,
    a: Seq<PathPart>,
    q: PathPart,
    b: Seq<PathPart>,
)
    ensures
        part_order(p, q) != 0 ==> parts_order(x.push(p) + a, x.push(q) + b) == part_order(p, q),
        parts_order(x, x.push(q) + b) == -1,
        p.rank < q.rank ==> part_order(p, q) == -1,
        p.rank == q.rank && text_order(p.head, q.head) != 0 ==> part_order(p, q) == text_order(
            p.head,
            q.head,
        ),
        p.rank == q.rank && p.head == q.head ==> part_order(p, q) == text_order(p.tail, q.tail),
    decreases x.len(),
{
    let s = x.push(p) + a;
    let t = x.push(q) + b;
    lemma_text_order_total(p.head, q.head);
    if x.len() == 0 {
        assert(s[0] == p && t[0] == q);
    } else {
        let rest = x.drop_first();
        assert(s[0] == x[0] && t[0] == x[0]);
        lemma_part_order_total(x[0], x[0]);
        assert(s.drop_first() == rest.push(p) + a);
        assert(t.drop_first() == rest.push(q) + b);
        law_parts_order(rest, p, a, q, b);
    }
}

} // verus!
