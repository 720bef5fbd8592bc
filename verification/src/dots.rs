//! Paths without `.` and `..`: where a path leads, as far as its text tells.

use crate::host::Platform;
use crate::path_order::{law_parts_order, law_path_order_total, lemma_text_order_total, part_order,
    path_order, same_path, text_order};
use crate::paths::{append_chars, body_parts, copy_part, has_root, has_written_root, is_verbatim,
    lemma_prefix_fits, lemma_separator_at, lemma_separator_at_is_first, part, parts_view,
    path_parts, path_prefix, piece_parts, prefix_len, prefix_text, separates, separator_at,
    split_path, Part, PathPart, PathPrefix, CUR_DIR, DEVICE, DISK, NORMAL, PARENT_DIR, ROOT_DIR,
    UNC, VERBATIM, VERBATIM_DISK, VERBATIM_UNC};
use crate::text::{chars_of, string_of};
use vstd::prelude::*;

verus! {

/// The parts of a path that goes on from tidy `parts` with `x`: `.` stays there, and `..` goes back
/// over a name, stays at a root, and otherwise is kept.
pub open spec fn tidy_step(parts: Seq<PathPart>, x: PathPart) -> Seq<PathPart> {
    if x.rank == CUR_DIR {
        parts
    } else if x.rank == PARENT_DIR && parts.len() > 0 && parts.last().rank == NORMAL {
        parts.drop_last()
    } else if x.rank == PARENT_DIR && parts.len() > 0 && parts.last().rank == ROOT_DIR {
        parts
    } else {
        parts.push(x)
    }
}

/// The parts with every `.` and, as far as it goes back over a name or stays at a root, every `..`
/// resolved.
pub open spec fn tidied(parts: Seq<PathPart>) -> Seq<PathPart>
    decreases parts.len(),
{
    if parts.len() == 0 {
        parts
    } else {
        tidy_step(tidied(parts.drop_last()), parts.last())
    }
}

/// The text of tidy parts, where `prefix` is the text of the path's prefix: names follow one
/// another after `/`, and what starts at no root starts at `.`.
pub open spec fn tidy_text(parts: Seq<PathPart>, prefix: Seq<char>) -> Seq<char>
    decreases parts.len(),
{
    if parts.len() == 0 {
        seq!['.']
    } else {
        let before = parts.drop_last();
        let last = parts.last();
        if last.rank <= DISK {
            prefix
        } else if last.rank == ROOT_DIR {
            (if before.len() == 0 {
                Seq::empty()
            } else {
                prefix
            }).push('/')
        } else {
            (if before.len() > 0 && before.last().rank == ROOT_DIR {
                tidy_text(before, prefix)
            } else if before.len() > 0 && before.last().rank <= DISK {
                tidy_text(before, prefix).push('.').push('/')
            } else {
                tidy_text(before, prefix).push('/')
            }) + (if last.rank == PARENT_DIR {
                seq!['.', '.']
            } else {
                last.head
            })
        }
    }
}

/// How many of the parts are `..`.
pub open spec fn count_parents(parts: Seq<PathPart>) -> nat
    decreases parts.len(),
{
    if parts.len() == 0 {
        0
    } else {
        count_parents(parts.drop_last()) + (if parts.last().rank == PARENT_DIR {
            1nat
        } else {
            0
        })
    }
}

/// The parts of a path with its dots resolved.
pub open spec fn tidy_parts(p: Seq<char>, platform: Platform) -> Seq<PathPart> {
    tidied(path_parts(p, platform))
}

/// The text of a path with its dots resolved.
pub open spec fn without_dots(p: Seq<char>, platform: Platform) -> Seq<char> {
    tidy_text(tidy_parts(p, platform), p.take(prefix_len(p, platform)))
}

/// How many levels a path leads above where it starts.
pub open spec fn levels_up(p: Seq<char>, platform: Platform) -> nat {
    count_parents(tidy_parts(p, platform))
}

fn tidy(list: &Vec<Part>) -> (r: Vec<Part>)
    ensures
        parts_view(r@) == tidied(parts_view(list@)),
{
    let ghost all = parts_view(list@);
    let n: usize = list.len();
    let mut r: Vec<Part> = Vec::new();
    assert(parts_view(r@) == Seq::<PathPart>::empty());
    for i in 0..n
        invariant
            n == list@.len(),
            all == parts_view(list@),
            parts_view(r@) == tidied(all.take(i as int)),
    {
        assert(all.take(i + 1).drop_last() == all.take(i as int));
        assert(all.take(i + 1).last() == list@[i as int]@);
        let ghost before = parts_view(r@);
        let x = &list[i];
        let m: usize = r.len();
        assert(m > 0 ==> before.last() == r@[m - 1]@);
        if x.rank == CUR_DIR {
        } else if x.rank == PARENT_DIR && m > 0 && r[m - 1].rank == NORMAL {
            r.truncate(m - 1);
            assert(parts_view(r@) == before.drop_last());
        } else if x.rank == PARENT_DIR && m > 0 && r[m - 1].rank == ROOT_DIR {
        } else {
            r.push(copy_part(x));
            assert(parts_view(r@) == before.push(list@[i as int]@));
        }
    }
    assert(all.take(n as int) == all);
    r
}

fn write_tidy(parts: &Vec<Part>, prefix: &Vec<char>) -> (r: Vec<char>)
    ensures
        r@ == tidy_text(parts_view(parts@), prefix@),
{
    let ghost all = parts_view(parts@);
    let mut r: Vec<char> = Vec::new();
    r.push('.');
    assert(r@ == seq!['.']);
    let n: usize = parts.len();
    for i in 0..n
        invariant
            n == parts@.len(),
            all == parts_view(parts@),
            r@ == tidy_text(all.take(i as int), prefix@),
    {
        let ghost upto = all.take(i + 1);
        assert(upto.drop_last() == all.take(i as int));
        assert(upto.last() == parts@[i as int]@);
        assert(i > 0 ==> all.take(i as int).last() == parts@[i - 1]@);
        let rank: u8 = parts[i].rank;
        if rank <= DISK {
            r = Vec::new();
            append_chars(&mut r, prefix);
            assert(r@ == prefix@);
        } else if rank == ROOT_DIR {
            r = Vec::new();
            if i > 0 {
                append_chars(&mut r, prefix);
                assert(r@ == prefix@);
            }
            r.push('/');
        } else {
            if i > 0 && parts[i - 1].rank == ROOT_DIR {
            } else if i > 0 && parts[i - 1].rank <= DISK {
                r.push('.');
                r.push('/');
            } else {
                r.push('/');
            }
            let ghost before = r@;
            if rank == PARENT_DIR {
                r.push('.');
                r.push('.');
                assert(r@ == before + seq!['.', '.']);
            } else {
                append_chars(&mut r, &parts[i].head);
            }
        }
    }
    assert(all.take(n as int) == all);
    r
}

fn number_of_parents(parts: &Vec<Part>) -> (r: usize)
    ensures
        r == count_parents(parts_view(parts@)),
{
    let ghost all = parts_view(parts@);
    let n: usize = parts.len();
    let mut r: usize = 0;
    for i in 0..n
        invariant
            n == parts@.len(),
            all == parts_view(parts@),
            r <= i,
            r == count_parents(all.take(i as int)),
    {
        assert(all.take(i + 1).drop_last() == all.take(i as int));
        assert(all.take(i + 1).last() == parts@[i as int]@);
        if parts[i].rank == PARENT_DIR {
            r = r + 1;
        }
    }
    assert(all.take(n as int) == all);
    r
}

/// Resolves the dots of a path: gives its text without them, and how many levels it leads above
/// where it starts.
pub fn resolve_dots(p: &str, platform: Platform) -> (r: (String, usize))
    ensures
        r.0@ == without_dots(p@, platform),
        r.1 == levels_up(p@, platform),
{
    let chars = chars_of(p);
    let parts = tidy(&split_path(&chars, platform));
    let prefix = prefix_text(&chars, platform);
    let text = write_tidy(&parts, &prefix);
    (string_of(&text), number_of_parents(&parts))
}

/// A name and `..` after it cancel out, whatever follows them.
pub proof fn law_step_back(
    parts: Seq<PathPart>,
    name: PathPart,
    parent: PathPart,
    rest: Seq<PathPart>,
)
    requires
        name.rank == NORMAL,
        parent.rank == PARENT_DIR,
    ensures
        tidied(parts.push(name).push(parent) + rest) == tidied(parts + rest),
{
    let a = parts.push(name);
    let b = a.push(parent);
    assert(a.drop_last() == parts);
    assert(b.drop_last() == a);
    assert(tidied(a) == tidied(parts).push(name));
    assert(tidied(parts).push(name).drop_last() == tidied(parts));
    lemma_tidied_goes_on(b, parts, rest);
}

proof fn lemma_tidied_goes_on(a: Seq<PathPart>, b: Seq<PathPart>, rest: Seq<PathPart>)
    requires
        tidied(a) == tidied(b),
    ensures
        tidied(a + rest) == tidied(b + rest),
    decreases rest.len(),
{
    if rest.len() == 0 {
        assert(a + rest == a);
        assert(b + rest == b);
    } else {
        lemma_tidied_goes_on(a, b, rest.drop_last());
        assert((a + rest).drop_last() == a + rest.drop_last());
        assert((b + rest).drop_last() == b + rest.drop_last());
    }
}

proof fn lemma_body_parts_go_on(
    a: Seq<char>,
    c: char,
    b: Seq<char>,
    platform: Platform,
    verbatim: bool,
)
    requires
        separates(c, platform, verbatim),
    ensures
        body_parts(a + seq![c] + b, platform, verbatim) == body_parts(a, platform, verbatim)
            + body_parts(b, platform, verbatim),
    decreases a.len(),
{
    let s = a + seq![c] + b;
    lemma_separator_at(a, platform, verbatim);
    let at = separator_at(a, platform, verbatim);
    assert(s[a.len() as int] == c);
    assert forall|i: int| 0 <= i < at implies !separates(#[trigger] s[i], platform, verbatim) by {
        assert(s[i] == a[i]);
    }
    if at < a.len() {
        assert(s[at] == a[at]);
    }
    lemma_separator_at_is_first(s, platform, verbatim, at);
    assert(s.take(at) == a.take(at));
    let none = Seq::<PathPart>::empty();
    if a.len() == 0 {
        assert(s.skip(1) == b);
        assert(piece_parts(s.take(0), verbatim) == none);
        assert(body_parts(s, platform, verbatim) == body_parts(b, platform, verbatim));
    } else if at < a.len() {
        let rest = a.skip(at + 1);
        assert(s.skip(at + 1) == rest + seq![c] + b);
        lemma_body_parts_go_on(rest, c, b, platform, verbatim);
        assert(body_parts(a, platform, verbatim) == piece_parts(a.take(at), verbatim) + body_parts(
            rest,
            platform,
            verbatim,
        ));
        assert(body_parts(s, platform, verbatim) == piece_parts(a.take(at), verbatim) + (body_parts(
            rest,
            platform,
            verbatim,
        ) + body_parts(b, platform, verbatim)));
    } else {
        assert(s.skip(at + 1) == b);
        assert(body_parts(Seq::<char>::empty(), platform, verbatim) == none);
        assert(body_parts(a, platform, verbatim) == piece_parts(a.take(at), verbatim) + none);
        assert(body_parts(s, platform, verbatim) == piece_parts(a.take(at), verbatim) + body_parts(
            b,
            platform,
            verbatim,
        ));
    }
}

proof fn lemma_one_piece(name: Seq<char>, platform: Platform, verbatim: bool)
    requires
        is_piece(name, platform, verbatim),
    ensures
        body_parts(name, platform, verbatim) == piece_parts(name, verbatim),
{
    lemma_separator_at(name, platform, verbatim);
    let at = separator_at(name, platform, verbatim);
    assert(at == name.len());
    assert(name.take(at) == name);
    let none = Seq::<PathPart>::empty();
    assert(body_parts(Seq::<char>::empty(), platform, verbatim) == none);
    assert(body_parts(name, platform, verbatim) == piece_parts(name, verbatim) + none);
}

/// Whether `s` is what can stand between two separators.
pub open spec fn is_piece(s: Seq<char>, platform: Platform, verbatim: bool) -> bool {
    s.len() > 0 && forall|i: int|
        0 <= i < s.len() ==> !separates(#[trigger] s[i], platform, verbatim)
}

/// The path `before` and `after` it, with a step into the directory `name` and back between them.
/// The separators around the name are `c` and `d`.
pub open spec fn with_detour(
    before: Seq<char>,
    c: char,
    name: Seq<char>,
    d: char,
    after: Seq<char>,
) -> Seq<char> {
    before + seq![c] + name + seq![d] + seq!['.', '.'] + after
}

/// Whether the path with the detour goes into a directory and back there, and goes on from where it
/// was: the name is a name and stands between separators, the path without the detour has the same
/// prefix and begins at a root if the detour does.
pub open spec fn is_detour(
    before: Seq<char>,
    c: char,
    name: Seq<char>,
    d: char,
    after: Seq<char>,
    platform: Platform,
) -> bool {
    let long = with_detour(before, c, name, d, after);
    let short = before + after;
    let verbatim = is_verbatim(long, platform);
    &&& separates(c, platform, verbatim)
    &&& separates(d, platform, verbatim)
    &&& after.len() > 0 ==> separates(after[0], platform, verbatim)
    &&& is_piece(name, platform, verbatim)
    &&& name != seq!['.'] && name != seq!['.', '.']
    &&& path_prefix(long, platform) == path_prefix(short, platform)
    &&& prefix_len(long, platform) <= before.len()
    &&& short.len() == prefix_len(long, platform) ==> has_root(short, platform) && !verbatim
}

/// What follows a detour: its parts are those of the name and of `..`, and then those of the rest.
proof fn lemma_detour_parts(
    x: Seq<char>,
    c: char,
    name: Seq<char>,
    d: char,
    after: Seq<char>,
    platform: Platform,
    verbatim: bool,
)
    requires
        separates(c, platform, verbatim),
        separates(d, platform, verbatim),
        after.len() > 0 ==> separates(after[0], platform, verbatim),
        is_piece(name, platform, verbatim),
    ensures
        body_parts(with_detour(x, c, name, d, after), platform, verbatim) == body_parts(
            x,
            platform,
            verbatim,
        ) + piece_parts(name, verbatim) + piece_parts(seq!['.', '.'], verbatim) + body_parts(
            after,
            platform,
            verbatim,
        ),
        body_parts(name + seq![d] + seq!['.', '.'] + after, platform, verbatim) == piece_parts(
            name,
            verbatim,
        ) + piece_parts(seq!['.', '.'], verbatim) + body_parts(after, platform, verbatim),
        body_parts(x + after, platform, verbatim) == body_parts(x, platform, verbatim)
            + body_parts(after, platform, verbatim),
{
    let up = seq!['.', '.'];
    lemma_one_piece(name, platform, verbatim);
    lemma_one_piece(up, platform, verbatim);
    lemma_body_parts_after(x, after, platform, verbatim);
    lemma_body_parts_after(up, after, platform, verbatim);
    lemma_body_parts_go_on(name, d, up + after, platform, verbatim);
    assert(name + seq![d] + (up + after) == name + seq![d] + up + after);
    lemma_body_parts_go_on(x, c, name + seq![d] + up + after, platform, verbatim);
    assert(x + seq![c] + (name + seq![d] + up + after) == with_detour(x, c, name, d, after));
    let a = body_parts(x, platform, verbatim);
    let n = piece_parts(name, verbatim);
    let u = piece_parts(up, verbatim);
    let r = body_parts(after, platform, verbatim);
    assert(n + (u + r) == n + u + r);
    assert(a + (n + u + r) == a + n + u + r);
}

proof fn lemma_body_parts_after(
    x: Seq<char>,
    after: Seq<char>,
    platform: Platform,
    verbatim: bool,
)
    requires
        after.len() > 0 ==> separates(after[0], platform, verbatim),
    ensures
        body_parts(x + after, platform, verbatim) == body_parts(x, platform, verbatim)
            + body_parts(after, platform, verbatim),
{
    if after.len() == 0 {
        assert(x + after == x);
        assert(body_parts(after, platform, verbatim) == Seq::<PathPart>::empty());
    } else {
        lemma_body_parts_go_on(x, after[0], after.skip(1), platform, verbatim);
        assert(x + seq![after[0]] + after.skip(1) == x + after);
        lemma_first_separator(after, platform, verbatim);
    }
}

/// The parts of a path with the given prefix, where `rest` is what follows the prefix.
spec fn parts_after(prefix: Option<PathPrefix>, rest: Seq<char>, platform: Platform) -> Seq<
    PathPart,
> {
    let verbatim = prefix matches Some(x) && x.part.rank <= VERBATIM_DISK;
    let implied = prefix matches Some(x) && x.part.rank != DISK;
    let head: Seq<PathPart> = match prefix {
        Some(x) => seq![x.part],
        None => Seq::empty(),
    };
    let root = part(ROOT_DIR, Seq::empty(), Seq::empty());
    if rest.len() > 0 && separates(rest[0], platform, false) {
        head.push(root) + body_parts(rest.skip(1), platform, verbatim)
    } else if implied && !verbatim {
        head.push(root) + body_parts(rest, platform, verbatim)
    } else if prefix is None && rest.len() > 0 && rest[0] == '.' && (rest.len() == 1 || separates(
        rest[1],
        platform,
        false,
    )) {
        head.push(part(CUR_DIR, Seq::empty(), Seq::empty())) + body_parts(
            rest.skip(1),
            platform,
            verbatim,
        )
    } else {
        head + body_parts(rest, platform, verbatim)
    }
}

proof fn lemma_parts_after(p: Seq<char>, platform: Platform)
    ensures
        0 <= prefix_len(p, platform) <= p.len(),
        path_parts(p, platform) == parts_after(
            path_prefix(p, platform),
            p.skip(prefix_len(p, platform)),
            platform,
        ),
{
    reveal(path_parts);
    lemma_prefix_fits(p);
    let n = prefix_len(p, platform);
    let rest = p.skip(n);
    if rest.len() > 0 {
        assert(rest[0] == p[n]);
    }
    assert(has_written_root(p, platform) == (rest.len() > 0 && separates(rest[0], platform, false)));
}

proof fn lemma_regroup(
    head: Seq<PathPart>,
    front: Seq<PathPart>,
    name: PathPart,
    parent: PathPart,
    rest: Seq<PathPart>,
)
    requires
        name.rank == NORMAL,
        parent.rank == PARENT_DIR,
    ensures
        tidied(head + (front + seq![name] + seq![parent] + rest)) == tidied(head + (front + rest)),
        tidied(head + (seq![name] + seq![parent] + rest)) == tidied(head + rest),
{
    let a = head + front;
    assert(head + (front + seq![name] + seq![parent] + rest) == a.push(name).push(parent) + rest);
    assert(head + (front + rest) == a + rest);
    law_step_back(a, name, parent, rest);
    assert(head + (seq![name] + seq![parent] + rest) == head.push(name).push(parent) + rest);
    law_step_back(head, name, parent, rest);
}

proof fn lemma_two_pieces(name: Seq<char>, verbatim: bool)
    requires
        name.len() > 0,
        name != seq!['.'] && name != seq!['.', '.'],
    ensures
        piece_parts(name, verbatim) == seq![part(NORMAL, name, Seq::empty())],
        piece_parts(seq!['.', '.'], verbatim) == seq![
            part(PARENT_DIR, Seq::empty(), Seq::empty()),
        ],
{
    let up = seq!['.', '.'];
    assert(up.len() == 2);
    assert(up != seq!['.']);
}

/// The detour directly behind the prefix.
proof fn lemma_detour_at_start(
    prefix: Option<PathPrefix>,
    x: Seq<char>,
    c: char,
    name: Seq<char>,
    d: char,
    after: Seq<char>,
    platform: Platform,
    verbatim: bool,
)
    requires
        verbatim == (prefix matches Some(y) && y.part.rank <= VERBATIM_DISK),
        separates(c, platform, verbatim),
        separates(d, platform, verbatim),
        after.len() > 0 ==> separates(after[0], platform, verbatim),
        is_piece(name, platform, verbatim),
        name != seq!['.'] && name != seq!['.', '.'],
        x.len() == 0,
        after.len() == 0 ==> !verbatim && (prefix matches Some(y) && y.part.rank != DISK),
    ensures
        tidied(parts_after(prefix, with_detour(x, c, name, d, after), platform)) == tidied(
            parts_after(prefix, x + after, platform),
        ),
{
    let name_part = part(NORMAL, name, Seq::empty());
    let up_part = part(PARENT_DIR, Seq::empty(), Seq::empty());
    lemma_two_pieces(name, verbatim);
    let rest = body_parts(after, platform, verbatim);
    let head: Seq<PathPart> = match prefix {
        Some(y) => seq![y.part],
        None => Seq::empty(),
    };
    let long = with_detour(x, c, name, d, after);
    let rooted = head.push(part(ROOT_DIR, Seq::empty(), Seq::empty()));
    lemma_detour_parts(x, c, name, d, after, platform, verbatim);
    lemma_regroup(rooted, Seq::empty(), name_part, up_part, rest);
    assert(long[0] == c);
    assert(long.skip(1) == name + seq![d] + seq!['.', '.'] + after);
    assert(parts_after(prefix, long, platform) == rooted + (seq![name_part] + seq![up_part]
        + rest));
    assert(x + after == after);
    if after.len() > 0 {
        lemma_first_separator(after, platform, verbatim);
    }
    assert(parts_after(prefix, after, platform) == rooted + rest);
}

/// The detour behind more than the prefix.
proof fn lemma_detour_later(
    prefix: Option<PathPrefix>,
    x: Seq<char>,
    c: char,
    name: Seq<char>,
    d: char,
    after: Seq<char>,
    platform: Platform,
    verbatim: bool,
)
    requires
        verbatim == (prefix matches Some(y) && y.part.rank <= VERBATIM_DISK),
        separates(c, platform, verbatim),
        separates(d, platform, verbatim),
        after.len() > 0 ==> separates(after[0], platform, verbatim),
        is_piece(name, platform, verbatim),
        name != seq!['.'] && name != seq!['.', '.'],
        x.len() > 0,
    ensures
        tidied(parts_after(prefix, with_detour(x, c, name, d, after), platform)) == tidied(
            parts_after(prefix, x + after, platform),
        ),
{
    let name_part = part(NORMAL, name, Seq::empty());
    let up_part = part(PARENT_DIR, Seq::empty(), Seq::empty());
    lemma_two_pieces(name, verbatim);
    let rest = body_parts(after, platform, verbatim);
    let head: Seq<PathPart> = match prefix {
        Some(y) => seq![y.part],
        None => Seq::empty(),
    };
    let long = with_detour(x, c, name, d, after);
    let short = x + after;
    let y = x.skip(1);
    let front = body_parts(x, platform, verbatim);
    let later = body_parts(y, platform, verbatim);
    lemma_detour_parts(x, c, name, d, after, platform, verbatim);
    lemma_detour_parts(y, c, name, d, after, platform, verbatim);
    assert(long[0] == x[0]);
    assert(short[0] == x[0]);
    assert(long.skip(1) == with_detour(y, c, name, d, after));
    assert(short.skip(1) == y + after);
    let at_dot = prefix is None && x[0] == '.' && (x.len() == 1 || separates(
        x[1],
        platform,
        false,
    ));
    assert(at_dot == (prefix is None && long[0] == '.' && (long.len() == 1 || separates(
        long[1],
        platform,
        false,
    )))) by {
        if x.len() > 1 {
            assert(long[1] == x[1]);
        } else {
            assert(long[1] == c);
        }
    }
    assert(at_dot == (prefix is None && short[0] == '.' && (short.len() == 1 || separates(
        short[1],
        platform,
        false,
    )))) by {
        if x.len() > 1 {
            assert(short[1] == x[1]);
        } else if after.len() > 0 {
            assert(short[1] == after[0]);
        }
    }
    if separates(x[0], platform, false) {
        lemma_regroup(
            head.push(part(ROOT_DIR, Seq::empty(), Seq::empty())),
            later,
            name_part,
            up_part,
            rest,
        );
    } else if !verbatim && (prefix matches Some(z) && z.part.rank != DISK) {
        lemma_regroup(
            head.push(part(ROOT_DIR, Seq::empty(), Seq::empty())),
            front,
            name_part,
            up_part,
            rest,
        );
    } else if at_dot {
        lemma_regroup(
            head.push(part(CUR_DIR, Seq::empty(), Seq::empty())),
            later,
            name_part,
            up_part,
            rest,
        );
    } else {
        lemma_regroup(head, front, name_part, up_part, rest);
    }
}

proof fn lemma_first_separator(s: Seq<char>, platform: Platform, verbatim: bool)
    requires
        s.len() > 0,
        separates(s[0], platform, verbatim),
    ensures
        body_parts(s, platform, verbatim) == body_parts(s.skip(1), platform, verbatim),
{
    let none = Seq::<char>::empty();
    lemma_body_parts_go_on(none, s[0], s.skip(1), platform, verbatim);
    assert(none + seq![s[0]] + s.skip(1) == s);
    assert(body_parts(none, platform, verbatim) == Seq::<PathPart>::empty());
}

/// Going into a directory and back with `..`, anywhere in a path, leads where the path leads
/// without it: `..` cannot be used to seem to be where one is not.
pub proof fn law_parent_step_cancels(
    before: Seq<char>,
    c: char,
    name: Seq<char>,
    d: char,
    after: Seq<char>,
    platform: Platform,
)
    requires
        is_detour(before, c, name, d, after, platform),
    ensures
        tidy_parts(with_detour(before, c, name, d, after), platform) == tidy_parts(
            before + after,
            platform,
        ),
        without_dots(with_detour(before, c, name, d, after), platform) == without_dots(
            before + after,
            platform,
        ),
        levels_up(with_detour(before, c, name, d, after), platform) == levels_up(
            before + after,
            platform,
        ),
{
    let long = with_detour(before, c, name, d, after);
    let short = before + after;
    let n = prefix_len(long, platform);
    let x = before.skip(n);
    lemma_parts_after(long, platform);
    lemma_parts_after(short, platform);
    assert(long.skip(n) == with_detour(x, c, name, d, after));
    assert(short.skip(n) == x + after);
    assert(long.take(n) == short.take(n));
    let prefix = path_prefix(long, platform);
    let verbatim = is_verbatim(long, platform);
    if x.len() == 0 {
        lemma_detour_at_start(prefix, x, c, name, d, after, platform, verbatim);
    } else {
        lemma_detour_later(prefix, x, c, name, d, after, platform, verbatim);
    }
}

/// Where a path that ends in a separator goes on, its parts go on with those of what follows, unless
/// that belongs to the prefix.
pub proof fn law_parts_go_on(base: Seq<char>, s: Seq<char>, platform: Platform)
    requires
        base.len() > 0,
        separates(base.last(), platform, is_verbatim(base, platform)),
        path_prefix(base + s, platform) == path_prefix(base, platform),
        prefix_len(base, platform) < base.len(),
    ensures
        path_parts(base + s, platform) == path_parts(base, platform) + body_parts(
            s,
            platform,
            is_verbatim(base, platform),
        ),
{
    let all = base + s;
    let n = prefix_len(base, platform);
    let verbatim = is_verbatim(base, platform);
    let c = base.last();
    let x = base.subrange(n, base.len() - 1);
    let none = Seq::<char>::empty();
    lemma_parts_after(base, platform);
    lemma_parts_after(all, platform);
    assert(base.skip(n) == x + seq![c] + none);
    assert(all.skip(n) == x + seq![c] + s);
    lemma_parts_after_go_on(path_prefix(base, platform), x, c, none, platform, verbatim);
    lemma_parts_after_go_on(path_prefix(base, platform), x, c, s, platform, verbatim);
    assert(body_parts(none, platform, verbatim) == Seq::<PathPart>::empty());
    let front = front_parts(path_prefix(base, platform), x, platform, verbatim);
    assert(front + Seq::<PathPart>::empty() == front);
}

/// The parts of a path with the given prefix, and of what stands between that and a separator.
spec fn front_parts(
    prefix: Option<PathPrefix>,
    x: Seq<char>,
    platform: Platform,
    verbatim: bool,
) -> Seq<PathPart> {
    let head: Seq<PathPart> = match prefix {
        Some(y) => seq![y.part],
        None => Seq::empty(),
    };
    if x.len() == 0 {
        head.push(part(ROOT_DIR, Seq::empty(), Seq::empty()))
    } else {
        parts_after(prefix, x, platform)
    }
}

proof fn lemma_parts_after_go_on(
    prefix: Option<PathPrefix>,
    x: Seq<char>,
    c: char,
    s: Seq<char>,
    platform: Platform,
    verbatim: bool,
)
    requires
        verbatim == (prefix matches Some(y) && y.part.rank <= VERBATIM_DISK),
        separates(c, platform, verbatim),
    ensures
        parts_after(prefix, x + seq![c] + s, platform) == front_parts(
            prefix,
            x,
            platform,
            verbatim,
        ) + body_parts(s, platform, verbatim),
{
    let all = x + seq![c] + s;
    let more = body_parts(s, platform, verbatim);
    let head: Seq<PathPart> = match prefix {
        Some(y) => seq![y.part],
        None => Seq::empty(),
    };
    let root = head.push(part(ROOT_DIR, Seq::empty(), Seq::empty()));
    if x.len() == 0 {
        assert(all[0] == c);
        assert(all.skip(1) == s);
        assert(parts_after(prefix, all, platform) == root + more);
    } else {
        lemma_parts_after_later(prefix, x, c, s, platform, verbatim);
    }
}

proof fn lemma_parts_after_later(
    prefix: Option<PathPrefix>,
    x: Seq<char>,
    c: char,
    s: Seq<char>,
    platform: Platform,
    verbatim: bool,
)
    requires
        verbatim == (prefix matches Some(y) && y.part.rank <= VERBATIM_DISK),
        separates(c, platform, verbatim),
        x.len() > 0,
    ensures
        parts_after(prefix, x + seq![c] + s, platform) == parts_after(prefix, x, platform)
            + body_parts(s, platform, verbatim),
{
    let all = x + seq![c] + s;
    let more = body_parts(s, platform, verbatim);
    let head: Seq<PathPart> = match prefix {
        Some(y) => seq![y.part],
        None => Seq::empty(),
    };
    let root = head.push(part(ROOT_DIR, Seq::empty(), Seq::empty()));
    let here = head.push(part(CUR_DIR, Seq::empty(), Seq::empty()));
    let y = x.skip(1);
    let front = body_parts(x, platform, verbatim);
    let later = body_parts(y, platform, verbatim);
    lemma_body_parts_go_on(x, c, s, platform, verbatim);
    lemma_body_parts_go_on(y, c, s, platform, verbatim);
    assert(all[0] == x[0]);
    assert(all.skip(1) == y + seq![c] + s);
    let at_dot = prefix is None && x[0] == '.' && (x.len() == 1 || separates(
        x[1],
        platform,
        false,
    ));
    assert(at_dot == (prefix is None && all[0] == '.' && (all.len() == 1 || separates(
        all[1],
        platform,
        false,
    )))) by {
        if x.len() > 1 {
            assert(all[1] == x[1]);
        } else {
            assert(all[1] == c);
        }
    }
    if separates(x[0], platform, false) {
        assert(parts_after(prefix, x, platform) == root + later);
        assert(parts_after(prefix, all, platform) == root + (later + more));
        assert(root + (later + more) == root + later + more);
    } else if !verbatim && (prefix matches Some(z) && z.part.rank != DISK) {
        assert(parts_after(prefix, x, platform) == root + front);
        assert(parts_after(prefix, all, platform) == root + (front + more));
        assert(root + (front + more) == root + front + more);
    } else if at_dot {
        assert(parts_after(prefix, x, platform) == here + later);
        assert(parts_after(prefix, all, platform) == here + (later + more));
        assert(here + (later + more) == here + later + more);
    } else {
        assert(parts_after(prefix, x, platform) == head + front);
        assert(parts_after(prefix, all, platform) == head + (front + more));
        assert(head + (front + more) == head + front + more);
    }
}

/// On systems with Unix paths, only `/` separates: behind a directory and a `/`, a text without `/`
/// is one more part, which is that name, except that `..` is the parent and `.` is no part. A `/` at
/// the end makes no difference.
pub proof fn law_unix_parts(dir: Seq<char>, name: Seq<char>, platform: Platform)
    requires
        platform != Platform::Windows,
        name.len() > 0,
        !name.contains('/'),
    ensures
        path_parts(dir + seq!['/'] + name, platform) == path_parts(dir + seq!['/'], platform) + (
        if name == seq!['.'] {
            Seq::empty()
        } else if name == seq!['.', '.'] {
            seq![part(PARENT_DIR, Seq::empty(), Seq::empty())]
        } else {
            seq![part(NORMAL, name, Seq::empty())]
        }),
        dir.len() > 0 ==> path_parts(dir + seq!['/'], platform) == path_parts(dir, platform),
        path_parts(seq!['/'], platform) == seq![part(ROOT_DIR, Seq::empty(), Seq::empty())],
        name != seq!['.'] && name != seq!['.', '.'] ==> path_parts(name, platform) == seq![
            part(NORMAL, name, Seq::empty()),
        ],
{
    let base = dir + seq!['/'];
    let none = Seq::<char>::empty();
    let nothing = Seq::<PathPart>::empty();
    assert(base.last() == '/');
    assert forall|i: int| 0 <= i < name.len() implies !separates(
        #[trigger] name[i],
        platform,
        false,
    ) by {
        assert(name.contains(name[i]));
    }
    lemma_one_piece(name, platform, false);
    law_parts_go_on(base, name, platform);
    lemma_parts_after(dir, platform);
    lemma_parts_after(base, platform);
    lemma_parts_after(name, platform);
    lemma_parts_after(seq!['/'], platform);
    assert(dir.skip(0) == dir && base.skip(0) == base && name.skip(0) == name);
    assert(seq!['/'].skip(0) == seq!['/']);
    assert(base == dir + seq!['/'] + none);
    lemma_parts_after_go_on(None, dir, '/', none, platform, false);
    assert(body_parts(none, platform, false) == nothing);
    if dir.len() > 0 {
        assert(parts_after(None, dir, platform) + nothing == parts_after(None, dir, platform));
    }
    lemma_parts_after_go_on(None, none, '/', none, platform, false);
    assert(none + seq!['/'] + none == seq!['/']);
    assert(nothing.push(part(ROOT_DIR, Seq::empty(), Seq::empty())) + nothing == seq![
        part(ROOT_DIR, Seq::empty(), Seq::empty()),
    ]);
    if name != seq!['.'] && name != seq!['.', '.'] {
        assert(!separates(name[0], platform, false));
        if name[0] == '.' && name.len() == 1 {
            assert(name == seq!['.']);
        }
        if name.len() > 1 {
            assert(!separates(name[1], platform, false));
        }
        assert(nothing + piece_parts(name, false) == piece_parts(name, false));
    }
}

/// Resolving dots takes the parts in turn: a name is added, `.` is left out, `..` at a root stays
/// there, and `..` with nothing to go back over is kept.
pub proof fn law_tidy_steps(parts: Seq<PathPart>, x: PathPart)
    ensures
        x.rank == NORMAL ==> tidied(parts.push(x)) == tidied(parts).push(x),
        x.rank == CUR_DIR ==> tidied(parts.push(x)) == tidied(parts),
        x.rank == PARENT_DIR && tidied(parts).len() > 0 && tidied(parts).last().rank == NORMAL
            ==> tidied(parts.push(x)) == tidied(parts).drop_last(),
        x.rank == PARENT_DIR && tidied(parts).len() > 0 && tidied(parts).last().rank == ROOT_DIR
            ==> tidied(parts.push(x)) == tidied(parts),
        x.rank == PARENT_DIR && tidied(parts).len() == 0 ==> tidied(parts.push(x)) == seq![x],
        x.rank == PARENT_DIR && tidied(parts).len() > 0 && tidied(parts).last().rank == PARENT_DIR
            ==> tidied(parts.push(x)) == tidied(parts).push(x),
{
    assert(parts.push(x).drop_last() == parts);
    assert(Seq::<PathPart>::empty().push(x) == seq![x]);
}

/// The kinds of parts are ordered: prefixes, then the root, `.`, `..` and names.
pub proof fn law_ranks()
    ensures
        VERBATIM < VERBATIM_UNC < VERBATIM_DISK < DEVICE < UNC < DISK < ROOT_DIR < CUR_DIR
            < PARENT_DIR < NORMAL,
{
}

/// The text of one part below a root.
pub open spec fn token(x: PathPart) -> Seq<char> {
    if x.rank == PARENT_DIR {
        seq!['.', '.']
    } else {
        x.head
    }
}

/// What stands in the text of tidy parts before the part that follows them.
pub open spec fn stem(parts: Seq<PathPart>, prefix: Seq<char>) -> Seq<char> {
    if parts.len() > 0 && parts.last().rank == ROOT_DIR {
        tidy_text(parts, prefix)
    } else if parts.len() > 0 && parts.last().rank <= DISK {
        tidy_text(parts, prefix).push('.').push('/')
    } else {
        tidy_text(parts, prefix).push('/')
    }
}

pub proof fn lemma_text_of_next(parts: Seq<PathPart>, x: PathPart, prefix: Seq<char>)
    requires
        x.rank == PARENT_DIR || x.rank == NORMAL,
    ensures
        tidy_text(parts.push(x), prefix) == stem(parts, prefix) + token(x),
        count_parents(parts.push(x)) == count_parents(parts) + (if x.rank == PARENT_DIR {
            1nat
        } else {
            0
        }),
{
    assert(parts.push(x).drop_last() == parts);
}

/// The text of parts that go on with names goes on behind a `/`.
pub proof fn lemma_text_goes_on(parts: Seq<PathPart>, more: Seq<PathPart>, prefix: Seq<char>)
    requires
        parts.len() == 0 || parts.last().rank > ROOT_DIR,
        forall|i: int|
            0 <= i < more.len() ==> ((#[trigger] more[i]).rank == PARENT_DIR || more[i].rank
                == NORMAL),
    ensures
        tidy_text(parts, prefix).len() <= tidy_text(parts + more, prefix).len(),
        tidy_text(parts + more, prefix).take(tidy_text(parts, prefix).len() as int) == tidy_text(
            parts,
            prefix,
        ),
        more.len() > 0 ==> tidy_text(parts + more, prefix).len() > tidy_text(parts, prefix).len()
            && tidy_text(parts + more, prefix)[tidy_text(parts, prefix).len() as int] == '/',
        (forall|i: int| 0 <= i < more.len() ==> (#[trigger] more[i]).rank == NORMAL)
            ==> count_parents(parts + more) == count_parents(parts),
    decreases more.len(),
{
    let t = tidy_text(parts, prefix);
    let n = t.len() as int;
    if more.len() == 0 {
        assert(parts + more == parts);
        assert(t.take(n) == t);
    } else {
        let front = more.drop_last();
        let x = more.last();
        assert(more[more.len() - 1] == x);
        assert forall|i: int| 0 <= i < front.len() implies ((#[trigger] front[i]).rank == PARENT_DIR
            || front[i].rank == NORMAL) by {
            assert(front[i] == more[i]);
        }
        lemma_text_goes_on(parts, front, prefix);
        let before = parts + front;
        assert(parts + more == before.push(x));
        lemma_text_of_next(before, x, prefix);
        let u = tidy_text(before, prefix);
        if front.len() > 0 {
            assert(before.last() == front.last());
            assert(front[front.len() - 1] == front.last());
        } else {
            assert(before == parts);
        }
        assert(stem(before, prefix) == u.push('/'));
        let all = tidy_text(parts + more, prefix);
        assert(all == u.push('/') + token(x));
        assert(all.take(n) == u.take(n));
        if front.len() == 0 {
            assert(all[n] == '/');
        } else {
            assert(all[n] == u[n]);
        }
        if forall|i: int| 0 <= i < more.len() ==> (#[trigger] more[i]).rank == NORMAL {
            assert forall|i: int| 0 <= i < front.len() implies (#[trigger] front[i]).rank
                == NORMAL by {
                assert(front[i] == more[i]);
            }
        }
    }
}

/// Text without two dots in a row has no `..` among its parts.
pub proof fn lemma_no_parents(s: Seq<char>, platform: Platform)
    requires
        forall|i: int| 0 <= i < s.len() - 1 ==> !(#[trigger] s[i] == '.' && s[i + 1] == '.'),
    ensures
        forall|i: int|
            0 <= i < body_parts(s, platform, false).len() ==> (#[trigger] body_parts(
                s,
                platform,
                false,
            )[i]).rank == NORMAL,
    decreases s.len(),
{
    if s.len() > 0 {
        lemma_separator_at(s, platform, false);
        let at = separator_at(s, platform, false);
        let rest = if at < s.len() {
            s.skip(at + 1)
        } else {
            Seq::empty()
        };
        assert forall|i: int| 0 <= i < rest.len() - 1 implies !(#[trigger] rest[i] == '.' && rest[i
            + 1] == '.') by {
            assert(rest[i] == s[i + at + 1]);
            assert(rest[i + 1] == s[i + at + 2]);
        }
        lemma_no_parents(rest, platform);
        let piece = s.take(at);
        if piece == seq!['.', '.'] {
            assert(piece.len() == 2 && piece.len() == at);
            assert(piece[0] == s[0] && piece[1] == s[1]);
            assert(s[0] == '.');
        }
        let first = piece_parts(piece, false);
        let later = body_parts(rest, platform, false);
        let all = body_parts(s, platform, false);
        assert(all == first + later);
        assert forall|i: int| 0 <= i < all.len() implies (#[trigger] all[i]).rank == NORMAL by {
            if i < first.len() {
                assert(all[i] == first[i]);
            } else {
                assert(all[i] == later[i - first.len()]);
            }
        }
    }
}

/// Names behind tidy parts stay.
pub proof fn lemma_tidied_names(parts: Seq<PathPart>, names: Seq<PathPart>)
    requires
        forall|i: int| 0 <= i < names.len() ==> (#[trigger] names[i]).rank == NORMAL,
    ensures
        tidied(parts + names) == tidied(parts) + names,
    decreases names.len(),
{
    if names.len() == 0 {
        assert(parts + names == parts);
        assert(tidied(parts) + names == tidied(parts));
    } else {
        let front = names.drop_last();
        assert forall|i: int| 0 <= i < front.len() implies (#[trigger] front[i]).rank == NORMAL by {
            assert(front[i] == names[i]);
        }
        lemma_tidied_names(parts, front);
        assert(names[names.len() - 1] == names.last());
        assert((parts + names).drop_last() == parts + front);
        assert((parts + names).last() == names.last());
        assert((tidied(parts) + front).push(names.last()) == tidied(parts) + names);
    }
}

/// A name and what follows it behind a separator are the name and then the parts of the rest.
pub proof fn lemma_piece_then(m: Seq<char>, after: Seq<char>, platform: Platform)
    requires
        is_piece(m, platform, false),
        m != seq!['.'] && m != seq!['.', '.'],
        after.len() > 0 ==> separates(after[0], platform, false),
    ensures
        body_parts(m + after, platform, false) == seq![part(NORMAL, m, Seq::empty())] + body_parts(
            after,
            platform,
            false,
        ),
{
    lemma_body_parts_after(m, after, platform, false);
    lemma_one_piece(m, platform, false);
}

/// On systems with Unix paths, a directory comes before what lies in it, and names in a directory are
/// ordered as texts.
pub proof fn law_unix_order(
    dir: Seq<char>,
    a: Seq<char>,
    b: Seq<char>,
    platform: Platform,
)
    requires
        platform != Platform::Windows,
        a.len() > 0 && !a.contains('/') && a != seq!['.'] && a != seq!['.', '.'],
        b.len() > 0 && !b.contains('/') && b != seq!['.'] && b != seq!['.', '.'],
    ensures
        path_order(dir + seq!['/'], dir + seq!['/'] + b, platform) == -1,
        path_order(dir + seq!['/'] + a, dir + seq!['/'] + b, platform) == text_order(a, b),
        same_path(dir + seq!['/'] + a, dir + seq!['/'] + b, platform) <==> a == b,
{
    let x = path_parts(dir + seq!['/'], platform);
    let p = part(NORMAL, a, Seq::empty());
    let q = part(NORMAL, b, Seq::empty());
    let none = Seq::<PathPart>::empty();
    law_unix_parts(dir, a, platform);
    law_unix_parts(dir, b, platform);
    law_parts_order(x, p, none, q, none);
    assert(x.push(p) + none == x + seq![p]);
    assert(x.push(q) + none == x + seq![q]);
    law_path_order_total(dir + seq!['/'] + a, dir + seq!['/'] + b, platform);
    lemma_text_order_total(a, b);
    if a != b {
        assert(part_order(p, q) == text_order(a, b));
    } else {
        assert(p == q);
    }
}

} // verus!
