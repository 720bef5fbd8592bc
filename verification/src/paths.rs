//! File system paths as text: what they consist of, how they are joined and ordered.
//!
//! Two paths are the same if they have the same parts, so `/a//b/.` and `/a/b` are. On Windows a
//! path may begin with a prefix (`C:`, `\\server\share`, `\\.\device`, `\\?\..`) and both slashes
//! separate its parts; elsewhere only `/` does and there are no prefixes.

use crate::host::Platform;
use crate::text::{chars_of, lemma_alphabet, string_of};
use vstd::prelude::*;

verus! {

/// A part of a path. `rank` tells its kind and orders it among the others; `head` and `tail` are
/// the texts that belong to it.
#[verifier::ext_equal]
pub struct PathPart {
    pub rank: int,
    pub head: Seq<char>,
    pub tail: Seq<char>,
}

/// Rank of the prefix `\\?\head`.
pub const VERBATIM: u8 = 0;

/// Rank of the prefix `\\?\UNC\head\tail`.
pub const VERBATIM_UNC: u8 = 1;

/// Rank of the prefix `\\?\X:`, where `head` is the upper-case drive letter.
pub const VERBATIM_DISK: u8 = 2;

/// Rank of the prefix `\\.\head`.
pub const DEVICE: u8 = 3;

/// Rank of the prefix `\\head\tail`.
pub const UNC: u8 = 4;

/// Rank of the prefix `X:`, where `head` is the upper-case drive letter.
pub const DISK: u8 = 5;

/// Rank of the root directory.
pub const ROOT_DIR: u8 = 6;

/// Rank of a leading `.`.
pub const CUR_DIR: u8 = 7;

/// Rank of `..`.
pub const PARENT_DIR: u8 = 8;

/// Rank of the name `head`.
pub const NORMAL: u8 = 9;

/// The part of the given rank with the given texts.
pub open spec fn part(rank: u8, head: Seq<char>, tail: Seq<char>) -> PathPart {
    PathPart { rank: rank as int, head, tail }
}

/// Whether `c` separates the parts of a path. After a verbatim prefix only `\` does.
pub open spec fn separates(c: char, platform: Platform, verbatim: bool) -> bool {
    if platform is Windows {
        c == '\\' || (c == '/' && !verbatim)
    } else {
        c == '/'
    }
}

/// The position of the first separator in `s`, or its length.
pub open spec fn separator_at(s: Seq<char>, platform: Platform, verbatim: bool) -> int
    decreases s.len(),
{
    if s.len() == 0 || separates(s[0], platform, verbatim) {
        0
    } else {
        1 + separator_at(s.drop_first(), platform, verbatim)
    }
}

/// What stands before the first separator of `s`.
pub open spec fn first_piece(s: Seq<char>, platform: Platform, verbatim: bool) -> Seq<char> {
    s.take(separator_at(s, platform, verbatim))
}

/// What stands after the first separator of `s`.
pub open spec fn other_pieces(s: Seq<char>, platform: Platform, verbatim: bool) -> Seq<char> {
    let at = separator_at(s, platform, verbatim);
    if at < s.len() {
        s.skip(at + 1)
    } else {
        Seq::empty()
    }
}

/// Whether `c` is a letter that can name a drive.
pub open spec fn is_drive_letter(c: char) -> bool {
    'a' <= c <= 'z' || 'A' <= c <= 'Z'
}

/// The upper-case form of a drive letter.
pub open spec fn drive_name(c: char) -> Seq<char> {
    if 'a' <= c <= 'z' {
        seq![(c as u8 - 32) as char]
    } else {
        seq![c]
    }
}

/// Whether `s` begins with a drive such as `C:`.
pub open spec fn has_drive(s: Seq<char>) -> bool {
    s.len() >= 2 && is_drive_letter(s[0]) && s[1] == ':'
}

/// Whether `c` is a slash or a backslash.
pub open spec fn is_slash(c: char) -> bool {
    c == '/' || c == '\\'
}

/// A prefix: its part, and how many characters of the path it takes.
#[verifier::ext_equal]
pub struct PathPrefix {
    pub part: PathPart,
    pub len: int,
}

/// The prefix of a Windows path that begins with `\\?\`, where `s` is what follows that.
pub open spec fn verbatim_prefix(s: Seq<char>) -> PathPrefix {
    let w = Platform::Windows;
    if s.len() >= 4 && s[0] == 'U' && s[1] == 'N' && s[2] == 'C' && is_slash(s[3]) {
        let server = first_piece(s.skip(4), w, true);
        let share = first_piece(other_pieces(s.skip(4), w, true), w, true);
        PathPrefix {
            part: part(VERBATIM_UNC, server, share),
            len: (8 + server.len() + (if share.len() > 0 {
                1 + share.len()
            } else {
                0
            })) as int,
        }
    } else if has_drive(s) && (s.len() > 2 ==> is_slash(s[2])) {
        PathPrefix { part: part(VERBATIM_DISK, drive_name(s[0]), Seq::empty()), len: 6 }
    } else {
        let name = first_piece(s, w, true);
        PathPrefix { part: part(VERBATIM, name, Seq::empty()), len: 4 + name.len() as int }
    }
}

/// The prefix of a Windows path that begins with two slashes.
pub open spec fn double_slash_prefix(p: Seq<char>) -> Option<PathPrefix> {
    let w = Platform::Windows;
    let s = p.skip(2);
    if s.len() >= 2 && s[0] == '?' && s[1] == '\\' && p[0] == '\\' && p[1] == '\\' {
        Some(verbatim_prefix(s.skip(2)))
    } else if s.len() >= 2 && s[0] == '.' && is_slash(s[1]) {
        let name = first_piece(s.skip(2), w, false);
        Some(PathPrefix { part: part(DEVICE, name, Seq::empty()), len: 4 + name.len() as int })
    } else {
        let server = first_piece(s, w, false);
        let share = first_piece(other_pieces(s, w, false), w, false);
        if server.len() > 0 && share.len() > 0 {
            Some(
                PathPrefix {
                    part: part(UNC, server, share),
                    len: 3 + server.len() as int + share.len() as int,
                },
            )
        } else {
            None
        }
    }
}

/// The prefix of a path, if it has one.
pub open spec fn path_prefix(p: Seq<char>, platform: Platform) -> Option<PathPrefix> {
    if !(platform is Windows) {
        None
    } else if p.len() >= 2 && is_slash(p[0]) && is_slash(p[1]) {
        double_slash_prefix(p)
    } else if has_drive(p) {
        Some(PathPrefix { part: part(DISK, drive_name(p[0]), Seq::empty()), len: 2 })
    } else {
        None
    }
}

/// How many characters the prefix takes.
pub open spec fn prefix_len(p: Seq<char>, platform: Platform) -> int {
    match path_prefix(p, platform) {
        Some(x) => x.len,
        None => 0,
    }
}

/// Whether the path has a prefix that begins with `\\?\`.
pub open spec fn is_verbatim(p: Seq<char>, platform: Platform) -> bool {
    match path_prefix(p, platform) {
        Some(x) => x.part.rank <= VERBATIM_DISK,
        None => false,
    }
}

/// Whether the path is a drive without a root (`C:` or `C:name`), or has no prefix.
pub open spec fn lacks_implied_root(p: Seq<char>, platform: Platform) -> bool {
    match path_prefix(p, platform) {
        Some(x) => x.part.rank == DISK,
        None => true,
    }
}

/// Whether a separator follows the prefix.
pub open spec fn has_written_root(p: Seq<char>, platform: Platform) -> bool {
    let n = prefix_len(p, platform);
    n < p.len() && separates(p[n], platform, false)
}

/// Whether the path starts at a root.
pub open spec fn has_root(p: Seq<char>, platform: Platform) -> bool {
    has_written_root(p, platform) || !lacks_implied_root(p, platform)
}

/// Whether the path is absolute: it starts at a root and, on Windows, has a prefix.
pub open spec fn is_absolute_path(p: Seq<char>, platform: Platform) -> bool {
    has_root(p, platform) && (platform is Windows ==> path_prefix(p, platform) is Some)
}

/// The parts that one piece between separators stands for: none, if it is empty or a lone dot
/// that is not taken literally.
pub open spec fn piece_parts(piece: Seq<char>, verbatim: bool) -> Seq<PathPart> {
    if piece.len() == 0 {
        Seq::empty()
    } else if piece == seq!['.'] {
        if verbatim {
            seq![part(CUR_DIR, Seq::empty(), Seq::empty())]
        } else {
            Seq::empty()
        }
    } else if piece == seq!['.', '.'] {
        seq![part(PARENT_DIR, Seq::empty(), Seq::empty())]
    } else {
        seq![part(NORMAL, piece, Seq::empty())]
    }
}

/// The parts of what follows the root of a path.
pub open spec fn body_parts(s: Seq<char>, platform: Platform, verbatim: bool) -> Seq<PathPart>
    decreases s.len(),
{
    if s.len() == 0 {
        Seq::empty()
    } else {
        let at = separator_at(s, platform, verbatim);
        let rest = if 0 <= at < s.len() {
            s.skip(at + 1)
        } else {
            Seq::empty()
        };
        piece_parts(s.take(at), verbatim) + body_parts(rest, platform, verbatim)
    }
}

/// The parts of a path.
#[verifier::opaque]
pub open spec fn path_parts(p: Seq<char>, platform: Platform) -> Seq<PathPart> {
    let n = prefix_len(p, platform);
    let verbatim = is_verbatim(p, platform);
    let rest = p.skip(n);
    let root = part(ROOT_DIR, Seq::empty(), Seq::empty());
    let before: Seq<PathPart> = match path_prefix(p, platform) {
        Some(x) => seq![x.part],
        None => Seq::empty(),
    };
    if has_written_root(p, platform) {
        before.push(root) + body_parts(rest.skip(1), platform, verbatim)
    } else if !lacks_implied_root(p, platform) && !verbatim {
        before.push(root) + body_parts(rest, platform, verbatim)
    } else if path_prefix(p, platform) is None && rest.len() > 0 && rest[0] == '.' && (rest.len()
        == 1 || separates(rest[1], platform, false)) {
        before.push(part(CUR_DIR, Seq::empty(), Seq::empty())) + body_parts(
            rest.skip(1),
            platform,
            verbatim,
        )
    } else {
        before + body_parts(rest, platform, verbatim)
    }
}

/// The text between `base` and what is joined to it.
pub open spec fn needs_separator(base: Seq<char>, platform: Platform) -> bool {
    &&& base.len() > 0
    &&& !separates(base.last(), platform, false)
    &&& !(path_prefix(base, platform) matches Some(x) && x.part.rank == DISK && x.len == base.len())
}

/// The separator that joining writes.
pub open spec fn main_separator(platform: Platform) -> char {
    if platform is Windows {
        '\\'
    } else {
        '/'
    }
}

/// The parts reached by going from `parts` along `x`.
pub open spec fn step_along(parts: Seq<PathPart>, x: PathPart) -> Seq<PathPart> {
    if x.rank == ROOT_DIR {
        if parts.len() == 0 {
            seq![x]
        } else {
            parts.take(1).push(x)
        }
    } else if x.rank == CUR_DIR {
        parts
    } else if x.rank == PARENT_DIR {
        if parts.len() > 0 && parts.last().rank == NORMAL {
            parts.drop_last()
        } else {
            parts
        }
    } else {
        parts.push(x)
    }
}

/// The parts reached by going from `parts` along each of `more`.
pub open spec fn walk(parts: Seq<PathPart>, more: Seq<PathPart>) -> Seq<PathPart>
    decreases more.len(),
{
    if more.len() == 0 {
        parts
    } else {
        step_along(walk(parts, more.drop_last()), more.last())
    }
}

/// The text of a part, where `prefix` is the text of the path's prefix.
pub open spec fn part_text(x: PathPart, prefix: Seq<char>) -> Seq<char> {
    if x.rank <= DISK {
        prefix
    } else if x.rank == ROOT_DIR {
        seq!['\\']
    } else if x.rank == CUR_DIR {
        seq!['.']
    } else if x.rank == PARENT_DIR {
        seq!['.', '.']
    } else {
        x.head
    }
}

/// The text of the Windows path that has the given parts.
pub open spec fn rendered(parts: Seq<PathPart>, prefix: Seq<char>) -> Seq<char>
    decreases parts.len(),
{
    if parts.len() == 0 {
        Seq::empty()
    } else {
        let before = parts.drop_last();
        let last = parts.last();
        if before.len() > 0 && before.last().rank != ROOT_DIR && before.last().rank != DISK
            && last.rank != ROOT_DIR {
            rendered(before, prefix).push('\\') + part_text(last, prefix)
        } else {
            rendered(before, prefix) + part_text(last, prefix)
        }
    }
}

/// The path `p`, taken from the directory `base`. An absolute path stays as it is. On Windows a
/// path with a prefix does too, one that starts at a root keeps the prefix of `base`, and after a
/// verbatim `base` the dots in `p` are resolved.
pub open spec fn joined_path(base: Seq<char>, p: Seq<char>, platform: Platform) -> Seq<char> {
    if is_absolute_path(p, platform) || path_prefix(p, platform) is Some {
        p
    } else if is_verbatim(base, platform) && p.len() > 0 {
        rendered(
            walk(path_parts(base, platform), path_parts(p, platform)),
            base.take(prefix_len(base, platform)),
        )
    } else if has_root(p, platform) {
        base.take(prefix_len(base, platform)) + p
    } else if needs_separator(base, platform) {
        base.push(main_separator(platform)) + p
    } else {
        base + p
    }
}

/// A part of a path, as it is computed.
pub struct Part {
    pub rank: u8,
    pub head: Vec<char>,
    pub tail: Vec<char>,
}

impl View for Part {
    type V = PathPart;

    open spec fn view(&self) -> PathPart {
        part(self.rank, self.head@, self.tail@)
    }
}

/// The parts that a list of computed parts stands for.
pub open spec fn parts_view(parts: Seq<Part>) -> Seq<PathPart> {
    parts.map_values(|p: Part| p@)
}

fn separator(c: char, platform: Platform, verbatim: bool) -> (r: bool)
    ensures
        r == separates(c, platform, verbatim),
{
    match platform {
        Platform::Windows => c == '\\' || (c == '/' && !verbatim),
        _ => c == '/',
    }
}

/// Finds the first separator from position `from` on, or the end.
fn find_separator(chars: &Vec<char>, from: usize, platform: Platform, verbatim: bool) -> (r: usize)
    requires
        from <= chars@.len(),
    ensures
        from <= r <= chars@.len(),
        r == from + separator_at(chars@.skip(from as int), platform, verbatim),
{
    let n: usize = chars.len();
    let mut at: usize = from;
    while at < n
        invariant
            from <= at <= n,
            n == chars@.len(),
            from + separator_at(chars@.skip(from as int), platform, verbatim) == at + separator_at(
                chars@.skip(at as int),
                platform,
                verbatim,
            ),
        decreases n - at,
    {
        assert(chars@.skip(at as int)[0] == chars@[at as int]);
        if separator(chars[at], platform, verbatim) {
            return at;
        }
        assert(chars@.skip(at as int).drop_first() == chars@.skip(at + 1));
        at = at + 1;
    }
    at
}

/// The characters from `from` up to `to`.
fn range_of(chars: &Vec<char>, from: usize, to: usize) -> (r: Vec<char>)
    requires
        from <= to <= chars@.len(),
    ensures
        r@ == chars@.subrange(from as int, to as int),
{
    let mut r: Vec<char> = Vec::new();
    for i in from..to
        invariant
            from <= to <= chars@.len(),
            r@ == chars@.subrange(from as int, i as int),
    {
        r.push(chars[i]);
        assert(chars@.subrange(from as int, i + 1) == chars@.subrange(from as int, i as int).push(
            chars@[i as int],
        ));
    }
    r
}

/// The upper-case drive letter.
fn drive_part(rank: u8, c: char) -> (r: Part)
    requires
        is_drive_letter(c),
    ensures
        r@ == part(rank, drive_name(c), Seq::empty()),
{
    let upper: char = if 'a' <= c && c <= 'z' {
        (c as u8 - 32) as char
    } else {
        c
    };
    let mut head: Vec<char> = Vec::new();
    head.push(upper);
    assert(head@ == drive_name(c));
    Part { rank, head, tail: Vec::new() }
}

fn drive_letter(c: char) -> (r: bool)
    ensures
        r == is_drive_letter(c),
{
    ('a' <= c && c <= 'z') || ('A' <= c && c <= 'Z')
}

fn slash(c: char) -> (r: bool)
    ensures
        r == is_slash(c),
{
    c == '/' || c == '\\'
}

/// The two pieces from position `from` on, each ended by a separator or the end.
fn two_pieces(chars: &Vec<char>, from: usize, verbatim: bool) -> (r: (Vec<char>, Vec<char>))
    requires
        from <= chars@.len(),
    ensures
        r.0@ == first_piece(chars@.skip(from as int), Platform::Windows, verbatim),
        r.1@ == first_piece(
            other_pieces(chars@.skip(from as int), Platform::Windows, verbatim),
            Platform::Windows,
            verbatim,
        ),
        r.1@.len() > 0 ==> from + r.0@.len() + 1 + r.1@.len() <= chars@.len(),
        from + r.0@.len() <= chars@.len(),
{
    let ghost s = chars@.skip(from as int);
    let n: usize = chars.len();
    let mid: usize = find_separator(chars, from, Platform::Windows, verbatim);
    let first = range_of(chars, from, mid);
    assert(first@ == s.take(mid - from));
    if mid < n {
        let end: usize = find_separator(chars, mid + 1, Platform::Windows, verbatim);
        let second = range_of(chars, mid + 1, end);
        assert(s.skip(mid - from + 1) == chars@.skip(mid + 1));
        assert(second@ == chars@.skip(mid + 1).take(end - (mid + 1)));
        (first, second)
    } else {
        let second: Vec<char> = Vec::new();
        assert(second@ == Seq::<char>::empty().take(0));
        (first, second)
    }
}

/// Reads the prefix that follows `\\?\`.
fn read_verbatim_prefix(chars: &Vec<char>) -> (r: (Part, usize))
    requires
        chars@.len() >= 4,
    ensures
        verbatim_prefix(chars@.skip(4)) == (PathPrefix { part: r.0@, len: r.1 as int }),
        r.1 <= chars@.len(),
{
    let ghost s = chars@.skip(4);
    let n: usize = chars.len();
    assert(forall|i: int| 0 <= i < s.len() ==> s[i] == chars@[i + 4]);
    if n >= 8 && chars[4] == 'U' && chars[5] == 'N' && chars[6] == 'C' && slash(chars[7]) {
        assert(s.skip(4) == chars@.skip(8));
        let (server, share) = two_pieces(chars, 8, true);
        let len: usize = if share.len() > 0 {
            8 + server.len() + 1 + share.len()
        } else {
            8 + server.len()
        };
        (Part { rank: VERBATIM_UNC, head: server, tail: share }, len)
    } else if n >= 6 && drive_letter(chars[4]) && chars[5] == ':' && (n == 6 || slash(chars[6])) {
        (drive_part(VERBATIM_DISK, chars[4]), 6)
    } else {
        let end: usize = find_separator(chars, 4, Platform::Windows, true);
        let name = range_of(chars, 4, end);
        assert(name@ == s.take(end - 4));
        (Part { rank: VERBATIM, head: name, tail: Vec::new() }, end)
    }
}

/// Reads the prefix of a path.
fn read_prefix(chars: &Vec<char>, platform: Platform) -> (r: Option<(Part, usize)>)
    ensures
        match r {
            Some(x) => path_prefix(chars@, platform) == Some(
                PathPrefix { part: x.0@, len: x.1 as int },
            ) && x.1 <= chars@.len(),
            None => path_prefix(chars@, platform) is None,
        },
{
    if platform != Platform::Windows {
        return None;
    }
    let n: usize = chars.len();
    let ghost s = chars@.skip(2);
    if n >= 2 && slash(chars[0]) && slash(chars[1]) {
        assert(forall|i: int| 0 <= i < s.len() ==> s[i] == chars@[i + 2]);
        assert(n >= 4 ==> s.skip(2) == chars@.skip(4));
        if n >= 4 && chars[2] == '?' && chars[3] == '\\' && chars[0] == '\\' && chars[1] == '\\' {
            Some(read_verbatim_prefix(chars))
        } else if n >= 4 && chars[2] == '.' && slash(chars[3]) {
            let end: usize = find_separator(chars, 4, Platform::Windows, false);
            let name = range_of(chars, 4, end);
            assert(name@ == s.skip(2).take(end - 4));
            Some((Part { rank: DEVICE, head: name, tail: Vec::new() }, end))
        } else {
            let (server, share) = two_pieces(chars, 2, false);
            if server.len() > 0 && share.len() > 0 {
                let len: usize = 2 + server.len() + 1 + share.len();
                Some((Part { rank: UNC, head: server, tail: share }, len))
            } else {
                None
            }
        }
    } else if n >= 2 && drive_letter(chars[0]) && chars[1] == ':' {
        Some((drive_part(DISK, chars[0]), 2))
    } else {
        None
    }
}

/// The part that a piece stands for, if it stands for one.
fn read_piece(chars: &Vec<char>, from: usize, to: usize, verbatim: bool) -> (r: Option<Part>)
    requires
        from <= to <= chars@.len(),
    ensures
        match r {
            Some(x) => piece_parts(chars@.subrange(from as int, to as int), verbatim) == seq![x@],
            None => piece_parts(chars@.subrange(from as int, to as int), verbatim) == Seq::<
                PathPart,
            >::empty(),
        },
{
    let ghost piece = chars@.subrange(from as int, to as int);
    if to == from {
        return None;
    }
    if to - from == 1 && chars[from] == '.' {
        assert(piece == seq!['.']);
        if verbatim {
            return Some(Part { rank: CUR_DIR, head: Vec::new(), tail: Vec::new() });
        }
        return None;
    }
    assert(piece != seq!['.']) by {
        if piece == seq!['.'] {
            assert(piece.len() == 1 && piece[0] == '.');
        }
    }
    if to - from == 2 && chars[from] == '.' && chars[from + 1] == '.' {
        assert(piece == seq!['.', '.']);
        return Some(Part { rank: PARENT_DIR, head: Vec::new(), tail: Vec::new() });
    }
    assert(piece != seq!['.', '.']) by {
        if piece == seq!['.', '.'] {
            assert(piece.len() == 2 && piece[0] == '.' && piece[1] == '.');
        }
    }
    Some(Part { rank: NORMAL, head: range_of(chars, from, to), tail: Vec::new() })
}

/// Reads the parts of what stands from position `from` on.
fn read_body(
    chars: &Vec<char>,
    from: usize,
    platform: Platform,
    verbatim: bool,
    parts: &mut Vec<Part>,
)
    requires
        from <= chars@.len(),
    ensures
        parts_view(final(parts)@) == parts_view(old(parts)@) + body_parts(
            chars@.skip(from as int),
            platform,
            verbatim,
        ),
{
    let n: usize = chars.len();
    let mut at: usize = from;
    while at < n
        invariant
            at <= n,
            n == chars@.len(),
            parts_view(parts@) + body_parts(chars@.skip(at as int), platform, verbatim)
                == parts_view(old(parts)@) + body_parts(
                chars@.skip(from as int),
                platform,
                verbatim,
            ),
        decreases n - at,
    {
        let ghost s = chars@.skip(at as int);
        let ghost before = parts_view(parts@);
        let end: usize = find_separator(chars, at, platform, verbatim);
        assert(s.take(end - at) == chars@.subrange(at as int, end as int));
        let piece = read_piece(chars, at, end, verbatim);
        let next: usize = if end < n {
            end + 1
        } else {
            end
        };
        let ghost rest = chars@.skip(next as int);
        assert(end < n ==> s.skip(end - at + 1) == rest);
        assert(end == n ==> rest == Seq::<char>::empty());
        assert(body_parts(s, platform, verbatim) == piece_parts(s.take(end - at), verbatim)
            + body_parts(rest, platform, verbatim));
        match piece {
            Some(x) => {
                let ghost y = x@;
                parts.push(x);
                assert(parts_view(parts@) == before + seq![y]);
            },
            None => {},
        }
        assert(parts_view(parts@) == before + piece_parts(s.take(end - at), verbatim));
        assert(parts_view(parts@) + body_parts(rest, platform, verbatim) == before + body_parts(
            s,
            platform,
            verbatim,
        ));
        at = next;
    }
    assert(parts_view(parts@) + body_parts(chars@.skip(n as int), platform, verbatim)
        == parts_view(parts@));
}

/// What is known of the start of a path.
struct Start {
    prefix: Option<Part>,
    len: usize,
    verbatim: bool,
    written_root: bool,
    implied_root: bool,
}

impl Start {
    spec fn describes(&self, p: Seq<char>, platform: Platform) -> bool {
        &&& self.len == prefix_len(p, platform)
        &&& self.len <= p.len()
        &&& self.verbatim == is_verbatim(p, platform)
        &&& self.written_root == has_written_root(p, platform)
        &&& self.implied_root == !lacks_implied_root(p, platform)
        &&& match self.prefix {
            Some(x) => path_prefix(p, platform) == Some(
                PathPrefix { part: x@, len: self.len as int },
            ),
            None => path_prefix(p, platform) is None,
        }
    }
}

fn read_start(chars: &Vec<char>, platform: Platform) -> (r: Start)
    ensures
        r.describes(chars@, platform),
{
    match read_prefix(chars, platform) {
        Some((x, len)) => {
            let verbatim = x.rank <= VERBATIM_DISK;
            let implied_root = x.rank != DISK;
            Start {
                written_root: len < chars.len() && separator(chars[len], platform, false),
                prefix: Some(x),
                len,
                verbatim,
                implied_root,
            }
        },
        None => {
            Start {
                written_root: chars.len() > 0 && separator(chars[0], platform, false),
                prefix: None,
                len: 0,
                verbatim: false,
                implied_root: false,
            }
        },
    }
}

/// Splits a path into its parts.
pub fn split_path(chars: &Vec<char>, platform: Platform) -> (r: Vec<Part>)
    ensures
        parts_view(r@) == path_parts(chars@, platform),
{
    reveal(path_parts);
    let start = read_start(chars, platform);
    let mut parts: Vec<Part> = Vec::new();
    let n: usize = chars.len();
    let len: usize = start.len;
    let verbatim = start.verbatim;
    let no_prefix = start.prefix.is_none();
    let ghost rest = chars@.skip(len as int);
    assert(forall|i: int| 0 <= i < rest.len() ==> rest[i] == chars@[i + len]);
    let ghost before: Seq<PathPart> = match path_prefix(chars@, platform) {
        Some(x) => seq![x.part],
        None => Seq::empty(),
    };
    match start.prefix {
        Some(x) => {
            parts.push(x);
        },
        None => {},
    }
    assert(parts_view(parts@) == before);
    if start.written_root {
        parts.push(Part { rank: ROOT_DIR, head: Vec::new(), tail: Vec::new() });
        assert(parts_view(parts@) == before.push(part(ROOT_DIR, Seq::empty(), Seq::empty())));
        assert(rest.skip(1) == chars@.skip(len + 1));
        read_body(chars, len + 1, platform, verbatim, &mut parts);
    } else if start.implied_root && !verbatim {
        parts.push(Part { rank: ROOT_DIR, head: Vec::new(), tail: Vec::new() });
        assert(parts_view(parts@) == before.push(part(ROOT_DIR, Seq::empty(), Seq::empty())));
        read_body(chars, len, platform, verbatim, &mut parts);
    } else if no_prefix && n > 0 && chars[0] == '.' && (n == 1 || separator(
        chars[1],
        platform,
        false,
    )) {
        parts.push(Part { rank: CUR_DIR, head: Vec::new(), tail: Vec::new() });
        assert(parts_view(parts@) == before.push(part(CUR_DIR, Seq::empty(), Seq::empty())));
        assert(rest.skip(1) == chars@.skip(1));
        read_body(chars, 1, platform, verbatim, &mut parts);
    } else {
        read_body(chars, len, platform, verbatim, &mut parts);
    }
    parts
}

/// Reads the text of the prefix of a path.
pub fn prefix_text(chars: &Vec<char>, platform: Platform) -> (r: Vec<char>)
    ensures
        r@ == chars@.take(prefix_len(chars@, platform)),
{
    let start = read_start(chars, platform);
    let r = range_of(chars, 0, start.len);
    assert(r@ == chars@.take(start.len as int));
    r
}

/// Decides [`is_absolute_path`].
pub fn is_absolute(p: &str, platform: Platform) -> (r: bool)
    ensures
        r == is_absolute_path(p@, platform),
{
    let chars = chars_of(p);
    let start = read_start(&chars, platform);
    (start.written_root || start.implied_root) && (platform != Platform::Windows
        || start.prefix.is_some())
}

/// Copies a part.
pub fn copy_part(x: &Part) -> (r: Part)
    ensures
        r@ == x@,
{
    let r = Part {
        rank: x.rank,
        head: range_of(&x.head, 0, x.head.len()),
        tail: range_of(&x.tail, 0, x.tail.len()),
    };
    assert(r.head@ == x.head@);
    assert(r.tail@ == x.tail@);
    r
}

/// Goes from `parts` along `x`.
fn walk_one(parts: Vec<Part>, x: Part) -> (r: Vec<Part>)
    ensures
        parts_view(r@) == step_along(parts_view(parts@), x@),
{
    let ghost old_parts = parts_view(parts@);
    let ghost y = x@;
    let mut parts = parts;
    if x.rank == ROOT_DIR {
        if parts.len() > 1 {
            parts.truncate(1);
        }
        parts.push(x);
        assert(parts_view(parts@) == step_along(old_parts, y));
    } else if x.rank == CUR_DIR {
    } else if x.rank == PARENT_DIR {
        let n: usize = parts.len();
        if n > 0 && parts[n - 1].rank == NORMAL {
            assert(old_parts.last() == parts@[n - 1]@);
            parts.truncate(n - 1);
            assert(parts_view(parts@) == old_parts.drop_last());
        } else {
            assert(n > 0 ==> old_parts.last() == parts@[n - 1]@);
        }
    } else {
        parts.push(x);
        assert(parts_view(parts@) == old_parts.push(y));
    }
    parts
}

/// Goes from `parts` along each of `more`.
fn walk_all(parts: Vec<Part>, more: Vec<Part>) -> (r: Vec<Part>)
    ensures
        parts_view(r@) == walk(parts_view(parts@), parts_view(more@)),
{
    let ghost start = parts_view(parts@);
    let ghost all = parts_view(more@);
    let mut parts = parts;
    let n: usize = more.len();
    for i in 0..n
        invariant
            n == more@.len(),
            all == parts_view(more@),
            parts_view(parts@) == walk(start, all.take(i as int)),
    {
        assert(all.take(i + 1).drop_last() == all.take(i as int));
        assert(all[i as int] == more@[i as int]@);
        parts = walk_one(parts, copy_part(&more[i]));
    }
    assert(all.take(n as int) == all);
    parts
}

/// Appends `more` to `text`.
pub fn append_chars(text: &mut Vec<char>, more: &Vec<char>)
    ensures
        final(text)@ == old(text)@ + more@,
{
    let n: usize = more.len();
    for i in 0..n
        invariant
            n == more@.len(),
            text@ == old(text)@ + more@.take(i as int),
    {
        text.push(more[i]);
        assert(more@.take(i + 1) == more@.take(i as int).push(more@[i as int]));
    }
    assert(more@.take(n as int) == more@);
}

/// Writes the Windows path that has the given parts.
fn render(parts: &Vec<Part>, prefix: &Vec<char>) -> (r: Vec<char>)
    ensures
        r@ == rendered(parts_view(parts@), prefix@),
{
    let ghost all = parts_view(parts@);
    let mut r: Vec<char> = Vec::new();
    let n: usize = parts.len();
    for i in 0..n
        invariant
            n == parts@.len(),
            all == parts_view(parts@),
            r@ == rendered(all.take(i as int), prefix@),
    {
        let ghost upto = all.take(i + 1);
        assert(upto.drop_last() == all.take(i as int));
        assert(upto.last() == parts@[i as int]@);
        assert(i > 0 ==> all.take(i as int).last() == parts@[i - 1]@);
        let rank: u8 = parts[i].rank;
        if i > 0 && parts[i - 1].rank != ROOT_DIR && parts[i - 1].rank != DISK && rank != ROOT_DIR {
            r.push('\\');
        }
        let ghost before = r@;
        if rank <= DISK {
            append_chars(&mut r, prefix);
        } else if rank == ROOT_DIR {
            r.push('\\');
            assert(r@ == before + seq!['\\']);
        } else if rank == CUR_DIR {
            r.push('.');
            assert(r@ == before + seq!['.']);
        } else if rank == PARENT_DIR {
            r.push('.');
            r.push('.');
            assert(r@ == before + seq!['.', '.']);
        } else {
            append_chars(&mut r, &parts[i].head);
        }
    }
    assert(all.take(n as int) == all);
    r
}

/// Takes the path `p` from the directory `base`.
pub fn join_path(base: &str, p: &str, platform: Platform) -> (r: String)
    ensures
        r@ == joined_path(base@, p@, platform),
{
    let b = chars_of(base);
    let c = chars_of(p);
    let of_base = read_start(&b, platform);
    let of_p = read_start(&c, platform);
    if is_absolute(p, platform) || of_p.prefix.is_some() {
        return string_of(&c);
    }
    if of_base.verbatim && c.len() > 0 {
        let prefix = range_of(&b, 0, of_base.len);
        assert(prefix@ == base@.take(of_base.len as int));
        let parts = walk_all(split_path(&b, platform), split_path(&c, platform));
        return string_of(&render(&parts, &prefix));
    }
    let mut text: Vec<char> = Vec::new();
    if of_p.written_root || of_p.implied_root {
        text = range_of(&b, 0, of_base.len);
        assert(text@ == base@.take(of_base.len as int));
    } else {
        let n: usize = b.len();
        let bare_drive = match &of_base.prefix {
            Some(x) => x.rank == DISK && of_base.len == n,
            None => false,
        };
        append_chars(&mut text, &b);
        assert(text@ == base@);
        if n > 0 && !separator(b[n - 1], platform, false) && !bare_drive {
            text.push(
                if platform == Platform::Windows {
                    '\\'
                } else {
                    '/'
                },
            );
        }
    }
    append_chars(&mut text, &c);
    string_of(&text)
}

pub proof fn lemma_separator_at_is_first(s: Seq<char>, platform: Platform, verbatim: bool, k: int)
    requires
        0 <= k < s.len(),
        forall|i: int| 0 <= i < k ==> !separates(#[trigger] s[i], platform, verbatim),
        separates(s[k], platform, verbatim),
    ensures
        separator_at(s, platform, verbatim) == k,
    decreases k,
{
    if k > 0 {
        let t = s.drop_first();
        assert(!separates(s[0], platform, verbatim));
        assert forall|i: int| 0 <= i < k - 1 implies !separates(
            #[trigger] t[i],
            platform,
            verbatim,
        ) by {
            assert(t[i] == s[i + 1]);
        }
        lemma_separator_at_is_first(t, platform, verbatim, k - 1);
    }
}

pub proof fn lemma_separator_at(s: Seq<char>, platform: Platform, verbatim: bool)
    ensures
        0 <= separator_at(s, platform, verbatim) <= s.len(),
        forall|i: int|
            0 <= i < separator_at(s, platform, verbatim) ==> !separates(
                #[trigger] s[i],
                platform,
                verbatim,
            ),
        separator_at(s, platform, verbatim) < s.len() ==> separates(
            s[separator_at(s, platform, verbatim)],
            platform,
            verbatim,
        ),
    decreases s.len(),
{
    if s.len() > 0 && !separates(s[0], platform, verbatim) {
        let t = s.drop_first();
        lemma_separator_at(t, platform, verbatim);
        let k = separator_at(s, platform, verbatim);
        assert forall|i: int| 0 <= i < k implies !separates(
            #[trigger] s[i],
            platform,
            verbatim,
        ) by {
            if i > 0 {
                assert(s[i] == t[i - 1]);
            }
        }
        if k < s.len() {
            assert(s[k] == t[k - 1]);
        }
    }
}

/// A text that goes on where a prefix with two slashes ends has such a prefix itself.
proof fn lemma_prefix_goes_on(base: Seq<char>, q: Seq<char>)
    requires
        base.len() >= 2,
        is_slash(base[0]),
        is_slash(base[1]),
        double_slash_prefix(base) is Some,
        prefix_len(base, Platform::Windows) <= base.len(),
        prefix_len(base, Platform::Windows) <= q.len(),
        q.take(prefix_len(base, Platform::Windows)) == base.take(
            prefix_len(base, Platform::Windows),
        ),
    ensures
        path_prefix(q, Platform::Windows) is Some,
        !lacks_implied_root(q, Platform::Windows),
        has_verbatim_start(base) ==> is_verbatim(q, Platform::Windows),
{
    let w = Platform::Windows;
    let n = prefix_len(base, w);
    let u = base.take(n);
    let s = base.skip(2);
    let t = q.skip(2);
    lemma_prefix_is_long(base);
    assert(forall|i: int| 0 <= i < n ==> u[i] == base[i] && u[i] == q[i]);
    assert(q[0] == base[0] && q[1] == base[1]);
    assert(q[2] == base[2] && q[3] == base[3]);
    assert(s[0] == base[2] && s[1] == base[3] && t[0] == q[2] && t[1] == q[3]);
    if has_verbatim_start(base) {
    } else if s[0] == '.' && is_slash(s[1]) {
    } else {
        lemma_separator_at(s, w, false);
        let k = separator_at(s, w, false);
        let server = first_piece(s, w, false);
        let rest = other_pieces(s, w, false);
        lemma_separator_at(rest, w, false);
        let share = first_piece(rest, w, false);
        assert(server.len() == k);
        assert(k < s.len());
        assert(forall|i: int| 0 <= i < n - 2 ==> t[i] == q[i + 2] && s[i] == base[i + 2]);
        assert forall|i: int| 0 <= i < k implies !separates(#[trigger] t[i], w, false) by {
            assert(t[i] == s[i]);
        }
        assert(t[k] == s[k]);
        lemma_separator_at_is_first(t, w, false, k);
        let more = other_pieces(t, w, false);
        assert(more[0] == t[k + 1]);
        assert(rest[0] == s[k + 1]);
        assert(t[k + 1] == s[k + 1]);
        assert(!separates(rest[0], w, false));
        lemma_separator_at(more, w, false);
        assert(separator_at(more, w, false) > 0);
    }
}

/// Whether the text begins with `\\?\`.
spec fn has_verbatim_start(p: Seq<char>) -> bool {
    p.len() >= 4 && p[0] == '\\' && p[1] == '\\' && p[2] == '?' && p[3] == '\\'
}

proof fn lemma_prefix_is_long(base: Seq<char>)
    requires
        base.len() >= 2,
        is_slash(base[0]),
        is_slash(base[1]),
        double_slash_prefix(base) is Some,
    ensures
        4 <= prefix_len(base, Platform::Windows),
        base.len() >= 4,
{
    let w = Platform::Windows;
    let s = base.skip(2);
    lemma_separator_at(s, w, false);
    lemma_separator_at(other_pieces(s, w, false), w, false);
    if s.len() >= 2 && s[0] == '?' && s[1] == '\\' && base[0] == '\\' && base[1] == '\\' {
        let v = s.skip(2);
        lemma_separator_at(v, w, true);
        if v.len() >= 4 {
            lemma_separator_at(v.skip(4), w, true);
            lemma_separator_at(other_pieces(v.skip(4), w, true), w, true);
        }
    } else if s.len() >= 2 && s[0] == '.' && is_slash(s[1]) {
        lemma_separator_at(s.skip(2), w, false);
    }
}

/// Walking on from a prefix keeps the prefix.
proof fn lemma_walk_keeps_first(parts: Seq<PathPart>, more: Seq<PathPart>)
    requires
        parts.len() > 0,
        parts[0].rank <= DISK,
    ensures
        walk(parts, more).len() > 0,
        walk(parts, more)[0] == parts[0],
    decreases more.len(),
{
    if more.len() > 0 {
        lemma_walk_keeps_first(parts, more.drop_last());
        let w = walk(parts, more.drop_last());
        if w.len() == 1 {
            assert(w.last() == w[0]);
        }
    }
}

/// The text of parts that begin with a prefix begins with the text of the prefix.
proof fn lemma_rendered_starts(parts: Seq<PathPart>, prefix: Seq<char>)
    requires
        parts.len() > 0,
        parts[0].rank <= DISK,
    ensures
        prefix.len() <= rendered(parts, prefix).len(),
        rendered(parts, prefix).take(prefix.len() as int) == prefix,
    decreases parts.len(),
{
    let r = rendered(parts, prefix);
    if parts.len() == 1 {
        reveal_with_fuel(rendered, 2);
        assert(parts.drop_last() == Seq::<PathPart>::empty());
        assert(parts.last() == parts[0]);
        assert(r == Seq::<char>::empty() + prefix);
        assert(r.take(prefix.len() as int) == prefix);
    } else {
        let before = parts.drop_last();
        assert(before[0] == parts[0]);
        lemma_rendered_starts(before, prefix);
        assert(r.take(prefix.len() as int) == rendered(before, prefix).take(prefix.len() as int));
    }
}

proof fn lemma_verbatim_join(base: Seq<char>, p: Seq<char>)
    requires
        is_verbatim(base, Platform::Windows),
        prefix_len(base, Platform::Windows) <= base.len(),
    ensures
        is_absolute_path(
            rendered(
                walk(path_parts(base, Platform::Windows), path_parts(p, Platform::Windows)),
                base.take(prefix_len(base, Platform::Windows)),
            ),
            Platform::Windows,
        ),
{
    let w = Platform::Windows;
    let u = base.take(prefix_len(base, w));
    let parts = path_parts(base, w);
    lemma_prefix_is_long(base);
    assert(parts.len() > 0 && parts[0].rank <= DISK) by {
        reveal(path_parts);
        assert(parts[0] == path_prefix(base, w)->0.part);
    }
    lemma_walk_keeps_first(parts, path_parts(p, w));
    let all = walk(parts, path_parts(p, w));
    lemma_rendered_starts(all, u);
    lemma_prefix_goes_on(base, rendered(all, u));
}

/// What is joined to an absolute path is absolute, unless it names a drive and no root there
/// (`C:name`).
pub proof fn law_joined_is_absolute(base: Seq<char>, p: Seq<char>, platform: Platform)
    requires
        is_absolute_path(base, platform),
        path_prefix(p, platform) is Some ==> is_absolute_path(p, platform),
    ensures
        is_absolute_path(joined_path(base, p, platform), platform),
{
    let r = joined_path(base, p, platform);
    if is_absolute_path(p, platform) {
    } else if !(platform is Windows) {
        assert(r[0] == base[0]);
    } else {
        let n = prefix_len(base, platform);
        lemma_prefix_fits(base);
        if is_slash(base[0]) {
            lemma_prefix_is_long(base);
            if is_verbatim(base, platform) && p.len() > 0 {
                lemma_verbatim_join(base, p);
            } else {
                assert(r.take(n) == base.take(n));
                lemma_prefix_goes_on(base, r);
            }
        } else {
            assert(has_drive(base));
            assert(n == 2);
            assert(separates(base[2], platform, false));
            assert(r[0] == base[0] && r[1] == base[1]);
            if has_root(p, platform) {
                assert(r[2] == p[0]);
            } else {
                assert(r[2] == base[2]);
            }
        }
    }
}

pub proof fn lemma_prefix_fits(base: Seq<char>)
    ensures
        0 <= prefix_len(base, Platform::Windows) <= base.len(),
{
    let w = Platform::Windows;
    if base.len() >= 2 && is_slash(base[0]) && is_slash(base[1]) {
        let s = base.skip(2);
        lemma_separator_at(s, w, false);
        lemma_separator_at(other_pieces(s, w, false), w, false);
        if s.len() >= 2 && s[0] == '?' && s[1] == '\\' && base[0] == '\\' && base[1] == '\\' {
            let v = s.skip(2);
            lemma_separator_at(v, w, true);
            if v.len() >= 4 {
                lemma_separator_at(v.skip(4), w, true);
                lemma_separator_at(other_pieces(v.skip(4), w, true), w, true);
            }
        } else if s.len() >= 2 && s[0] == '.' && is_slash(s[1]) {
            lemma_separator_at(s.skip(2), w, false);
        }
    }
}

/// On systems with Unix paths, a path is absolute exactly when it begins with `/`.
pub proof fn law_absolute_on_unix(p: Seq<char>, platform: Platform)
    requires
        platform != Platform::Windows,
    ensures
        is_absolute_path(p, platform) <==> p.len() > 0 && p[0] == '/',
{
}

/// On Windows, a drive with a slash behind it is absolute; a drive alone, a drive with a name, one
/// slash and a name are not.
pub proof fn law_absolute_on_windows(p: Seq<char>)
    requires
        p.len() > 0,
        !(p.len() > 1 && (p[0] == '\\' || p[0] == '/') && (p[1] == '\\' || p[1] == '/')),
    ensures
        is_absolute_path(p, Platform::Windows) <==> p.len() > 2 && ('a' <= p[0] <= 'z' || 'A' <= p[0]
            <= 'Z') && p[1] == ':' && (p[2] == '\\' || p[2] == '/'),
        path_prefix(p, Platform::Windows) is Some <==> p.len() > 1 && ('a' <= p[0] <= 'z' || 'A'
            <= p[0] <= 'Z') && p[1] == ':',
        path_prefix(p, Platform::Windows) is Some ==> prefix_len(p, Platform::Windows) == 2,
{
}

/// On Windows, two slashes, a server, a slash and a share are the prefix of a path, which is absolute;
/// the prefix ends with the share.
pub proof fn law_network_shares(
    a: char,
    b: char,
    server: Seq<char>,
    c: char,
    share: Seq<char>,
    after: Seq<char>,
)
    requires
        a == '\\' || a == '/',
        b == '\\' || b == '/',
        c == '\\' || c == '/',
        server.len() > 0 && server != seq!['?'] && server != seq!['.'],
        share.len() > 0,
        forall|i: int| 0 <= i < server.len() ==> #[trigger] server[i] != '\\' && server[i] != '/',
        forall|i: int| 0 <= i < share.len() ==> #[trigger] share[i] != '\\' && share[i] != '/',
        after.len() > 0 ==> (after[0] == '\\' || after[0] == '/'),
    ensures
        ({
            let p = seq![a, b] + server + seq![c] + share + after;
            &&& is_absolute_path(p, Platform::Windows)
            &&& path_prefix(p, Platform::Windows) matches Some(x) && x.part == part(
                UNC,
                server,
                share,
            )
            &&& prefix_len(p, Platform::Windows) == 3 + server.len() + share.len()
        }),
{
    let w = Platform::Windows;
    let p = seq![a, b] + server + seq![c] + share + after;
    let s = p.skip(2);
    let k = server.len() as int;
    let rest = share + after;
    assert(p[0] == a && p[1] == b);
    assert(s == server + seq![c] + rest);
    assert(s[k] == c);
    assert forall|i: int| 0 <= i < k implies !separates(#[trigger] s[i], w, false) by {
        assert(s[i] == server[i]);
    }
    lemma_separator_at_is_first(s, w, false, k);
    assert(s.take(k) == server);
    assert(s.skip(k + 1) == rest);
    assert(s[0] == server[0]);
    if k == 1 {
        assert(server =~= seq![server[0]]);
        assert(server[0] != '?' && server[0] != '.');
    } else {
        assert(s[1] == server[1]);
    }
    let n = share.len() as int;
    lemma_separator_at(rest, w, false);
    let at = separator_at(rest, w, false);
    assert forall|i: int| 0 <= i < n implies !separates(#[trigger] rest[i], w, false) by {
        assert(rest[i] == share[i]);
    }
    if after.len() > 0 {
        assert(rest[n] == after[0]);
        lemma_separator_at_is_first(rest, w, false, n);
    }
    assert(at == n);
    assert(rest.take(n) == share);
}

/// Going along the parts of a path: a name goes down, `..` goes back over a name and no further, and
/// `.` stays.
pub proof fn law_walk(parts: Seq<PathPart>, more: Seq<PathPart>, x: PathPart)
    ensures
        walk(parts, Seq::empty()) == parts,
        x.rank == NORMAL ==> walk(parts, more.push(x)) == walk(parts, more).push(x),
        x.rank == CUR_DIR ==> walk(parts, more.push(x)) == walk(parts, more),
        x.rank == PARENT_DIR && walk(parts, more).len() > 0 && walk(parts, more).last().rank
            == NORMAL ==> walk(parts, more.push(x)) == walk(parts, more).drop_last(),
        x.rank == PARENT_DIR && walk(parts, more).len() > 0 && walk(parts, more).last().rank
            != NORMAL ==> walk(parts, more.push(x)) == walk(parts, more),
{
    assert(more.push(x).drop_last() == more);
}

/// In the text of parts, names stand behind one another with a backslash between each two, and none
/// is added behind the root or a drive.
pub proof fn law_rendered(parts: Seq<PathPart>, x: PathPart, prefix: Seq<char>)
    requires
        x.rank == NORMAL,
        parts.len() > 0,
    ensures
        parts.last().rank == NORMAL ==> rendered(parts.push(x), prefix) == rendered(parts, prefix)
            + seq!['\\'] + x.head,
        parts.last().rank == ROOT_DIR ==> rendered(parts.push(x), prefix) == rendered(parts, prefix)
            + x.head,
        parts.last().rank == DISK ==> rendered(parts.push(x), prefix) == rendered(parts, prefix)
            + x.head,
{
    assert(parts.push(x).drop_last() == parts);
    let r = rendered(parts, prefix);
    assert(r.push('\\') + x.head == r + seq!['\\'] + x.head);
}

/// On systems with Unix paths, joining puts one `/` between the directory and a relative path, unless
/// the directory ends in one, and an absolute path stays as it is.
pub proof fn law_joined_on_unix(base: Seq<char>, p: Seq<char>, platform: Platform)
    requires
        platform != Platform::Windows,
    ensures
        p.len() > 0 && p[0] == '/' ==> joined_path(base, p, platform) == p,
        !(p.len() > 0 && p[0] == '/') && base.len() > 0 && base.last() != '/' ==> joined_path(
            base,
            p,
            platform,
        ) == base + seq!['/'] + p,
        !(p.len() > 0 && p[0] == '/') && (base.len() == 0 || base.last() == '/') ==> joined_path(
            base,
            p,
            platform,
        ) == base + p,
{
    assert(base.push('/') + p == base + seq!['/'] + p);
}

/// What separates the parts of a path: `/` on systems with Unix paths; both slashes on Windows, but
/// only `\` behind a verbatim prefix.
pub proof fn law_separators(c: char, platform: Platform, verbatim: bool)
    ensures
        platform != Platform::Windows ==> (separates(c, platform, verbatim) <==> c == '/'),
        separates(c, Platform::Windows, false) <==> c == '\\' || c == '/',
        separates(c, Platform::Windows, true) <==> c == '\\',
        main_separator(Platform::Windows) == '\\',
        platform != Platform::Windows ==> main_separator(platform) == '/',
{
}

/// A drive is the same in either case of its letter.
pub proof fn law_drives(i: int)
    requires
        0 <= i < 26,
    ensures
        drive_name("abcdefghijklmnopqrstuvwxyz"@[i]) == seq!["ABCDEFGHIJKLMNOPQRSTUVWXYZ"@[i]],
        drive_name("ABCDEFGHIJKLMNOPQRSTUVWXYZ"@[i]) == seq!["ABCDEFGHIJKLMNOPQRSTUVWXYZ"@[i]],
{
    lemma_alphabet(i);
}

/// On Windows, `\\?\` and a drive are a prefix of six characters, behind which only `\` separates;
/// `\\.\` and a name are the prefix of a device.
pub proof fn law_other_prefixes(d: char, name: Seq<char>, after: Seq<char>)
    requires
        after.len() > 0 ==> after[0] == '\\',
        forall|i: int| 0 <= i < name.len() ==> #[trigger] name[i] != '\\' && name[i] != '/',
    ensures
        'a' <= d <= 'z' || 'A' <= d <= 'Z' ==> ({
            let p = seq!['\\', '\\', '?', '\\', d, ':'] + after;
            &&& path_prefix(p, Platform::Windows) matches Some(x) && x.part == part(
                VERBATIM_DISK,
                drive_name(d),
                Seq::empty(),
            ) && x.len == 6
            &&& is_verbatim(p, Platform::Windows)
            &&& is_absolute_path(p, Platform::Windows)
        }),
        ({
            let p = seq!['\\', '\\', '.', '\\'] + name + after;
            &&& path_prefix(p, Platform::Windows) matches Some(x) && x.part == part(
                DEVICE,
                name,
                Seq::empty(),
            ) && x.len == 4 + name.len()
            &&& !is_verbatim(p, Platform::Windows)
            &&& is_absolute_path(p, Platform::Windows)
        }),
{
    let w = Platform::Windows;
    let p = seq!['\\', '\\', '?', '\\', d, ':'] + after;
    let v = p.skip(2).skip(2);
    assert(p[0] == '\\' && p[1] == '\\' && p.skip(2)[0] == '?' && p.skip(2)[1] == '\\');
    assert(v == seq![d, ':'] + after);
    assert(v[0] == d && v[1] == ':');
    if after.len() > 0 {
        assert(v[2] == after[0]);
    }
    let q = seq!['\\', '\\', '.', '\\'] + name + after;
    let u = q.skip(2).skip(2);
    assert(q[0] == '\\' && q[1] == '\\' && q.skip(2)[0] == '.' && q.skip(2)[1] == '\\');
    assert(u == name + after);
    let n = name.len() as int;
    lemma_separator_at(u, w, false);
    assert forall|i: int| 0 <= i < n implies !separates(#[trigger] u[i], w, false) by {
        assert(u[i] == name[i]);
    }
    if after.len() > 0 {
        assert(u[n] == after[0]);
        lemma_separator_at_is_first(u, w, false, n);
    }
    assert(separator_at(u, w, false) == n);
    assert(u.take(n) == name);
}

} // verus!
