//! Character-level text operations.

use vstd::prelude::*;

verus! {

/// `String::push` appends the character to the end of the string.
pub assume_specification[ String::push ](s: &mut String, c: char)
    ensures
        final(s)@ == old(s)@.push(c),
;

/// The characters of `s`, in order.
pub fn chars_of(s: &str) -> (r: Vec<char>)
    ensures
        r@ == s@,
{
    let mut r: Vec<char> = Vec::new();
    for c in it: s.chars()
        invariant
            it.seq() == s@,
            r@ == s@.take(it.index()),
    {
        r.push(c);
    }
    r
}

/// The string made of the given characters.
pub fn string_of(chars: &[char]) -> (r: String)
    ensures
        r@ == chars@,
{
    let mut r = String::new();
    let n: usize = chars.len();
    for i in 0..n
        invariant
            n == chars@.len(),
            r@ == chars@.take(i as int),
    {
        r.push(chars[i]);
    }
    assert(chars@.take(n as int) == chars@);
    r
}

/// Whether two texts hold the same characters.
pub fn same_text(a: &str, b: &str) -> (r: bool)
    ensures
        r == (a@ == b@),
{
    let x = chars_of(a);
    let y = chars_of(b);
    if x.len() != y.len() {
        return false;
    }
    let n: usize = x.len();
    for i in 0..n
        invariant
            n == x@.len(),
            n == y@.len(),
            x@.take(i as int) == y@.take(i as int),
            x@ == a@,
            y@ == b@,
    {
        if x[i] != y[i] {
            return false;
        }
        assert(x@.take(i + 1) == x@.take(i as int).push(x@[i as int]));
        assert(y@.take(i + 1) == y@.take(i as int).push(y@[i as int]));
    }
    assert(x@.take(n as int) == x@);
    assert(y@.take(n as int) == y@);
    true
}

/// Whether `text` begins with `prefix`.
pub open spec fn has_prefix(text: Seq<char>, prefix: Seq<char>) -> bool {
    prefix.len() <= text.len() && text.take(prefix.len() as int) == prefix
}

/// Decides [`has_prefix`].
pub fn starts_with(text: &str, prefix: &str) -> (r: bool)
    ensures
        r == has_prefix(text@, prefix@),
{
    let t = chars_of(text);
    let p = chars_of(prefix);
    occurs_at(&t, &p, 0)
}

/// Decides whether `part` stands in `text` at position `at`.
fn occurs_at(text: &Vec<char>, part: &Vec<char>, at: usize) -> (r: bool)
    requires
        at <= text@.len(),
    ensures
        r == (at + part@.len() <= text@.len() && text@.subrange(at as int, at + part@.len())
            == part@),
{
    if text.len() - at < part.len() {
        return false;
    }
    let n: usize = part.len();
    for i in 0..n
        invariant
            n == part@.len(),
            at + n <= text.len(),
            text@.subrange(at as int, at + i) == part@.take(i as int),
    {
        if text[at + i] != part[i] {
            proof {
                let whole = text@.subrange(at as int, at + part@.len());
                assert(whole[i as int] == text@[at + i]);
            }
            return false;
        }
        assert(text@.subrange(at as int, at + i + 1) == text@.subrange(at as int, at + i).push(
            text@[at + i],
        ));
        assert(part@.take(i + 1) == part@.take(i as int).push(part@[i as int]));
    }
    assert(part@.take(n as int) == part@);
    true
}

/// Whether `part` stands in `text` at position `at`.
pub open spec fn stands_at(text: Seq<char>, part: Seq<char>, at: int) -> bool {
    0 <= at && at + part.len() <= text.len() && text.subrange(at, at + part.len()) == part
}

/// Whether `part` stands anywhere in `text`.
pub open spec fn occurs_in(text: Seq<char>, part: Seq<char>) -> bool {
    exists|at: int| stands_at(text, part, at)
}

/// Decides [`occurs_in`].
pub fn contains_text(text: &str, part: &str) -> (r: bool)
    ensures
        r == occurs_in(text@, part@),
{
    let t = chars_of(text);
    let p = chars_of(part);
    let n: usize = t.len();
    let mut at: usize = 0;
    while at < n
        invariant
            at <= n,
            n == t@.len(),
            t@ == text@,
            p@ == part@,
            forall|k: int| 0 <= k < at ==> !stands_at(text@, part@, k),
        decreases n - at,
    {
        if occurs_at(&t, &p, at) {
            assert(stands_at(text@, part@, at as int));
            return true;
        }
        at = at + 1;
    }
    let r = occurs_at(&t, &p, n);
    proof {
        if r {
            assert(stands_at(text@, part@, n as int));
        }
    }
    r
}

/// The characters with the Unicode `White_Space` property.
pub open spec fn is_white_space(c: char) -> bool {
    ||| '\u{9}' <= c <= '\u{d}'
    ||| c == ' '
    ||| c == '\u{85}'
    ||| c == '\u{a0}'
    ||| c == '\u{1680}'
    ||| '\u{2000}' <= c <= '\u{200a}'
    ||| c == '\u{2028}'
    ||| c == '\u{2029}'
    ||| c == '\u{202f}'
    ||| c == '\u{205f}'
    ||| c == '\u{3000}'
}

/// The two quote characters of a shell.
pub open spec fn is_quote(c: char) -> bool {
    c == '"' || c == '\''
}

fn white_space(c: char) -> (r: bool)
    ensures
        r == is_white_space(c),
{
    ('\u{9}' <= c && c <= '\u{d}') || c == ' ' || c == '\u{85}' || c == '\u{a0}' || c == '\u{1680}'
        || ('\u{2000}' <= c && c <= '\u{200a}') || c == '\u{2028}' || c == '\u{2029}' || c
        == '\u{202f}' || c == '\u{205f}' || c == '\u{3000}'
}

/// `s` without the longest run of `p` characters at its start.
pub open spec fn without_leading(s: Seq<char>, p: spec_fn(char) -> bool) -> Seq<char>
    decreases s.len(),
{
    if s.len() > 0 && p(s[0]) {
        without_leading(s.drop_first(), p)
    } else {
        s
    }
}

/// `s` without the longest run of `p` characters at its end.
pub open spec fn without_trailing(s: Seq<char>, p: spec_fn(char) -> bool) -> Seq<char>
    decreases s.len(),
{
    if s.len() > 0 && p(s.last()) {
        without_trailing(s.drop_last(), p)
    } else {
        s
    }
}

/// `s` without white space at either end.
pub open spec fn trimmed(s: Seq<char>) -> Seq<char> {
    without_trailing(without_leading(s, |c: char| is_white_space(c)), |c: char| is_white_space(c))
}

/// `s` without quotes at either end.
pub open spec fn unquoted(s: Seq<char>) -> Seq<char> {
    without_trailing(without_leading(s, |c: char| is_quote(c)), |c: char| is_quote(c))
}

proof fn lemma_without_leading(s: Seq<char>, p: spec_fn(char) -> bool, k: int)
    requires
        0 <= k <= s.len(),
        forall|i: int| 0 <= i < k ==> p(#[trigger] s[i]),
        k < s.len() ==> !p(s[k]),
    ensures
        without_leading(s, p) == s.skip(k),
    decreases k,
{
    if k == 0 {
        assert(s.skip(0) == s);
    } else {
        let t = s.drop_first();
        assert forall|i: int| 0 <= i < k - 1 implies p(#[trigger] t[i]) by {
            assert(t[i] == s[i + 1]);
        }
        lemma_without_leading(t, p, k - 1);
        assert(t.skip(k - 1) == s.skip(k));
    }
}

proof fn lemma_without_trailing(s: Seq<char>, p: spec_fn(char) -> bool, k: int)
    requires
        0 <= k <= s.len(),
        forall|i: int| k <= i < s.len() ==> p(#[trigger] s[i]),
        k > 0 ==> !p(s[k - 1]),
    ensures
        without_trailing(s, p) == s.take(k),
    decreases s.len() - k,
{
    if k == s.len() {
        assert(s.take(k) == s);
    } else {
        let t = s.drop_last();
        assert(p(s[s.len() - 1]));
        lemma_without_trailing(t, p, k);
        assert(t.take(k) == s.take(k));
    }
}

/// A text is its trimmed form between white space, which is given back.
pub proof fn law_trimmed_inside(s: Seq<char>) -> (r: (Seq<char>, Seq<char>))
    ensures
        s == r.0 + trimmed(s) + r.1,
        forall|k: int| 0 <= k < r.0.len() ==> is_white_space(#[trigger] r.0[k]),
        forall|k: int| 0 <= k < r.1.len() ==> is_white_space(#[trigger] r.1[k]),
{
    let p = |c: char| is_white_space(c);
    let left = lemma_leading(s, p);
    let rest = without_leading(s, p);
    let right = lemma_trailing(rest, p);
    assert(left + without_trailing(rest, p) + right == left + (without_trailing(rest, p) + right));
    assert forall|k: int| 0 <= k < left.len() implies is_white_space(#[trigger] left[k]) by {
        assert(p(left[k]));
    }
    assert forall|k: int| 0 <= k < right.len() implies is_white_space(#[trigger] right[k]) by {
        assert(p(right[k]));
    }
    (left, right)
}

proof fn lemma_leading(s: Seq<char>, p: spec_fn(char) -> bool) -> (left: Seq<char>)
    ensures
        s == left + without_leading(s, p),
        forall|k: int| 0 <= k < left.len() ==> p(#[trigger] left[k]),
    decreases s.len(),
{
    if s.len() > 0 && p(s[0]) {
        let more = lemma_leading(s.drop_first(), p);
        let left = seq![s[0]] + more;
        assert(left + without_leading(s, p) == seq![s[0]] + s.drop_first());
        assert forall|k: int| 0 <= k < left.len() implies p(#[trigger] left[k]) by {
            if k > 0 {
                assert(left[k] == more[k - 1]);
            }
        }
        left
    } else {
        assert(Seq::<char>::empty() + s == s);
        Seq::empty()
    }
}

proof fn lemma_trailing(s: Seq<char>, p: spec_fn(char) -> bool) -> (right: Seq<char>)
    ensures
        s == without_trailing(s, p) + right,
        forall|k: int| 0 <= k < right.len() ==> p(#[trigger] right[k]),
    decreases s.len(),
{
    if s.len() > 0 && p(s.last()) {
        let more = lemma_trailing(s.drop_last(), p);
        let right = more.push(s.last());
        assert(without_trailing(s, p) + right == s.drop_last().push(s.last()));
        assert forall|k: int| 0 <= k < right.len() implies p(#[trigger] right[k]) by {
            if k < more.len() {
                assert(right[k] == more[k]);
            }
        }
        right
    } else {
        assert(s + Seq::<char>::empty() == s);
        Seq::empty()
    }
}

/// Whether `c` is one of the characters to strip.
fn strips(quotes: bool, c: char) -> (r: bool)
    ensures
        r == (if quotes {
            is_quote(c)
        } else {
            is_white_space(c)
        }),
{
    if quotes {
        c == '"' || c == '\''
    } else {
        white_space(c)
    }
}

/// `s` stripped at both ends of quotes, if `quotes`, or else of white space.
fn strip_both(s: &str, quotes: bool) -> (r: String)
    ensures
        r@ == (if quotes {
            unquoted(s@)
        } else {
            trimmed(s@)
        }),
{
    let ghost p: spec_fn(char) -> bool = if quotes {
        |c: char| is_quote(c)
    } else {
        |c: char| is_white_space(c)
    };
    let chars = chars_of(s);
    let n: usize = chars.len();
    let mut from: usize = 0;
    while from < n && strips(quotes, chars[from])
        invariant
            from <= n,
            n == chars@.len(),
            forall|c: char| #[trigger] p(c) == (if quotes { is_quote(c) } else { is_white_space(c) }),
            forall|i: int| 0 <= i < from ==> p(#[trigger] chars@[i]),
        ensures
            from < n ==> !p(chars@[from as int]),
        decreases n - from,
    {
        from = from + 1;
    }
    proof {
        lemma_without_leading(s@, p, from as int);
    }
    let ghost rest = s@.skip(from as int);
    let mut to: usize = n;
    while to > from && strips(quotes, chars[to - 1])
        invariant
            from <= to <= n,
            n == chars@.len(),
            chars@ == s@,
            rest == s@.skip(from as int),
            forall|c: char| #[trigger] p(c) == (if quotes { is_quote(c) } else { is_white_space(c) }),
            forall|i: int| to - from <= i < rest.len() ==> p(#[trigger] rest[i]),
        ensures
            to > from ==> !p(rest[to - from - 1]),
        decreases to,
    {
        to = to - 1;
        assert(rest[to - from] == chars@[to as int]);
    }
    proof {
        lemma_without_trailing(rest, p, to - from);
        assert(rest.take(to - from) == s@.subrange(from as int, to as int));
    }
    slice_text(&chars, from, to)
}

/// The string made of the characters of `chars` from `from` up to `to`.
pub fn slice_text(chars: &Vec<char>, from: usize, to: usize) -> (r: String)
    requires
        from <= to <= chars@.len(),
    ensures
        r@ == chars@.subrange(from as int, to as int),
{
    let mut r = String::new();
    for i in from..to
        invariant
            from <= to <= chars@.len(),
            r@ == chars@.subrange(from as int, i as int),
    {
        r.push(chars[i]);
        assert(chars@.subrange(from as int, i + 1) == chars@.subrange(from as int, i as int).push(
            chars@[i as int],
        ));
    }
    r
}

/// Removes white space from both ends.
pub fn trim(s: &str) -> (r: String)
    ensures
        r@ == trimmed(s@),
{
    strip_both(s, false)
}

/// Removes quotes from both ends.
pub fn trim_quotes(s: &str) -> (r: String)
    ensures
        r@ == unquoted(s@),
{
    strip_both(s, true)
}

/// The lower-case form of an ASCII letter; any other character is its own.
pub open spec fn ascii_lower(c: char) -> char {
    if 'A' <= c <= 'Z' {
        (c as u8 + 32) as char
    } else {
        c
    }
}

fn to_ascii_lower(c: char) -> (r: char)
    ensures
        r == ascii_lower(c),
{
    if 'A' <= c && c <= 'Z' {
        (c as u8 + 32) as char
    } else {
        c
    }
}

/// Whether two texts differ at most in the case of ASCII letters.
pub open spec fn same_ignoring_ascii_case(a: Seq<char>, b: Seq<char>) -> bool {
    a.len() == b.len() && forall|i: int|
        0 <= i < a.len() ==> #[trigger] ascii_lower(a[i]) == ascii_lower(b[i])
}

/// Decides [`same_ignoring_ascii_case`].
pub fn eq_ignore_ascii_case(a: &str, b: &str) -> (r: bool)
    ensures
        r == same_ignoring_ascii_case(a@, b@),
{
    let x = chars_of(a);
    let y = chars_of(b);
    if x.len() != y.len() {
        return false;
    }
    let n: usize = x.len();
    for i in 0..n
        invariant
            n == x@.len(),
            n == y@.len(),
            x@ == a@,
            y@ == b@,
            forall|k: int| 0 <= k < i ==> #[trigger] ascii_lower(a@[k]) == ascii_lower(b@[k]),
    {
        if to_ascii_lower(x[i]) != to_ascii_lower(y[i]) {
            assert(ascii_lower(a@[i as int]) != ascii_lower(b@[i as int]));
            return false;
        }
    }
    true
}

/// `s` with every `c` replaced by `with`.
pub open spec fn replaced(s: Seq<char>, c: char, with: Seq<char>) -> Seq<char>
    decreases s.len(),
{
    if s.len() == 0 {
        s
    } else if s.last() == c {
        replaced(s.drop_last(), c, with) + with
    } else {
        replaced(s.drop_last(), c, with).push(s.last())
    }
}

/// Replaces every `c` in `s` by `with`.
pub fn replace_char(s: &str, c: char, with: &str) -> (r: String)
    ensures
        r@ == replaced(s@, c, with@),
{
    let chars = chars_of(s);
    let n: usize = chars.len();
    let mut r = String::new();
    for i in 0..n
        invariant
            n == chars@.len(),
            chars@ == s@,
            r@ == replaced(s@.take(i as int), c, with@),
    {
        assert(s@.take(i + 1).drop_last() == s@.take(i as int));
        if chars[i] == c {
            r.append(with);
        } else {
            r.push(chars[i]);
        }
    }
    assert(s@.take(n as int) == s@);
    r
}

/// The position of the first `c` in `s`, or the length of `s` if it holds none.
pub open spec fn position_of(s: Seq<char>, c: char) -> int
    decreases s.len(),
{
    if s.len() == 0 || s[0] == c {
        0
    } else {
        1 + position_of(s.drop_first(), c)
    }
}

pub proof fn lemma_position_of(s: Seq<char>, c: char)
    ensures
        0 <= position_of(s, c) <= s.len(),
        position_of(s, c) < s.len() ==> s[position_of(s, c)] == c,
        forall|i: int| 0 <= i < position_of(s, c) ==> s[i] != c,
    decreases s.len(),
{
    if s.len() > 0 && s[0] != c {
        let t = s.drop_first();
        lemma_position_of(t, c);
        assert forall|i: int| 0 <= i < position_of(s, c) implies s[i] != c by {
            if i > 0 {
                assert(t[i - 1] == s[i]);
            }
        }
    }
}

/// Finds the first `c`; the length of `chars` if there is none.
fn find_char(chars: &Vec<char>, c: char) -> (r: usize)
    ensures
        r == position_of(chars@, c),
{
    proof {
        lemma_position_of(chars@, c);
    }
    let n: usize = chars.len();
    let mut i: usize = 0;
    while i < n
        invariant
            i <= n,
            n == chars@.len(),
            i <= position_of(chars@, c),
            position_of(chars@, c) <= n,
            position_of(chars@, c) < n ==> chars@[position_of(chars@, c)] == c,
            forall|k: int| 0 <= k < position_of(chars@, c) ==> chars@[k] != c,
        decreases n - i,
    {
        if chars[i] == c {
            return i;
        }
        i = i + 1;
    }
    i
}

/// What stands before and after the first `c` in `s`, if it holds one.
pub open spec fn halves(s: Seq<char>, c: char) -> Option<(Seq<char>, Seq<char>)> {
    let at = position_of(s, c);
    if at < s.len() {
        Some((s.take(at), s.skip(at + 1)))
    } else {
        None
    }
}

/// Splits `s` at its first `c`.
pub fn split_once(s: &str, c: char) -> (r: Option<(String, String)>)
    ensures
        match r {
            Some(p) => halves(s@, c) == Some((p.0@, p.1@)),
            None => halves(s@, c) is None,
        },
{
    let chars = chars_of(s);
    let at: usize = find_char(&chars, c);
    if at < chars.len() {
        let before = slice_text(&chars, 0, at);
        let after = slice_text(&chars, at + 1, chars.len());
        assert(before@ == s@.take(at as int));
        assert(after@ == s@.skip(at + 1));
        Some((before, after))
    } else {
        proof {
            lemma_position_of(s@, c);
        }
        None
    }
}

/// The texts one after another, with `sep` between each two.
pub open spec fn joined(parts: Seq<Seq<char>>, sep: Seq<char>) -> Seq<char>
    decreases parts.len(),
{
    if parts.len() == 0 {
        Seq::empty()
    } else if parts.len() == 1 {
        parts[0]
    } else {
        joined(parts.drop_last(), sep) + sep + parts.last()
    }
}

/// Joins the texts with `sep`.
pub fn join(parts: &Vec<String>, sep: &str) -> (r: String)
    ensures
        r@ == joined(parts.deep_view(), sep@),
{
    let ghost all = parts.deep_view();
    let n: usize = parts.len();
    let mut r = String::new();
    for i in 0..n
        invariant
            n == parts@.len(),
            all == parts.deep_view(),
            r@ == joined(all.take(i as int), sep@),
    {
        assert(all.take(i + 1).drop_last() == all.take(i as int));
        assert(all.take(i + 1).last() == parts@[i as int]@);
        if i > 0 {
            r.append(sep);
        } else {
            assert(r@ == Seq::<char>::empty());
        }
        r.append(parts[i].as_str());
        assert(i == 0 ==> r@ == parts@[i as int]@);
    }
    assert(all.take(n as int) == all);
    r
}

/// The character of a decimal digit.
pub open spec fn digit(d: nat) -> char {
    (48 + d) as char
}

/// The decimal notation of `n`.
pub open spec fn decimal(n: nat) -> Seq<char>
    decreases n,
{
    if n < 10 {
        seq![digit(n)]
    } else {
        decimal(n / 10).push(digit(n % 10))
    }
}

/// Writes `n` in decimal notation.
pub fn to_decimal(n: usize) -> (r: String)
    ensures
        r@ == decimal(n as nat),
    decreases n,
{
    let d: u8 = (n % 10) as u8;
    if n < 10 {
        let mut r = String::new();
        r.push((48 + d) as char);
        assert(r@ == seq![digit(n as nat)]);
        r
    } else {
        let mut r = to_decimal(n / 10);
        r.push((48 + d) as char);
        r
    }
}

/// One text after another.
pub fn concat(a: &str, b: &str) -> (r: String)
    ensures
        r@ == a@ + b@,
{
    let mut r = a.to_owned();
    r.append(b);
    r
}

/// The upper-case form of an ASCII letter; any other character is its own.
pub open spec fn ascii_upper(c: char) -> char {
    if 'a' <= c <= 'z' {
        (c as u8 - 32) as char
    } else {
        c
    }
}

/// Whether all characters are ASCII.
pub open spec fn all_ascii(s: Seq<char>) -> bool {
    forall|i: int| 0 <= i < s.len() ==> (#[trigger] s[i]) <= '\u{7f}'
}

/// What `str::to_lowercase` makes of a text: its lower-case form by the Unicode mappings.
pub uninterp spec fn lowercase(s: Seq<char>) -> Seq<char>;

/// What `str::to_uppercase` makes of a text: its upper-case form by the Unicode mappings.
pub uninterp spec fn uppercase(s: Seq<char>) -> Seq<char>;

/// Calls `str::to_lowercase`. Trusted to return the text that [`lowercase`] names, which for ASCII
/// text has each letter in lower case and every other character unchanged.
#[verifier::external_body]
pub(crate) fn to_lowercase(s: &str) -> (r: String)
    ensures
        r@ == lowercase(s@),
        all_ascii(s@) ==> r@ == s@.map_values(|c: char| ascii_lower(c)),
{
    s.to_lowercase()
}

/// Calls `str::to_uppercase`. Trusted to return the text that [`uppercase`] names, which for ASCII
/// text has each letter in upper case and every other character unchanged.
#[verifier::external_body]
pub(crate) fn to_uppercase(s: &str) -> (r: String)
    ensures
        r@ == uppercase(s@),
        all_ascii(s@) ==> r@ == s@.map_values(|c: char| ascii_upper(c)),
{
    s.to_uppercase()
}

/// White space is made of these code points and no others; so no letter, digit or sign of ASCII is
/// white space.
pub proof fn law_white_space(c: char)
    ensures
        is_white_space(c) <==> ({
            let n = c as u32;
            ||| n == 9 || n == 10 || n == 11 || n == 12 || n == 13 || n == 32
            ||| n == 0x85 || n == 0xa0 || n == 0x1680
            ||| 0x2000 <= n <= 0x200a
            ||| n == 0x2028 || n == 0x2029 || n == 0x202f || n == 0x205f || n == 0x3000
        }),
        '!' <= c <= '~' ==> !is_white_space(c),
{
}

/// White space around a text is taken away, and nothing of the text itself.
pub proof fn law_trimmed(left: Seq<char>, s: Seq<char>, right: Seq<char>)
    requires
        s.len() > 0,
        !is_white_space(s[0]),
        !is_white_space(s.last()),
        forall|k: int| 0 <= k < left.len() ==> is_white_space(#[trigger] left[k]),
        forall|k: int| 0 <= k < right.len() ==> is_white_space(#[trigger] right[k]),
    ensures
        trimmed(left + s + right) == s,
{
    let p = |c: char| is_white_space(c);
    let all = left + s + right;
    let m = left.len() as int;
    let rest = s + right;
    assert forall|i: int| 0 <= i < m implies p(#[trigger] all[i]) by {
        assert(all[i] == left[i]);
    }
    assert(all[m] == s[0]);
    lemma_without_leading(all, p, m);
    assert(all.skip(m) == rest);
    let n = s.len() as int;
    assert forall|i: int| n <= i < rest.len() implies p(#[trigger] rest[i]) by {
        assert(rest[i] == right[i - n]);
    }
    assert(rest[n - 1] == s.last());
    lemma_without_trailing(rest, p, n);
    assert(rest.take(n) == s);
}

/// Quotes around a text are taken away, and nothing of the text itself.
pub proof fn law_unquoted(left: Seq<char>, s: Seq<char>, right: Seq<char>)
    requires
        s.len() > 0,
        s[0] != '"' && s[0] != '\'',
        s.last() != '"' && s.last() != '\'',
        forall|k: int| 0 <= k < left.len() ==> (#[trigger] left[k] == '"' || left[k] == '\''),
        forall|k: int| 0 <= k < right.len() ==> (#[trigger] right[k] == '"' || right[k] == '\''),
    ensures
        unquoted(left + s + right) == s,
        unquoted(s) == s,
{
    let p = |c: char| is_quote(c);
    let all = left + s + right;
    let m = left.len() as int;
    let rest = s + right;
    assert forall|i: int| 0 <= i < m implies p(#[trigger] all[i]) by {
        assert(all[i] == left[i]);
        assert(left[i] == '"' || left[i] == '\'');
    }
    assert(all[m] == s[0]);
    lemma_without_leading(all, p, m);
    assert(all.skip(m) == rest);
    let n = s.len() as int;
    assert forall|i: int| n <= i < rest.len() implies p(#[trigger] rest[i]) by {
        assert(rest[i] == right[i - n]);
        assert(right[i - n] == '"' || right[i - n] == '\'');
    }
    assert(rest[n - 1] == s.last());
    lemma_without_trailing(rest, p, n);
    assert(rest.take(n) == s);
    assert(s[n - 1] == s.last());
    lemma_without_leading(s, p, 0);
    assert(s.skip(0) == s);
    lemma_without_trailing(s, p, n);
    assert(s.take(n) == s);
}

/// The lower-case form of each of the capital letters is the small letter in the same place of the
/// alphabet, and the other way round; other characters have no other form.
pub proof fn law_ascii_cases(i: int, c: char)
    requires
        0 <= i < 26,
    ensures
        ascii_lower("ABCDEFGHIJKLMNOPQRSTUVWXYZ"@[i]) == "abcdefghijklmnopqrstuvwxyz"@[i],
        ascii_upper("abcdefghijklmnopqrstuvwxyz"@[i]) == "ABCDEFGHIJKLMNOPQRSTUVWXYZ"@[i],
        !"ABCDEFGHIJKLMNOPQRSTUVWXYZ"@.contains(c) ==> ascii_lower(c) == c,
        !"abcdefghijklmnopqrstuvwxyz"@.contains(c) ==> ascii_upper(c) == c,
{
    reveal_strlit("ABCDEFGHIJKLMNOPQRSTUVWXYZ");
    reveal_strlit("abcdefghijklmnopqrstuvwxyz");
    lemma_alphabet(i);
    if 'A' <= c <= 'Z' {
        let k = c as int - 65;
        lemma_alphabet(k);
        assert("ABCDEFGHIJKLMNOPQRSTUVWXYZ"@[k] == c);
    }
    if 'a' <= c <= 'z' {
        let k = c as int - 97;
        lemma_alphabet(k);
        assert("abcdefghijklmnopqrstuvwxyz"@[k] == c);
    }
}

pub proof fn lemma_alphabet(i: int)
    requires
        0 <= i < 26,
    ensures
        "ABCDEFGHIJKLMNOPQRSTUVWXYZ"@.len() == 26,
        "abcdefghijklmnopqrstuvwxyz"@.len() == 26,
        "ABCDEFGHIJKLMNOPQRSTUVWXYZ"@[i] as int == 65 + i,
        "abcdefghijklmnopqrstuvwxyz"@[i] as int == 97 + i,
{
    reveal_strlit("ABCDEFGHIJKLMNOPQRSTUVWXYZ");
    reveal_strlit("abcdefghijklmnopqrstuvwxyz");
}

/// A text equals itself when case is ignored, and two texts of which one has a letter in the other
/// case; texts with other characters or of other lengths do not.
pub proof fn law_case_is_ignored(a: Seq<char>, b: Seq<char>)
    ensures
        same_ignoring_ascii_case(a, a),
        same_ignoring_ascii_case(a, b) ==> a.len() == b.len(),
        same_ignoring_ascii_case(a, a.map_values(|c: char| ascii_upper(c))),
        same_ignoring_ascii_case(a, b) <==> a.map_values(|c: char| ascii_lower(c)) == b.map_values(
            |c: char| ascii_lower(c),
        ),
{
    let x = a.map_values(|c: char| ascii_lower(c));
    let y = b.map_values(|c: char| ascii_lower(c));
    if same_ignoring_ascii_case(a, b) {
        assert(x == y);
    }
    if x == y {
        assert(a.len() == x.len() && b.len() == y.len());
        assert forall|i: int| 0 <= i < a.len() implies #[trigger] ascii_lower(a[i]) == ascii_lower(
            b[i],
        ) by {
            assert(x[i] == y[i]);
        }
    }
}

/// Replacing goes character by character: the given one gives way to the other text, and every other
/// one stays.
pub proof fn law_replaced(a: Seq<char>, x: char, b: Seq<char>, c: char, with: Seq<char>)
    ensures
        replaced(a + seq![x] + b, c, with) == replaced(a, c, with) + (if x == c {
            with
        } else {
            seq![x]
        }) + replaced(b, c, with),
    decreases b.len(),
{
    let s = a + seq![x] + b;
    if b.len() == 0 {
        assert(s.drop_last() == a);
        assert(replaced(a, c, with) + with + b == replaced(a, c, with) + with);
        assert(replaced(a, c, with) + seq![x] + b == replaced(a, c, with).push(x));
    } else {
        law_replaced(a, x, b.drop_last(), c, with);
        assert(s.drop_last() == a + seq![x] + b.drop_last());
        assert(s.last() == b.last());
    }
}

/// A text splits at its first separator: into what stands before and what stands behind it. A text
/// without one does not split.
pub proof fn law_halves(a: Seq<char>, c: char, b: Seq<char>)
    requires
        !a.contains(c),
    ensures
        halves(a + seq![c] + b, c) == Some((a, b)),
        halves(a, c) is None,
{
    let s = a + seq![c] + b;
    lemma_position_of(s, c);
    let at = position_of(s, c);
    assert(s[a.len() as int] == c);
    if at < a.len() {
        assert(a[at] == s[at]);
    }
    assert(s.take(at) == a);
    assert(s.skip(at + 1) == b);
    lemma_position_of(a, c);
    if position_of(a, c) < a.len() {
        assert(a[position_of(a, c)] == c);
    }
}

/// A list joined behind another has the separator once between the two.
pub proof fn law_joined(a: Seq<Seq<char>>, b: Seq<Seq<char>>, sep: Seq<char>)
    requires
        a.len() > 0,
        b.len() > 0,
    ensures
        joined(a + b, sep) == joined(a, sep) + sep + joined(b, sep),
        a.len() == 1 ==> joined(a, sep) == a[0],
    decreases b.len(),
{
    let s = a + b;
    assert(s.last() == b.last());
    if b.len() == 1 {
        assert(s.drop_last() == a);
    } else {
        law_joined(a, b.drop_last(), sep);
        assert(s.drop_last() == a + b.drop_last());
        let x = joined(a, sep);
        let y = joined(b.drop_last(), sep);
        assert(x + sep + y + sep + b.last() == x + sep + (y + sep + b.last()));
    }
}

/// The number that a text of decimal digits stands for.
pub open spec fn number_of(s: Seq<char>) -> int
    decreases s.len(),
{
    if s.len() == 0 {
        0
    } else {
        10 * number_of(s.drop_last()) + (s.last() as int - '0' as int)
    }
}

/// The decimal notation of a number is made of digits and reads as that number.
pub proof fn law_decimal_reads_back(n: nat)
    ensures
        number_of(decimal(n)) == n,
        decimal(n).len() > 0,
        forall|i: int| 0 <= i < decimal(n).len() ==> '0' <= #[trigger] decimal(n)[i] <= '9',
    decreases n,
{
    reveal_with_fuel(number_of, 2);
    if n >= 10 {
        law_decimal_reads_back(n / 10);
        assert(decimal(n).drop_last() == decimal(n / 10));
    } else {
        assert(decimal(n).drop_last() == Seq::<char>::empty());
    }
}

} // verus!
