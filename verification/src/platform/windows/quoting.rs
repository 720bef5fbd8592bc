//! Windows command lines.
//!
//! A command line is one text. The started program splits it into arguments again: blanks outside
//! quotes separate them, and backslashes before a quote say whether it is meant literally.

use crate::text::{chars_of, join, joined, law_joined};
use vstd::prelude::*;

verus! {

/// The given number of backslashes.
pub open spec fn backslashes(n: nat) -> Seq<char> {
    Seq::new(n, |i: int| '\\')
}

/// How many backslashes the text starts with.
pub open spec fn leading_backslashes(s: Seq<char>) -> nat
    decreases s.len(),
{
    if s.len() == 0 || s[0] != '\\' {
        0
    } else {
        1 + leading_backslashes(s.drop_first())
    }
}

/// Whether the character sets an argument apart only inside quotes.
pub open spec fn is_special(c: char) -> bool {
    c == ' ' || c == '\t' || c == '\n' || c == '\r' || c == '"'
}

/// Whether an argument has to stand in quotes.
pub open spec fn needs_quotes(arg: Seq<char>) -> bool {
    arg.len() == 0 || exists|i: int| 0 <= i < arg.len() && is_special(#[trigger] arg[i])
}

/// An argument as it stands between quotes: backslashes are doubled before a quote of the argument
/// and at its end, and a quote of the argument has one backslash more before it.
pub open spec fn escaped(arg: Seq<char>) -> Seq<char>
    decreases arg.len(),
{
    let n = leading_backslashes(arg);
    if n >= arg.len() {
        backslashes(2 * n)
    } else if arg[n as int] == '"' {
        backslashes(2 * n + 1).push('"') + escaped(arg.skip(n as int + 1))
    } else {
        backslashes(n).push(arg[n as int]) + escaped(arg.skip(n as int + 1))
    }
}

/// An argument as it stands on a command line.
pub open spec fn quoted(arg: Seq<char>) -> Seq<char> {
    if needs_quotes(arg) {
        seq!['"'] + escaped(arg) + seq!['"']
    } else {
        arg
    }
}

/// The arguments on one command line.
pub open spec fn command_line(argv: Seq<Seq<char>>) -> Seq<char> {
    joined(argv.map_values(|a: Seq<char>| quoted(a)), " "@)
}

proof fn lemma_leading_backslashes(s: Seq<char>, n: int)
    requires
        0 <= n <= s.len(),
        forall|i: int| 0 <= i < n ==> s[i] == '\\',
        n < s.len() ==> s[n] != '\\',
    ensures
        leading_backslashes(s) == n,
    decreases n,
{
    if n > 0 {
        let t = s.drop_first();
        assert forall|i: int| 0 <= i < n - 1 implies t[i] == '\\' by {
            assert(t[i] == s[i + 1]);
        }
        lemma_leading_backslashes(t, n - 1);
    }
}

proof fn lemma_leading_are_backslashes(s: Seq<char>)
    ensures
        leading_backslashes(s) <= s.len(),
        forall|i: int| 0 <= i < leading_backslashes(s) ==> s[i] == '\\',
        leading_backslashes(s) < s.len() ==> s[leading_backslashes(s) as int] != '\\',
        s.take(leading_backslashes(s) as int) == backslashes(leading_backslashes(s)),
    decreases s.len(),
{
    if s.len() > 0 && s[0] == '\\' {
        let t = s.drop_first();
        lemma_leading_are_backslashes(t);
        let n = leading_backslashes(s);
        assert forall|i: int| 0 <= i < n implies s[i] == '\\' by {
            if i > 0 {
                assert(s[i] == t[i - 1]);
            }
        }
        if n < s.len() {
            assert(s[n as int] == t[n - 1]);
        }
    }
    assert(s.take(leading_backslashes(s) as int) == backslashes(leading_backslashes(s)));
}

fn push_backslashes(text: &mut String, n: usize)
    ensures
        final(text)@ == old(text)@ + backslashes(n as nat),
{
    let ghost before = text@;
    for i in 0..n
        invariant
            text@ == before + backslashes(i as nat),
    {
        text.push('\\');
        assert(text@ == before + backslashes((i + 1) as nat));
    }
}

/// Quotes an argument for a command line.
pub fn quote_windows_arg(arg: &str) -> (r: String)
    ensures
        r@ == quoted(arg@),
{
    let chars = chars_of(arg);
    let n: usize = chars.len();
    let mut special = n == 0;
    for i in 0..n
        invariant
            n == chars@.len(),
            chars@ == arg@,
            special == (n == 0 || exists|k: int| 0 <= k < i && is_special(#[trigger] arg@[k])),
    {
        let c = chars[i];
        if c == ' ' || c == '\t' || c == '\n' || c == '\r' || c == '"' {
            assert(is_special(arg@[i as int]));
            special = true;
        }
    }
    if !special {
        return arg.to_owned();
    }
    let mut r = String::new();
    r.push('"');
    let mut pending: usize = 0;
    assert(arg@.skip(0) == arg@);
    assert(r@ + escaped(arg@) == seq!['"'] + escaped(arg@));
    for i in 0..n
        invariant
            n == chars@.len(),
            chars@ == arg@,
            pending <= i,
            forall|k: int| i - pending <= k < i ==> arg@[k] == '\\',
            r@ + escaped(arg@.skip(i - pending)) == seq!['"'] + escaped(arg@),
    {
        let c = chars[i];
        let ghost rest = arg@.skip(i - pending);
        let ghost before = r@;
        if c == '\\' {
            pending = pending + 1;
        } else {
            proof {
                assert(rest[pending as int] == arg@[i as int]);
                assert forall|k: int| 0 <= k < pending implies rest[k] == '\\' by {
                    assert(rest[k] == arg@[i - pending + k]);
                }
                lemma_leading_backslashes(rest, pending as int);
                assert(rest.skip(pending + 1) == arg@.skip(i + 1));
            }
            push_backslashes(&mut r, pending);
            if c == '"' {
                push_backslashes(&mut r, pending);
                r.push('\\');
                assert(r@ == before + backslashes((2 * pending + 1) as nat));
            }
            r.push(c);
            proof {
                let n = pending as nat;
                if c == '"' {
                    assert(r@ == before + backslashes(2 * n + 1).push('"'));
                    assert(r@ + escaped(arg@.skip(i + 1)) == before + (backslashes(
                        2 * n + 1,
                    ).push('"') + escaped(arg@.skip(i + 1))));
                } else {
                    assert(r@ == before + backslashes(n).push(c));
                    assert(r@ + escaped(arg@.skip(i + 1)) == before + (backslashes(n).push(c)
                        + escaped(arg@.skip(i + 1))));
                }
            }
            pending = 0;
        }
    }
    let ghost rest = arg@.skip(n - pending);
    let ghost before = r@;
    proof {
        assert forall|k: int| 0 <= k < pending implies rest[k] == '\\' by {
            assert(rest[k] == arg@[n - pending + k]);
        }
        lemma_leading_backslashes(rest, pending as int);
    }
    push_backslashes(&mut r, pending);
    push_backslashes(&mut r, pending);
    assert(r@ == before + backslashes(2 * (pending as nat)));
    r.push('"');
    r
}

/// Puts the arguments on one command line.
pub fn argv_to_command_line(argv: &[String]) -> (r: String)
    ensures
        r@ == command_line(argv.deep_view()),
{
    let ghost all = argv.deep_view().map_values(|a: Seq<char>| quoted(a));
    let n: usize = argv.len();
    let mut list: Vec<String> = Vec::new();
    for i in 0..n
        invariant
            n == argv@.len(),
            all == argv.deep_view().map_values(|a: Seq<char>| quoted(a)),
            list.deep_view() == all.take(i as int),
    {
        let ghost before = list.deep_view();
        list.push(quote_windows_arg(argv[i].as_str()));
        assert(list.deep_view() == before.push(all[i as int]));
    }
    assert(all.take(n as int) == all);
    join(&list, " ")
}

/// The text of an argument that may not have begun yet.
pub open spec fn so_far(current: Option<Seq<char>>) -> Seq<char> {
    match current {
        Some(c) => c,
        None => Seq::empty(),
    }
}

/// The arguments that a program reads off the rest of its command line, given what it has read of
/// the current argument and whether it is inside quotes. Backslashes before a quote stand for half
/// as many, and if one is left over, the quote is literal; otherwise the quote opens or closes.
/// Other backslashes stand for themselves. Blanks and tabs outside quotes end an argument.
pub open spec fn read_arguments(s: Seq<char>, current: Option<Seq<char>>, inside: bool) -> Seq<
    Seq<char>,
>
    decreases s.len(),
{
    let n = leading_backslashes(s);
    if s.len() == 0 {
        match current {
            Some(c) => seq![c],
            None => Seq::empty(),
        }
    } else if n < s.len() && s[n as int] == '"' {
        let c = so_far(current) + backslashes(n / 2);
        if n % 2 == 1 {
            read_arguments(s.skip(n as int + 1), Some(c.push('"')), inside)
        } else {
            read_arguments(s.skip(n as int + 1), Some(c), !inside)
        }
    } else if !inside && (s[0] == ' ' || s[0] == '\t') {
        match current {
            Some(c) => seq![c] + read_arguments(s.skip(1), None, false),
            None => read_arguments(s.skip(1), None, false),
        }
    } else {
        read_arguments(s.skip(1), Some(so_far(current).push(s[0])), inside)
    }
}

proof fn lemma_read_backslashes(n: nat, x: char, t: Seq<char>, c: Seq<char>, inside: bool)
    requires
        x != '\\',
        x != '"',
    ensures
        read_arguments(backslashes(n) + (seq![x] + t), Some(c), inside) == read_arguments(
            seq![x] + t,
            Some(c + backslashes(n)),
            inside,
        ),
    decreases n,
{
    let all = backslashes(n) + (seq![x] + t);
    if n == 0 {
        assert(all == seq![x] + t);
        assert(c + backslashes(0) == c);
    } else {
        let m = (n - 1) as nat;
        assert(all[n as int] == x);
        lemma_leading_backslashes(all, n as int);
        assert(all.skip(1) == backslashes(m) + (seq![x] + t));
        lemma_read_backslashes(m, x, t, c.push('\\'), inside);
        assert(c.push('\\') + backslashes(m) == c + backslashes(n));
    }
}

proof fn lemma_read_escaped(s: Seq<char>, t: Seq<char>, c: Seq<char>)
    ensures
        read_arguments(escaped(s) + seq!['"'] + t, Some(c), true) == read_arguments(
            t,
            Some(c + s),
            false,
        ),
    decreases s.len(),
{
    let n = leading_backslashes(s);
    lemma_leading_are_backslashes(s);
    let all = escaped(s) + seq!['"'] + t;
    if n >= s.len() {
        assert(s == backslashes(n));
        assert(all[2 * n as int] == '"');
        lemma_leading_backslashes(all, 2 * n as int);
        assert(all.skip(2 * n as int + 1) == t);
        assert((2 * n) / 2 == n && (2 * n) % 2 == 0);
    } else if s[n as int] == '"' {
        let rest = s.skip(n as int + 1);
        let m = 2 * n + 1;
        assert(all == backslashes(m).push('"') + (escaped(rest) + seq!['"'] + t));
        assert(all[m as int] == '"');
        lemma_leading_backslashes(all, m as int);
        assert(all.skip(m as int + 1) == escaped(rest) + seq!['"'] + t);
        assert(m / 2 == n && m % 2 == 1);
        let d = (c + backslashes(n)).push('"');
        lemma_read_escaped(rest, t, d);
        assert(d + rest == c + s);
    } else {
        let x = s[n as int];
        let rest = s.skip(n as int + 1);
        let tail = escaped(rest) + seq!['"'] + t;
        assert(all == backslashes(n).push(x) + tail);
        assert(all[n as int] == x);
        lemma_leading_backslashes(all, n as int);
        let d = c + backslashes(n);
        assert(all == backslashes(n) + (seq![x] + tail));
        lemma_read_backslashes(n, x, tail, c, true);
        lemma_leading_backslashes(seq![x] + tail, 0);
        assert((seq![x] + tail).skip(1) == tail);
        assert(read_arguments(seq![x] + tail, Some(d), true) == read_arguments(
            tail,
            Some(d.push(x)),
            true,
        ));
        lemma_read_escaped(rest, t, d.push(x));
        assert(d.push(x) + rest == c + s);
    }
}

proof fn lemma_read_plain(s: Seq<char>, t: Seq<char>, current: Option<Seq<char>>)
    requires
        s.len() > 0,
        forall|i: int| 0 <= i < s.len() ==> !is_special(#[trigger] s[i]),
        t.len() > 0 ==> t[0] == ' ',
    ensures
        read_arguments(s + t, current, false) == read_arguments(
            t,
            Some(so_far(current) + s),
            false,
        ),
    decreases s.len(),
{
    let all = s + t;
    let n = leading_backslashes(all);
    lemma_leading_are_backslashes(all);
    if n < s.len() {
        assert(all[n as int] == s[n as int]);
        assert(!is_special(s[n as int]));
    } else if n < all.len() {
        assert(all[n as int] == t[n - s.len()]);
        if n > s.len() {
            assert(all[s.len() as int] == t[0]);
        }
    }
    let c = so_far(current);
    let x = s[0];
    let rest = s.skip(1);
    assert(all[0] == x);
    assert(!is_special(s[0]));
    assert(all.skip(1) == rest + t);
    assert forall|i: int| 0 <= i < rest.len() implies !is_special(#[trigger] rest[i]) by {
        assert(rest[i] == s[i + 1]);
    }
    assert(read_arguments(all, current, false) == read_arguments(
        rest + t,
        Some(c.push(x)),
        false,
    ));
    if rest.len() > 0 {
        lemma_read_plain(rest, t, Some(c.push(x)));
    } else {
        assert(rest + t == t);
    }
    assert(c.push(x) + rest == c + s);
}

proof fn lemma_read_quoted(arg: Seq<char>, t: Seq<char>)
    requires
        t.len() > 0 ==> t[0] == ' ',
    ensures
        read_arguments(quoted(arg) + t, None, false) == read_arguments(t, Some(arg), false),
{
    if needs_quotes(arg) {
        let tail = escaped(arg) + seq!['"'] + t;
        let all = quoted(arg) + t;
        assert(all == seq!['"'] + tail);
        lemma_leading_backslashes(all, 0);
        assert(all.skip(1) == tail);
        assert(so_far(None) + backslashes(0) == Seq::<char>::empty());
        assert(0nat / 2 == 0 && 0nat % 2 == 0);
        assert(read_arguments(all, None, false) == read_arguments(
            tail,
            Some(Seq::<char>::empty()),
            true,
        ));
        lemma_read_escaped(arg, t, Seq::empty());
        assert(Seq::<char>::empty() + arg == arg);
    } else {
        lemma_read_plain(arg, t, None);
        assert(so_far(None) + arg == arg);
    }
}

proof fn lemma_read_list(argv: Seq<Seq<char>>, t: Seq<char>)
    requires
        argv.len() > 0,
        t.len() > 0 ==> t[0] == ' ',
    ensures
        read_arguments(command_line(argv) + t, None, false) == argv.drop_last() + read_arguments(
            t,
            Some(argv.last()),
            false,
        ),
    decreases argv.len(),
{
    reveal_strlit(" ");
    let parts = argv.map_values(|a: Seq<char>| quoted(a));
    if argv.len() == 1 {
        assert(command_line(argv) == quoted(argv[0]));
        lemma_read_quoted(argv[0], t);
        assert(argv.drop_last() == Seq::<Seq<char>>::empty());
    } else {
        let front = argv.drop_last();
        let last = argv.last();
        assert(parts.drop_last() == front.map_values(|a: Seq<char>| quoted(a)));
        assert(parts.last() == quoted(last));
        let u = seq![' '] + (quoted(last) + t);
        assert(command_line(argv) + t == command_line(front) + u);
        lemma_read_list(front, u);
        lemma_leading_backslashes(u, 0);
        assert(u.skip(1) == quoted(last) + t);
        assert(read_arguments(u, Some(front.last()), false) == seq![front.last()]
            + read_arguments(quoted(last) + t, None, false));
        lemma_read_quoted(last, t);
        assert(front.drop_last() + (seq![front.last()] + read_arguments(t, Some(last), false))
            == front + read_arguments(t, Some(last), false));
    }
}

/// A program reads the arguments off the command line as they were put on it.
pub proof fn law_arguments_read_back(argv: Seq<Seq<char>>)
    ensures
        read_arguments(command_line(argv), None, false) == argv,
{
    if argv.len() > 0 {
        lemma_read_list(argv, Seq::empty());
        assert(command_line(argv) + Seq::<char>::empty() == command_line(argv));
        assert(argv.drop_last() + seq![argv.last()] == argv);
    } else {
        assert(command_line(argv) == Seq::<char>::empty());
        assert(read_arguments(Seq::<char>::empty(), None, false) == argv);
    }
}

/// An argument that is not empty and holds no blank, tab, line end or quote stands on a command line
/// as it is; with a blank, tab or line end and no quote or backslash it stands between quotes. An
/// empty argument is two quotes.
pub proof fn law_quoted_forms(arg: Seq<char>)
    ensures
        arg.len() > 0 && (forall|i: int|
            0 <= i < arg.len() ==> #[trigger] arg[i] != ' ' && arg[i] != '\t' && arg[i] != '\n'
                && arg[i] != '\r' && arg[i] != '"') ==> quoted(arg) == arg,
        (exists|i: int|
            0 <= i < arg.len() && (#[trigger] arg[i] == ' ' || arg[i] == '\t' || arg[i] == '\n'
                || arg[i] == '\r')) && (forall|i: int|
            0 <= i < arg.len() ==> #[trigger] arg[i] != '"' && arg[i] != '\\') ==> quoted(arg)
            == seq!['"'] + arg + seq!['"'],
        arg.len() == 0 ==> quoted(arg) == seq!['"', '"'],
{
    if forall|i: int| 0 <= i < arg.len() ==> #[trigger] arg[i] != '"' && arg[i] != '\\' {
        lemma_nothing_escaped(arg);
    }
    if exists|i: int|
        0 <= i < arg.len() && (#[trigger] arg[i] == ' ' || arg[i] == '\t' || arg[i] == '\n'
            || arg[i] == '\r') {
        let i = choose|i: int|
            0 <= i < arg.len() && (#[trigger] arg[i] == ' ' || arg[i] == '\t' || arg[i] == '\n'
                || arg[i] == '\r');
        assert(is_special(arg[i]));
    }
    if arg.len() == 0 {
        assert(backslashes(0) == Seq::<char>::empty());
        assert(quoted(arg) == seq!['"', '"']);
    }
}

proof fn lemma_nothing_escaped(arg: Seq<char>)
    requires
        forall|i: int| 0 <= i < arg.len() ==> #[trigger] arg[i] != '"' && arg[i] != '\\',
    ensures
        escaped(arg) == arg,
    decreases arg.len(),
{
    if arg.len() == 0 {
        assert(backslashes(0) == arg);
    } else {
        assert(arg[0] != '\\');
        let rest = arg.skip(1);
        assert forall|i: int| 0 <= i < rest.len() implies #[trigger] rest[i] != '"' && rest[i]
            != '\\' by {
            assert(rest[i] == arg[i + 1]);
        }
        lemma_nothing_escaped(rest);
        assert(backslashes(0).push(arg[0]) + rest == arg);
    }
}

/// A quote inside a quoted argument has a backslash before it, and backslashes before a quote, or at
/// the end, are doubled; other backslashes are not.
pub proof fn law_escapes(n: nat, rest: Seq<char>)
    ensures
        escaped(seq!['"'] + rest) == seq!['\\', '"'] + escaped(rest),
        escaped(Seq::new(n, |i: int| '\\')) == Seq::new(2 * n, |i: int| '\\'),
        escaped(Seq::new(n, |i: int| '\\') + (seq!['"'] + rest)) == Seq::new(
            2 * n + 1,
            |i: int| '\\',
        ) + (seq!['"'] + escaped(rest)),
        escaped(Seq::new(n, |i: int| '\\') + (seq!['x'] + rest)) == Seq::new(n, |i: int| '\\') + (
        seq!['x'] + escaped(rest)),
{
    let b = Seq::new(n, |i: int| '\\');
    lemma_leading_backslashes(b, n as int);
    let q = seq!['"'] + rest;
    lemma_leading_backslashes(q, 0);
    assert(q.skip(1) == rest);
    assert(escaped(q) == backslashes(1).push('"') + escaped(rest));
    assert(backslashes(1).push('"') == seq!['\\', '"']);
    let bq = b + q;
    assert(bq[n as int] == '"');
    lemma_leading_backslashes(bq, n as int);
    assert(bq.skip(n as int + 1) == rest);
    assert(escaped(bq) == backslashes(2 * n + 1) + (seq!['"'] + escaped(rest)));
    let bx = b + (seq!['x'] + rest);
    assert(bx[n as int] == 'x');
    lemma_leading_backslashes(bx, n as int);
    assert(bx.skip(n as int + 1) == rest);
    assert(escaped(bx) == backslashes(n) + (seq!['x'] + escaped(rest)));
}

/// The arguments follow one another with one space between each two.
pub proof fn law_arguments_in_line(a: Seq<Seq<char>>, b: Seq<Seq<char>>, x: Seq<char>)
    requires
        a.len() > 0,
        b.len() > 0,
    ensures
        command_line(a + b) == command_line(a) + seq![' '] + command_line(b),
        command_line(seq![x]) == quoted(x),
{
    reveal_strlit(" ");
    let f = |p: Seq<char>| quoted(p);
    assert((a + b).map_values(f) == a.map_values(f) + b.map_values(f));
    law_joined(a.map_values(f), b.map_values(f), " "@);
    assert(" "@ == seq![' ']);
    assert(seq![x].map_values(f) == seq![quoted(x)]);
}

} // verus!
