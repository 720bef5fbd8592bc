//! Splitting the arguments of a command.

use crate::text::{chars_of, is_quote};
use vstd::prelude::*;

verus! {

/// The quote that is open before position `i`, if one is.
pub open spec fn open_quote(s: Seq<char>, i: int) -> Option<char>
    decreases i,
{
    if i <= 0 || i > s.len() {
        None
    } else {
        match open_quote(s, i - 1) {
            Some(q) => if s[i - 1] == q {
                None
            } else {
                Some(q)
            },
            None => if is_quote(s[i - 1]) {
                Some(s[i - 1])
            } else {
                None
            },
        }
    }
}

/// Whether the character at position `i` belongs to an argument: within quotes, all do but the
/// closing quote; outside, all do but spaces, tabs and quotes.
pub open spec fn belongs(s: Seq<char>, i: int) -> bool {
    match open_quote(s, i) {
        Some(q) => s[i] != q,
        None => !is_quote(s[i]) && s[i] != ' ' && s[i] != '\t',
    }
}

/// The run of argument characters that ends just before position `n`.
pub open spec fn run_before(s: Seq<char>, n: int) -> Seq<char>
    decreases n,
{
    if n <= 0 || !belongs(s, n - 1) {
        Seq::empty()
    } else {
        run_before(s, n - 1).push(s[n - 1])
    }
}

/// The runs of argument characters that are over before position `n`.
pub open spec fn runs_before(s: Seq<char>, n: int) -> Seq<Seq<char>>
    decreases n,
{
    if n <= 0 {
        Seq::empty()
    } else if !belongs(s, n - 1) && run_before(s, n - 1).len() > 0 {
        runs_before(s, n - 1).push(run_before(s, n - 1))
    } else {
        runs_before(s, n - 1)
    }
}

/// The arguments in `s`: the runs of argument characters.
pub open spec fn arguments(s: Seq<char>) -> Seq<Seq<char>> {
    let last = run_before(s, s.len() as int);
    if last.len() > 0 {
        runs_before(s, s.len() as int).push(last)
    } else {
        runs_before(s, s.len() as int)
    }
}

/// Splits text into shell-like arguments, respecting quotes.
pub fn split_args(text: &str) -> (r: Vec<String>)
    ensures
        r.deep_view() == arguments(text@),
{
    let chars = chars_of(text);
    let ghost s = text@;
    let mut args: Vec<String> = Vec::new();
    let mut current = String::new();
    let mut in_quote = false;
    let mut quote_char: char = ' ';
    let n: usize = chars.len();
    assert(args.deep_view() == Seq::<Seq<char>>::empty());
    for i in 0..n
        invariant
            n == chars@.len(),
            s == chars@,
            open_quote(s, i as int) == (if in_quote {
                Some(quote_char)
            } else {
                None
            }),
            current@ == run_before(s, i as int),
            args.deep_view() == runs_before(s, i as int),
    {
        let ch: char = chars[i];
        let ghost before = args.deep_view();
        let mut ends = false;
        if in_quote {
            if ch == quote_char {
                in_quote = false;
                ends = true;
            }
        } else if ch == '"' || ch == '\'' {
            in_quote = true;
            quote_char = ch;
            ends = true;
        } else if ch == ' ' || ch == '\t' {
            ends = true;
        }
        assert(ends == !belongs(s, i as int));
        if ends {
            if !current.as_str().is_empty() {
                let done = current;
                let ghost run = done@;
                current = String::new();
                args.push(done);
                assert(args.deep_view() == before.push(run));
            }
        } else {
            current.push(ch);
        }
    }
    let ghost before = args.deep_view();
    if !current.as_str().is_empty() {
        let ghost run = current@;
        args.push(current);
        assert(args.deep_view() == before.push(run));
    }
    args
}

proof fn lemma_runs_not_empty(s: Seq<char>, n: int)
    ensures
        forall|i: int| 0 <= i < runs_before(s, n).len() ==> (#[trigger] runs_before(s, n)[i]).len()
            > 0,
    decreases n,
{
    if n > 0 {
        lemma_runs_not_empty(s, n - 1);
        let r = runs_before(s, n);
        let before = runs_before(s, n - 1);
        assert forall|i: int| 0 <= i < r.len() implies (#[trigger] r[i]).len() > 0 by {
            if i < before.len() {
                assert(r[i] == before[i]);
            }
        }
    }
}

/// No argument is empty.
pub proof fn law_arguments_not_empty(s: Seq<char>)
    ensures
        forall|i: int| 0 <= i < arguments(s).len() ==> (#[trigger] arguments(s)[i]).len() > 0,
{
    lemma_runs_not_empty(s, s.len() as int);
}

/// Text in quotes is one argument, whatever blanks or other quotes it holds.
pub proof fn law_quoted_text_is_one_argument(q: char, inner: Seq<char>)
    requires
        q == '"' || q == '\'',
        !inner.contains(q),
        inner.len() > 0,
    ensures
        arguments(seq![q] + inner + seq![q]) == seq![inner],
{
    let s = seq![q] + inner + seq![q];
    let n = inner.len() as int;
    lemma_inside_quotes(q, inner, n);
    assert(s[n + 1] == q);
    assert(!belongs(s, n + 1));
    assert(inner.take(n) == inner);
    assert(run_before(s, n + 2) == Seq::<char>::empty());
    assert(runs_before(s, n + 2) == Seq::<Seq<char>>::empty().push(inner));
    assert(s.len() == n + 2);
}

proof fn lemma_inside_quotes(q: char, inner: Seq<char>, k: int)
    requires
        is_quote(q),
        !inner.contains(q),
        0 <= k <= inner.len(),
    ensures
        open_quote(seq![q] + inner + seq![q], k + 1) == Some(q),
        run_before(seq![q] + inner + seq![q], k + 1) == inner.take(k),
        runs_before(seq![q] + inner + seq![q], k + 1) == Seq::<Seq<char>>::empty(),
    decreases k,
{
    let s = seq![q] + inner + seq![q];
    if k == 0 {
        assert(s[0] == q);
        assert(open_quote(s, 0) is None);
        assert(!belongs(s, 0));
        assert(run_before(s, 0) == Seq::<char>::empty());
        assert(runs_before(s, 0) == Seq::<Seq<char>>::empty());
    } else {
        lemma_inside_quotes(q, inner, k - 1);
        assert(s[k] == inner[k - 1]);
        assert(inner[k - 1] != q);
        assert(belongs(s, k));
        assert(inner.take(k) == inner.take(k - 1).push(inner[k - 1]));
    }
}

/// The state of a split after `x + y`, where `x` ends outside quotes and its last argument, if one is
/// open, ends with the first character of `y`.
proof fn lemma_split_behind(x: Seq<char>, y: Seq<char>, k: int)
    requires
        open_quote(x, x.len() as int) is None,
        run_before(x, x.len() as int).len() > 0 ==> y.len() > 0 && !belongs(y, 0),
        0 <= k <= y.len(),
        run_before(x, x.len() as int).len() > 0 ==> k > 0,
    ensures
        open_quote(x + y, x.len() + k) == open_quote(y, k),
        run_before(x + y, x.len() + k) == run_before(y, k),
        runs_before(x + y, x.len() + k) == arguments(x) + runs_before(y, k),
    decreases k,
{
    let s = x + y;
    let m = x.len() as int;
    lemma_split_within(x, y, m);
    let open = run_before(x, m).len() > 0;
    if k == 0 {
        assert(arguments(x) + runs_before(y, 0) == runs_before(x, m));
    } else if k == 1 && open {
        assert(s[m] == y[0]);
        assert(open_quote(y, 0) is None);
        assert(!belongs(s, m));
        assert(runs_before(y, 0) == Seq::<Seq<char>>::empty());
        assert(runs_before(y, 1) == Seq::<Seq<char>>::empty());
        assert(arguments(x) + runs_before(y, 1) == arguments(x));
    } else {
        lemma_split_behind(x, y, k - 1);
        assert(s[m + k - 1] == y[k - 1]);
        let run = run_before(y, k - 1);
        assert((arguments(x) + runs_before(y, k - 1)).push(run) == arguments(x) + runs_before(
            y,
            k - 1,
        ).push(run));
    }
}

proof fn lemma_split_within(x: Seq<char>, y: Seq<char>, k: int)
    requires
        0 <= k <= x.len(),
    ensures
        open_quote(x + y, k) == open_quote(x, k),
        run_before(x + y, k) == run_before(x, k),
        runs_before(x + y, k) == runs_before(x, k),
    decreases k,
{
    if k > 0 {
        lemma_split_within(x, y, k - 1);
        assert((x + y)[k - 1] == x[k - 1]);
    }
}

proof fn lemma_split(x: Seq<char>, y: Seq<char>)
    requires
        open_quote(x, x.len() as int) is None,
        run_before(x, x.len() as int).len() > 0 ==> y.len() > 0 && !belongs(y, 0),
    ensures
        arguments(x + y) == arguments(x) + arguments(y),
{
    let n = y.len() as int;
    lemma_split_behind(x, y, n);
    let last = run_before(y, n);
    assert((arguments(x) + runs_before(y, n)).push(last) == arguments(x) + runs_before(
        y,
        n,
    ).push(last));
}

proof fn lemma_unquoted_state(s: Seq<char>, k: int)
    requires
        0 <= k <= s.len(),
        forall|i: int| 0 <= i < s.len() ==> #[trigger] s[i] != '"' && s[i] != '\'',
    ensures
        open_quote(s, k) is None,
    decreases k,
{
    if k > 0 {
        lemma_unquoted_state(s, k - 1);
        assert(s[k - 1] != '"');
    }
}

proof fn lemma_plain_run(s: Seq<char>, k: int)
    requires
        0 <= k <= s.len(),
        forall|i: int|
            0 <= i < s.len() ==> #[trigger] s[i] != '"' && s[i] != '\'' && s[i] != ' ' && s[i]
                != '\t',
    ensures
        run_before(s, k) == s.take(k),
        runs_before(s, k) == Seq::<Seq<char>>::empty(),
    decreases k,
{
    if k > 0 {
        lemma_plain_run(s, k - 1);
        lemma_unquoted_state(s, k - 1);
        assert(s[k - 1] != '"');
        assert(s.take(k) == s.take(k - 1).push(s[k - 1]));
    } else {
        assert(s.take(0) == Seq::<char>::empty());
    }
}

/// Text that is not empty and holds no quote, no space and no tab is exactly one argument.
pub proof fn law_plain_text_is_one_argument(s: Seq<char>)
    requires
        s.len() > 0,
        forall|i: int|
            0 <= i < s.len() ==> #[trigger] s[i] != '"' && s[i] != '\'' && s[i] != ' ' && s[i]
                != '\t',
    ensures
        arguments(s) == seq![s],
{
    lemma_plain_run(s, s.len() as int);
    assert(s.take(s.len() as int) == s);
    assert(Seq::<Seq<char>>::empty().push(s) == seq![s]);
}

/// A space or a tab behind text without quotes ends the arguments in it: what stands before and what
/// stands behind are split on their own.
pub proof fn law_blank_separates(a: Seq<char>, c: char, b: Seq<char>)
    requires
        c == ' ' || c == '\t',
        forall|i: int| 0 <= i < a.len() ==> #[trigger] a[i] != '"' && a[i] != '\'',
    ensures
        arguments(a + seq![c] + b) == arguments(a) + arguments(b),
{
    let y = seq![c] + b;
    lemma_unquoted_state(a, a.len() as int);
    assert(y[0] == c);
    assert(open_quote(y, 0) is None);
    assert(a + y == a + seq![c] + b);
    lemma_split(a, y);
    let x = seq![c];
    assert(x[0] == c);
    assert(open_quote(x, 0) is None && open_quote(x, 1) is None);
    assert(run_before(x, 0).len() == 0 && run_before(x, 1).len() == 0);
    assert(runs_before(x, 0) == Seq::<Seq<char>>::empty());
    assert(runs_before(x, 1) == Seq::<Seq<char>>::empty());
    lemma_split(x, b);
    assert(arguments(x) + arguments(b) == arguments(b));
}

/// Two plain texts with a space between them are two arguments, each as it stands.
pub proof fn law_two_plain_arguments(a: Seq<char>, b: Seq<char>)
    requires
        a.len() > 0,
        b.len() > 0,
        forall|i: int|
            0 <= i < a.len() ==> #[trigger] a[i] != '"' && a[i] != '\'' && a[i] != ' ' && a[i]
                != '\t',
        forall|i: int|
            0 <= i < b.len() ==> #[trigger] b[i] != '"' && b[i] != '\'' && b[i] != ' ' && b[i]
                != '\t',
    ensures
        arguments(a + seq![' '] + b) == seq![a, b],
{
    law_blank_separates(a, ' ', b);
    law_plain_text_is_one_argument(a);
    law_plain_text_is_one_argument(b);
    assert(seq![a] + seq![b] == seq![a, b]);
}

/// Quoted text behind text without quotes is an argument of its own, unless it is empty, and what
/// follows the closing quote is split on its own.
pub proof fn law_quotes_stand_apart(a: Seq<char>, q: char, inner: Seq<char>, b: Seq<char>)
    requires
        q == '"' || q == '\'',
        !inner.contains(q),
        forall|i: int| 0 <= i < a.len() ==> #[trigger] a[i] != '"' && a[i] != '\'',
    ensures
        arguments(a + (seq![q] + inner + seq![q]) + b) == arguments(a) + (if inner.len() > 0 {
            seq![inner]
        } else {
            Seq::empty()
        }) + arguments(b),
{
    let z = seq![q] + inner + seq![q];
    let n = inner.len() as int;
    lemma_inside_quotes(q, inner, n);
    assert(z[n + 1] == q);
    assert(!belongs(z, n + 1));
    assert(open_quote(z, n + 2) is None);
    assert(run_before(z, n + 2).len() == 0);
    assert(z.len() == n + 2);
    if n > 0 {
        law_quoted_text_is_one_argument(q, inner);
    } else {
        assert(inner.take(0).len() == 0);
        assert(runs_before(z, 2) == Seq::<Seq<char>>::empty());
    }
    lemma_split(z, b);
    lemma_unquoted_state(a, a.len() as int);
    assert((z + b)[0] == q);
    assert(open_quote(z + b, 0) is None);
    lemma_split(a, z + b);
    assert(a + (z + b) == a + z + b);
    assert(arguments(a) + (arguments(z) + arguments(b)) == arguments(a) + arguments(z) + arguments(
        b,
    ));
}

/// Text behind a quote that is never closed is one argument.
pub proof fn law_open_quote_runs_to_the_end(a: Seq<char>, q: char, inner: Seq<char>)
    requires
        q == '"' || q == '\'',
        !inner.contains(q),
        inner.len() > 0,
        forall|i: int| 0 <= i < a.len() ==> #[trigger] a[i] != '"' && a[i] != '\'',
    ensures
        arguments(a + (seq![q] + inner)) == arguments(a).push(inner),
{
    let y = seq![q] + inner;
    let n = inner.len() as int;
    let none = Seq::<Seq<char>>::empty();
    lemma_inside_quotes(q, inner, n);
    lemma_split_within(y, seq![q], n + 1);
    assert(inner.take(n) == inner);
    assert(y.len() == n + 1);
    assert(arguments(y) == none.push(inner));
    assert(y[0] == q);
    assert(open_quote(y, 0) is None);
    lemma_unquoted_state(a, a.len() as int);
    lemma_split(a, y);
    assert(arguments(a) + none.push(inner) == arguments(a).push(inner));
}

} // verus!
