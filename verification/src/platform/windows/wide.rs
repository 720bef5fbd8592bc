//! Texts and environments in the form that Windows takes them: UTF-16, ended by zeros.

use crate::env::{pairs_view, EnvMap, Pair};
use crate::path_order::{law_text_order, lemma_text_order_total, lemma_text_order_transitive, order_texts, text_order};
use crate::text::{all_ascii, ascii_upper, chars_of, concat, to_uppercase, uppercase};
use vstd::prelude::*;

verus! {

/// The UTF-16 units of a character: itself, or two surrogates if it lies beyond the first plane.
pub open spec fn units_of(c: char) -> Seq<u16> {
    let n = c as int;
    if n < 0x10000 {
        seq![n as u16]
    } else {
        seq![
            (0xd800 + (n - 0x10000) / 0x400) as u16,
            (0xdc00 + (n - 0x10000) % 0x400) as u16,
        ]
    }
}

/// The UTF-16 units of a text.
pub open spec fn utf16(s: Seq<char>) -> Seq<u16>
    decreases s.len(),
{
    if s.len() == 0 {
        Seq::empty()
    } else {
        utf16(s.drop_last()) + units_of(s.last())
    }
}

fn push_char(list: &mut Vec<u16>, c: char)
    ensures
        final(list)@ == old(list)@ + units_of(c),
{
    let ghost before = list@;
    let n: u32 = c as u32;
    if n < 0x10000 {
        list.push(n as u16);
    } else {
        let high: u32 = 0xd800 + (n - 0x10000) / 0x400;
        let low: u32 = 0xdc00 + (n - 0x10000) % 0x400;
        list.push(high as u16);
        list.push(low as u16);
    }
    assert(list@ == before + units_of(c));
}

fn push_units(list: &mut Vec<u16>, s: &str)
    ensures
        final(list)@ == old(list)@ + utf16(s@),
{
    let ghost before = list@;
    let chars = chars_of(s);
    let n: usize = chars.len();
    assert(list@ == before + utf16(s@.take(0)));
    for i in 0..n
        invariant
            n == chars@.len(),
            chars@ == s@,
            list@ == before + utf16(s@.take(i as int)),
    {
        assert(s@.take(i + 1).drop_last() == s@.take(i as int));
        push_char(list, chars[i]);
        assert(list@ == before + (utf16(s@.take(i as int)) + units_of(s@[i as int])));
    }
    assert(s@.take(n as int) == s@);
}

/// Writes a text in UTF-16, ended by a zero.
pub fn to_wide(s: &str) -> (r: Vec<u16>)
    ensures
        r@ == utf16(s@).push(0),
{
    let mut r: Vec<u16> = Vec::new();
    push_units(&mut r, s);
    assert(r@ == utf16(s@));
    r.push(0);
    r
}

/// The order of two names with the given upper-case forms: by those, then by the names themselves.
pub open spec fn key_order(
    upper_a: Seq<char>,
    a: Seq<char>,
    upper_b: Seq<char>,
    b: Seq<char>,
) -> int {
    if text_order(upper_a, upper_b) != 0 {
        text_order(upper_a, upper_b)
    } else {
        text_order(a, b)
    }
}

/// The order of two variable names: by their upper-case forms, then by the names themselves.
pub open spec fn name_order(a: Seq<char>, b: Seq<char>) -> int {
    key_order(uppercase(a), a, uppercase(b), b)
}

/// The sorted list `pairs` with `p` put behind those whose names do not come after its own.
pub open spec fn with_entry(pairs: Seq<Pair>, p: Pair) -> Seq<Pair>
    decreases pairs.len(),
{
    if pairs.len() == 0 {
        seq![p]
    } else if name_order(p.0, pairs.last().0) < 0 {
        with_entry(pairs.drop_last(), p).push(pairs.last())
    } else {
        pairs.push(p)
    }
}

/// The variables sorted by name.
pub open spec fn sorted_entries(pairs: Seq<Pair>) -> Seq<Pair>
    decreases pairs.len(),
{
    if pairs.len() == 0 {
        pairs
    } else {
        with_entry(sorted_entries(pairs.drop_last()), pairs.last())
    }
}

/// A variable in an environment block.
pub open spec fn entry_units(p: Pair) -> Seq<u16> {
    utf16(p.0 + "="@ + p.1).push(0)
}

/// The variables of an environment block, one after the other.
pub open spec fn entries_units(pairs: Seq<Pair>) -> Seq<u16>
    decreases pairs.len(),
{
    if pairs.len() == 0 {
        Seq::empty()
    } else {
        entries_units(pairs.drop_last()) + entry_units(pairs.last())
    }
}

/// The environment block for the variables: sorted by name, each ended by a zero, and one more
/// zero at the end.
pub open spec fn env_block(pairs: Seq<Pair>) -> Seq<u16> {
    entries_units(sorted_entries(pairs)).push(0)
}

/// Tells the order of two names with the given upper-case forms.
pub fn order_keys(upper_a: &str, a: &str, upper_b: &str, b: &str) -> (r: i8)
    ensures
        r == key_order(upper_a@, a@, upper_b@, b@),
{
    let upper: i8 = order_texts(&chars_of(upper_a), &chars_of(upper_b));
    if upper != 0 {
        upper
    } else {
        order_texts(&chars_of(a), &chars_of(b))
    }
}

/// Tells the order of two variable names.
pub fn order_names(a: &str, b: &str) -> (r: i8)
    ensures
        r == name_order(a@, b@),
        all_ascii(a@) && all_ascii(b@) ==> r == key_order(
            a@.map_values(|c: char| ascii_upper(c)),
            a@,
            b@.map_values(|c: char| ascii_upper(c)),
            b@,
        ),
{
    order_keys(to_uppercase(a).as_str(), a, to_uppercase(b).as_str(), b)
}

proof fn lemma_with_entry_at(pairs: Seq<Pair>, p: Pair, k: int)
    requires
        0 <= k <= pairs.len(),
        forall|i: int| k <= i < pairs.len() ==> name_order(p.0, (#[trigger] pairs[i]).0) < 0,
        k > 0 ==> name_order(p.0, pairs[k - 1].0) >= 0,
    ensures
        with_entry(pairs, p) == pairs.insert(k, p),
    decreases pairs.len(),
{
    if k < pairs.len() {
        let front = pairs.drop_last();
        assert(name_order(p.0, pairs[pairs.len() - 1].0) < 0);
        lemma_with_entry_at(front, p, k);
        assert(front.insert(k, p).push(pairs.last()) == pairs.insert(k, p));
    } else if pairs.len() > 0 {
        assert(pairs.push(p) == pairs.insert(k, p));
    } else {
        assert(seq![p] == pairs.insert(k, p));
    }
}

fn put_entry(list: &mut Vec<(String, String)>, p: (String, String))
    ensures
        pairs_view(final(list)@) == with_entry(pairs_view(old(list)@), (p.0@, p.1@)),
{
    let ghost before = pairs_view(list@);
    let ghost x = (p.0@, p.1@);
    let mut k: usize = list.len();
    while k > 0 && order_names(p.0.as_str(), list[k - 1].0.as_str()) < 0
        invariant
            k <= list@.len(),
            before == pairs_view(list@),
            x == (p.0@, p.1@),
            forall|i: int| k <= i < before.len() ==> name_order(x.0, (#[trigger] before[i]).0) < 0,
        ensures
            k > 0 ==> name_order(x.0, before[k - 1].0) >= 0,
        decreases k,
    {
        k = k - 1;
    }
    proof {
        lemma_with_entry_at(before, x, k as int);
    }
    list.insert(k, p);
    assert(pairs_view(list@) == before.insert(k as int, x));
}

/// Sorts variables by name.
pub fn sort_entries(env: &EnvMap) -> (r: Vec<(String, String)>)
    ensures
        pairs_view(r@) == sorted_entries(env.pairs()),
{
    let list = env.entries();
    let ghost all = env.pairs();
    let n: usize = list.len();
    let mut r: Vec<(String, String)> = Vec::new();
    assert(pairs_view(r@) == sorted_entries(all.take(0)));
    for i in 0..n
        invariant
            n == list@.len(),
            all == pairs_view(list@),
            pairs_view(r@) == sorted_entries(all.take(i as int)),
    {
        assert(all.take(i + 1).drop_last() == all.take(i as int));
        assert(all.take(i + 1).last() == (list@[i as int].0@, list@[i as int].1@));
        put_entry(&mut r, (list[i].0.clone(), list[i].1.clone()));
    }
    assert(all.take(n as int) == all);
    r
}

/// Writes variables one after the other, each ended by a zero, and one more zero at the end.
pub fn write_entries(items: &Vec<(String, String)>) -> (r: Vec<u16>)
    ensures
        r@ == entries_units(pairs_view(items@)).push(0),
{
    let ghost all = pairs_view(items@);
    let n: usize = items.len();
    let mut w: Vec<u16> = Vec::new();
    assert(w@ == entries_units(all.take(0)));
    for i in 0..n
        invariant
            n == items@.len(),
            all == pairs_view(items@),
            w@ == entries_units(all.take(i as int)),
    {
        assert(all.take(i + 1).drop_last() == all.take(i as int));
        assert(all.take(i + 1).last() == (items@[i as int].0@, items@[i as int].1@));
        let ghost before = w@;
        let text = concat(concat(items[i].0.as_str(), "=").as_str(), items[i].1.as_str());
        push_units(&mut w, text.as_str());
        w.push(0);
        assert(w@ == before + entry_units(all[i as int]));
    }
    assert(all.take(n as int) == all);
    w.push(0);
    w
}

/// Builds a Windows environment block from variables.
pub fn make_env_block(env: &EnvMap) -> (r: Vec<u16>)
    ensures
        r@ == env_block(env.pairs()),
{
    write_entries(&sort_entries(env))
}

proof fn lemma_name_order_total(a: Seq<char>, b: Seq<char>)
    ensures
        name_order(a, b) == -name_order(b, a),
        name_order(a, b) == 0 <==> a == b,
{
    lemma_text_order_total(uppercase(a), uppercase(b));
    lemma_text_order_total(a, b);
}

proof fn lemma_name_order_transitive(a: Seq<char>, b: Seq<char>, c: Seq<char>)
    requires
        name_order(a, b) <= 0,
        name_order(b, c) <= 0,
    ensures
        name_order(a, c) <= 0,
{
    lemma_text_order_total(uppercase(a), uppercase(b));
    lemma_text_order_total(uppercase(b), uppercase(c));
    lemma_text_order_transitive(uppercase(a), uppercase(b), uppercase(c));
    if uppercase(a) == uppercase(b) && uppercase(b) == uppercase(c) {
        lemma_text_order_transitive(a, b, c);
    }
}

/// Whether the names ascend.
pub open spec fn names_ascend(pairs: Seq<Pair>) -> bool {
    forall|i: int, j: int|
        0 <= i < j < pairs.len() ==> name_order((#[trigger] pairs[i]).0, (#[trigger] pairs[j]).0)
            <= 0
}

proof fn lemma_with_entry(pairs: Seq<Pair>, p: Pair)
    requires
        names_ascend(pairs),
    ensures
        names_ascend(with_entry(pairs, p)),
        with_entry(pairs, p).to_multiset() == pairs.push(p).to_multiset(),
    decreases pairs.len(),
{
    broadcast use vstd::seq_lib::group_to_multiset_ensures;

    if pairs.len() > 0 {
        let last = pairs.last();
        let front = pairs.drop_last();
        if name_order(p.0, last.0) < 0 {
            lemma_with_entry(front, p);
            let r = with_entry(front, p);
            assert forall|i: int| 0 <= i < r.len() implies name_order((#[trigger] r[i]).0, last.0)
                <= 0 by {
                assert(r.contains(r[i]));
                assert(r.to_multiset().count(r[i]) > 0);
                assert(front.push(p).to_multiset().count(r[i]) > 0);
                let k = choose|k: int| 0 <= k < front.push(p).len() && front.push(p)[k] == r[i];
                if k < front.len() {
                    assert(pairs[k] == r[i] && pairs[pairs.len() - 1] == last);
                }
            }
            assert(pairs == front.push(last));
            assert(with_entry(pairs, p).to_multiset() == pairs.push(p).to_multiset());
        } else {
            lemma_name_order_total(p.0, last.0);
            let r = pairs.push(p);
            assert forall|i: int, j: int| 0 <= i < j < r.len() implies name_order(
                (#[trigger] r[i]).0,
                (#[trigger] r[j]).0,
            ) <= 0 by {
                if j == pairs.len() {
                    if i < pairs.len() - 1 {
                        assert(pairs[pairs.len() - 1] == last);
                        assert(pairs[i] == r[i]);
                        lemma_name_order_transitive(r[i].0, last.0, p.0);
                    }
                } else {
                    assert(pairs[i] == r[i] && pairs[j] == r[j]);
                }
            }
        }
    } else {
        assert(seq![p] == pairs.push(p));
    }
}

/// The variables of an environment block come in ascending order of their names, and are the given
/// ones.
pub proof fn law_entries_sorted(pairs: Seq<Pair>)
    ensures
        names_ascend(sorted_entries(pairs)),
        sorted_entries(pairs).to_multiset() == pairs.to_multiset(),
    decreases pairs.len(),
{
    broadcast use vstd::seq_lib::group_to_multiset_ensures;

    if pairs.len() > 0 {
        let front = pairs.drop_last();
        law_entries_sorted(front);
        lemma_with_entry(sorted_entries(front), pairs.last());
        assert(pairs == front.push(pairs.last()));
    }
}

proof fn lemma_units_not_zero(c: char)
    requires
        c != '\0',
    ensures
        !units_of(c).contains(0),
{
    let n = c as int;
    if n >= 0x10000 {
        let high = 0xd800 + (n - 0x10000) / 0x400;
        let low = 0xdc00 + (n - 0x10000) % 0x400;
        assert(0 < high < 0x10000);
        assert(0 < low < 0x10000);
    }
}

/// The zero that ends a text in UTF-16 is the only one, unless the text itself holds the zero
/// character.
pub proof fn law_terminator_is_first_zero(s: Seq<char>)
    requires
        !s.contains('\0'),
    ensures
        !utf16(s).contains(0),
    decreases s.len(),
{
    if s.len() > 0 {
        let front = s.drop_last();
        assert forall|i: int| 0 <= i < front.len() implies front[i] != '\0' by {
            assert(front[i] == s[i]);
        }
        law_terminator_is_first_zero(front);
        assert(s[s.len() - 1] == s.last());
        lemma_units_not_zero(s.last());
        let all = utf16(s);
        assert forall|i: int| 0 <= i < all.len() implies all[i] != 0 by {
            if i < utf16(front).len() {
                assert(all[i] == utf16(front)[i]);
            } else {
                assert(all[i] == units_of(s.last())[i - utf16(front).len()]);
            }
        }
    }
}

/// A character of the first plane is one unit, which is its number. Any other is a high surrogate and
/// a low one, from which the number of the character is read back.
pub proof fn law_units_read_back(c: char)
    ensures
        (c as u32) < 0x1_0000 ==> units_of(c).len() == 1 && units_of(c)[0] == c as u32,
        (c as u32) >= 0x1_0000 ==> ({
            let high = units_of(c)[0];
            let low = units_of(c)[1];
            &&& units_of(c).len() == 2
            &&& 0xd800 <= high <= 0xdbff
            &&& 0xdc00 <= low <= 0xdfff
            &&& (high - 0xd800) * 0x400 + (low - 0xdc00) + 0x1_0000 == c as u32
        }),
{
    let n = c as int;
    if n >= 0x1_0000 {
        let m = n - 0x1_0000;
        assert(0 <= m < 0x10_0000);
        assert((m / 0x400) * 0x400 + m % 0x400 == m);
    }
}

/// Texts in UTF-16 follow one another as the texts do.
pub proof fn law_utf16_goes_on(a: Seq<char>, b: Seq<char>, c: char)
    ensures
        utf16(a + b) == utf16(a) + utf16(b),
        utf16(seq![c]) == units_of(c),
        utf16(Seq::<char>::empty()) == Seq::<u16>::empty(),
    decreases b.len(),
{
    reveal_with_fuel(utf16, 2);
    assert(seq![c].drop_last() == Seq::<char>::empty());
    assert(Seq::<u16>::empty() + units_of(c) == units_of(c));
    if b.len() == 0 {
        assert(a + b == a);
    } else {
        law_utf16_goes_on(a, b.drop_last(), c);
        assert((a + b).drop_last() == a + b.drop_last());
        assert((a + b).last() == b.last());
    }
}

/// An environment block is made of the variables in their sorted order, each as name, `=`, value and
/// a zero, and ends with one more zero.
pub proof fn law_block_of_entries(a: Seq<Pair>, name: Seq<char>, value: Seq<char>, b: Seq<Pair>)
    ensures
        entries_units(a.push((name, value)) + b) == entries_units(a) + (utf16(name) + seq!['=' as u16]
            + utf16(value) + seq![0u16]) + entries_units(b),
        env_block(b) == entries_units(sorted_entries(b)) + seq![0u16],
        entries_units(Seq::<Pair>::empty()) == Seq::<u16>::empty(),
    decreases b.len(),
{
    let all = a.push((name, value)) + b;
    if b.len() == 0 {
        reveal_strlit("=");
        assert(all.drop_last() == a);
        assert(all.last() == (name, value));
        law_utf16_goes_on(name + "="@, value, '=');
        law_utf16_goes_on(name, "="@, '=');
        assert("="@ == seq!['=']);
        assert(units_of('=') == seq!['=' as u16]);
        assert(entry_units((name, value)) == utf16(name) + seq!['=' as u16] + utf16(value)
            + seq![0u16]);
        assert(entries_units(b) == Seq::<u16>::empty());
    } else {
        law_block_of_entries(a, name, value, b.drop_last());
        assert(all.drop_last() == a.push((name, value)) + b.drop_last());
        assert(all.last() == b.last());
    }
}

/// The first character in which the upper-case forms of two names differ decides which variable
/// comes first; names with the same upper-case form are ordered by themselves.
pub proof fn law_name_order(
    a: Seq<char>,
    b: Seq<char>,
    x: Seq<char>,
    c: char,
    s: Seq<char>,
    d: char,
    t: Seq<char>,
)
    requires
        c < d,
    ensures
        uppercase(a) == x + seq![c] + s && uppercase(b) == x + seq![d] + t ==> name_order(a, b)
            == -1,
        uppercase(a) == uppercase(b) && a == x + seq![c] + s && b == x + seq![d] + t ==> name_order(
            a,
            b,
        ) == -1,
{
    law_text_order(x, c, s, d, t);
    lemma_text_order_total(uppercase(a), uppercase(b));
}

} // verus!
