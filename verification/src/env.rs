//! Environment variables as a map from names to values.

use crate::text::{ascii_lower, eq_ignore_ascii_case, same_ignoring_ascii_case, same_text};
use vstd::prelude::*;

verus! {

/// A variable: its name and its value.
pub type Pair = (Seq<char>, Seq<char>);

/// Whether no name occurs twice.
pub open spec fn distinct_names(pairs: Seq<Pair>) -> bool {
    forall|i: int, j: int|
        0 <= i < j < pairs.len() ==> (#[trigger] pairs[i]).0 != (#[trigger] pairs[j]).0
}

/// Whether two names are the same variable: on systems that ignore the case of names, they may
/// differ in the case of ASCII letters.
pub open spec fn same_name(a: Seq<char>, b: Seq<char>, ignore_case: bool) -> bool {
    if ignore_case {
        same_ignoring_ascii_case(a, b)
    } else {
        a == b
    }
}

/// The value of the first variable with the given name.
pub open spec fn lookup(pairs: Seq<Pair>, name: Seq<char>, ignore_case: bool) -> Option<Seq<char>>
    decreases pairs.len(),
{
    if pairs.len() == 0 {
        None
    } else if same_name(pairs[0].0, name, ignore_case) {
        Some(pairs[0].1)
    } else {
        lookup(pairs.drop_first(), name, ignore_case)
    }
}

/// The variables with `name` set to `value`: a known name keeps its place, a new one comes last.
pub open spec fn with_pair(pairs: Seq<Pair>, name: Seq<char>, value: Seq<char>) -> Seq<Pair>
    decreases pairs.len(),
{
    if pairs.len() == 0 {
        seq![(name, value)]
    } else if pairs[0].0 == name {
        pairs.update(0, (name, value))
    } else {
        seq![pairs[0]] + with_pair(pairs.drop_first(), name, value)
    }
}

/// The variables `pairs` with each of `more` set in turn.
pub open spec fn with_pairs(pairs: Seq<Pair>, more: Seq<Pair>) -> Seq<Pair>
    decreases more.len(),
{
    if more.len() == 0 {
        pairs
    } else {
        with_pair(with_pairs(pairs, more.drop_last()), more.last().0, more.last().1)
    }
}

/// The pairs of texts that a list of pairs of strings stands for.
pub open spec fn pairs_view(v: Seq<(String, String)>) -> Seq<Pair> {
    v.map_values(|p: (String, String)| (p.0@, p.1@))
}

/// A map from variable names to values. No name occurs twice.
#[derive(Debug)]
pub struct EnvMap {
    entries: Vec<(String, String)>,
}

impl EnvMap {
    #[verifier::type_invariant]
    spec fn well_formed(&self) -> bool {
        distinct_names(pairs_view(self.entries@))
    }

    /// The variables, in the order in which their names were first set.
    pub closed spec fn pairs(&self) -> Seq<Pair> {
        pairs_view(self.entries@)
    }

    /// The map without variables.
    pub fn new() -> (r: EnvMap)
        ensures
            r.pairs() == Seq::<Pair>::empty(),
    {
        let r = EnvMap { entries: Vec::new() };
        assert(r.pairs() == Seq::<Pair>::empty());
        r
    }

    /// Sets `name` to `value`.
    pub fn insert(&mut self, name: String, value: String)
        ensures
            final(self).pairs() == with_pair(old(self).pairs(), name@, value@),
    {
        proof {
            use_type_invariant(&*self);
        }
        let mut entries: Vec<(String, String)> = Vec::new();
        std::mem::swap(&mut entries, &mut self.entries);
        let ghost before = pairs_view(entries@);
        let ghost k = name@;
        let ghost v = value@;
        let n: usize = entries.len();
        let mut i: usize = 0;
        while i < n
            invariant
                i <= n,
                n == entries@.len(),
                before == pairs_view(entries@),
                distinct_names(before),
                k == name@,
                forall|j: int| 0 <= j < i ==> (#[trigger] before[j]).0 != k,
            ensures
                i < n ==> before[i as int].0 == k,
            decreases n - i,
        {
            assert(before[i as int].0 == entries@[i as int].0@);
            if same_text(entries[i].0.as_str(), name.as_str()) {
                break ;
            }
            i = i + 1;
        }
        if i < n {
            entries.set(i, (name, value));
            proof {
                lemma_with_pair_known(before, k, v, i as int);
                assert(pairs_view(entries@) == before.update(i as int, (k, v)));
            }
        } else {
            entries.push((name, value));
            proof {
                lemma_with_pair_new(before, k, v);
                assert(pairs_view(entries@) == before.push((k, v)));
            }
        }
        self.entries = entries;
    }

    /// The value of the variable `name`.
    pub fn get(&self, name: &str, ignore_case: bool) -> (r: Option<String>)
        ensures
            match r {
                Some(v) => lookup(self.pairs(), name@, ignore_case) == Some(v@),
                None => lookup(self.pairs(), name@, ignore_case) is None,
            },
    {
        let ghost all = self.pairs();
        let n: usize = self.entries.len();
        assert(all.skip(0) == all);
        for i in 0..n
            invariant
                n == self.entries@.len(),
                all == pairs_view(self.entries@),
                lookup(all, name@, ignore_case) == lookup(all.skip(i as int), name@, ignore_case),
        {
            let ghost rest = all.skip(i as int);
            assert(rest[0] == (self.entries@[i as int].0@, self.entries@[i as int].1@));
            assert(rest.drop_first() == all.skip(i + 1));
            let same = if ignore_case {
                eq_ignore_ascii_case(self.entries[i].0.as_str(), name)
            } else {
                same_text(self.entries[i].0.as_str(), name)
            };
            if same {
                return Some(self.entries[i].1.clone());
            }
        }
        None
    }

    /// All variables.
    pub fn entries(&self) -> (r: Vec<(String, String)>)
        ensures
            pairs_view(r@) == self.pairs(),
            distinct_names(self.pairs()),
    {
        proof {
            use_type_invariant(self);
        }
        let n: usize = self.entries.len();
        let mut r: Vec<(String, String)> = Vec::new();
        for i in 0..n
            invariant
                n == self.entries@.len(),
                pairs_view(r@) == pairs_view(self.entries@).take(i as int),
        {
            let ghost before = pairs_view(r@);
            let x = (self.entries[i].0.clone(), self.entries[i].1.clone());
            r.push(x);
            assert(pairs_view(r@) == before.push((x.0@, x.1@)));
        }
        assert(pairs_view(self.entries@).take(n as int) == pairs_view(self.entries@));
        r
    }

    /// Sets every variable of `more`.
    pub fn extend(&mut self, more: &EnvMap)
        ensures
            final(self).pairs() == with_pairs(old(self).pairs(), more.pairs()),
    {
        let list = more.entries();
        let ghost all = more.pairs();
        let n: usize = list.len();
        for i in 0..n
            invariant
                n == list@.len(),
                all == pairs_view(list@),
                self.pairs() == with_pairs(old(self).pairs(), all.take(i as int)),
        {
            assert(all.take(i + 1).drop_last() == all.take(i as int));
            assert(all.take(i + 1).last() == (list@[i as int].0@, list@[i as int].1@));
            self.insert(list[i].0.clone(), list[i].1.clone());
        }
        assert(all.take(n as int) == all);
    }
}

impl Clone for EnvMap {
    fn clone(&self) -> (r: Self)
        ensures
            r.pairs() == self.pairs(),
    {
        EnvMap { entries: self.entries() }
    }
}

proof fn lemma_with_pair_known(pairs: Seq<Pair>, name: Seq<char>, value: Seq<char>, i: int)
    requires
        0 <= i < pairs.len(),
        pairs[i].0 == name,
        forall|j: int| 0 <= j < i ==> (#[trigger] pairs[j]).0 != name,
        distinct_names(pairs),
    ensures
        with_pair(pairs, name, value) == pairs.update(i, (name, value)),
        distinct_names(pairs.update(i, (name, value))),
    decreases i,
{
    if i > 0 {
        let t = pairs.drop_first();
        assert(pairs[0].0 != name);
        assert forall|j: int| 0 <= j < i - 1 implies (#[trigger] t[j]).0 != name by {
            assert(t[j] == pairs[j + 1]);
        }
        assert forall|a: int, b: int| 0 <= a < b < t.len() implies (#[trigger] t[a]).0 != (
        #[trigger] t[b]).0 by {
            assert(t[a] == pairs[a + 1] && t[b] == pairs[b + 1]);
        }
        lemma_with_pair_known(t, name, value, i - 1);
        assert(seq![pairs[0]] + t.update(i - 1, (name, value)) == pairs.update(i, (name, value)));
    }
}

proof fn lemma_with_pair_new(pairs: Seq<Pair>, name: Seq<char>, value: Seq<char>)
    requires
        forall|j: int| 0 <= j < pairs.len() ==> (#[trigger] pairs[j]).0 != name,
    ensures
        with_pair(pairs, name, value) == pairs.push((name, value)),
        distinct_names(pairs) ==> distinct_names(pairs.push((name, value))),
    decreases pairs.len(),
{
    if pairs.len() > 0 {
        let t = pairs.drop_first();
        assert(pairs[0].0 != name);
        assert forall|j: int| 0 <= j < t.len() implies (#[trigger] t[j]).0 != name by {
            assert(t[j] == pairs[j + 1]);
        }
        lemma_with_pair_new(t, name, value);
        assert(seq![pairs[0]] + t.push((name, value)) == pairs.push((name, value)));
    } else {
        assert(pairs.push((name, value)) == seq![(name, value)]);
    }
}

/// A variable reads back as it was last set, and setting it leaves the others alone.
pub proof fn law_set_then_get(
    pairs: Seq<Pair>,
    name: Seq<char>,
    value: Seq<char>,
    other: Seq<char>,
)
    ensures
        lookup(with_pair(pairs, name, value), name, false) == Some(value),
        other != name ==> lookup(with_pair(pairs, name, value), other, false) == lookup(
            pairs,
            other,
            false,
        ),
    decreases pairs.len(),
{
    let r = with_pair(pairs, name, value);
    if pairs.len() == 0 {
        assert(r.drop_first() == Seq::<Pair>::empty());
        assert(lookup(r.drop_first(), other, false) is None);
    } else if pairs[0].0 == name {
        assert(r.drop_first() == pairs.drop_first());
    } else {
        law_set_then_get(pairs.drop_first(), name, value, other);
        assert(r.drop_first() == with_pair(pairs.drop_first(), name, value));
    }
}

/// Where case is ignored, names that differ only in the case of ASCII letters are the same variable.
pub proof fn law_case_of_names_is_ignored(pairs: Seq<Pair>, a: Seq<char>, b: Seq<char>)
    requires
        same_ignoring_ascii_case(a, b),
    ensures
        lookup(pairs, a, true) == lookup(pairs, b, true),
    decreases pairs.len(),
{
    if pairs.len() > 0 {
        let n = pairs[0].0;
        if same_ignoring_ascii_case(n, a) {
            assert forall|i: int| 0 <= i < n.len() implies #[trigger] ascii_lower(n[i])
                == ascii_lower(b[i]) by {
                assert(ascii_lower(a[i]) == ascii_lower(b[i]));
            }
        }
        if same_ignoring_ascii_case(n, b) {
            assert forall|i: int| 0 <= i < n.len() implies #[trigger] ascii_lower(n[i])
                == ascii_lower(a[i]) by {
                assert(ascii_lower(a[i]) == ascii_lower(b[i]));
            }
        }
        law_case_of_names_is_ignored(pairs.drop_first(), a, b);
    }
}

/// The first variable of a name counts: those before it have other names, and what follows it makes
/// no difference.
pub proof fn law_first_of_name_counts(
    before: Seq<Pair>,
    name: Seq<char>,
    value: Seq<char>,
    after: Seq<Pair>,
    ignore_case: bool,
)
    requires
        forall|i: int|
            0 <= i < before.len() ==> (#[trigger] before[i]).0 != name && !(ignore_case
                && same_ignoring_ascii_case(before[i].0, name)),
    ensures
        lookup(before.push((name, value)) + after, name, ignore_case) == Some(value),
        lookup(before, name, ignore_case) is None,
    decreases before.len(),
{
    let all = before.push((name, value)) + after;
    if before.len() == 0 {
        assert(all[0] == (name, value));
    } else {
        let rest = before.drop_first();
        assert(all[0] == before[0]);
        assert(all.drop_first() == rest.push((name, value)) + after);
        assert forall|i: int| 0 <= i < rest.len() implies (#[trigger] rest[i]).0 != name && !(
        ignore_case && same_ignoring_ascii_case(rest[i].0, name)) by {
            assert(rest[i] == before[i + 1]);
        }
        law_first_of_name_counts(rest, name, value, after, ignore_case);
    }
}

/// Of the variables that are set in turn, the last of a name counts; a name that none of them has
/// keeps its value.
pub proof fn law_extended(pairs: Seq<Pair>, more: Seq<Pair>, name: Seq<char>, value: Seq<char>)
    ensures
        lookup(with_pairs(pairs, more.push((name, value))), name, false) == Some(value),
        (forall|i: int| 0 <= i < more.len() ==> (#[trigger] more[i]).0 != name) ==> lookup(
            with_pairs(pairs, more),
            name,
            false,
        ) == lookup(pairs, name, false),
    decreases more.len(),
{
    assert(more.push((name, value)).drop_last() == more);
    law_set_then_get(with_pairs(pairs, more), name, value, name);
    if more.len() > 0 {
        let front = more.drop_last();
        let last = more.last();
        law_extended(pairs, front, name, value);
        law_set_then_get(with_pairs(pairs, front), last.0, last.1, name);
        assert(more[more.len() - 1] == last);
        if forall|i: int| 0 <= i < more.len() ==> (#[trigger] more[i]).0 != name {
            assert forall|i: int| 0 <= i < front.len() implies (#[trigger] front[i]).0 != name by {
                assert(front[i] == more[i]);
            }
        }
    }
}

} // verus!
