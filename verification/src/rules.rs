//! Rules that pick the targets of writes out of command text.

use crate::args::{arguments, law_two_plain_arguments, split_args};
use crate::pattern::{captures_iter, escape, escaped, matches_of};
use crate::text::{
    ascii_lower, concat, eq_ignore_ascii_case, has_prefix, is_white_space, law_case_is_ignored,
    law_trimmed, law_unquoted, same_ignoring_ascii_case, starts_with, trim, trim_quotes, trimmed,
    unquoted,
};
use vstd::prelude::*;

verus! {

/// How a rule picks a target out of the text that group 1 of its pattern matched. A null device is
/// never picked.
#[derive(Clone, Copy, Debug, PartialEq, Eq, Structural)]
pub enum Pick {
    /// The text without white space around it, unless it is empty.
    File,
    /// The text as it stands.
    Plain,
    /// The text, unless it is a parameter, which begins with `-`.
    Value,
    /// Of two or more arguments in the text, the last that is not a flag.
    LastArgument,
}

/// A rule: a pattern, what is picked out of its matches, and whether all of them count.
#[verifier::ext_equal]
pub struct Rule {
    pub pattern: Seq<char>,
    pub pick: Pick,
    pub every_match: bool,
}

/// A rule, as it is applied.
#[derive(Debug)]
pub struct WriteRule {
    /// The regular expression.
    pub pattern: String,
    /// What the rule picks out of a match.
    pub pick: Pick,
    /// Whether all matches count, or only the first.
    pub every_match: bool,
}

impl View for WriteRule {
    type V = Rule;

    open spec fn view(&self) -> Rule {
        Rule { pattern: self.pattern@, pick: self.pick, every_match: self.every_match }
    }
}

/// The rules that a list of rules stands for.
pub open spec fn rules_view(rules: Seq<WriteRule>) -> Seq<Rule> {
    rules.map_values(|r: WriteRule| r@)
}

/// Whether writing to `p` writes to no file.
pub open spec fn names_null_device(p: Seq<char>) -> bool {
    ||| same_ignoring_ascii_case("/dev/null"@, p)
    ||| same_ignoring_ascii_case("NUL"@, p)
    ||| same_ignoring_ascii_case("CON"@, p)
    ||| same_ignoring_ascii_case("nul"@, p)
    ||| same_ignoring_ascii_case("con"@, p)
}

/// Checks whether a path is a null device, which a search for write targets passes over.
pub fn is_null_device(p: &str) -> (r: bool)
    ensures
        r == names_null_device(p@),
{
    eq_ignore_ascii_case("/dev/null", p) || eq_ignore_ascii_case("NUL", p) || eq_ignore_ascii_case(
        "CON",
        p,
    ) || eq_ignore_ascii_case("nul", p) || eq_ignore_ascii_case("con", p)
}

/// Whether `arg` is a flag or a parameter.
pub open spec fn is_flag(arg: Seq<char>) -> bool {
    has_prefix(arg, "-"@)
}

/// The last of `args` that is not a flag.
pub open spec fn last_operand(args: Seq<Seq<char>>) -> Option<Seq<char>>
    decreases args.len(),
{
    if args.len() == 0 {
        None
    } else if !is_flag(args.last()) {
        Some(args.last())
    } else {
        last_operand(args.drop_last())
    }
}

/// `arg`, unless it is a null device in or out of quotes.
pub open spec fn unless_null(arg: Seq<char>) -> Option<Seq<char>> {
    if names_null_device(unquoted(arg)) {
        None
    } else {
        Some(arg)
    }
}

/// What a rule picks out of the text of group 1.
pub open spec fn picked(text: Seq<char>, pick: Pick) -> Option<Seq<char>> {
    match pick {
        Pick::File => if trimmed(text).len() == 0 {
            None
        } else {
            unless_null(trimmed(text))
        },
        Pick::Plain => unless_null(text),
        Pick::Value => if is_flag(text) {
            None
        } else {
            unless_null(text)
        },
        Pick::LastArgument => if arguments(text).len() >= 2 {
            match last_operand(arguments(text)) {
                Some(arg) => unless_null(arg),
                None => None,
            }
        } else {
            None
        },
    }
}

/// The text that group `i` matched, if it took part in the match.
pub open spec fn captured(groups: Seq<Option<Seq<char>>>, i: int) -> Option<Seq<char>> {
    if 0 <= i < groups.len() {
        groups[i]
    } else {
        None
    }
}

/// What a rule picks out of one match.
pub open spec fn picked_from(groups: Seq<Option<Seq<char>>>, pick: Pick) -> Option<Seq<char>> {
    match captured(groups, 1) {
        Some(text) => picked(text, pick),
        None => None,
    }
}

/// What is picked out of each of the matches.
pub open spec fn all_picked(matches: Seq<Seq<Option<Seq<char>>>>, pick: Pick) -> Seq<Seq<char>>
    decreases matches.len(),
{
    if matches.len() == 0 {
        Seq::empty()
    } else {
        match picked_from(matches.last(), pick) {
            Some(target) => all_picked(matches.drop_last(), pick).push(target),
            None => all_picked(matches.drop_last(), pick),
        }
    }
}

/// The targets that a rule finds, given all matches of its pattern.
pub open spec fn rule_targets(
    pick: Pick,
    every_match: bool,
    matches: Seq<Seq<Option<Seq<char>>>>,
) -> Seq<Seq<char>> {
    if every_match || matches.len() == 0 {
        all_picked(matches, pick)
    } else {
        all_picked(matches.take(1), pick)
    }
}

/// The targets that the rules find in `text`, rule by rule.
pub open spec fn targets_in(text: Seq<char>, rules: Seq<Rule>) -> Seq<Seq<char>>
    decreases rules.len(),
{
    if rules.len() == 0 {
        Seq::empty()
    } else {
        targets_in(text, rules.drop_last()) + rule_targets(
            rules.last().pick,
            rules.last().every_match,
            matches_of(rules.last().pattern, text),
        )
    }
}

/// Finds the last of `args` that is not a flag.
pub fn find_last_operand(args: &Vec<String>) -> (r: Option<String>)
    ensures
        match r {
            Some(a) => last_operand(args.deep_view()) == Some(a@),
            None => last_operand(args.deep_view()) is None,
        },
{
    let ghost all = args.deep_view();
    let mut n: usize = args.len();
    assert(all.take(n as int) == all);
    while n > 0
        invariant
            n <= args@.len(),
            all == args.deep_view(),
            last_operand(all) == last_operand(all.take(n as int)),
        decreases n,
    {
        assert(all.take(n as int).last() == args@[n - 1]@);
        assert(all.take(n as int).drop_last() == all.take(n - 1));
        if !starts_with(args[n - 1].as_str(), "-") {
            return Some(args[n - 1].clone());
        }
        n = n - 1;
    }
    None
}

fn skip_null(arg: String) -> (r: Option<String>)
    ensures
        match r {
            Some(t) => unless_null(arg@) == Some(t@),
            None => unless_null(arg@) is None,
        },
{
    if is_null_device(trim_quotes(arg.as_str()).as_str()) {
        None
    } else {
        Some(arg)
    }
}

/// Picks the target out of the text of group 1.
pub fn pick_target(text: &str, pick: Pick) -> (r: Option<String>)
    ensures
        match r {
            Some(t) => picked(text@, pick) == Some(t@),
            None => picked(text@, pick) is None,
        },
{
    match pick {
        Pick::File => {
            let file = trim(text);
            if file.as_str().is_empty() {
                None
            } else {
                skip_null(file)
            }
        },
        Pick::Plain => skip_null(text.to_owned()),
        Pick::Value => if starts_with(text, "-") {
            None
        } else {
            skip_null(text.to_owned())
        },
        Pick::LastArgument => {
            let args = split_args(text);
            assert(args.deep_view().len() == args@.len());
            if args.len() < 2 {
                return None;
            }
            match find_last_operand(&args) {
                Some(arg) => skip_null(arg),
                None => None,
            }
        },
    }
}

/// Reads the text of group `i`, if it took part in the match.
pub fn captured_text(groups: &Vec<Option<String>>, i: usize) -> (r: Option<String>)
    ensures
        match r {
            Some(t) => captured(groups.deep_view(), i as int) == Some(t@),
            None => captured(groups.deep_view(), i as int) is None,
        },
{
    if i < groups.len() {
        assert(groups.deep_view()[i as int] == groups@[i as int].deep_view());
        match &groups[i] {
            Some(t) => Some(t.clone()),
            None => None,
        }
    } else {
        None
    }
}

/// Picks the targets out of the matches of a rule's pattern.
pub fn pick_targets(pick: Pick, every_match: bool, matches: &Vec<Vec<Option<String>>>) -> (r: Vec<
    String,
>)
    ensures
        r.deep_view() == rule_targets(pick, every_match, matches.deep_view()),
{
    let ghost all = matches.deep_view();
    let n: usize = if every_match || matches.len() == 0 {
        matches.len()
    } else {
        1
    };
    let mut r: Vec<String> = Vec::new();
    assert(r.deep_view() == Seq::<Seq<char>>::empty());
    for i in 0..n
        invariant
            n <= matches@.len(),
            all == matches.deep_view(),
            r.deep_view() == all_picked(all.take(i as int), pick),
    {
        assert(all.take(i + 1).drop_last() == all.take(i as int));
        assert(all.take(i + 1).last() == matches@[i as int].deep_view());
        let ghost before = r.deep_view();
        if let Some(text) = captured_text(&matches[i], 1) {
            if let Some(target) = pick_target(text.as_str(), pick) {
                let ghost t = target@;
                r.push(target);
                assert(r.deep_view() == before.push(t));
            }
        }
    }
    assert(all.take(all.len() as int) == all);
    r
}

/// Appends `more` to `list`.
pub fn append_all(list: &mut Vec<String>, more: &Vec<String>)
    ensures
        final(list).deep_view() == old(list).deep_view() + more.deep_view(),
{
    let ghost before = list.deep_view();
    let ghost all = more.deep_view();
    let n: usize = more.len();
    for i in 0..n
        invariant
            n == more@.len(),
            all == more.deep_view(),
            list.deep_view() == before + all.take(i as int),
    {
        let ghost now = list.deep_view();
        list.push(more[i].clone());
        assert(list.deep_view() == now.push(all[i as int]));
        assert(all.take(i + 1) == all.take(i as int).push(all[i as int]));
    }
    assert(all.take(n as int) == all);
}

/// Finds the targets that the rules find in `text`.
pub fn find_targets(text: &str, rules: &Vec<WriteRule>) -> (r: Vec<String>)
    ensures
        r.deep_view() == targets_in(text@, rules_view(rules@)),
{
    let ghost all = rules_view(rules@);
    let n: usize = rules.len();
    let mut r: Vec<String> = Vec::new();
    assert(r.deep_view() == Seq::<Seq<char>>::empty());
    for i in 0..n
        invariant
            n == rules@.len(),
            all == rules_view(rules@),
            r.deep_view() == targets_in(text@, all.take(i as int)),
    {
        assert(all.take(i + 1).drop_last() == all.take(i as int));
        assert(all.take(i + 1).last() == rules@[i as int]@);
        let matches = captures_iter(rules[i].pattern.as_str(), text);
        let found = pick_targets(rules[i].pick, rules[i].every_match, &matches);
        append_all(&mut r, &found);
    }
    assert(all.take(n as int) == all);
    r
}

/// The rule with the given parts.
pub open spec fn rule(pattern: Seq<char>, pick: Pick, every_match: bool) -> Rule {
    Rule { pattern, pick, every_match }
}

/// Makes a rule.
pub fn make_rule(pattern: &str, pick: Pick, every_match: bool) -> (r: WriteRule)
    ensures
        r@ == rule(pattern@, pick, every_match),
{
    WriteRule { pattern: pattern.to_owned(), pick, every_match }
}

/// The pattern that has `word` between the patterns `before` and `after`.
pub open spec fn word_pattern(before: Seq<char>, word: Seq<char>, after: Seq<char>) -> Seq<char> {
    before + escaped(word) + after
}

/// Makes the pattern that has `word` between the patterns `before` and `after`.
pub fn make_word_pattern(before: &str, word: &str, after: &str) -> (r: String)
    ensures
        r@ == word_pattern(before@, word@, after@),
{
    concat(concat(before, escape(word).as_str()).as_str(), after)
}

/// Nothing that a rule picks is a null device.
pub proof fn law_no_null_device(text: Seq<char>, pick: Pick)
    ensures
        picked(text, pick) matches Some(t) ==> !names_null_device(unquoted(t)),
{
}

/// No target that rules find is a null device.
pub proof fn law_targets_are_files(text: Seq<char>, rules: Seq<Rule>, i: int)
    requires
        0 <= i < targets_in(text, rules).len(),
    ensures
        !names_null_device(unquoted(targets_in(text, rules)[i])),
    decreases rules.len(),
{
    if rules.len() > 0 {
        let before = targets_in(text, rules.drop_last());
        if i < before.len() {
            law_targets_are_files(text, rules.drop_last(), i);
        } else {
            let matches = matches_of(rules.last().pattern, text);
            let counted = if rules.last().every_match || matches.len() == 0 {
                matches
            } else {
                matches.take(1)
            };
            lemma_all_picked(counted, rules.last().pick, i - before.len());
        }
    }
}

proof fn lemma_all_picked(matches: Seq<Seq<Option<Seq<char>>>>, pick: Pick, i: int)
    requires
        0 <= i < all_picked(matches, pick).len(),
    ensures
        !names_null_device(unquoted(all_picked(matches, pick)[i])),
    decreases matches.len(),
{
    if matches.len() > 0 && i < all_picked(matches.drop_last(), pick).len() {
        lemma_all_picked(matches.drop_last(), pick, i);
    }
}

/// Whether a text names a null device does not depend on the case of its letters.
pub proof fn law_null_device_ignores_case(p: Seq<char>, q: Seq<char>)
    requires
        same_ignoring_ascii_case(p, q),
    ensures
        names_null_device(p) == names_null_device(q),
{
    lemma_same_case_carries("/dev/null"@, p, q);
    lemma_same_case_carries("NUL"@, p, q);
    lemma_same_case_carries("CON"@, p, q);
    lemma_same_case_carries("nul"@, p, q);
    lemma_same_case_carries("con"@, p, q);
}

proof fn lemma_same_case_carries(a: Seq<char>, p: Seq<char>, q: Seq<char>)
    requires
        same_ignoring_ascii_case(p, q),
    ensures
        same_ignoring_ascii_case(a, p) == same_ignoring_ascii_case(a, q),
{
    if same_ignoring_ascii_case(a, p) {
        assert forall|i: int| 0 <= i < a.len() implies ascii_lower(#[trigger] a[i]) == ascii_lower(
            q[i],
        ) by {
            assert(ascii_lower(p[i]) == ascii_lower(q[i]));
        }
    }
    if same_ignoring_ascii_case(a, q) {
        assert forall|i: int| 0 <= i < a.len() implies ascii_lower(#[trigger] a[i]) == ascii_lower(
            p[i],
        ) by {
            assert(ascii_lower(p[i]) == ascii_lower(q[i]));
        }
    }
}

/// What a rule picks among arguments is an argument, and is not a flag.
pub proof fn law_destination_is_operand(text: Seq<char>)
    ensures
        picked(text, Pick::LastArgument) matches Some(t) ==> !is_flag(t) && arguments(
            text,
        ).contains(t),
{
    lemma_last_operand(arguments(text));
}

proof fn lemma_last_operand(args: Seq<Seq<char>>)
    ensures
        last_operand(args) matches Some(t) ==> !is_flag(t) && args.contains(t),
    decreases args.len(),
{
    if args.len() > 0 {
        lemma_last_operand(args.drop_last());
        if is_flag(args.last()) {
            if let Some(t) = last_operand(args.drop_last()) {
                let i = choose|i: int| 0 <= i < args.len() - 1 && args.drop_last()[i] == t;
                assert(args[i] == t);
            }
        } else {
            assert(args[args.len() - 1] == args.last());
        }
    }
}

/// The null devices are `/dev/null`, `nul` and `con` in any case, and nothing else is one.
pub proof fn law_null_devices(p: Seq<char>)
    ensures
        names_null_device(p) <==> ({
            let lower = p.map_values(|c: char| ascii_lower(c));
            lower == "/dev/null"@ || lower == "nul"@ || lower == "con"@
        }),
{
    reveal_strlit("/dev/null");
    reveal_strlit("NUL");
    reveal_strlit("CON");
    reveal_strlit("nul");
    reveal_strlit("con");
    let f = |c: char| ascii_lower(c);
    let lower = p.map_values(f);
    law_case_is_ignored("/dev/null"@, p);
    law_case_is_ignored("NUL"@, p);
    law_case_is_ignored("CON"@, p);
    law_case_is_ignored("nul"@, p);
    law_case_is_ignored("con"@, p);
    assert("/dev/null"@.map_values(f) == "/dev/null"@);
    assert("NUL"@.map_values(f) == "nul"@);
    assert("CON"@.map_values(f) == "con"@);
    assert("nul"@.map_values(f) == "nul"@);
    assert("con"@.map_values(f) == "con"@);
}

/// A flag is what begins with `-`.
pub proof fn law_flags(arg: Seq<char>)
    ensures
        is_flag(arg) <==> arg.len() > 0 && arg[0] == '-',
{
    reveal_strlit("-");
    if arg.len() > 0 {
        assert(arg.take(1)[0] == arg[0]);
        if arg[0] == '-' {
            assert(arg.take(1) == "-"@);
        }
    }
}

proof fn lemma_last_of(front: Seq<Seq<char>>, x: Seq<char>, flags: Seq<Seq<char>>)
    requires
        !is_flag(x),
        forall|i: int| 0 <= i < flags.len() ==> is_flag(#[trigger] flags[i]),
    ensures
        last_operand(front.push(x) + flags) == Some(x),
    decreases flags.len(),
{
    let all = front.push(x) + flags;
    if flags.len() == 0 {
        assert(all.last() == x);
    } else {
        assert(all.last() == flags.last());
        assert(flags[flags.len() - 1] == flags.last());
        assert(all.drop_last() == front.push(x) + flags.drop_last());
        assert forall|i: int| 0 <= i < flags.len() - 1 implies is_flag(
            #[trigger] flags.drop_last()[i],
        ) by {
            assert(flags.drop_last()[i] == flags[i]);
        }
        lemma_last_of(front, x, flags.drop_last());
    }
}

/// Of two or more arguments, the last that does not begin with `-` is the destination of a copy,
/// whatever flags follow it, unless it is a null device.
pub proof fn law_destination(
    text: Seq<char>,
    front: Seq<Seq<char>>,
    x: Seq<char>,
    flags: Seq<Seq<char>>,
)
    requires
        arguments(text) == front.push(x) + flags,
        front.len() + flags.len() > 0,
        x.len() > 0 && x[0] != '-',
        forall|i: int| 0 <= i < flags.len() ==> (#[trigger] flags[i]).len() > 0 && flags[i][0] == '-',
    ensures
        picked(text, Pick::LastArgument) == (if names_null_device(unquoted(x)) {
            None
        } else {
            Some(x)
        }),
{
    law_flags(x);
    assert forall|i: int| 0 <= i < flags.len() implies is_flag(#[trigger] flags[i]) by {
        law_flags(flags[i]);
    }
    lemma_last_of(front, x, flags);
}

/// Where two plain words follow a copy command, the second is the destination, as it stands.
pub proof fn law_copy_goes_to_the_second(a: Seq<char>, b: Seq<char>)
    requires
        a.len() > 0,
        b.len() > 0,
        forall|i: int|
            0 <= i < a.len() ==> #[trigger] a[i] != '"' && a[i] != '\'' && a[i] != ' ' && a[i]
                != '\t',
        forall|i: int|
            0 <= i < b.len() ==> #[trigger] b[i] != '"' && b[i] != '\'' && b[i] != ' ' && b[i]
                != '\t',
        b[0] != '-',
        !names_null_device(b),
    ensures
        picked(a + seq![' '] + b, Pick::LastArgument) == Some(b),
{
    let text = a + seq![' '] + b;
    let none = Seq::<Seq<char>>::empty();
    law_two_plain_arguments(a, b);
    assert(seq![a, b] == seq![a].push(b) + none);
    law_destination(text, seq![a], b, none);
    law_unquoted(Seq::empty(), b, Seq::empty());
}

/// One argument alone is no destination.
pub proof fn law_no_destination(text: Seq<char>)
    requires
        arguments(text).len() < 2,
    ensures
        picked(text, Pick::LastArgument) is None,
{
}

/// A plain text is picked as it is; a file without the white space round it; a value unless it
/// begins with `-`. A null device is not picked, in quotes or not.
pub proof fn law_picked(left: Seq<char>, text: Seq<char>, right: Seq<char>)
    requires
        text.len() > 0,
        !is_white_space(text[0]),
        !is_white_space(text.last()),
        forall|k: int| 0 <= k < left.len() ==> is_white_space(#[trigger] left[k]),
        forall|k: int| 0 <= k < right.len() ==> is_white_space(#[trigger] right[k]),
    ensures
        !names_null_device(unquoted(text)) ==> {
            &&& picked(text, Pick::Plain) == Some(text)
            &&& picked(left + text + right, Pick::File) == Some(text)
            &&& picked(text, Pick::Value) == (if text[0] == '-' {
                None
            } else {
                Some(text)
            })
        },
        names_null_device(unquoted(text)) ==> {
            &&& picked(text, Pick::Plain) is None
            &&& picked(left + text + right, Pick::File) is None
            &&& picked(text, Pick::Value) is None
        },
{
    law_trimmed(left, text, right);
    law_flags(text);
}

/// Each match gives at most one target, which comes from group 1; the targets of more matches follow
/// those of the first ones. Where only the first match counts, the others give none.
pub proof fn law_targets_of_matches(
    pick: Pick,
    first: Seq<Option<Seq<char>>>,
    more: Seq<Seq<Option<Seq<char>>>>,
)
    ensures
        rule_targets(pick, true, seq![first] + more) == rule_targets(pick, true, seq![first])
            + rule_targets(pick, true, more),
        rule_targets(pick, false, seq![first] + more) == rule_targets(pick, true, seq![first]),
        rule_targets(pick, false, Seq::empty()) == Seq::<Seq<char>>::empty(),
        first.len() > 1 && first[1] is Some ==> rule_targets(pick, true, seq![first]) == (
        match picked(first[1]->0, pick) {
            Some(t) => seq![t],
            None => Seq::empty(),
        }),
        first.len() <= 1 || first[1] is None ==> rule_targets(pick, true, seq![first]).len() == 0,
    decreases more.len(),
{
    let one = seq![first];
    let all = one + more;
    assert(one.drop_last() == Seq::<Seq<Option<Seq<char>>>>::empty());
    assert(all_picked(one.drop_last(), pick) == Seq::<Seq<char>>::empty());
    assert(one.last() == first);
    assert(all.take(1) == one);
    if more.len() == 0 {
        assert(all == one);
        assert(all_picked(one, pick) + Seq::<Seq<char>>::empty() == all_picked(one, pick));
    } else {
        law_targets_of_matches(pick, first, more.drop_last());
        assert(all.drop_last() == one + more.drop_last());
        assert(all.last() == more.last());
    }
}

/// The targets of more rules follow those of the first ones, and those of one rule are what its
/// matches in the text give.
pub proof fn law_targets_of_rules(text: Seq<char>, first: Rule, more: Seq<Rule>)
    ensures
        targets_in(text, seq![first] + more) == targets_in(text, seq![first]) + targets_in(
            text,
            more,
        ),
        targets_in(text, seq![first]) == rule_targets(
            first.pick,
            first.every_match,
            matches_of(first.pattern, text),
        ),
    decreases more.len(),
{
    let one = seq![first];
    let all = one + more;
    assert(one.drop_last() == Seq::<Rule>::empty());
    assert(targets_in(text, one.drop_last()) == Seq::<Seq<char>>::empty());
    assert(one.last() == first);
    if more.len() == 0 {
        assert(all == one);
        assert(targets_in(text, one) + Seq::<Seq<char>>::empty() == targets_in(text, one));
    } else {
        law_targets_of_rules(text, first, more.drop_last());
        assert(all.drop_last() == one + more.drop_last());
        assert(all.last() == more.last());
    }
}

/// What a rule of a list picks out of a match that counts is among the targets.
pub proof fn law_rule_counts(text: Seq<char>, rules: Seq<Rule>, r: Rule, k: int, file: Seq<char>)
    requires
        rules.contains(r),
        0 <= k < matches_of(r.pattern, text).len(),
        r.every_match || k == 0,
        captured(matches_of(r.pattern, text)[k], 1) is Some,
        picked(captured(matches_of(r.pattern, text)[k], 1)->0, r.pick) == Some(file),
    ensures
        targets_in(text, rules).contains(file),
    decreases rules.len(),
{
    let i = choose|i: int| 0 <= i < rules.len() && rules[i] == r;
    let before = targets_in(text, rules.drop_last());
    let last = rules.last();
    let found = rule_targets(last.pick, last.every_match, matches_of(last.pattern, text));
    let all = targets_in(text, rules);
    if i < rules.len() - 1 {
        assert(rules.drop_last()[i] == r);
        law_rule_counts(text, rules.drop_last(), r, k, file);
        let j = choose|j: int| 0 <= j < before.len() && before[j] == file;
        assert(all[j] == file);
    } else {
        let matches = matches_of(r.pattern, text);
        let counted = if r.every_match {
            matches
        } else {
            matches.take(1)
        };
        lemma_picked_is_there(counted, r.pick, k, file);
        let j = choose|j: int| 0 <= j < found.len() && found[j] == file;
        assert(all[before.len() + j] == file);
    }
}

proof fn lemma_picked_is_there(
    matches: Seq<Seq<Option<Seq<char>>>>,
    pick: Pick,
    k: int,
    file: Seq<char>,
)
    requires
        0 <= k < matches.len(),
        picked_from(matches[k], pick) == Some(file),
    ensures
        all_picked(matches, pick).contains(file),
    decreases matches.len(),
{
    let before = all_picked(matches.drop_last(), pick);
    let all = all_picked(matches, pick);
    if k < matches.len() - 1 {
        assert(matches.drop_last()[k] == matches[k]);
        lemma_picked_is_there(matches.drop_last(), pick, k, file);
        let j = choose|j: int| 0 <= j < before.len() && before[j] == file;
        assert(all[j] == file);
    } else {
        assert(all[before.len() as int] == file);
    }
}

/// Where no rule of a list has a match, there are no targets.
pub proof fn law_no_match_no_target(text: Seq<char>, rules: Seq<Rule>)
    requires
        forall|i: int|
            0 <= i < rules.len() ==> matches_of((#[trigger] rules[i]).pattern, text).len() == 0,
    ensures
        targets_in(text, rules).len() == 0,
    decreases rules.len(),
{
    if rules.len() > 0 {
        assert(rules[rules.len() - 1] == rules.last());
        assert forall|i: int| 0 <= i < rules.len() - 1 implies matches_of(
            (#[trigger] rules.drop_last()[i]).pattern,
            text,
        ).len() == 0 by {
            assert(rules.drop_last()[i] == rules[i]);
        }
        law_no_match_no_target(text, rules.drop_last());
    }
}

/// A word without signs that mean something in a pattern stands in the pattern as it is, between the
/// two other patterns.
pub proof fn law_word_pattern(before: Seq<char>, word: Seq<char>, after: Seq<char>)
    requires
        forall|i: int|
            0 <= i < word.len() ==> ('a' <= #[trigger] word[i] <= 'z' || 'A' <= word[i] <= 'Z'
                || '0' <= word[i] <= '9' || word[i] == '_' || word[i] == ' '),
    ensures
        word_pattern(before, word, after) == before + word + after,
{
    lemma_nothing_escaped(word);
}

proof fn lemma_nothing_escaped(word: Seq<char>)
    requires
        forall|i: int|
            0 <= i < word.len() ==> ('a' <= #[trigger] word[i] <= 'z' || 'A' <= word[i] <= 'Z'
                || '0' <= word[i] <= '9' || word[i] == '_' || word[i] == ' '),
    ensures
        escaped(word) == word,
    decreases word.len(),
{
    if word.len() > 0 {
        let front = word.drop_last();
        assert forall|i: int| 0 <= i < front.len() implies ('a' <= #[trigger] front[i] <= 'z' || 'A'
            <= front[i] <= 'Z' || '0' <= front[i] <= '9' || front[i] == '_' || front[i] == ' ') by {
            assert(front[i] == word[i]);
        }
        lemma_nothing_escaped(front);
        assert(word[word.len() - 1] == word.last());
        assert(front.push(word.last()) == word);
    }
}

} // verus!
