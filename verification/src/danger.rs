//! Dangerous commands: those that could undo or leave the sandbox.

use crate::env::Pair;
use crate::expand::{expanded, is_gap, law_expanded_apart};
use crate::host::Platform;
use crate::pattern::{elevates, elevates_at, folds_to, is_match, is_word_boundary,
    is_word_character, stands_alone, stands_alone_at, ELEVATION, LONGEST_WORD, WORD_START};
use crate::rules::{make_word_pattern, word_pattern};
use crate::text::{ascii_lower, contains_text, is_white_space, law_trimmed_inside, occurs_in,
    same_ignoring_ascii_case, stands_at, trimmed};
use vstd::prelude::*;
use vstd::string::StrSliceExecFns;

verus! {

/// Commands that can bypass the sandbox by modifying ACLs or permissions, or by running with
/// elevated privileges.
pub open spec fn dangerous_commands() -> Seq<Seq<char>> {
    seq![
        "icacls"@,
        "cacls"@,
        "chmod"@,
        "chown"@,
        "chgrp"@,
        "setfacl"@,
        "getfacl"@,
        "sudo"@,
        "su"@,
        "runas"@,
        "Start-Process"@,
        "-Verb RunAs"@,
        "secedit"@,
        "auditpol"@,
        "RunAs"@,
        "Elevate"@,
    ]
}

/// The longest name of a command that is only taken for one if it stands as a word of its own.
pub const SHORT_NAME: usize = 5;

/// Whether `text` mentions the command `word`: it holds the word, and a short word stands between
/// word boundaries somewhere, which `alone` tells.
pub open spec fn mentions(text: Seq<char>, word: Seq<char>, alone: bool) -> bool {
    occurs_in(text, word) && (word.len() <= SHORT_NAME ==> alone)
}

/// Whether `text` mentions the command `word`.
pub open spec fn mentions_command(text: Seq<char>, word: Seq<char>) -> bool {
    mentions(text, word, stands_alone(text, word))
}

/// Whether `text` mentions a dangerous command or asks for elevation.
pub open spec fn is_dangerous(text: Seq<char>) -> bool {
    ||| exists|i: int|
        0 <= i < dangerous_commands().len() && mentions_command(
            text,
            #[trigger] dangerous_commands()[i],
        )
    ||| elevates(text)
}

/// Decides whether `text` mentions the command `word`.
pub fn judge_mention(text: &str, word: &str, alone: bool) -> (r: bool)
    ensures
        r == mentions(text@, word@, alone),
{
    contains_text(text, word) && (word.unicode_len() > SHORT_NAME || alone)
}

/// The names of the dangerous commands.
fn dangerous_names() -> (r: Vec<&'static str>)
    ensures
        r.deep_view() == dangerous_commands(),
{
    let r: Vec<&'static str> = vec![
        "icacls",
        "cacls",
        "chmod",
        "chown",
        "chgrp",
        "setfacl",
        "getfacl",
        "sudo",
        "su",
        "runas",
        "Start-Process",
        "-Verb RunAs",
        "secedit",
        "auditpol",
        "RunAs",
        "Elevate",
    ];
    assert(r.deep_view() == dangerous_commands());
    r
}

/// Tells whether `text` mentions a dangerous command or asks for elevation.
pub fn find_danger(text: &str) -> (r: bool)
    ensures
        r == is_dangerous(text@),
{
    let names = dangerous_names();
    let n: usize = names.len();
    for i in 0..n
        invariant
            n == names@.len(),
            names.deep_view() == dangerous_commands(),
            forall|k: int|
                0 <= k < i ==> !mentions_command(text@, #[trigger] dangerous_commands()[k]),
    {
        proof {
            lemma_dangerous_names(i as int);
        }
        assert(dangerous_commands()[i as int] == names@[i as int]@);
        let pattern = make_word_pattern(WORD_START, names[i], WORD_START);
        let alone = is_match(pattern.as_str(), text);
        assert(pattern@ == word_pattern(WORD_START@, names@[i as int]@, WORD_START@));
        if judge_mention(text, names[i], alone) {
            return true;
        }
    }
    is_match(ELEVATION, text)
}

proof fn lemma_dangerous_names(i: int)
    requires
        0 <= i < dangerous_commands().len(),
    ensures
        ({
            let word = dangerous_commands()[i];
            &&& 0 < word.len() <= LONGEST_WORD
            &&& !is_white_space(word[0])
            &&& !is_white_space(word.last())
            &&& !word.contains(';')
        }),
{
    reveal_strlit("icacls");
    reveal_strlit("cacls");
    reveal_strlit("chmod");
    reveal_strlit("chown");
    reveal_strlit("chgrp");
    reveal_strlit("setfacl");
    reveal_strlit("getfacl");
    reveal_strlit("sudo");
    reveal_strlit("su");
    reveal_strlit("runas");
    reveal_strlit("Start-Process");
    reveal_strlit("-Verb RunAs");
    reveal_strlit("secedit");
    reveal_strlit("auditpol");
    reveal_strlit("RunAs");
    reveal_strlit("Elevate");
}

/// A command that holds the name of a dangerous command is dangerous, if the name is long enough
/// to be taken for one wherever it stands.
pub proof fn law_long_names_are_dangerous(text: Seq<char>, i: int)
    requires
        0 <= i < dangerous_commands().len(),
        dangerous_commands()[i].len() > SHORT_NAME,
        occurs_in(text, dangerous_commands()[i]),
    ensures
        is_dangerous(text),
{
    assert(mentions_command(text, dangerous_commands()[i]));
}

/// A command in which the name of a dangerous command stands as a word of its own is dangerous.
pub proof fn law_words_are_dangerous(text: Seq<char>, i: int)
    requires
        0 <= i < dangerous_commands().len(),
        stands_alone(text, dangerous_commands()[i]),
    ensures
        is_dangerous(text),
{
    let word = dangerous_commands()[i];
    let at = choose|at: int| stands_alone_at(text, word, at);
    assert(stands_at(text, word, at));
    assert(mentions_command(text, word));
}

/// A command that names no dangerous command and does not ask for elevation is not dangerous.
pub proof fn law_harmless_text(text: Seq<char>)
    requires
        forall|i: int|
            0 <= i < dangerous_commands().len() ==> !occurs_in(
                text,
                #[trigger] dangerous_commands()[i],
            ),
        !elevates(text),
    ensures
        !is_dangerous(text),
{
    assert forall|i: int| 0 <= i < dangerous_commands().len() implies !mentions_command(
        text,
        #[trigger] dangerous_commands()[i],
    ) by {
        assert(!occurs_in(text, dangerous_commands()[i]));
    }
}

/// Whether `word` stands in `text` at position `i` and is taken for a command there.
spec fn mentioned_at(text: Seq<char>, word: Seq<char>, i: int) -> bool {
    stands_at(text, word, i) && (word.len() <= SHORT_NAME ==> stands_alone_at(text, word, i))
}

proof fn lemma_mentioned(text: Seq<char>, word: Seq<char>)
    ensures
        mentions_command(text, word) <==> exists|i: int| mentioned_at(text, word, i),
{
    if mentions_command(text, word) {
        if word.len() <= SHORT_NAME {
            let i = choose|i: int| stands_alone_at(text, word, i);
            assert(mentioned_at(text, word, i));
        } else {
            let i = choose|i: int| stands_at(text, word, i);
            assert(mentioned_at(text, word, i));
        }
    }
    if exists|i: int| mentioned_at(text, word, i) {
        let i = choose|i: int| mentioned_at(text, word, i);
        assert(stands_at(text, word, i));
    }
}

/// Whether no word goes on from `left`, or goes on into `right`.
spec fn are_edges(left: Seq<char>, right: Seq<char>) -> bool {
    &&& left.len() > 0 ==> !is_word_character(left.last())
    &&& right.len() > 0 ==> !is_word_character(right[0])
}

/// A word stands alone inside a text exactly when it does between edges.
proof fn lemma_mention_inside(
    left: Seq<char>,
    x: Seq<char>,
    right: Seq<char>,
    word: Seq<char>,
    i: int,
)
    requires
        are_edges(left, right),
        0 <= i,
        i + word.len() <= x.len(),
    ensures
        mentioned_at(left + x + right, word, left.len() + i) == mentioned_at(x, word, i),
{
    let all = left + x + right;
    let m = left.len() as int;
    let n = word.len() as int;
    assert(all.subrange(m + i, m + i + n) == x.subrange(i, i + n));
    lemma_boundary_inside(left, x, right, i);
    lemma_boundary_inside(left, x, right, i + n);
}

proof fn lemma_boundary_inside(left: Seq<char>, x: Seq<char>, right: Seq<char>, i: int)
    requires
        are_edges(left, right),
        0 <= i <= x.len(),
    ensures
        is_word_boundary(left + x + right, left.len() + i) == is_word_boundary(x, i),
{
    let all = left + x + right;
    let m = left.len() as int;
    if i > 0 {
        assert(all[m + i - 1] == x[i - 1]);
    } else if m > 0 {
        assert(all[m - 1] == left.last());
    }
    if i < x.len() {
        assert(all[m + i] == x[i]);
    } else if right.len() > 0 {
        assert(all[m + i] == right[0]);
    }
}

proof fn lemma_elevation_inside(
    left: Seq<char>,
    x: Seq<char>,
    right: Seq<char>,
    i: int,
    j: int,
)
    requires
        0 <= i,
        j + 5 <= x.len(),
    ensures
        elevates_at(left + x + right, left.len() + i, left.len() + j) == elevates_at(x, i, j),
{
    let all = left + x + right;
    let m = left.len() as int;
    let verb = seq!['-', 'v', 'e', 'r', 'b'];
    let runas = seq!['r', 'u', 'n', 'a', 's'];
    assert forall|k: int| 0 <= k < x.len() implies #[trigger] all[m + k] == x[k] by {}
    if elevates_at(x, i, j) {
        assert forall|k: int| m + i + 5 <= k < m + j implies is_white_space(#[trigger] all[k]) by {
            assert(all[m + (k - m)] == x[k - m]);
        }
        assert forall|k: int| 0 <= k < 5 implies folds_to(
            #[trigger] all[m + i + k],
            verb[k],
        ) by {
            assert(all[m + (i + k)] == x[i + k]);
        }
        assert forall|k: int| 0 <= k < 5 implies folds_to(
            #[trigger] all[m + j + k],
            runas[k],
        ) by {
            assert(all[m + (j + k)] == x[j + k]);
        }
    }
    if elevates_at(all, m + i, m + j) {
        assert forall|k: int| i + 5 <= k < j implies is_white_space(#[trigger] x[k]) by {
            assert(all[m + k] == x[k]);
        }
        assert forall|k: int| 0 <= k < 5 implies folds_to(
            #[trigger] x[i + k],
            verb[k],
        ) by {
            assert(all[m + i + k] == x[i + k]);
        }
        assert forall|k: int| 0 <= k < 5 implies folds_to(
            #[trigger] x[j + k],
            runas[k],
        ) by {
            assert(all[m + j + k] == x[j + k]);
        }
    }
}

/// What is dangerous stays so between edges.
proof fn lemma_danger_stays(left: Seq<char>, x: Seq<char>, right: Seq<char>)
    requires
        are_edges(left, right),
        is_dangerous(x),
    ensures
        is_dangerous(left + x + right),
{
    let all = left + x + right;
    let m = left.len() as int;
    if elevates(x) {
        let (i, j) = choose|i: int, j: int| elevates_at(x, i, j);
        lemma_elevation_inside(left, x, right, i, j);
        assert(elevates_at(all, m + i, m + j));
    } else {
        let k = choose|k: int|
            0 <= k < dangerous_commands().len() && mentions_command(
                x,
                #[trigger] dangerous_commands()[k],
            );
        let word = dangerous_commands()[k];
        lemma_mentioned(x, word);
        let i = choose|i: int| mentioned_at(x, word, i);
        lemma_mention_inside(left, x, right, word, i);
        assert(mentioned_at(all, word, m + i));
        lemma_mentioned(all, word);
    }
}

/// What is dangerous between edges is dangerous by itself, if nothing dangerous stands elsewhere.
proof fn lemma_danger_found(left: Seq<char>, x: Seq<char>, right: Seq<char>, word: Seq<char>, i: int)
    requires
        are_edges(left, right),
        dangerous_commands().contains(word),
        mentioned_at(left + x + right, word, i),
        left.len() <= i,
        i + word.len() <= left.len() + x.len(),
    ensures
        is_dangerous(x),
{
    let j = i - left.len();
    lemma_mention_inside(left, x, right, word, j);
    assert(mentioned_at(x, word, j));
    lemma_mentioned(x, word);
    let k = choose|k: int| 0 <= k < dangerous_commands().len() && dangerous_commands()[k] == word;
    assert(mentions_command(x, dangerous_commands()[k]));
}

/// Two commands, one after the other.
pub open spec fn chained(a: Seq<char>, b: Seq<char>) -> Seq<char> {
    a + seq![';', ' '] + b
}

/// A chain of two texts is dangerous exactly when one of the two is.
pub proof fn law_chain_is_dangerous(a: Seq<char>, b: Seq<char>)
    ensures
        is_dangerous(chained(a, b)) <==> is_dangerous(a) || is_dangerous(b),
{
    let all = chained(a, b);
    let none = Seq::<char>::empty();
    let m = a.len() as int;
    let after = seq![';', ' '] + b;
    let before = a + seq![';', ' '];
    assert(all == none + a + after);
    assert(all == before + b + none);
    assert(after[0] == ';');
    assert(before.last() == ' ');
    assert(all[m] == ';');
    assert(all[m + 1] == ' ');
    if is_dangerous(a) {
        lemma_danger_stays(none, a, after);
    }
    if is_dangerous(b) {
        lemma_danger_stays(before, b, none);
    }
    if elevates(all) {
        let (i, j) = choose|i: int, j: int| elevates_at(all, i, j);
        lemma_elevation_holds(all, i, j, m);
        lemma_elevation_holds(all, i, j, m + 1);
        if j + 5 <= m {
            lemma_elevation_inside(none, a, after, i, j);
            assert(elevates_at(a, i, j));
        } else {
            lemma_elevation_inside(before, b, none, i - m - 2, j - m - 2);
            assert(elevates_at(b, i - m - 2, j - m - 2));
        }
    } else if is_dangerous(all) {
        let k = choose|k: int|
            0 <= k < dangerous_commands().len() && mentions_command(
                all,
                #[trigger] dangerous_commands()[k],
            );
        let word = dangerous_commands()[k];
        lemma_dangerous_names(k);
        lemma_mentioned(all, word);
        let i = choose|i: int| mentioned_at(all, word, i);
        let n = word.len() as int;
        assert forall|q: int| 0 <= q < n implies word[q] == #[trigger] all[i + q] by {
            assert(all.subrange(i, i + n)[q] == all[i + q]);
        }
        if i + n <= m {
            lemma_danger_found(none, a, after, word, i);
        } else if i >= m + 2 {
            lemma_danger_found(before, b, none, word, i);
        } else if i <= m {
            assert(word[m - i] == all[i + (m - i)]);
            assert(word.contains(';'));
        } else {
            assert(word[0] == all[i + 0]);
        }
    }
}

/// A request for elevation holds no `;`, and begins and ends with what is not white space.
proof fn lemma_elevation_holds(text: Seq<char>, i: int, j: int, at: int)
    requires
        elevates_at(text, i, j),
    ensures
        i <= at < j + 5 ==> text[at] != ';',
        !is_white_space(text[i]),
        !is_white_space(text[j + 4]),
{
    assert(text[i + 0] == text[i]);
    if i <= at < i + 5 {
        assert(text[i + (at - i)] == text[at]);
    } else if j <= at < j + 5 {
        assert(text[j + (at - j)] == text[at]);
    }
}

/// White space around a text makes no difference.
proof fn lemma_danger_in_white_space(left: Seq<char>, x: Seq<char>, right: Seq<char>)
    requires
        forall|k: int| 0 <= k < left.len() ==> is_white_space(#[trigger] left[k]),
        forall|k: int| 0 <= k < right.len() ==> is_white_space(#[trigger] right[k]),
    ensures
        is_dangerous(left + x + right) == is_dangerous(x),
{
    let all = left + x + right;
    let m = left.len() as int;
    let e = m + x.len();
    assert(are_edges(left, right)) by {
        if m > 0 {
            assert(is_white_space(left[m - 1]));
        }
    }
    assert forall|k: int| 0 <= k < m implies is_white_space(#[trigger] all[k]) by {
        assert(all[k] == left[k]);
    }
    assert forall|k: int| e <= k < all.len() implies is_white_space(#[trigger] all[k]) by {
        assert(all[k] == right[k - e]);
    }
    if is_dangerous(x) {
        lemma_danger_stays(left, x, right);
    }
    if elevates(all) {
        let (i, j) = choose|i: int, j: int| elevates_at(all, i, j);
        lemma_elevation_holds(all, i, j, i);
        lemma_elevation_inside(left, x, right, i - m, j - m);
        assert(elevates_at(x, i - m, j - m));
    } else if is_dangerous(all) {
        let k = choose|k: int|
            0 <= k < dangerous_commands().len() && mentions_command(
                all,
                #[trigger] dangerous_commands()[k],
            );
        let word = dangerous_commands()[k];
        lemma_dangerous_names(k);
        lemma_mentioned(all, word);
        let i = choose|i: int| mentioned_at(all, word, i);
        let n = word.len() as int;
        assert(all.subrange(i, i + n)[0] == all[i]);
        assert(all.subrange(i, i + n)[n - 1] == all[i + n - 1]);
        lemma_danger_found(left, x, right, word, i);
    }
}

/// Whether a command is dangerous does not depend on white space around it.
proof fn lemma_danger_of_trimmed(s: Seq<char>, env: Seq<Pair>, platform: Platform)
    ensures
        is_dangerous(expanded(trimmed(s), env, platform)) == is_dangerous(
            expanded(s, env, platform),
        ),
{
    let (left, right) = law_trimmed_inside(s);
    let x = trimmed(s);
    let none = Seq::<char>::empty();
    let y = expanded(x, env, platform);
    let empty = expanded(none, env, platform);
    assert(empty == none) by {
        lemma_nothing_expanded(env, platform);
    }
    if right.len() > 0 {
        assert(is_gap(right));
        law_expanded_apart(x, right, none, env, platform);
        assert(x + right + none == x + right);
        assert(y + right + none == y + right);
    } else {
        assert(x + right == x);
        assert(y + right == y);
    }
    assert(expanded(x + right, env, platform) == y + right);
    if left.len() > 0 {
        assert(is_gap(left));
        law_expanded_apart(none, left, x + right, env, platform);
        assert(none + left + (x + right) == s);
        assert(none + left + (y + right) == left + y + right);
    } else {
        assert(x + right == s);
        assert(y + right == left + y + right);
    }
    lemma_danger_in_white_space(left, y, right);
}

proof fn lemma_nothing_expanded(env: Seq<Pair>, platform: Platform)
    ensures
        expanded(Seq::empty(), env, platform) == Seq::<char>::empty(),
{
}

/// A command that chains two others is blocked exactly when one of the two is, given the same
/// environment: chaining can neither hide a dangerous command nor make one up.
pub proof fn law_chained_commands(
    a: Seq<char>,
    b: Seq<char>,
    env: Seq<Pair>,
    platform: Platform,
)
    ensures
        is_dangerous(expanded(trimmed(chained(a, b)), env, platform)) <==> is_dangerous(
            expanded(trimmed(a), env, platform),
        ) || is_dangerous(expanded(trimmed(b), env, platform)),
{
    lemma_danger_of_trimmed(chained(a, b), env, platform);
    lemma_danger_of_trimmed(a, env, platform);
    lemma_danger_of_trimmed(b, env, platform);
    let gap = seq![';', ' '];
    assert(is_gap(gap));
    law_expanded_apart(a, gap, b, env, platform);
    law_chain_is_dangerous(expanded(a, env, platform), expanded(b, env, platform));
}

proof fn lemma_name_counts(text: Seq<char>, i: int)
    requires
        0 <= i < dangerous_commands().len(),
    ensures
        stands_alone(text, dangerous_commands()[i]) ==> is_dangerous(text),
        dangerous_commands()[i].len() > 5 && occurs_in(text, dangerous_commands()[i])
            ==> is_dangerous(text),
{
    if stands_alone(text, dangerous_commands()[i]) {
        law_words_are_dangerous(text, i);
    }
    if dangerous_commands()[i].len() > 5 && occurs_in(text, dangerous_commands()[i]) {
        law_long_names_are_dangerous(text, i);
    }
}

/// Each of these commands is dangerous wherever its name stands as a word of its own: those that
/// change permissions, those that raise privileges, and those that change security descriptors.
pub proof fn law_dangerous_words(text: Seq<char>)
    ensures
        stands_alone(text, "icacls"@) ==> is_dangerous(text),
        stands_alone(text, "cacls"@) ==> is_dangerous(text),
        stands_alone(text, "chmod"@) ==> is_dangerous(text),
        stands_alone(text, "chown"@) ==> is_dangerous(text),
        stands_alone(text, "chgrp"@) ==> is_dangerous(text),
        stands_alone(text, "setfacl"@) ==> is_dangerous(text),
        stands_alone(text, "getfacl"@) ==> is_dangerous(text),
        stands_alone(text, "sudo"@) ==> is_dangerous(text),
        stands_alone(text, "su"@) ==> is_dangerous(text),
        stands_alone(text, "runas"@) ==> is_dangerous(text),
        stands_alone(text, "Start-Process"@) ==> is_dangerous(text),
        stands_alone(text, "secedit"@) ==> is_dangerous(text),
        stands_alone(text, "auditpol"@) ==> is_dangerous(text),
        stands_alone(text, "RunAs"@) ==> is_dangerous(text),
        stands_alone(text, "Elevate"@) ==> is_dangerous(text),
{
    let names = dangerous_commands();
    assert(names[0] == "icacls"@);
    assert(names[1] == "cacls"@);
    assert(names[2] == "chmod"@);
    assert(names[3] == "chown"@);
    assert(names[4] == "chgrp"@);
    assert(names[5] == "setfacl"@);
    assert(names[6] == "getfacl"@);
    assert(names[7] == "sudo"@);
    assert(names[8] == "su"@);
    assert(names[9] == "runas"@);
    assert(names[10] == "Start-Process"@);
    assert(names[11] == "-Verb RunAs"@);
    assert(names[12] == "secedit"@);
    assert(names[13] == "auditpol"@);
    assert(names[14] == "RunAs"@);
    assert(names[15] == "Elevate"@);
    lemma_name_counts(text, 0);
    lemma_name_counts(text, 1);
    lemma_name_counts(text, 2);
    lemma_name_counts(text, 3);
    lemma_name_counts(text, 4);
    lemma_name_counts(text, 5);
    lemma_name_counts(text, 6);
    lemma_name_counts(text, 7);
    lemma_name_counts(text, 8);
    lemma_name_counts(text, 9);
    lemma_name_counts(text, 10);
    lemma_name_counts(text, 11);
    lemma_name_counts(text, 12);
    lemma_name_counts(text, 13);
    lemma_name_counts(text, 14);
    lemma_name_counts(text, 15);
}

/// A text is dangerous exactly when one of the long names stands anywhere in it, one of the short
/// ones stands in it as a word of its own, or it asks for elevation.
pub proof fn law_what_is_dangerous(text: Seq<char>)
    ensures
        is_dangerous(text) <==> ({
            ||| occurs_in(text, "icacls"@)
            ||| occurs_in(text, "setfacl"@)
            ||| occurs_in(text, "getfacl"@)
            ||| occurs_in(text, "Start-Process"@)
            ||| occurs_in(text, "-Verb RunAs"@)
            ||| occurs_in(text, "secedit"@)
            ||| occurs_in(text, "auditpol"@)
            ||| occurs_in(text, "Elevate"@)
            ||| stands_alone(text, "cacls"@)
            ||| stands_alone(text, "chmod"@)
            ||| stands_alone(text, "chown"@)
            ||| stands_alone(text, "chgrp"@)
            ||| stands_alone(text, "sudo"@)
            ||| stands_alone(text, "su"@)
            ||| stands_alone(text, "runas"@)
            ||| stands_alone(text, "RunAs"@)
            ||| elevates(text)
        }),
{
    let names = dangerous_commands();
    assert(names[0] == "icacls"@);
    assert(names[1] == "cacls"@);
    assert(names[2] == "chmod"@);
    assert(names[3] == "chown"@);
    assert(names[4] == "chgrp"@);
    assert(names[5] == "setfacl"@);
    assert(names[6] == "getfacl"@);
    assert(names[7] == "sudo"@);
    assert(names[8] == "su"@);
    assert(names[9] == "runas"@);
    assert(names[10] == "Start-Process"@);
    assert(names[11] == "-Verb RunAs"@);
    assert(names[12] == "secedit"@);
    assert(names[13] == "auditpol"@);
    assert(names[14] == "RunAs"@);
    assert(names[15] == "Elevate"@);
    reveal_strlit("icacls");
    reveal_strlit("cacls");
    reveal_strlit("chmod");
    reveal_strlit("chown");
    reveal_strlit("chgrp");
    reveal_strlit("setfacl");
    reveal_strlit("getfacl");
    reveal_strlit("sudo");
    reveal_strlit("su");
    reveal_strlit("runas");
    reveal_strlit("Start-Process");
    reveal_strlit("-Verb RunAs");
    reveal_strlit("secedit");
    reveal_strlit("auditpol");
    reveal_strlit("RunAs");
    reveal_strlit("Elevate");
    lemma_name_counts(text, 0);
    lemma_name_counts(text, 1);
    lemma_name_counts(text, 2);
    lemma_name_counts(text, 3);
    lemma_name_counts(text, 4);
    lemma_name_counts(text, 5);
    lemma_name_counts(text, 6);
    lemma_name_counts(text, 7);
    lemma_name_counts(text, 8);
    lemma_name_counts(text, 9);
    lemma_name_counts(text, 10);
    lemma_name_counts(text, 11);
    lemma_name_counts(text, 12);
    lemma_name_counts(text, 13);
    lemma_name_counts(text, 14);
    lemma_name_counts(text, 15);
    if is_dangerous(text) && !elevates(text) {
        let k = choose|k: int|
            0 <= k < names.len() && mentions_command(text, #[trigger] dangerous_commands()[k]);
        assert(mentions_command(text, names[k]));
        if names[k].len() <= 5 {
            assert(stands_alone(text, names[k]));
        } else {
            assert(occurs_in(text, names[k]));
        }
    }
}

/// A request for elevation is dangerous in any case of its letters and with any white space in it:
/// `-verb`, then white space, then `runas`.
pub proof fn law_elevation_is_dangerous(
    before: Seq<char>,
    verb: Seq<char>,
    gap: Seq<char>,
    runas: Seq<char>,
    after: Seq<char>,
)
    requires
        same_ignoring_ascii_case(verb, "-verb"@),
        gap.len() > 0,
        forall|k: int| 0 <= k < gap.len() ==> is_white_space(#[trigger] gap[k]),
        same_ignoring_ascii_case(runas, "runas"@),
    ensures
        is_dangerous(before + verb + gap + runas + after),
{
    reveal_strlit("-verb");
    reveal_strlit("runas");
    let text = before + verb + gap + runas + after;
    let i = before.len() as int;
    let j = i + 5 + gap.len();
    let v = seq!['-', 'v', 'e', 'r', 'b'];
    let r = seq!['r', 'u', 'n', 'a', 's'];
    assert(v == "-verb"@ && r == "runas"@);
    assert forall|k: int| 0 <= k < 5 implies folds_to(#[trigger] text[i + k], v[k]) by {
        assert(text[i + k] == verb[k]);
        assert(ascii_lower(verb[k]) == ascii_lower("-verb"@[k]));
    }
    assert forall|k: int| i + 5 <= k < j implies is_white_space(#[trigger] text[k]) by {
        assert(text[k] == gap[k - i - 5]);
    }
    assert forall|k: int| 0 <= k < 5 implies folds_to(#[trigger] text[j + k], r[k]) by {
        assert(text[j + k] == runas[k]);
        assert(ascii_lower(runas[k]) == ascii_lower("runas"@[k]));
    }
    assert(elevates_at(text, i, j));
}

/// A word of letters stands as a word of its own between blanks and signs of ASCII, and at the start
/// and end of a text.
pub proof fn law_words_end_at_other_characters(
    before: Seq<char>,
    word: Seq<char>,
    after: Seq<char>,
)
    requires
        word.len() > 0,
        forall|k: int| 0 <= k < word.len() ==> ('a' <= #[trigger] word[k] <= 'z' || 'A' <= word[k]
            <= 'Z'),
        before.len() > 0 ==> "\t !\"#$%&'()*+,-./:;<=>?@[\\]^`{|}~"@.contains(before.last()),
        after.len() > 0 ==> "\t !\"#$%&'()*+,-./:;<=>?@[\\]^`{|}~"@.contains(after[0]),
    ensures
        stands_alone(before + word + after, word),
{
    reveal_strlit("\t !\"#$%&'()*+,-./:;<=>?@[\\]^`{|}~");
    let text = before + word + after;
    let i = before.len() as int;
    let n = word.len() as int;
    assert(text.subrange(i, i + n) == word);
    assert(text[i] == word[0] && text[i + n - 1] == word[n - 1]);
    if i > 0 {
        assert(text[i - 1] == before.last());
    }
    if after.len() > 0 {
        assert(text[i + n] == after[0]);
    }
    assert(stands_alone_at(text, word, i));
}

} // verus!
