//! Regular expressions: what a search finds, and the calls into the `regex` crate that search.

use crate::env::EnvMap;
use crate::expand::{filled, value_of, Form, BARE_VARIABLE, BRACED_VARIABLE, PERCENT_VARIABLE,
    POWERSHELL_VARIABLE};
use crate::rules::word_pattern;
use crate::text::{ascii_lower, concat, is_white_space, stands_at};
use vstd::prelude::*;

verus! {

/// What `regex::Regex::captures_iter` yields for a pattern on a text: for each of the successive
/// matches, for each group of the pattern (group 0 is the whole match), the positions of the
/// characters between which the group matched, if it took part. There are no matches if
/// `regex::Regex::new` rejects the pattern.
pub uninterp spec fn regex_spans(pattern: Seq<char>, text: Seq<char>) -> Seq<
    Seq<Option<(int, int)>>,
>;

/// The text of a group.
pub open spec fn group_text(text: Seq<char>, span: Option<(int, int)>) -> Option<Seq<char>> {
    match span {
        Some((from, to)) => Some(text.subrange(from, to)),
        None => None,
    }
}

/// The texts of the groups of one match.
pub open spec fn group_texts(text: Seq<char>, spans: Seq<Option<(int, int)>>) -> Seq<
    Option<Seq<char>>,
> {
    spans.map_values(|span: Option<(int, int)>| group_text(text, span))
}

/// The texts of the groups of every match of `pattern` in `text`.
pub open spec fn matches_of(pattern: Seq<char>, text: Seq<char>) -> Seq<Seq<Option<Seq<char>>>> {
    regex_spans(pattern, text).map_values(
        |spans: Seq<Option<(int, int)>>| group_texts(text, spans),
    )
}

/// Whether `pattern` matches somewhere in `text`.
pub open spec fn is_found(pattern: Seq<char>, text: Seq<char>) -> bool {
    regex_spans(pattern, text).len() > 0
}

/// What precedes and follows a word in a pattern: a word boundary.
pub const WORD_START: &'static str = r"\b";

/// The longest word for which the meaning of word boundaries is claimed: far shorter than a pattern
/// that would be rejected for its size.
pub const LONGEST_WORD: usize = 100;

/// Whether `c` is a word character, which `\w` matches. White space never is one, and of the ASCII
/// characters letters, digits and `_` are.
pub open spec fn is_word_character(c: char) -> bool {
    if c <= '\u{7f}' {
        'a' <= c <= 'z' || 'A' <= c <= 'Z' || '0' <= c <= '9' || c == '_'
    } else {
        !is_white_space(c) && is_found(r"\w"@, seq![c])
    }
}

/// Whether a word begins or ends at position `i`: of the characters before and after it exactly one
/// is there and is a word character.
pub open spec fn is_word_boundary(text: Seq<char>, i: int) -> bool {
    (0 < i <= text.len() && is_word_character(text[i - 1])) != (0 <= i < text.len()
        && is_word_character(text[i]))
}

/// Whether `word` stands in `text` at position `i` between word boundaries.
pub open spec fn stands_alone_at(text: Seq<char>, word: Seq<char>, i: int) -> bool {
    stands_at(text, word, i) && is_word_boundary(text, i) && is_word_boundary(
        text,
        i + word.len(),
    )
}

/// Whether `word` stands in `text` between word boundaries.
pub open spec fn stands_alone(text: Seq<char>, word: Seq<char>) -> bool {
    exists|i: int| stands_alone_at(text, word, i)
}

/// The PowerShell request for elevation.
pub const ELEVATION: &'static str = r"(?i)-Verb\s+RunAs";

/// Whether `c` is the lower-case ASCII character `x` or differs from it only in case. The long `s`
/// is a form of `s`.
pub open spec fn folds_to(c: char, x: char) -> bool {
    ascii_lower(c) == x || (x == 's' && c == '\u{17f}')
}

/// Whether `word`, which is in lower case, stands in `text` at position `i` in any case.
pub open spec fn stands_in_any_case_at(text: Seq<char>, word: Seq<char>, i: int) -> bool {
    &&& 0 <= i
    &&& i + word.len() <= text.len()
    &&& forall|k: int| 0 <= k < word.len() ==> folds_to(#[trigger] text[i + k], word[k])
}

/// Whether a request for elevation stands in `text` at position `i`: `-verb`, white space up to
/// position `j`, and `runas`.
pub open spec fn elevates_at(text: Seq<char>, i: int, j: int) -> bool {
    &&& stands_in_any_case_at(text, seq!['-', 'v', 'e', 'r', 'b'], i)
    &&& i + 5 < j
    &&& forall|k: int| i + 5 <= k < j ==> is_white_space(#[trigger] text[k])
    &&& stands_in_any_case_at(text, seq!['r', 'u', 'n', 'a', 's'], j)
}

/// Whether `text` asks for elevation.
pub open spec fn elevates(text: Seq<char>) -> bool {
    exists|i: int, j: int| elevates_at(text, i, j)
}

/// The characters that `regex::escape` puts a backslash before.
pub open spec fn is_meta_character(c: char) -> bool {
    ||| c == '\\'
    ||| c == '.'
    ||| c == '+'
    ||| c == '*'
    ||| c == '?'
    ||| c == '('
    ||| c == ')'
    ||| c == '|'
    ||| c == '['
    ||| c == ']'
    ||| c == '{'
    ||| c == '}'
    ||| c == '^'
    ||| c == '$'
    ||| c == '#'
    ||| c == '&'
    ||| c == '-'
    ||| c == '~'
}

/// `word` with a backslash before each meta character.
pub open spec fn escaped(word: Seq<char>) -> Seq<char>
    decreases word.len(),
{
    if word.len() == 0 {
        word
    } else if is_meta_character(word.last()) {
        escaped(word.drop_last()).push('\\').push(word.last())
    } else {
        escaped(word.drop_last()).push(word.last())
    }
}

/// Calls `regex::Regex::captures_iter` on a freshly compiled pattern and hands out the texts of
/// all groups of all matches. Trusted to yield the texts at the positions that [`regex_spans`]
/// names, and no match for a pattern that does not compile.
#[verifier::external_body]
pub(crate) fn captures_iter(pattern: &str, text: &str) -> (r: Vec<Vec<Option<String>>>)
    ensures
        r.deep_view() == matches_of(pattern@, text@),
{
    match regex::Regex::new(pattern) {
        Ok(re) => re.captures_iter(text).map(
            |c| c.iter().map(|g| g.map(|m| m.as_str().to_string())).collect(),
        ).collect(),
        Err(_) => Vec::new(),
    }
}

/// Calls `regex::Regex::is_match` on a freshly compiled pattern. Trusted to tell whether
/// `captures_iter` finds a match; to find a word between two `\b` exactly where the word stands
/// between word boundaries, and [`ELEVATION`] exactly where the text asks for elevation.
#[verifier::external_body]
pub(crate) fn is_match(pattern: &str, text: &str) -> (r: bool)
    ensures
        r == (regex_spans(pattern@, text@).len() > 0),
        forall|word: Seq<char>|
            word.len() <= LONGEST_WORD && pattern@ == #[trigger] word_pattern(
                WORD_START@,
                word,
                WORD_START@,
            ) ==> r == stands_alone(text@, word),
        pattern@ == ELEVATION@ ==> r == elevates(text@),
{
    match regex::Regex::new(pattern) {
        Ok(re) => re.is_match(text),
        Err(_) => false,
    }
}

/// The replacement for a mention of the variable `name` that is followed by `tail`.
pub fn replacement(env: &EnvMap, ignore_case: bool, name: &str, tail: &str) -> (r: String)
    ensures
        r@ == value_of(env.pairs(), name@, ignore_case) + tail@,
{
    match env.get(name, ignore_case) {
        Some(v) => concat(v.as_str(), tail),
        None => {
            let r = tail.to_owned();
            assert(r@ == Seq::<char>::empty() + tail@);
            r
        },
    }
}

/// Calls `regex::Regex::replace_all` on a freshly compiled pattern, with [`replacement`] of groups
/// 1 and 2 as the replacement. Trusted, for the four patterns that find mentions of variables, to
/// put the value of the variable in the place of each mention and to copy the rest of the text.
#[verifier::external_body]
pub(crate) fn replace_all(pattern: &str, text: &str, env: &EnvMap, ignore_case: bool) -> (r: String)
    ensures
        pattern@ == POWERSHELL_VARIABLE@ ==> r@ == filled(
            text@,
            Form::PowerShell,
            env.pairs(),
            ignore_case,
        ),
        pattern@ == BRACED_VARIABLE@ ==> r@ == filled(
            text@,
            Form::Braced,
            env.pairs(),
            ignore_case,
        ),
        pattern@ == BARE_VARIABLE@ ==> r@ == filled(text@, Form::Bare, env.pairs(), ignore_case),
        pattern@ == PERCENT_VARIABLE@ ==> r@ == filled(
            text@,
            Form::Percent,
            env.pairs(),
            ignore_case,
        ),
{
    match regex::Regex::new(pattern) {
        Ok(re) => re.replace_all(
            text,
            |c: &regex::Captures| replacement(
                env,
                ignore_case,
                c.get(1).map_or("", |m| m.as_str()),
                c.get(2).map_or("", |m| m.as_str()),
            ),
        ).to_string(),
        Err(_) => text.to_string(),
    }
}

/// Calls `regex::escape`. Trusted to put a backslash before each meta character.
#[verifier::external_body]
pub(crate) fn escape(word: &str) -> (r: String)
    ensures
        r@ == escaped(word@),
{
    regex::escape(word)
}

/// The patterns whose meaning is claimed, as they are given to the search.
pub proof fn law_patterns_with_meaning()
    ensures
        WORD_START@ == r"\b"@,
        ELEVATION@ == r"(?i)-Verb\s+RunAs"@,
{
}

} // verus!
