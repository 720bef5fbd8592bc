//! Code that a command hands to an interpreter, and the writes in that code.

use crate::pattern::{captures_iter, is_found, is_match, matches_of};
use crate::rules::{
    append_all, captured, captured_text, find_targets, law_no_match_no_target, law_rule_counts,
    make_rule, names_null_device, rule, rules_view, targets_in, Pick, Rule, WriteRule,
};
use crate::text::unquoted;
use vstd::prelude::*;

verus! {

/// A language that commands are given inline code in.
#[derive(Clone, Copy, Debug, PartialEq, Eq, Structural)]
pub enum Language {
    /// JavaScript, run by Node, Bun or Deno.
    JavaScript,
    /// Python.
    Python,
    /// Perl.
    Perl,
    /// Ruby.
    Ruby,
    /// PHP.
    Php,
}

/// `node -e "code"`, `bun -e "code"`, `deno --eval "code"` and the like.
pub const JS_CODE: &'static str =
    r#"\b(?:node|bun|deno)\s+(?:-[eE]\s+|--eval\s+)(?:"(.+?)"|'(.+?)')"#;

/// `deno eval "code"`.
pub const DENO_CODE: &'static str = r#"\bdeno\s+eval\s+(?:"(.+?)"|'(.+?)')"#;

/// `python -c "code"`.
pub const PYTHON_CODE: &'static str = r#"\bpython[23]?\s+(?:-[cC]\s+)(?:"(.+?)"|'(.+?)')"#;

/// `perl -e "code"`.
pub const PERL_CODE: &'static str = r#"\bperl\s+(?:-[eE]\s+)(?:"(.+?)"|'(.+?)')"#;

/// `ruby -e "code"`.
pub const RUBY_CODE: &'static str = r#"\bruby\s+(?:-[eE]\s+)(?:"(.+?)"|'(.+?)')"#;

/// `php -r "code"`.
pub const PHP_CODE: &'static str = r#"\bphp\s+(?:-[rR]\s+)(?:"(.+?)"|'(.+?)')"#;

/// `fs.writeFile("file"` and its kin.
pub const JS_WRITE: &'static str =
    r#"(?:writeFile|writeFileSync|appendFile|appendFileSync)\s*\(\s*["']([^"']+)["']"#;

/// `Bun.write("file"`.
pub const BUN_WRITE: &'static str = r#"Bun\.write\s*\(\s*["']([^"']+)["']"#;

/// `Deno.writeTextFile("file"`.
pub const DENO_WRITE: &'static str = r#"Deno\.write(?:TextFile|Sync)\s*\(\s*["']([^"']+)["']"#;

/// `require("fs").writeFileSync("file"` and its kin.
pub const REQUIRE_WRITE: &'static str =
    r#"require\s*\(\s*["']fs["']\s*\)\s*\.\s*(?:writeFile|writeFileSync|appendFile|appendFileSync)\s*\(\s*["']([^"']+)["']"#;

/// `open("file", "w"` or `open("file", "a"`.
pub const PYTHON_OPEN: &'static str = r#"\bopen\s*\(\s*["']([^"']+)["']\s*,\s*["'][wa]["']"#;

/// `Path("file").write_text` or `Path("file").write_bytes`.
pub const PYTHON_PATH: &'static str =
    r#"Path\s*\(\s*["']([^"']+)["']\s*\)\s*\.\s*write_(?:text|bytes)"#;

/// `open(FH, ">", "file"` or `open(FH, ">>", "file"`.
pub const PERL_OPEN: &'static str =
    r#"\bopen\s*\([^,]+,\s*["']>{1,2}["']\s*,\s*["']([^"']+)["']"#;

/// `File.write("file"`.
pub const RUBY_WRITE: &'static str = r#"File\.write\s*\(\s*["']([^"']+)["']"#;

/// `File.open("file", "w"` or `File.open("file", "a"`.
pub const RUBY_OPEN: &'static str = r#"File\.open\s*\(\s*["']([^"']+)["']\s*,\s*["'][wa]["']"#;

/// `IO.write("file"`.
pub const RUBY_IO: &'static str = r#"IO\.write\s*\(\s*["']([^"']+)["']"#;

/// `file_put_contents("file"`.
pub const PHP_PUT: &'static str = r#"\bfile_put_contents\s*\(\s*["']([^"']+)["']"#;

/// `fopen("file", "w"` or `fopen("file", "a"`.
pub const PHP_OPEN: &'static str = r#"\bfopen\s*\(\s*["']([^"']+)["']\s*,\s*["'][wa]["']"#;

/// The rules for the code of a language.
pub open spec fn language_rules(language: Language) -> Seq<Rule> {
    match language {
        Language::JavaScript => seq![
            rule(JS_WRITE@, Pick::Plain, true),
            rule(BUN_WRITE@, Pick::Plain, true),
            rule(DENO_WRITE@, Pick::Plain, true),
            rule(REQUIRE_WRITE@, Pick::Plain, true),
        ],
        Language::Python => seq![
            rule(PYTHON_OPEN@, Pick::Plain, true),
            rule(PYTHON_PATH@, Pick::Plain, true),
        ],
        Language::Perl => seq![rule(PERL_OPEN@, Pick::Plain, true)],
        Language::Ruby => seq![
            rule(RUBY_WRITE@, Pick::Plain, true),
            rule(RUBY_OPEN@, Pick::Plain, true),
            rule(RUBY_IO@, Pick::Plain, true),
        ],
        Language::Php => seq![
            rule(PHP_PUT@, Pick::Plain, true),
            rule(PHP_OPEN@, Pick::Plain, true),
        ],
    }
}

/// Makes the rules for the code of a language.
pub fn make_language_rules(language: Language) -> (r: Vec<WriteRule>)
    ensures
        rules_view(r@) == language_rules(language),
{
    let r: Vec<WriteRule> = match language {
        Language::JavaScript => vec![
            make_rule(JS_WRITE, Pick::Plain, true),
            make_rule(BUN_WRITE, Pick::Plain, true),
            make_rule(DENO_WRITE, Pick::Plain, true),
            make_rule(REQUIRE_WRITE, Pick::Plain, true),
        ],
        Language::Python => vec![
            make_rule(PYTHON_OPEN, Pick::Plain, true),
            make_rule(PYTHON_PATH, Pick::Plain, true),
        ],
        Language::Perl => vec![make_rule(PERL_OPEN, Pick::Plain, true)],
        Language::Ruby => vec![
            make_rule(RUBY_WRITE, Pick::Plain, true),
            make_rule(RUBY_OPEN, Pick::Plain, true),
            make_rule(RUBY_IO, Pick::Plain, true),
        ],
        Language::Php => vec![
            make_rule(PHP_PUT, Pick::Plain, true),
            make_rule(PHP_OPEN, Pick::Plain, true),
        ],
    };
    assert(rules_view(r@) == language_rules(language));
    r
}

/// The code in a match: what stands between double quotes or between single quotes.
pub open spec fn code_in(groups: Seq<Option<Seq<char>>>) -> Seq<char> {
    match captured(groups, 1) {
        Some(code) => code,
        None => match captured(groups, 2) {
            Some(code) => code,
            None => Seq::empty(),
        },
    }
}

/// Reads the code out of a match.
pub fn read_code(groups: &Vec<Option<String>>) -> (r: String)
    ensures
        r@ == code_in(groups.deep_view()),
{
    match captured_text(groups, 1) {
        Some(code) => code,
        None => match captured_text(groups, 2) {
            Some(code) => code,
            None => String::new(),
        },
    }
}

/// The write targets in the code of the first of the matches.
pub open spec fn targets_of_code(matches: Seq<Seq<Option<Seq<char>>>>, language: Language) -> Seq<
    Seq<char>,
> {
    if matches.len() == 0 {
        Seq::empty()
    } else {
        targets_in(code_in(matches[0]), language_rules(language))
    }
}

/// The write targets in the inline code that `pattern` finds first in `text`.
pub open spec fn code_targets(text: Seq<char>, pattern: Seq<char>, language: Language) -> Seq<
    Seq<char>,
> {
    targets_of_code(matches_of(pattern, text), language)
}

/// The write targets in the inline code that `text` hands to interpreters.
pub open spec fn interpreter_targets(text: Seq<char>) -> Seq<Seq<char>> {
    code_targets(text, JS_CODE@, Language::JavaScript) + code_targets(
        text,
        DENO_CODE@,
        Language::JavaScript,
    ) + code_targets(text, PYTHON_CODE@, Language::Python) + code_targets(
        text,
        PERL_CODE@,
        Language::Perl,
    ) + code_targets(text, RUBY_CODE@, Language::Ruby) + code_targets(
        text,
        PHP_CODE@,
        Language::Php,
    )
}

/// Finds the write targets in code of the given language.
pub fn find_code_targets(code: &str, language: Language) -> (r: Vec<String>)
    ensures
        r.deep_view() == targets_in(code@, language_rules(language)),
{
    find_targets(code, &make_language_rules(language))
}

/// Finds the write targets in the code of the first of the matches.
pub fn find_targets_of_code(matches: &Vec<Vec<Option<String>>>, language: Language) -> (r: Vec<
    String,
>)
    ensures
        r.deep_view() == targets_of_code(matches.deep_view(), language),
{
    if matches.len() == 0 {
        let none: Vec<String> = Vec::new();
        assert(none.deep_view() == Seq::<Seq<char>>::empty());
        none
    } else {
        assert(matches.deep_view()[0] == matches@[0].deep_view());
        let code = read_code(&matches[0]);
        find_code_targets(code.as_str(), language)
    }
}

fn add_code_targets(list: &mut Vec<String>, text: &str, pattern: &str, language: Language)
    ensures
        final(list).deep_view() == old(list).deep_view() + code_targets(
            text@,
            pattern@,
            language,
        ),
{
    let found = find_targets_of_code(&captures_iter(pattern, text), language);
    append_all(list, &found);
}

/// Finds the write targets in the inline code that `text` hands to interpreters.
pub fn find_interpreter_targets(text: &str) -> (r: Vec<String>)
    ensures
        r.deep_view() == interpreter_targets(text@),
{
    let mut r: Vec<String> = Vec::new();
    add_code_targets(&mut r, text, JS_CODE, Language::JavaScript);
    assert(r.deep_view() == code_targets(text@, JS_CODE@, Language::JavaScript));
    add_code_targets(&mut r, text, DENO_CODE, Language::JavaScript);
    add_code_targets(&mut r, text, PYTHON_CODE, Language::Python);
    add_code_targets(&mut r, text, PERL_CODE, Language::Perl);
    add_code_targets(&mut r, text, RUBY_CODE, Language::Ruby);
    add_code_targets(&mut r, text, PHP_CODE, Language::Php);
    r
}

/// Inline code for Node, Bun or Deno.
pub const JS_INLINE: &'static str =
    r#"\b(node|bun|deno)\s+(?:-[eE]|--eval)(?:[\s=]*["']|[\s=]+[^\s=])"#;

/// Inline code for `deno eval`.
pub const DENO_INLINE: &'static str = r"\bdeno\s+eval\s+\S";

/// Inline code for Python.
pub const PYTHON_INLINE: &'static str =
    r#"\bpython[23]?\s+-[cC](?:[\s=]*["']|[\s=]+[^\s=])"#;

/// Inline code for Perl.
pub const PERL_INLINE: &'static str =
    r#"\bperl\s+-[eE](?:[\s=]*["']|[\s=]+[^\s=])"#;

/// Inline code for Ruby.
pub const RUBY_INLINE: &'static str =
    r#"\bruby\s+-[eE](?:[\s=]*["']|[\s=]+[^\s=])"#;

/// Inline code for PHP.
pub const PHP_INLINE: &'static str =
    r#"\bphp\s+-[rR](?:[\s=]*["']|[\s=]+[^\s=])"#;

/// Whether `text` hands inline code to an interpreter.
pub open spec fn has_inline_code(text: Seq<char>) -> bool {
    ||| is_found(JS_INLINE@, text)
    ||| is_found(DENO_INLINE@, text)
    ||| is_found(PYTHON_INLINE@, text)
    ||| is_found(PERL_INLINE@, text)
    ||| is_found(RUBY_INLINE@, text)
    ||| is_found(PHP_INLINE@, text)
}

/// Tells whether `text` hands inline code to an interpreter.
pub fn find_inline_code(text: &str) -> (r: bool)
    ensures
        r == has_inline_code(text@),
{
    is_match(JS_INLINE, text) || is_match(DENO_INLINE, text) || is_match(PYTHON_INLINE, text)
        || is_match(PERL_INLINE, text) || is_match(RUBY_INLINE, text) || is_match(PHP_INLINE, text)
}

/// Text hands code to an interpreter exactly when one of these patterns has a match in it.
pub proof fn law_inline_code(text: Seq<char>)
    ensures
        has_inline_code(text) <==> ({
            ||| is_found(r#"\b(node|bun|deno)\s+(?:-[eE]|--eval)(?:[\s=]*["']|[\s=]+[^\s=])"#@, text)
            ||| is_found(r"\bdeno\s+eval\s+\S"@, text)
            ||| is_found(r#"\bpython[23]?\s+-[cC](?:[\s=]*["']|[\s=]+[^\s=])"#@, text)
            ||| is_found(r#"\bperl\s+-[eE](?:[\s=]*["']|[\s=]+[^\s=])"#@, text)
            ||| is_found(r#"\bruby\s+-[eE](?:[\s=]*["']|[\s=]+[^\s=])"#@, text)
            ||| is_found(r#"\bphp\s+-[rR](?:[\s=]*["']|[\s=]+[^\s=])"#@, text)
        }),
{
}

/// Code writes to the file in group 1 of every match of one of these patterns, by its language.
pub proof fn law_code_writes(
    code: Seq<char>,
    language: Language,
    pattern: Seq<char>,
    k: int,
    file: Seq<char>,
)
    requires
        ({
            ||| language == Language::JavaScript && (pattern == r#"(?:writeFile|writeFileSync|appendFile|appendFileSync)\s*\(\s*["']([^"']+)["']"#@ || pattern == r#"Bun\.write\s*\(\s*["']([^"']+)["']"#@ || pattern == r#"Deno\.write(?:TextFile|Sync)\s*\(\s*["']([^"']+)["']"#@ || pattern == r#"require\s*\(\s*["']fs["']\s*\)\s*\.\s*(?:writeFile|writeFileSync|appendFile|appendFileSync)\s*\(\s*["']([^"']+)["']"#@)
            ||| language == Language::Python && (pattern == r#"\bopen\s*\(\s*["']([^"']+)["']\s*,\s*["'][wa]["']"#@ || pattern == r#"Path\s*\(\s*["']([^"']+)["']\s*\)\s*\.\s*write_(?:text|bytes)"#@)
            ||| language == Language::Perl && (pattern == r#"\bopen\s*\([^,]+,\s*["']>{1,2}["']\s*,\s*["']([^"']+)["']"#@)
            ||| language == Language::Ruby && (pattern == r#"File\.write\s*\(\s*["']([^"']+)["']"#@ || pattern == r#"File\.open\s*\(\s*["']([^"']+)["']\s*,\s*["'][wa]["']"#@ || pattern == r#"IO\.write\s*\(\s*["']([^"']+)["']"#@)
            ||| language == Language::Php && (pattern == r#"\bfile_put_contents\s*\(\s*["']([^"']+)["']"#@ || pattern == r#"\bfopen\s*\(\s*["']([^"']+)["']\s*,\s*["'][wa]["']"#@)
        }),
        0 <= k < matches_of(pattern, code).len(),
        captured(matches_of(pattern, code)[k], 1) == Some(file),
        !names_null_device(unquoted(file)),
    ensures
        targets_in(code, language_rules(language)).contains(file),
{
    let rules = language_rules(language);
    if language is JavaScript {
        assert(rules[0] == rule(r#"(?:writeFile|writeFileSync|appendFile|appendFileSync)\s*\(\s*["']([^"']+)["']"#@, Pick::Plain, true));
    }
    if language is JavaScript {
        assert(rules[1] == rule(r#"Bun\.write\s*\(\s*["']([^"']+)["']"#@, Pick::Plain, true));
    }
    if language is JavaScript {
        assert(rules[2] == rule(r#"Deno\.write(?:TextFile|Sync)\s*\(\s*["']([^"']+)["']"#@, Pick::Plain, true));
    }
    if language is JavaScript {
        assert(rules[3] == rule(r#"require\s*\(\s*["']fs["']\s*\)\s*\.\s*(?:writeFile|writeFileSync|appendFile|appendFileSync)\s*\(\s*["']([^"']+)["']"#@, Pick::Plain, true));
    }
    if language is Python {
        assert(rules[0] == rule(r#"\bopen\s*\(\s*["']([^"']+)["']\s*,\s*["'][wa]["']"#@, Pick::Plain, true));
    }
    if language is Python {
        assert(rules[1] == rule(r#"Path\s*\(\s*["']([^"']+)["']\s*\)\s*\.\s*write_(?:text|bytes)"#@, Pick::Plain, true));
    }
    if language is Perl {
        assert(rules[0] == rule(r#"\bopen\s*\([^,]+,\s*["']>{1,2}["']\s*,\s*["']([^"']+)["']"#@, Pick::Plain, true));
    }
    if language is Ruby {
        assert(rules[0] == rule(r#"File\.write\s*\(\s*["']([^"']+)["']"#@, Pick::Plain, true));
    }
    if language is Ruby {
        assert(rules[1] == rule(r#"File\.open\s*\(\s*["']([^"']+)["']\s*,\s*["'][wa]["']"#@, Pick::Plain, true));
    }
    if language is Ruby {
        assert(rules[2] == rule(r#"IO\.write\s*\(\s*["']([^"']+)["']"#@, Pick::Plain, true));
    }
    if language is Php {
        assert(rules[0] == rule(r#"\bfile_put_contents\s*\(\s*["']([^"']+)["']"#@, Pick::Plain, true));
    }
    if language is Php {
        assert(rules[1] == rule(r#"\bfopen\s*\(\s*["']([^"']+)["']\s*,\s*["'][wa]["']"#@, Pick::Plain, true));
    }
    let r = rule(pattern, Pick::Plain, true);
    assert(rules.contains(r));
    law_rule_counts(code, rules, r, k, file);
}

/// Code in which none of the patterns of its language has a match writes nothing.
pub proof fn law_other_code_writes_nothing(code: Seq<char>, language: Language)
    requires
        language == Language::JavaScript ==> !is_found(r#"(?:writeFile|writeFileSync|appendFile|appendFileSync)\s*\(\s*["']([^"']+)["']"#@, code) && !is_found(r#"Bun\.write\s*\(\s*["']([^"']+)["']"#@, code) && !is_found(r#"Deno\.write(?:TextFile|Sync)\s*\(\s*["']([^"']+)["']"#@, code) && !is_found(r#"require\s*\(\s*["']fs["']\s*\)\s*\.\s*(?:writeFile|writeFileSync|appendFile|appendFileSync)\s*\(\s*["']([^"']+)["']"#@, code),
        language == Language::Python ==> !is_found(r#"\bopen\s*\(\s*["']([^"']+)["']\s*,\s*["'][wa]["']"#@, code) && !is_found(r#"Path\s*\(\s*["']([^"']+)["']\s*\)\s*\.\s*write_(?:text|bytes)"#@, code),
        language == Language::Perl ==> !is_found(r#"\bopen\s*\([^,]+,\s*["']>{1,2}["']\s*,\s*["']([^"']+)["']"#@, code),
        language == Language::Ruby ==> !is_found(r#"File\.write\s*\(\s*["']([^"']+)["']"#@, code) && !is_found(r#"File\.open\s*\(\s*["']([^"']+)["']\s*,\s*["'][wa]["']"#@, code) && !is_found(r#"IO\.write\s*\(\s*["']([^"']+)["']"#@, code),
        language == Language::Php ==> !is_found(r#"\bfile_put_contents\s*\(\s*["']([^"']+)["']"#@, code) && !is_found(r#"\bfopen\s*\(\s*["']([^"']+)["']\s*,\s*["'][wa]["']"#@, code),
    ensures
        targets_in(code, language_rules(language)).len() == 0,
{
    let rules = language_rules(language);
    assert forall|i: int| 0 <= i < rules.len() implies matches_of(
        (#[trigger] rules[i]).pattern,
        code,
    ).len() == 0 by {
        assert(!is_found(rules[i].pattern, code));
    }
    law_no_match_no_target(code, rules);
}

/// The code that a command hands to an interpreter is what the first match of one of these patterns
/// has between double or between single quotes, and what it writes to is found.
pub proof fn law_interpreter_writes(
    text: Seq<char>,
    language: Language,
    pattern: Seq<char>,
    code: Seq<char>,
    file: Seq<char>,
)
    requires
        ({
            ||| language == Language::JavaScript && pattern == r#"\b(?:node|bun|deno)\s+(?:-[eE]\s+|--eval\s+)(?:"(.+?)"|'(.+?)')"#@
            ||| language == Language::JavaScript && pattern == r#"\bdeno\s+eval\s+(?:"(.+?)"|'(.+?)')"#@
            ||| language == Language::Python && pattern == r#"\bpython[23]?\s+(?:-[cC]\s+)(?:"(.+?)"|'(.+?)')"#@
            ||| language == Language::Perl && pattern == r#"\bperl\s+(?:-[eE]\s+)(?:"(.+?)"|'(.+?)')"#@
            ||| language == Language::Ruby && pattern == r#"\bruby\s+(?:-[eE]\s+)(?:"(.+?)"|'(.+?)')"#@
            ||| language == Language::Php && pattern == r#"\bphp\s+(?:-[rR]\s+)(?:"(.+?)"|'(.+?)')"#@
        }),
        matches_of(pattern, text).len() > 0,
        captured(matches_of(pattern, text)[0], 1) == Some(code) || (captured(
            matches_of(pattern, text)[0],
            1,
        ) is None && captured(matches_of(pattern, text)[0], 2) == Some(code)),
        targets_in(code, language_rules(language)).contains(file),
    ensures
        interpreter_targets(text).contains(file),
{
    let a = code_targets(text, JS_CODE@, Language::JavaScript);
    let b = code_targets(text, DENO_CODE@, Language::JavaScript);
    let c = code_targets(text, PYTHON_CODE@, Language::Python);
    let d = code_targets(text, PERL_CODE@, Language::Perl);
    let e = code_targets(text, RUBY_CODE@, Language::Ruby);
    let f = code_targets(text, PHP_CODE@, Language::Php);
    let found = code_targets(text, pattern, language);
    assert(found == targets_in(code, language_rules(language)));
    lemma_in_one(a, b, file);
    lemma_in_one(a + b, c, file);
    lemma_in_one(a + b + c, d, file);
    lemma_in_one(a + b + c + d, e, file);
    lemma_in_one(a + b + c + d + e, f, file);
}

proof fn lemma_in_one(a: Seq<Seq<char>>, b: Seq<Seq<char>>, x: Seq<char>)
    ensures
        a.contains(x) || b.contains(x) ==> (a + b).contains(x),
{
    let all = a + b;
    if a.contains(x) {
        let i = choose|i: int| 0 <= i < a.len() && a[i] == x;
        assert(all[i] == x);
    }
    if b.contains(x) {
        let i = choose|i: int| 0 <= i < b.len() && b[i] == x;
        assert(all[a.len() + i] == x);
    }
}

/// A command in which none of these patterns has a match hands over no code that writes.
pub proof fn law_no_code_writes_nothing(text: Seq<char>)
    requires
        !is_found(r#"\b(?:node|bun|deno)\s+(?:-[eE]\s+|--eval\s+)(?:"(.+?)"|'(.+?)')"#@, text),
        !is_found(r#"\bdeno\s+eval\s+(?:"(.+?)"|'(.+?)')"#@, text),
        !is_found(r#"\bpython[23]?\s+(?:-[cC]\s+)(?:"(.+?)"|'(.+?)')"#@, text),
        !is_found(r#"\bperl\s+(?:-[eE]\s+)(?:"(.+?)"|'(.+?)')"#@, text),
        !is_found(r#"\bruby\s+(?:-[eE]\s+)(?:"(.+?)"|'(.+?)')"#@, text),
        !is_found(r#"\bphp\s+(?:-[rR]\s+)(?:"(.+?)"|'(.+?)')"#@, text),
    ensures
        interpreter_targets(text).len() == 0,
{
}

} // verus!
