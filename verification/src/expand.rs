//! Expansion of environment variables and `~` in commands.

use crate::env::{lookup, Pair};
use crate::host::{home_directory, variable, Host, Platform};
use crate::pattern::replace_all;
use crate::text::{has_prefix, is_white_space, law_replaced, replace_char, replaced};
use vstd::prelude::*;

verus! {

/// A mention of a variable in PowerShell: `$env:NAME`.
pub const POWERSHELL_VARIABLE: &'static str = r"\$env:([A-Za-z_][A-Za-z0-9_]*)";

/// A mention of a variable in braces: `${NAME}`.
pub const BRACED_VARIABLE: &'static str = r"\$\{([A-Za-z_][A-Za-z0-9_]*)\}";

/// A bare mention of a variable, `$NAME`, and the character that ends it.
pub const BARE_VARIABLE: &'static str = r"\$([A-Za-z_][A-Za-z0-9_]*)([\s/\\;&|>]|$)";

/// A mention of a variable in cmd.exe: `%NAME%`.
pub const PERCENT_VARIABLE: &'static str = r"%([A-Za-z_][A-Za-z0-9_]*)%";

/// The forms in which a command mentions a variable.
#[derive(Clone, Copy, Debug, PartialEq, Eq, Structural)]
pub enum Form {
    /// `$env:NAME`.
    PowerShell,
    /// `${NAME}`.
    Braced,
    /// `$NAME` before white space, before one of `/ \ ; & | >`, or at the end.
    Bare,
    /// `%NAME%`.
    Percent,
}

impl Form {
    /// What stands before the name.
    pub open spec fn opening(self) -> Seq<char> {
        match self {
            Form::PowerShell => seq!['$', 'e', 'n', 'v', ':'],
            Form::Braced => seq!['$', '{'],
            Form::Bare => seq!['$'],
            Form::Percent => seq!['%'],
        }
    }

    /// What stands after the name.
    pub open spec fn closing(self) -> Seq<char> {
        match self {
            Form::PowerShell => Seq::empty(),
            Form::Braced => seq!['}'],
            Form::Bare => Seq::empty(),
            Form::Percent => seq!['%'],
        }
    }

    /// Whether a mention can be over where `rest` follows its name.
    pub open spec fn closes(self, rest: Seq<char>) -> bool {
        if self is Bare {
            rest.len() > 0 ==> ends_bare_mention(rest[0])
        } else {
            has_prefix(rest, self.closing())
        }
    }
}

/// Whether a bare mention of a variable can be over before `c`.
pub open spec fn ends_bare_mention(c: char) -> bool {
    is_white_space(c) || c == '/' || c == '\\' || c == ';' || c == '&' || c == '|' || c == '>'
}

/// Whether the name of a variable can begin with `c`.
pub open spec fn begins_name(c: char) -> bool {
    'a' <= c <= 'z' || 'A' <= c <= 'Z' || c == '_'
}

/// Whether `c` can stand in the name of a variable.
pub open spec fn is_name_character(c: char) -> bool {
    begins_name(c) || '0' <= c <= '9'
}

/// How many characters at the start of `s` can stand in a name.
pub open spec fn name_len(s: Seq<char>) -> nat
    decreases s.len(),
{
    if s.len() > 0 && is_name_character(s[0]) {
        1 + name_len(s.skip(1))
    } else {
        0
    }
}

/// The name of the variable that is mentioned at the start of `s`, if one is.
pub open spec fn name_mentioned(s: Seq<char>, form: Form) -> Option<Seq<char>> {
    let k = form.opening().len() as int;
    let n = name_len(s.skip(k));
    if has_prefix(s, form.opening()) && k < s.len() && begins_name(s[k]) && form.closes(
        s.skip(k + n),
    ) {
        Some(s.subrange(k, k + n))
    } else {
        None
    }
}

/// The value of a variable; empty if it is not set.
pub open spec fn value_of(env: Seq<Pair>, name: Seq<char>, ignore_case: bool) -> Seq<char> {
    match lookup(env, name, ignore_case) {
        Some(v) => v,
        None => Seq::empty(),
    }
}

/// How many characters the mention of a variable with the given name takes.
pub open spec fn mention_len(name: Seq<char>, form: Form) -> int {
    (form.opening().len() + name.len() + form.closing().len()) as int
}

/// `text` with each mention of a variable replaced by the value of the variable.
pub open spec fn filled(text: Seq<char>, form: Form, env: Seq<Pair>, ignore_case: bool) -> Seq<char>
    decreases text.len(),
    via filled_ends
{
    if text.len() == 0 {
        text
    } else {
        match name_mentioned(text, form) {
            Some(name) => value_of(env, name, ignore_case) + filled(
                text.skip(mention_len(name, form)),
                form,
                env,
                ignore_case,
            ),
            None => seq![text[0]] + filled(text.skip(1), form, env, ignore_case),
        }
    }
}

#[via_fn]
proof fn filled_ends(text: Seq<char>, form: Form, env: Seq<Pair>, ignore_case: bool) {
    if let Some(name) = name_mentioned(text, form) {
        lemma_mention_fits(text, form);
    }
}

proof fn lemma_name_fits(s: Seq<char>)
    ensures
        name_len(s) <= s.len(),
    decreases s.len(),
{
    if s.len() > 0 && is_name_character(s[0]) {
        lemma_name_fits(s.skip(1));
    }
}

proof fn lemma_mention_fits(s: Seq<char>, form: Form)
    ensures
        name_mentioned(s, form) matches Some(name) ==> 0 < mention_len(name, form) <= s.len(),
{
    let k = form.opening().len() as int;
    if has_prefix(s, form.opening()) {
        lemma_name_fits(s.skip(k));
    }
}

/// `text` with `$env:NAME`, `${NAME}`, `$NAME` and `%NAME%` replaced by the values of the
/// variables, in this order.
pub open spec fn with_variables(text: Seq<char>, env: Seq<Pair>, platform: Platform) -> Seq<char> {
    let a = filled(text, Form::PowerShell, env, platform is Windows);
    let b = filled(a, Form::Braced, env, platform is Windows);
    let c = filled(b, Form::Bare, env, platform is Windows);
    filled(c, Form::Percent, env, platform is Windows)
}

/// `text` with every `~` replaced by the home directory, if that is known.
pub open spec fn with_home(text: Seq<char>, home: Option<Seq<char>>) -> Seq<char> {
    match home {
        Some(h) => replaced(text, '~', h),
        None => text,
    }
}

/// `text` with its variables and then its `~` expanded.
pub open spec fn expanded(text: Seq<char>, env: Seq<Pair>, platform: Platform) -> Seq<char> {
    with_home(with_variables(text, env, platform), home_directory(env, platform))
}

/// Replaces every `~` by the home directory, if that is known.
pub fn expand_home(text: &str, home: &Option<String>) -> (r: String)
    ensures
        r@ == with_home(
            text@,
            match *home {
                Some(h) => Some(h@),
                None => None,
            },
        ),
{
    match home {
        Some(h) => replace_char(text, '~', h.as_str()),
        None => text.to_owned(),
    }
}

/// Expands environment variables and `~` in a command.
///
/// A variable that is not set has the empty value. A bare `$NAME` is expanded where white space,
/// one of `/ \ ; & | >`, or the end of the text follows it.
pub fn expand_env_vars(command: &str, host: &Host) -> (r: String)
    ensures
        r@ == expanded(command@, host.env.pairs(), host.platform),
{
    let fold = host.platform == Platform::Windows;
    let a = replace_all(POWERSHELL_VARIABLE, command, &host.env, fold);
    let b = replace_all(BRACED_VARIABLE, a.as_str(), &host.env, fold);
    let c = replace_all(BARE_VARIABLE, b.as_str(), &host.env, fold);
    let d = replace_all(PERCENT_VARIABLE, c.as_str(), &host.env, fold);
    expand_home(d.as_str(), &host.home())
}

/// Whether a variable is mentioned anywhere in `text`.
pub open spec fn mentions_variable(text: Seq<char>, form: Form) -> bool {
    exists|i: int| 0 <= i < text.len() && name_mentioned(#[trigger] text.skip(i), form) is Some
}

/// Text without variables and without `~` is its own expansion.
pub proof fn law_plain_text_stays(text: Seq<char>, env: Seq<Pair>, platform: Platform)
    requires
        forall|form: Form| !mentions_variable(text, form),
        !text.contains('~'),
    ensures
        expanded(text, env, platform) == text,
{
    lemma_nothing_filled(text, Form::PowerShell, env, platform is Windows);
    lemma_nothing_filled(text, Form::Braced, env, platform is Windows);
    lemma_nothing_filled(text, Form::Bare, env, platform is Windows);
    lemma_nothing_filled(text, Form::Percent, env, platform is Windows);
    if let Some(h) = home_directory(env, platform) {
        lemma_nothing_replaced(text, '~', h);
    }
}

proof fn lemma_nothing_filled(text: Seq<char>, form: Form, env: Seq<Pair>, ignore_case: bool)
    requires
        !mentions_variable(text, form),
    ensures
        filled(text, form, env, ignore_case) == text,
    decreases text.len(),
{
    if text.len() > 0 {
        assert(text.skip(0) == text);
        let rest = text.skip(1);
        assert forall|i: int| 0 <= i < rest.len() implies name_mentioned(
            #[trigger] rest.skip(i),
            form,
        ) is None by {
            assert(rest.skip(i) == text.skip(i + 1));
        }
        lemma_nothing_filled(rest, form, env, ignore_case);
        assert(seq![text[0]] + rest == text);
    }
}

proof fn lemma_nothing_replaced(text: Seq<char>, c: char, with: Seq<char>)
    requires
        !text.contains(c),
    ensures
        replaced(text, c, with) == text,
    decreases text.len(),
{
    if text.len() > 0 {
        let front = text.drop_last();
        assert forall|i: int| 0 <= i < front.len() implies front[i] != c by {
            assert(front[i] == text[i]);
        }
        lemma_nothing_replaced(front, c, with);
        assert(text[text.len() - 1] == text.last());
        assert(front.push(text.last()) == text);
    }
}

/// After expansion no `~` is left, if the home directory is known and holds none.
pub proof fn law_home_is_expanded(text: Seq<char>, home: Seq<char>)
    requires
        !home.contains('~'),
    ensures
        !with_home(text, Some(home)).contains('~'),
    decreases text.len(),
{
    if text.len() > 0 {
        let front = text.drop_last();
        law_home_is_expanded(front, home);
        let before = replaced(front, '~', home);
        let all = replaced(text, '~', home);
        assert forall|i: int| 0 <= i < all.len() implies all[i] != '~' by {
            if i < before.len() {
                assert(all[i] == before[i]);
            } else if text.last() == '~' {
                assert(all[i] == home[i - before.len()]);
            }
        }
    }
}

/// A mention of a variable is replaced by the value of the variable.
pub proof fn law_mention_is_filled(
    name: Seq<char>,
    form: Form,
    env: Seq<Pair>,
    ignore_case: bool,
)
    requires
        name.len() > 0,
        begins_name(name[0]),
        forall|i: int| 0 <= i < name.len() ==> is_name_character(#[trigger] name[i]),
    ensures
        filled(form.opening() + name + form.closing(), form, env, ignore_case) == value_of(
            env,
            name,
            ignore_case,
        ),
{
    let text = form.opening() + name + form.closing();
    let k = form.opening().len() as int;
    let n = name.len() as int;
    lemma_forms(form);
    assert(text.take(k) == form.opening());
    assert(text.skip(k) == name + form.closing());
    lemma_name_ends(name, form.closing());
    assert(text[k] == name[0]);
    let rest = text.skip(k + n);
    assert(rest == form.closing());
    assert(rest.take(rest.len() as int) == rest);
    assert(text.subrange(k, k + n) == name);
    assert(name_mentioned(text, form) == Some(name));
    assert(text.skip(mention_len(name, form)) == Seq::<char>::empty());
    let value = value_of(env, name, ignore_case);
    let none = Seq::<char>::empty();
    assert(filled(none, form, env, ignore_case) == none);
    assert(filled(text, form, env, ignore_case) == value + none);
}

proof fn lemma_name_ends(name: Seq<char>, rest: Seq<char>)
    requires
        forall|i: int| 0 <= i < name.len() ==> is_name_character(#[trigger] name[i]),
        rest.len() > 0 ==> !is_name_character(rest[0]),
    ensures
        name_len(name + rest) == name.len(),
    decreases name.len(),
{
    let s = name + rest;
    if name.len() > 0 {
        assert(s[0] == name[0]);
        assert(s.skip(1) == name.skip(1) + rest);
        assert forall|i: int| 0 <= i < name.len() - 1 implies is_name_character(
            #[trigger] name.skip(1)[i],
        ) by {
            assert(name.skip(1)[i] == name[i + 1]);
        }
        lemma_name_ends(name.skip(1), rest);
    } else if rest.len() > 0 {
        assert(s[0] == rest[0]);
    }
}

/// Whether before each character of `s` a bare mention of a variable can be over.
pub open spec fn is_gap(s: Seq<char>) -> bool {
    forall|i: int| 0 <= i < s.len() ==> ends_bare_mention(#[trigger] s[i])
}

proof fn lemma_forms(form: Form)
    ensures
        form.opening().len() > 0,
        forall|i: int|
            0 <= i < form.opening().len() ==> !ends_bare_mention(#[trigger] form.opening()[i]),
        forall|i: int|
            0 <= i < form.closing().len() ==> !ends_bare_mention(#[trigger] form.closing()[i]),
{
}

/// A prefix without gap characters does not reach into a gap.
proof fn lemma_prefix_before_gap(x: Seq<char>, tail: Seq<char>, prefix: Seq<char>)
    requires
        tail.len() > 0,
        ends_bare_mention(tail[0]),
        forall|i: int| 0 <= i < prefix.len() ==> !ends_bare_mention(#[trigger] prefix[i]),
    ensures
        has_prefix(x + tail, prefix) == has_prefix(x, prefix),
{
    let s = x + tail;
    let k = prefix.len() as int;
    if k <= x.len() {
        assert(s.take(k) == x.take(k));
    } else if k <= s.len() {
        assert(s.take(k)[x.len() as int] == tail[0]);
        assert(!ends_bare_mention(prefix[x.len() as int]));
    }
}

proof fn lemma_name_before_gap(x: Seq<char>, tail: Seq<char>)
    requires
        tail.len() > 0,
        ends_bare_mention(tail[0]),
    ensures
        name_len(x + tail) == name_len(x),
    decreases x.len(),
{
    let s = x + tail;
    if x.len() == 0 {
        assert(s[0] == tail[0]);
    } else if is_name_character(x[0]) {
        assert(s[0] == x[0]);
        assert(s.skip(1) == x.skip(1) + tail);
        lemma_name_before_gap(x.skip(1), tail);
    }
}

proof fn lemma_mention_before_gap(x: Seq<char>, tail: Seq<char>, form: Form)
    requires
        tail.len() > 0,
        ends_bare_mention(tail[0]),
    ensures
        name_mentioned(x + tail, form) == name_mentioned(x, form),
{
    let s = x + tail;
    let open = form.opening();
    let k = open.len() as int;
    lemma_forms(form);
    lemma_prefix_before_gap(x, tail, open);
    if has_prefix(x, open) {
        assert(s.skip(k) == x.skip(k) + tail);
        lemma_name_before_gap(x.skip(k), tail);
        lemma_name_fits(x.skip(k));
        let n = name_len(x.skip(k));
        if k < x.len() {
            assert(s[k] == x[k]);
        } else {
            assert(s[k] == tail[0]);
        }
        assert(s.skip(k + n) == x.skip(k + n) + tail);
        lemma_prefix_before_gap(x.skip(k + n), tail, form.closing());
        assert(s.subrange(k, k + n) == x.subrange(k, k + n));
        if x.skip(k + n).len() > 0 {
            assert(s.skip(k + n)[0] == x.skip(k + n)[0]);
        } else {
            assert(s.skip(k + n)[0] == tail[0]);
        }
        assert(form.closes(s.skip(k + n)) == form.closes(x.skip(k + n)));
    }
}

proof fn lemma_filled_gap(
    gap: Seq<char>,
    y: Seq<char>,
    form: Form,
    env: Seq<Pair>,
    ignore_case: bool,
)
    requires
        is_gap(gap),
    ensures
        filled(gap + y, form, env, ignore_case) == gap + filled(y, form, env, ignore_case),
    decreases gap.len(),
{
    let s = gap + y;
    if gap.len() == 0 {
        assert(s == y);
        assert(gap + filled(y, form, env, ignore_case) == filled(y, form, env, ignore_case));
    } else {
        lemma_forms(form);
        assert(s[0] == gap[0]);
        if has_prefix(s, form.opening()) {
            assert(s.take(form.opening().len() as int)[0] == s[0]);
            assert(!ends_bare_mention(form.opening()[0]));
        }
        let rest = gap.skip(1);
        assert forall|i: int| 0 <= i < rest.len() implies ends_bare_mention(#[trigger] rest[i]) by {
            assert(rest[i] == gap[i + 1]);
        }
        assert(s.skip(1) == rest + y);
        lemma_filled_gap(rest, y, form, env, ignore_case);
        let f = filled(y, form, env, ignore_case);
        assert(seq![gap[0]] + (rest + f) == gap + f);
    }
}

proof fn lemma_filled_apart(
    x: Seq<char>,
    gap: Seq<char>,
    y: Seq<char>,
    form: Form,
    env: Seq<Pair>,
    ignore_case: bool,
)
    requires
        gap.len() > 0,
        is_gap(gap),
    ensures
        filled(x + gap + y, form, env, ignore_case) == filled(x, form, env, ignore_case) + gap
            + filled(y, form, env, ignore_case),
    decreases x.len(),
{
    let s = x + gap + y;
    let tail = gap + y;
    let after = gap + filled(y, form, env, ignore_case);
    assert(s == x + tail);
    assert(tail[0] == gap[0]);
    lemma_filled_gap(gap, y, form, env, ignore_case);
    if x.len() == 0 {
        assert(s == tail);
    } else {
        lemma_mention_before_gap(x, tail, form);
        match name_mentioned(x, form) {
            Some(name) => {
                lemma_mention_fits(x, form);
                let m = mention_len(name, form);
                let rest = x.skip(m);
                assert(s.skip(m) == rest + gap + y);
                lemma_filled_apart(rest, gap, y, form, env, ignore_case);
                let v = value_of(env, name, ignore_case);
                let f = filled(rest, form, env, ignore_case);
                assert(v + (f + gap + filled(y, form, env, ignore_case)) == (v + f) + gap + filled(
                    y,
                    form,
                    env,
                    ignore_case,
                ));
            },
            None => {
                let rest = x.skip(1);
                assert(s[0] == x[0]);
                assert(s.skip(1) == rest + gap + y);
                lemma_filled_apart(rest, gap, y, form, env, ignore_case);
                let f = filled(rest, form, env, ignore_case);
                assert(seq![x[0]] + (f + gap + filled(y, form, env, ignore_case)) == (seq![x[0]] + f)
                    + gap + filled(y, form, env, ignore_case));
            },
        }
    }
}

proof fn lemma_replaced_goes_on(a: Seq<char>, b: Seq<char>, c: char, with: Seq<char>)
    ensures
        replaced(a + b, c, with) == replaced(a, c, with) + replaced(b, c, with),
    decreases b.len(),
{
    if b.len() == 0 {
        assert(a + b == a);
    } else {
        lemma_replaced_goes_on(a, b.drop_last(), c, with);
        assert((a + b).drop_last() == a + b.drop_last());
        assert((a + b).last() == b.last());
    }
}

/// What stands before and what stands after white space, or after one of `/ \ ; & | >`, is expanded
/// as if it stood alone.
pub proof fn law_expanded_apart(
    x: Seq<char>,
    gap: Seq<char>,
    y: Seq<char>,
    env: Seq<Pair>,
    platform: Platform,
)
    requires
        gap.len() > 0,
        is_gap(gap),
    ensures
        expanded(x + gap + y, env, platform) == expanded(x, env, platform) + gap + expanded(
            y,
            env,
            platform,
        ),
{
    let fold = platform is Windows;
    lemma_filled_apart(x, gap, y, Form::PowerShell, env, fold);
    let x1 = filled(x, Form::PowerShell, env, fold);
    let y1 = filled(y, Form::PowerShell, env, fold);
    lemma_filled_apart(x1, gap, y1, Form::Braced, env, fold);
    let x2 = filled(x1, Form::Braced, env, fold);
    let y2 = filled(y1, Form::Braced, env, fold);
    lemma_filled_apart(x2, gap, y2, Form::Bare, env, fold);
    let x3 = filled(x2, Form::Bare, env, fold);
    let y3 = filled(y2, Form::Bare, env, fold);
    lemma_filled_apart(x3, gap, y3, Form::Percent, env, fold);
    if let Some(h) = home_directory(env, platform) {
        let x4 = filled(x3, Form::Percent, env, fold);
        let y4 = filled(y3, Form::Percent, env, fold);
        lemma_replaced_goes_on(x4 + gap, y4, '~', h);
        lemma_replaced_goes_on(x4, gap, '~', h);
        assert(!gap.contains('~'));
        lemma_nothing_replaced(gap, '~', h);
    }
}

/// Whether `s` is a name of a variable.
pub open spec fn is_variable_name(s: Seq<char>) -> bool {
    &&& s.len() > 0
    &&& !('0' <= s[0] <= '9')
    &&& forall|i: int|
        0 <= i < s.len() ==> ('a' <= #[trigger] s[i] <= 'z' || 'A' <= s[i] <= 'Z' || '0' <= s[i]
            <= '9' || s[i] == '_')
}

/// A mention of a variable.
pub open spec fn mention(form: Form, name: Seq<char>) -> Seq<char> {
    form.opening() + name + form.closing()
}

proof fn lemma_names(name: Seq<char>)
    requires
        is_variable_name(name),
    ensures
        begins_name(name[0]),
        forall|i: int| 0 <= i < name.len() ==> is_name_character(#[trigger] name[i]),
{
}

/// How mentions of variables are written.
pub proof fn law_mentions(form: Form, name: Seq<char>)
    ensures
        mention(Form::PowerShell, name) == "$env:"@ + name,
        mention(Form::Braced, name) == "${"@ + name + "}"@,
        mention(Form::Bare, name) == "$"@ + name,
        mention(Form::Percent, name) == "%"@ + name + "%"@,
{
    reveal_strlit("$env:");
    reveal_strlit("${");
    reveal_strlit("}");
    reveal_strlit("$");
    reveal_strlit("%");
    assert(mention(Form::PowerShell, name) == "$env:"@ + name);
    assert(mention(Form::Braced, name) == "${"@ + name + "}"@);
    assert(mention(Form::Bare, name) == "$"@ + name);
    assert(mention(Form::Percent, name) == "%"@ + name + "%"@);
}

proof fn lemma_no_opening(text: Seq<char>, form: Form)
    requires
        !text.contains(form.opening()[0]),
    ensures
        !mentions_variable(text, form),
{
    assert forall|i: int| 0 <= i < text.len() implies name_mentioned(#[trigger] text.skip(i), form)
        is None by {
        let s = text.skip(i);
        if has_prefix(s, form.opening()) {
            assert(s.take(form.opening().len() as int)[0] == s[0]);
            assert(text[i] == s[0]);
        }
    }
}

proof fn lemma_other_form(name: Seq<char>, form: Form, other: Form)
    requires
        is_variable_name(name),
        form != other,
    ensures
        !mentions_variable(mention(form, name), other),
{
    let text = mention(form, name);
    let k = form.opening().len() as int;
    let n = name.len() as int;
    assert forall|i: int| 0 <= i < n implies text[k + i] == name[i] by {}
    let c = other.opening()[0];
    assert forall|i: int| 0 < i < text.len() implies text[i] != '$' by {
        if i < k {
            assert(text[i] == form.opening()[i]);
        } else if i < k + n {
            assert(text[i] == name[i - k]);
        } else {
            assert(text[i] == form.closing()[i - k - n]);
        }
    }
    if form is Percent || other is Percent {
        assert forall|i: int| 0 <= i < text.len() implies text[i] != c by {
            if i < k {
                assert(text[i] == form.opening()[i]);
            } else if i < k + n {
                assert(text[i] == name[i - k]);
            } else {
                assert(text[i] == form.closing()[i - k - n]);
            }
        }
        lemma_no_opening(text, other);
    } else {
        assert forall|i: int| 0 <= i < text.len() implies name_mentioned(
            #[trigger] text.skip(i),
            other,
        ) is None by {
            let s = text.skip(i);
            assert(s[0] == text[i]);
            if has_prefix(s, other.opening()) {
                let m = other.opening().len() as int;
                assert(s.take(m)[0] == s[0]);
                assert(i == 0);
                assert(s == text);
                assert(forall|j: int| 0 <= j < m ==> text[j] == other.opening()[j]) by {
                    assert forall|j: int| 0 <= j < m implies text[j] == other.opening()[j] by {
                        assert(s.take(m)[j] == text[j]);
                    }
                }
                if form is PowerShell {
                    assert(text[1] == 'e' && text[2] == 'n' && text[3] == 'v' && text[4] == ':');
                    if other is Bare {
                        let rest = text.skip(1);
                        let env = seq!['e', 'n', 'v'];
                        let after = text.skip(4);
                        assert(rest == env + after);
                        lemma_name_ends(env, after);
                        assert(text.skip(4)[0] == ':');
                        assert(!Form::Bare.closes(text.skip(4)));
                    }
                } else if form is Braced {
                    assert(text[1] == '{');
                } else {
                    assert(text[1] == name[0]);
                    if other is PowerShell {
                        assert(text[4] == ':');
                        assert(text[4] == name[3]);
                    }
                }
            }
        }
    }
}

proof fn lemma_plain_value(v: Seq<char>, form: Form, env: Seq<Pair>, ignore_case: bool)
    requires
        !v.contains('$'),
        !v.contains('%'),
    ensures
        filled(v, form, env, ignore_case) == v,
{
    lemma_no_opening(v, form);
    lemma_nothing_filled(v, form, env, ignore_case);
}

proof fn lemma_filled_mention(
    name: Seq<char>,
    form: Form,
    stage: Form,
    env: Seq<Pair>,
    ignore_case: bool,
)
    requires
        is_variable_name(name),
    ensures
        filled(mention(form, name), stage, env, ignore_case) == (if form == stage {
            value_of(env, name, ignore_case)
        } else {
            mention(form, name)
        }),
{
    lemma_names(name);
    if form == stage {
        law_mention_is_filled(name, form, env, ignore_case);
    } else {
        lemma_other_form(name, form, stage);
        lemma_nothing_filled(mention(form, name), stage, env, ignore_case);
    }
}

proof fn lemma_mention_has_no_tilde(name: Seq<char>, form: Form)
    requires
        is_variable_name(name),
    ensures
        !mention(form, name).contains('~'),
{
    let text = mention(form, name);
    let k = form.opening().len() as int;
    let n = name.len() as int;
    assert forall|i: int| 0 <= i < text.len() implies text[i] != '~' by {
        if i < k {
            assert(text[i] == form.opening()[i]);
        } else if i < k + n {
            assert(text[i] == name[i - k]);
        } else {
            assert(text[i] == form.closing()[i - k - n]);
        }
    }
}

/// A mention of a variable, in whichever form, expands to the value of the variable, and to nothing if
/// the variable is not set.
pub proof fn law_variable_is_expanded(
    form: Form,
    name: Seq<char>,
    value: Seq<char>,
    env: Seq<Pair>,
    platform: Platform,
)
    requires
        is_variable_name(name),
        value == (match variable(env, name, platform) {
            Some(v) => v,
            None => Seq::empty(),
        }),
        !value.contains('$'),
        !value.contains('%'),
        !value.contains('~'),
    ensures
        ({
            let text = match form {
                Form::PowerShell => "$env:"@ + name,
                Form::Braced => "${"@ + name + "}"@,
                Form::Bare => "$"@ + name,
                Form::Percent => "%"@ + name + "%"@,
            };
            expanded(text, env, platform) == value
        }),
{
    let fold = platform is Windows;
    law_mentions(form, name);
    lemma_filled_mention(name, form, Form::PowerShell, env, fold);
    lemma_filled_mention(name, form, Form::Braced, env, fold);
    lemma_filled_mention(name, form, Form::Bare, env, fold);
    lemma_filled_mention(name, form, Form::Percent, env, fold);
    lemma_plain_value(value, Form::Braced, env, fold);
    lemma_plain_value(value, Form::Bare, env, fold);
    lemma_plain_value(value, Form::Percent, env, fold);
    if let Some(h) = home_directory(env, platform) {
        lemma_nothing_replaced(value, '~', h);
    }
}

/// The forms are expanded one after the other: `$env:NAME`, then `${NAME}`, then `$NAME`, then
/// `%NAME%`. A value that mentions a variable in a later form is expanded further; in the same or an
/// earlier form it stays.
pub proof fn law_forms_in_turn(
    form: Form,
    name: Seq<char>,
    inner: Form,
    inner_name: Seq<char>,
    value: Seq<char>,
    env: Seq<Pair>,
    platform: Platform,
)
    requires
        is_variable_name(name),
        is_variable_name(inner_name),
        variable(env, name, platform) == Some(mention(inner, inner_name)),
        variable(env, inner_name, platform) == Some(value),
        !value.contains('$'),
        !value.contains('%'),
        !value.contains('~'),
    ensures
        expanded(mention(form, name), env, platform) == (if {
            ||| form == Form::PowerShell && inner != Form::PowerShell
            ||| form == Form::Braced && (inner == Form::Bare || inner == Form::Percent)
            ||| form == Form::Bare && inner == Form::Percent
        } {
            value
        } else {
            mention(inner, inner_name)
        }),
{
    let fold = platform is Windows;
    let between = mention(inner, inner_name);
    lemma_filled_mention(name, form, Form::PowerShell, env, fold);
    lemma_filled_mention(name, form, Form::Braced, env, fold);
    lemma_filled_mention(name, form, Form::Bare, env, fold);
    lemma_filled_mention(name, form, Form::Percent, env, fold);
    lemma_filled_mention(inner_name, inner, Form::Braced, env, fold);
    lemma_filled_mention(inner_name, inner, Form::Bare, env, fold);
    lemma_filled_mention(inner_name, inner, Form::Percent, env, fold);
    lemma_plain_value(value, Form::Braced, env, fold);
    lemma_plain_value(value, Form::Bare, env, fold);
    lemma_plain_value(value, Form::Percent, env, fold);
    lemma_mention_has_no_tilde(inner_name, inner);
    if let Some(h) = home_directory(env, platform) {
        lemma_nothing_replaced(value, '~', h);
        lemma_nothing_replaced(between, '~', h);
    }
}

/// A `~` stands for the home directory, wherever it stands; without one it stays.
pub proof fn law_tilde_is_home(
    a: Seq<char>,
    b: Seq<char>,
    env: Seq<Pair>,
    platform: Platform,
)
    requires
        !a.contains('$') && !a.contains('%') && !a.contains('~'),
        !b.contains('$') && !b.contains('%') && !b.contains('~'),
    ensures
        expanded(a + seq!['~'] + b, env, platform) == a + (match home_directory(env, platform) {
            Some(home) => home,
            None => seq!['~'],
        }) + b,
{
    let text = a + seq!['~'] + b;
    let fold = platform is Windows;
    assert forall|i: int| 0 <= i < text.len() implies text[i] != '$' && text[i] != '%' by {
        if i < a.len() {
            assert(text[i] == a[i]);
            assert(a.contains(a[i]));
        } else if i > a.len() {
            assert(text[i] == b[i - a.len() - 1]);
            assert(b.contains(b[i - a.len() - 1]));
        }
    }
    lemma_plain_value(text, Form::PowerShell, env, fold);
    lemma_plain_value(text, Form::Braced, env, fold);
    lemma_plain_value(text, Form::Bare, env, fold);
    lemma_plain_value(text, Form::Percent, env, fold);
    if let Some(h) = home_directory(env, platform) {
        law_replaced(a, '~', b, '~', h);
        lemma_nothing_replaced(a, '~', h);
        lemma_nothing_replaced(b, '~', h);
    }
}

/// A bare mention ends at white space and at each of `/ \ ; & | >`, and what follows is expanded on its
/// own. Before any other sign it is no mention.
pub proof fn law_bare_mention_ends(
    name: Seq<char>,
    value: Seq<char>,
    c: char,
    rest: Seq<char>,
    env: Seq<Pair>,
    platform: Platform,
)
    requires
        is_variable_name(name),
        variable(env, name, platform) == Some(value),
        !value.contains('$'),
        !value.contains('%'),
        !value.contains('~'),
    ensures
        is_white_space(c) || c == '/' || c == '\\' || c == ';' || c == '&' || c == '|' || c == '>'
            ==> expanded("$"@ + name + seq![c] + rest, env, platform) == value + seq![c] + expanded(
            rest,
            env,
            platform,
        ),
        c == '.' || c == ':' || c == '-' || c == '"' || c == '\'' || c == ',' || c == '=' || c == '('
            || c == ')' ==> expanded("$"@ + name + seq![c], env, platform) == "$"@ + name + seq![c],
{
    let text = "$"@ + name + seq![c];
    law_variable_is_expanded(Form::Bare, name, value, env, platform);
    if is_white_space(c) || c == '/' || c == '\\' || c == ';' || c == '&' || c == '|' || c == '>' {
        assert(is_gap(seq![c]));
        law_expanded_apart("$"@ + name, seq![c], rest, env, platform);
    }
    if c == '.' || c == ':' || c == '-' || c == '"' || c == '\'' || c == ',' || c == '=' || c == '('
        || c == ')' {
        reveal_strlit("$");
        assert(text[0] == '$');
        assert forall|i: int| 0 < i < text.len() implies text[i] != '$' && text[i] != '~' by {
            if i <= name.len() {
                assert(text[i] == name[i - 1]);
            }
        }
        assert forall|form: Form| !mentions_variable(text, form) by {
            assert forall|i: int| 0 <= i < text.len() implies name_mentioned(
                #[trigger] text.skip(i),
                form,
            ) is None by {
                lemma_bare_before_sign(name, c, form, i);
            }
        }
        assert(!text.contains('~'));
        law_plain_text_stays(text, env, platform);
    }
}

proof fn lemma_bare_before_sign(name: Seq<char>, c: char, form: Form, i: int)
    requires
        is_variable_name(name),
        c == '.' || c == ':' || c == '-' || c == '"' || c == '\'' || c == ',' || c == '=' || c == '('
            || c == ')',
        0 <= i < name.len() + 2,
    ensures
        name_mentioned(("$"@ + name + seq![c]).skip(i), form) is None,
{
    reveal_strlit("$");
    let text = "$"@ + name + seq![c];
    let s = text.skip(i);
    let m = form.opening().len() as int;
    let n = name.len() as int;
    assert(s[0] == text[i]);
    assert(text[0] == '$');
    assert(text[n + 1] == c);
    assert forall|j: int| 1 <= j <= n implies text[j] == name[j - 1] by {}
    if has_prefix(s, form.opening()) {
        assert(s.take(m)[0] == s[0]);
        if i > 0 {
            if i <= n {
                assert(text[i] == name[i - 1]);
            }
        } else {
            assert(s == text);
            assert forall|j: int| 0 <= j < m implies text[j] == form.opening()[j] by {
                assert(s.take(m)[j] == text[j]);
            }
            if form is Bare {
                assert(text.skip(1) == name + seq![c]);
                lemma_names(name);
                lemma_name_ends(name, seq![c]);
                assert(text.skip(1 + n)[0] == c);
            } else if form is Braced {
                assert(text[1] == '{');
                assert(text[1] == name[0]);
            } else if form is PowerShell {
                assert(text[4] == ':');
                if n >= 4 {
                    assert(text[4] == name[3]);
                }
            }
        }
    }
}

/// The patterns that find mentions of variables, as they are given to the search.
pub proof fn law_patterns_of_mentions()
    ensures
        POWERSHELL_VARIABLE@ == r"\$env:([A-Za-z_][A-Za-z0-9_]*)"@,
        BRACED_VARIABLE@ == r"\$\{([A-Za-z_][A-Za-z0-9_]*)\}"@,
        BARE_VARIABLE@ == r"\$([A-Za-z_][A-Za-z0-9_]*)([\s/\\;&|>]|$)"@,
        PERCENT_VARIABLE@ == r"%([A-Za-z_][A-Za-z0-9_]*)%"@,
{
}

} // verus!
