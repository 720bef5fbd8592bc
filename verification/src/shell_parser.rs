//! Shell command parser for extracting write target paths.
//!
//! Analyzes shell commands to determine which paths they write to, so that the guard can block
//! unauthorized writes. It is a set of patterns for common ways to write, not a full shell grammar.

use crate::args::arguments;
use crate::danger::{find_danger, is_dangerous};
use crate::env::Pair;
use crate::expand::{expand_env_vars, expanded};
use crate::host::{Host, Platform};
use crate::path_order::{ascending, first_written, holds_path, law_sorted_distinct, same_path,
    sort_distinct, sorted_distinct};
use crate::paths::{is_absolute, is_absolute_path, join_path, joined_path, law_joined_is_absolute,
    path_prefix};
use crate::interpreter::{
    find_inline_code, find_interpreter_targets, has_inline_code, interpreter_targets,
};
use crate::pattern::{is_found, matches_of, WORD_START};
use crate::rules::{
    append_all, captured, find_targets, law_destination, law_flags, law_no_match_no_target,
    law_picked, law_rule_counts, make_rule, make_word_pattern, names_null_device, picked, rule,
    rules_view, targets_in, word_pattern, Pick, Rule, WriteRule,
};
use crate::text::{is_white_space, law_unquoted, trim, trim_quotes, trimmed, unquoted};
use vstd::prelude::*;

verus! {

/// `> file` and `>> file`.
pub const REDIRECT: &'static str = r"(?:>{1,2})\s*([^\s;&|]+)";

/// `tee file`.
pub const TEE: &'static str = r"\btee\s+(?:(?:-[aAiz]+)\s+)*([^\s;&|>]+)";

/// `dd of=file`.
pub const DD: &'static str = r"\bdd\s+.*\bof\s*=\s*([^\s;&|]+)";

/// `mkdir dir`.
pub const MKDIR: &'static str = r"\bmkdir\s+(?:(?:-[pvm]+)\s+)*([^\s;&|>]+)";

/// `touch file`.
pub const TOUCH: &'static str = r"\btouch\s+(?:(?:-[\w]+)\s+)*([^\s;&|>]+)";

/// The flags that follow `cp`, `mv` or `install`, and then the arguments up to the end of the
/// command.
pub const COPY_ARGUMENTS: &'static str =
    r#"\b(?:\s+(?:-[\w]+|--[\w-]+))*\s+((?:"[^"]*"|'[^']*'|[^;&|<>\n])+?)(?:\s+\d+[<>]|\s*\\?[;&|<>\n]|\s*$)"#;

/// `New-Item -Path "file"`.
pub const NEW_ITEM_QUOTED: &'static str =
    r#"(?i)\bNew-Item\s+(?:.*?\s+)?-Path\s+["']([^"']+)["']"#;

/// `New-Item -Path file`.
pub const NEW_ITEM_BARE: &'static str = r#"(?i)\bNew-Item\s+(?:.*?\s+)?-Path\s+([^\s;|&"']+)"#;

/// `New-Item "file"`.
pub const NEW_ITEM_POSITIONAL: &'static str = r#"(?i)\bNew-Item\s+["']([^"']+)["']"#;

/// What precedes the name of a PowerShell command, whose case does not matter.
pub const CMDLET_START: &'static str = r"(?i)\b";

/// `-Path "file"` or `-FilePath "file"` after a command.
pub const PATH_QUOTED: &'static str = r#"\s+(?:.*?\s+)?-(?:FilePath|Path)\s+["']([^"']+)["']"#;

/// `-Path file` or `-FilePath file` after a command.
pub const PATH_BARE: &'static str = r#"\s+(?:.*?\s+)?-(?:FilePath|Path)\s+([^\s;|&"']+)"#;

/// `-Destination "path"` after a command.
pub const DESTINATION_QUOTED: &'static str = r#"\s+(?:.*?\s+)?-Destination\s+["']([^"']+)["']"#;

/// `-Destination path` after a command.
pub const DESTINATION_BARE: &'static str = r#"\s+(?:.*?\s+)?-Destination\s+([^\s;|&"']+)"#;

/// `-Path "path"` after `Remove-Item`.
pub const REMOVE_QUOTED: &'static str = r#"\s+(?:.*?\s+)?-Path\s+["']([^"']+)["']"#;

/// `-Path path` after `Remove-Item`.
pub const REMOVE_BARE: &'static str = r#"\s+(?:.*?\s+)?-Path\s+([^\s;|&"']+)"#;

/// `type nul > file`.
pub const TYPE_INTO: &'static str = r"(?i)\btype\s+\S+\s+>\s*([^\s;&|]+)";

/// The rules for redirects and for the write commands of Unix shells.
pub open spec fn unix_rules() -> Seq<Rule> {
    seq![
        rule(REDIRECT@, Pick::File, true),
        rule(TEE@, Pick::Plain, false),
        rule(DD@, Pick::Plain, false),
        rule(word_pattern(WORD_START@, "cp"@, COPY_ARGUMENTS@), Pick::LastArgument, true),
        rule(word_pattern(WORD_START@, "mv"@, COPY_ARGUMENTS@), Pick::LastArgument, true),
        rule(word_pattern(WORD_START@, "install"@, COPY_ARGUMENTS@), Pick::LastArgument, true),
        rule(MKDIR@, Pick::Plain, false),
        rule(TOUCH@, Pick::Plain, false),
    ]
}

/// The rules for a PowerShell command that takes its target in quotes or bare.
pub open spec fn cmdlet_rules(word: Seq<char>, quoted: Seq<char>, bare: Seq<char>) -> Seq<Rule> {
    seq![
        rule(word_pattern(CMDLET_START@, word, quoted), Pick::Plain, true),
        rule(word_pattern(CMDLET_START@, word, bare), Pick::Value, true),
    ]
}

/// The rules for `New-Item`.
pub open spec fn new_item_rules() -> Seq<Rule> {
    seq![
        rule(NEW_ITEM_QUOTED@, Pick::Plain, true),
        rule(NEW_ITEM_BARE@, Pick::Value, true),
        rule(NEW_ITEM_POSITIONAL@, Pick::Plain, true),
    ]
}

/// All rules that apply to a command itself.
pub open spec fn shell_rules() -> Seq<Rule> {
    unix_rules() + new_item_rules() + cmdlet_rules("Set-Content"@, PATH_QUOTED@, PATH_BARE@)
        + cmdlet_rules("Add-Content"@, PATH_QUOTED@, PATH_BARE@) + cmdlet_rules(
        "Out-File"@,
        PATH_QUOTED@,
        PATH_BARE@,
    ) + cmdlet_rules("sc"@, PATH_QUOTED@, PATH_BARE@) + cmdlet_rules(
        "ac"@,
        PATH_QUOTED@,
        PATH_BARE@,
    ) + cmdlet_rules("Copy-Item"@, DESTINATION_QUOTED@, DESTINATION_BARE@) + cmdlet_rules(
        "Move-Item"@,
        DESTINATION_QUOTED@,
        DESTINATION_BARE@,
    ) + cmdlet_rules("cpi"@, DESTINATION_QUOTED@, DESTINATION_BARE@) + cmdlet_rules(
        "mi"@,
        DESTINATION_QUOTED@,
        DESTINATION_BARE@,
    ) + cmdlet_rules("Remove-Item"@, REMOVE_QUOTED@, REMOVE_BARE@) + seq![
        rule(TYPE_INTO@, Pick::File, false),
    ]
}

fn make_unix_rules() -> (r: Vec<WriteRule>)
    ensures
        rules_view(r@) == unix_rules(),
{
    let r = vec![
        make_rule(REDIRECT, Pick::File, true),
        make_rule(TEE, Pick::Plain, false),
        make_rule(DD, Pick::Plain, false),
        make_rule(
            make_word_pattern(WORD_START, "cp", COPY_ARGUMENTS).as_str(),
            Pick::LastArgument,
            true,
        ),
        make_rule(
            make_word_pattern(WORD_START, "mv", COPY_ARGUMENTS).as_str(),
            Pick::LastArgument,
            true,
        ),
        make_rule(
            make_word_pattern(WORD_START, "install", COPY_ARGUMENTS).as_str(),
            Pick::LastArgument,
            true,
        ),
        make_rule(MKDIR, Pick::Plain, false),
        make_rule(TOUCH, Pick::Plain, false),
    ];
    assert(rules_view(r@) == unix_rules());
    r
}

fn add_cmdlet_rules(rules: &mut Vec<WriteRule>, word: &str, quoted: &str, bare: &str)
    ensures
        rules_view(final(rules)@) == rules_view(old(rules)@) + cmdlet_rules(
            word@,
            quoted@,
            bare@,
        ),
{
    let ghost before = rules_view(rules@);
    rules.push(
        make_rule(make_word_pattern(CMDLET_START, word, quoted).as_str(), Pick::Plain, true),
    );
    rules.push(
        make_rule(make_word_pattern(CMDLET_START, word, bare).as_str(), Pick::Value, true),
    );
    assert(rules_view(rules@) == before + cmdlet_rules(word@, quoted@, bare@));
}

/// Makes all rules that apply to a command itself.
pub fn make_shell_rules() -> (r: Vec<WriteRule>)
    ensures
        rules_view(r@) == shell_rules(),
{
    let mut r = make_unix_rules();
    r.push(make_rule(NEW_ITEM_QUOTED, Pick::Plain, true));
    r.push(make_rule(NEW_ITEM_BARE, Pick::Value, true));
    r.push(make_rule(NEW_ITEM_POSITIONAL, Pick::Plain, true));
    assert(rules_view(r@) == unix_rules() + new_item_rules());
    add_cmdlet_rules(&mut r, "Set-Content", PATH_QUOTED, PATH_BARE);
    add_cmdlet_rules(&mut r, "Add-Content", PATH_QUOTED, PATH_BARE);
    add_cmdlet_rules(&mut r, "Out-File", PATH_QUOTED, PATH_BARE);
    add_cmdlet_rules(&mut r, "sc", PATH_QUOTED, PATH_BARE);
    add_cmdlet_rules(&mut r, "ac", PATH_QUOTED, PATH_BARE);
    add_cmdlet_rules(&mut r, "Copy-Item", DESTINATION_QUOTED, DESTINATION_BARE);
    add_cmdlet_rules(&mut r, "Move-Item", DESTINATION_QUOTED, DESTINATION_BARE);
    add_cmdlet_rules(&mut r, "cpi", DESTINATION_QUOTED, DESTINATION_BARE);
    add_cmdlet_rules(&mut r, "mi", DESTINATION_QUOTED, DESTINATION_BARE);
    add_cmdlet_rules(&mut r, "Remove-Item", REMOVE_QUOTED, REMOVE_BARE);
    let ghost before = rules_view(r@);
    r.push(make_rule(TYPE_INTO, Pick::File, false));
    assert(rules_view(r@) == before + seq![rule(TYPE_INTO@, Pick::File, false)]);
    r
}

/// The path that a shell argument means in the directory `cwd`.
pub open spec fn resolved(arg: Seq<char>, cwd: Seq<char>, platform: Platform) -> Seq<char> {
    if is_absolute_path(unquoted(arg), platform) {
        unquoted(arg)
    } else {
        joined_path(cwd, unquoted(arg), platform)
    }
}

/// The paths that shell arguments mean in the directory `cwd`.
pub open spec fn all_resolved(args: Seq<Seq<char>>, cwd: Seq<char>, platform: Platform) -> Seq<
    Seq<char>,
> {
    args.map_values(|arg: Seq<char>| resolved(arg, cwd, platform))
}

/// The paths that inline code in `command` writes to.
pub open spec fn interpreter_write_paths(
    command: Seq<char>,
    cwd: Seq<char>,
    env: Seq<Pair>,
    platform: Platform,
) -> Seq<Seq<char>> {
    let text = expanded(trimmed(command), env, platform);
    sorted_distinct(all_resolved(interpreter_targets(text), cwd, platform), platform)
}

/// The paths that `command` writes to.
pub open spec fn write_paths(
    command: Seq<char>,
    cwd: Seq<char>,
    env: Seq<Pair>,
    platform: Platform,
) -> Seq<Seq<char>> {
    let text = expanded(trimmed(command), env, platform);
    sorted_distinct(
        all_resolved(targets_in(text, shell_rules()), cwd, platform) + interpreter_write_paths(
            text,
            cwd,
            env,
            platform,
        ),
        platform,
    )
}

/// Resolves a shell argument to a path.
pub fn resolve_arg(arg: &str, cwd: &str, platform: Platform) -> (r: String)
    ensures
        r@ == resolved(arg@, cwd@, platform),
{
    let stripped = trim_quotes(arg);
    if is_absolute(stripped.as_str(), platform) {
        stripped
    } else {
        join_path(cwd, stripped.as_str(), platform)
    }
}

/// Resolves shell arguments to paths.
pub fn resolve_all(args: &Vec<String>, cwd: &str, platform: Platform) -> (r: Vec<String>)
    ensures
        r.deep_view() == all_resolved(args.deep_view(), cwd@, platform),
{
    let ghost all = args.deep_view();
    let n: usize = args.len();
    let mut r: Vec<String> = Vec::new();
    for i in 0..n
        invariant
            n == args@.len(),
            all == args.deep_view(),
            r.deep_view() == all_resolved(all, cwd@, platform).take(i as int),
    {
        let ghost before = r.deep_view();
        let path = resolve_arg(args[i].as_str(), cwd, platform);
        let ghost y = path@;
        r.push(path);
        assert(r.deep_view() == before.push(y));
    }
    assert(r.deep_view() == all_resolved(all, cwd@, platform));
    r
}

/// Extracts the paths that interpreter inline code writes to.
pub fn extract_interpreter_write_paths(command: &str, cwd: &str, host: &Host) -> (r: Vec<String>)
    ensures
        r.deep_view() == interpreter_write_paths(
            command@,
            cwd@,
            host.env.pairs(),
            host.platform,
        ),
{
    let text = expand_env_vars(trim(command).as_str(), host);
    let targets = find_interpreter_targets(text.as_str());
    sort_distinct(&resolve_all(&targets, cwd, host.platform), host.platform)
}

/// Extracts the paths that a shell command writes to, in ascending order and without repetition.
///
/// Covers common write patterns:
/// - Redirects: `> file`, `>> file`
/// - `tee file`
/// - `dd of=file`
/// - `cp`, `mv` and `install`, whose last non-flag argument is the destination
/// - `mkdir dir`
/// - `touch file`
/// - PowerShell: `New-Item`, `Set-Content`, `Add-Content`, `Out-File`, `Copy-Item`, `Move-Item`,
///   `Remove-Item`
/// - cmd.exe: `type nul > file`
/// - Interpreter inline code: `node -e`, `python -c`, etc.
pub fn extract_write_paths(command: &str, cwd: &str, host: &Host) -> (r: Vec<String>)
    ensures
        r.deep_view() == write_paths(command@, cwd@, host.env.pairs(), host.platform),
{
    let text = expand_env_vars(trim(command).as_str(), host);
    let targets = find_targets(text.as_str(), &make_shell_rules());
    let mut paths = resolve_all(&targets, cwd, host.platform);
    let inline = extract_interpreter_write_paths(text.as_str(), cwd, host);
    append_all(&mut paths, &inline);
    sort_distinct(&paths, host.platform)
}

/// Detects whether a command contains an interpreter inline code snippet.
///
/// Covers: `node -e`, `bun -e`, `deno -e`, `python -c`, `perl -e`, `ruby -e`, `php -r`.
pub fn has_interpreter_inline_code(command: &str, host: &Host) -> (r: bool)
    ensures
        r == has_inline_code(expanded(trimmed(command@), host.env.pairs(), host.platform)),
{
    find_inline_code(expand_env_vars(trim(command).as_str(), host).as_str())
}

/// Checks whether a command contains a dangerous system command that can bypass the sandbox, such
/// as ACL modification or privilege escalation.
pub fn is_dangerous_command(command: &str, host: &Host) -> (r: bool)
    ensures
        r == is_dangerous(expanded(trimmed(command@), host.env.pairs(), host.platform)),
{
    find_danger(expand_env_vars(trim(command).as_str(), host).as_str())
}

/// A shell argument means an absolute path, taken from an absolute directory, unless it names a
/// drive and no root there (`C:name`).
pub proof fn law_resolved_is_absolute(arg: Seq<char>, cwd: Seq<char>, platform: Platform)
    requires
        is_absolute_path(cwd, platform),
        path_prefix(unquoted(arg), platform) is Some ==> is_absolute_path(
            unquoted(arg),
            platform,
        ),
    ensures
        is_absolute_path(resolved(arg, cwd, platform), platform),
{
    law_joined_is_absolute(cwd, unquoted(arg), platform);
}

/// The paths that a command writes to come in ascending order, and no path twice.
pub proof fn law_write_paths_ascend(
    command: Seq<char>,
    cwd: Seq<char>,
    env: Seq<Pair>,
    platform: Platform,
)
    ensures
        ascending(write_paths(command, cwd, env, platform), platform),
{
    let text = expanded(trimmed(command), env, platform);
    law_sorted_distinct(
        all_resolved(targets_in(text, shell_rules()), cwd, platform) + interpreter_write_paths(
            text,
            cwd,
            env,
            platform,
        ),
        platform,
    );
}

/// Every target that a rule finds in the expanded command is among the paths that the command
/// writes to.
pub proof fn law_write_paths_complete(
    command: Seq<char>,
    cwd: Seq<char>,
    env: Seq<Pair>,
    platform: Platform,
    k: int,
)
    requires
        0 <= k < targets_in(expanded(trimmed(command), env, platform), shell_rules()).len(),
    ensures
        holds_path(
            write_paths(command, cwd, env, platform),
            resolved(
                targets_in(expanded(trimmed(command), env, platform), shell_rules())[k],
                cwd,
                platform,
            ),
            platform,
        ),
{
    let text = expanded(trimmed(command), env, platform);
    let shell = all_resolved(targets_in(text, shell_rules()), cwd, platform);
    let all = shell + interpreter_write_paths(text, cwd, env, platform);
    law_sorted_distinct(all, platform);
    assert(all[k] == shell[k]);
}

/// Every target in inline code of the expanded command is among the paths that the command writes
/// to.
pub proof fn law_inline_paths_complete(
    command: Seq<char>,
    cwd: Seq<char>,
    env: Seq<Pair>,
    platform: Platform,
    k: int,
)
    requires
        ({
            let text = expanded(trimmed(command), env, platform);
            0 <= k < interpreter_targets(expanded(trimmed(text), env, platform)).len()
        }),
    ensures
        ({
            let text = expanded(trimmed(command), env, platform);
            let targets = interpreter_targets(expanded(trimmed(text), env, platform));
            holds_path(
                write_paths(command, cwd, env, platform),
                resolved(targets[k], cwd, platform),
                platform,
            )
        }),
{
    let text = expanded(trimmed(command), env, platform);
    let targets = interpreter_targets(expanded(trimmed(text), env, platform));
    let found = all_resolved(targets, cwd, platform);
    let inline = interpreter_write_paths(text, cwd, env, platform);
    let shell = all_resolved(targets_in(text, shell_rules()), cwd, platform);
    let all = shell + inline;
    let r = write_paths(command, cwd, env, platform);
    law_sorted_distinct(found, platform);
    law_sorted_distinct(all, platform);
    let x = resolved(targets[k], cwd, platform);
    assert(found[k] == x);
    let i = choose|i: int| 0 <= i < inline.len() && same_path(#[trigger] inline[i], x, platform);
    assert(all[shell.len() + i] == inline[i]);
    let j = choose|j: int| 0 <= j < r.len() && same_path(#[trigger] r[j], inline[i], platform);
    assert(same_path(r[j], x, platform));
}

/// Every path that a command writes to is a target of a rule, or comes from inline code.
pub proof fn law_write_paths_sound(
    command: Seq<char>,
    cwd: Seq<char>,
    env: Seq<Pair>,
    platform: Platform,
    i: int,
)
    requires
        0 <= i < write_paths(command, cwd, env, platform).len(),
    ensures
        ({
            let text = expanded(trimmed(command), env, platform);
            let path = write_paths(command, cwd, env, platform)[i];
            ||| all_resolved(targets_in(text, shell_rules()), cwd, platform).contains(path)
            ||| interpreter_write_paths(text, cwd, env, platform).contains(path)
        }),
{
    let text = expanded(trimmed(command), env, platform);
    let shell = all_resolved(targets_in(text, shell_rules()), cwd, platform);
    let inline = interpreter_write_paths(text, cwd, env, platform);
    let all = shell + inline;
    law_sorted_distinct(all, platform);
    let path = write_paths(command, cwd, env, platform)[i];
    assert(first_written(all, path, platform));
    let k = choose|k: int| 0 <= k < all.len() && all[k] == path;
    if k < shell.len() {
        assert(shell[k] == path);
    } else {
        assert(inline[k - shell.len()] == path);
    }
}

/// Whether a target that names a drive also names a root there. Only Windows has drives.
pub open spec fn has_rooted_drive(arg: Seq<char>, platform: Platform) -> bool {
    path_prefix(unquoted(arg), platform) is Some ==> is_absolute_path(unquoted(arg), platform)
}

/// From an absolute directory, every path that a command writes to is absolute, unless on Windows a
/// target names a drive and no root there (`C:name`).
pub proof fn law_write_paths_absolute(
    command: Seq<char>,
    cwd: Seq<char>,
    env: Seq<Pair>,
    platform: Platform,
    i: int,
)
    requires
        is_absolute_path(cwd, platform),
        0 <= i < write_paths(command, cwd, env, platform).len(),
        platform is Windows ==> ({
            let text = expanded(trimmed(command), env, platform);
            let inline = interpreter_targets(expanded(trimmed(text), env, platform));
            let shell = targets_in(text, shell_rules());
            &&& forall|k: int|
                0 <= k < shell.len() ==> has_rooted_drive(#[trigger] shell[k], platform)
            &&& forall|k: int|
                0 <= k < inline.len() ==> has_rooted_drive(#[trigger] inline[k], platform)
        }),
    ensures
        is_absolute_path(write_paths(command, cwd, env, platform)[i], platform),
{
    let text = expanded(trimmed(command), env, platform);
    let shell = targets_in(text, shell_rules());
    let inline = interpreter_targets(expanded(trimmed(text), env, platform));
    let path = write_paths(command, cwd, env, platform)[i];
    law_write_paths_sound(command, cwd, env, platform, i);
    if all_resolved(shell, cwd, platform).contains(path) {
        let k = choose|k: int|
            0 <= k < shell.len() && all_resolved(shell, cwd, platform)[k] == path;
        assert(has_rooted_drive(shell[k], platform));
        law_resolved_is_absolute(shell[k], cwd, platform);
    } else {
        let found = all_resolved(inline, cwd, platform);
        let sorted = interpreter_write_paths(text, cwd, env, platform);
        law_sorted_distinct(found, platform);
        let j = choose|j: int| 0 <= j < sorted.len() && sorted[j] == path;
        assert(first_written(found, sorted[j], platform));
        let k = choose|k: int| 0 <= k < found.len() && found[k] == path;
        assert(has_rooted_drive(inline[k], platform));
        law_resolved_is_absolute(inline[k], cwd, platform);
    }
}

/// The rules, one by one.
proof fn lemma_shell_rules()
    ensures
        shell_rules().len() == 32,
        shell_rules()[0] == rule(r"(?:>{1,2})\s*([^\s;&|]+)"@, Pick::File, true),
        shell_rules()[1] == rule(r"\btee\s+(?:(?:-[aAiz]+)\s+)*([^\s;&|>]+)"@, Pick::Plain, false),
        shell_rules()[2] == rule(r"\bdd\s+.*\bof\s*=\s*([^\s;&|]+)"@, Pick::Plain, false),
        shell_rules()[3] == rule(word_pattern(r"\b"@, "cp"@, r#"\b(?:\s+(?:-[\w]+|--[\w-]+))*\s+((?:"[^"]*"|'[^']*'|[^;&|<>\n])+?)(?:\s+\d+[<>]|\s*\\?[;&|<>\n]|\s*$)"#@), Pick::LastArgument, true),
        shell_rules()[4] == rule(word_pattern(r"\b"@, "mv"@, r#"\b(?:\s+(?:-[\w]+|--[\w-]+))*\s+((?:"[^"]*"|'[^']*'|[^;&|<>\n])+?)(?:\s+\d+[<>]|\s*\\?[;&|<>\n]|\s*$)"#@), Pick::LastArgument, true),
        shell_rules()[5] == rule(word_pattern(r"\b"@, "install"@, r#"\b(?:\s+(?:-[\w]+|--[\w-]+))*\s+((?:"[^"]*"|'[^']*'|[^;&|<>\n])+?)(?:\s+\d+[<>]|\s*\\?[;&|<>\n]|\s*$)"#@), Pick::LastArgument, true),
        shell_rules()[6] == rule(r"\bmkdir\s+(?:(?:-[pvm]+)\s+)*([^\s;&|>]+)"@, Pick::Plain, false),
        shell_rules()[7] == rule(r"\btouch\s+(?:(?:-[\w]+)\s+)*([^\s;&|>]+)"@, Pick::Plain, false),
        shell_rules()[8] == rule(r#"(?i)\bNew-Item\s+(?:.*?\s+)?-Path\s+["']([^"']+)["']"#@, Pick::Plain, true),
        shell_rules()[9] == rule(r#"(?i)\bNew-Item\s+(?:.*?\s+)?-Path\s+([^\s;|&"']+)"#@, Pick::Value, true),
        shell_rules()[10] == rule(r#"(?i)\bNew-Item\s+["']([^"']+)["']"#@, Pick::Plain, true),
        shell_rules()[11] == rule(word_pattern(r"(?i)\b"@, "Set-Content"@, r#"\s+(?:.*?\s+)?-(?:FilePath|Path)\s+["']([^"']+)["']"#@), Pick::Plain, true),
        shell_rules()[12] == rule(word_pattern(r"(?i)\b"@, "Set-Content"@, r#"\s+(?:.*?\s+)?-(?:FilePath|Path)\s+([^\s;|&"']+)"#@), Pick::Value, true),
        shell_rules()[13] == rule(word_pattern(r"(?i)\b"@, "Add-Content"@, r#"\s+(?:.*?\s+)?-(?:FilePath|Path)\s+["']([^"']+)["']"#@), Pick::Plain, true),
        shell_rules()[14] == rule(word_pattern(r"(?i)\b"@, "Add-Content"@, r#"\s+(?:.*?\s+)?-(?:FilePath|Path)\s+([^\s;|&"']+)"#@), Pick::Value, true),
        shell_rules()[15] == rule(word_pattern(r"(?i)\b"@, "Out-File"@, r#"\s+(?:.*?\s+)?-(?:FilePath|Path)\s+["']([^"']+)["']"#@), Pick::Plain, true),
        shell_rules()[16] == rule(word_pattern(r"(?i)\b"@, "Out-File"@, r#"\s+(?:.*?\s+)?-(?:FilePath|Path)\s+([^\s;|&"']+)"#@), Pick::Value, true),
        shell_rules()[17] == rule(word_pattern(r"(?i)\b"@, "sc"@, r#"\s+(?:.*?\s+)?-(?:FilePath|Path)\s+["']([^"']+)["']"#@), Pick::Plain, true),
        shell_rules()[18] == rule(word_pattern(r"(?i)\b"@, "sc"@, r#"\s+(?:.*?\s+)?-(?:FilePath|Path)\s+([^\s;|&"']+)"#@), Pick::Value, true),
        shell_rules()[19] == rule(word_pattern(r"(?i)\b"@, "ac"@, r#"\s+(?:.*?\s+)?-(?:FilePath|Path)\s+["']([^"']+)["']"#@), Pick::Plain, true),
        shell_rules()[20] == rule(word_pattern(r"(?i)\b"@, "ac"@, r#"\s+(?:.*?\s+)?-(?:FilePath|Path)\s+([^\s;|&"']+)"#@), Pick::Value, true),
        shell_rules()[21] == rule(word_pattern(r"(?i)\b"@, "Copy-Item"@, r#"\s+(?:.*?\s+)?-Destination\s+["']([^"']+)["']"#@), Pick::Plain, true),
        shell_rules()[22] == rule(word_pattern(r"(?i)\b"@, "Copy-Item"@, r#"\s+(?:.*?\s+)?-Destination\s+([^\s;|&"']+)"#@), Pick::Value, true),
        shell_rules()[23] == rule(word_pattern(r"(?i)\b"@, "Move-Item"@, r#"\s+(?:.*?\s+)?-Destination\s+["']([^"']+)["']"#@), Pick::Plain, true),
        shell_rules()[24] == rule(word_pattern(r"(?i)\b"@, "Move-Item"@, r#"\s+(?:.*?\s+)?-Destination\s+([^\s;|&"']+)"#@), Pick::Value, true),
        shell_rules()[25] == rule(word_pattern(r"(?i)\b"@, "cpi"@, r#"\s+(?:.*?\s+)?-Destination\s+["']([^"']+)["']"#@), Pick::Plain, true),
        shell_rules()[26] == rule(word_pattern(r"(?i)\b"@, "cpi"@, r#"\s+(?:.*?\s+)?-Destination\s+([^\s;|&"']+)"#@), Pick::Value, true),
        shell_rules()[27] == rule(word_pattern(r"(?i)\b"@, "mi"@, r#"\s+(?:.*?\s+)?-Destination\s+["']([^"']+)["']"#@), Pick::Plain, true),
        shell_rules()[28] == rule(word_pattern(r"(?i)\b"@, "mi"@, r#"\s+(?:.*?\s+)?-Destination\s+([^\s;|&"']+)"#@), Pick::Value, true),
        shell_rules()[29] == rule(word_pattern(r"(?i)\b"@, "Remove-Item"@, r#"\s+(?:.*?\s+)?-Path\s+["']([^"']+)["']"#@), Pick::Plain, true),
        shell_rules()[30] == rule(word_pattern(r"(?i)\b"@, "Remove-Item"@, r#"\s+(?:.*?\s+)?-Path\s+([^\s;|&"']+)"#@), Pick::Value, true),
        shell_rules()[31] == rule(r"(?i)\btype\s+\S+\s+>\s*([^\s;&|]+)"@, Pick::File, false),
{
}

/// What a rule picks out of a match that counts is among the paths that the command writes to.
proof fn lemma_written(
    command: Seq<char>,
    cwd: Seq<char>,
    env: Seq<Pair>,
    platform: Platform,
    i: int,
    k: int,
    group: Seq<char>,
    target: Seq<char>,
)
    requires
        0 <= i < shell_rules().len(),
        ({
            let text = expanded(trimmed(command), env, platform);
            let r = shell_rules()[i];
            &&& 0 <= k < matches_of(r.pattern, text).len()
            &&& r.every_match || k == 0
            &&& captured(matches_of(r.pattern, text)[k], 1) == Some(group)
            &&& picked(group, r.pick) == Some(target)
        }),
    ensures
        holds_path(
            write_paths(command, cwd, env, platform),
            resolved(target, cwd, platform),
            platform,
        ),
{
    let text = expanded(trimmed(command), env, platform);
    let r = shell_rules()[i];
    law_rule_counts(text, shell_rules(), r, k, target);
    let all = targets_in(text, shell_rules());
    let j = choose|j: int| 0 <= j < all.len() && all[j] == target;
    law_write_paths_complete(command, cwd, env, platform, j);
}

/// The file behind every `>` or `>>` is written.
pub proof fn law_redirects_write(
    command: Seq<char>,
    cwd: Seq<char>,
    env: Seq<Pair>,
    platform: Platform,
    k: int,
    file: Seq<char>,
)
    requires
        ({
            let text = expanded(trimmed(command), env, platform);
            let pattern = r"(?:>{1,2})\s*([^\s;&|]+)"@;
            &&& 0 <= k < matches_of(pattern, text).len()
            &&& captured(matches_of(pattern, text)[k], 1) == Some(file)
        }),
        file.len() > 0,
        !is_white_space(file[0]),
        !is_white_space(file.last()),
        !names_null_device(unquoted(file)),
    ensures
        holds_path(
            write_paths(command, cwd, env, platform),
            resolved(file, cwd, platform),
            platform,
        ),
{
    lemma_shell_rules();
    let text = expanded(trimmed(command), env, platform);
    let pattern = r"(?:>{1,2})\s*([^\s;&|]+)"@;
    law_picked(Seq::empty(), file, Seq::empty());
    assert(Seq::<char>::empty() + file + Seq::<char>::empty() == file);
    lemma_written(command, cwd, env, platform, 0, k, file, file);
}

/// The file behind `>` in a cmd.exe `type` is written.
pub proof fn law_type_writes(
    command: Seq<char>,
    cwd: Seq<char>,
    env: Seq<Pair>,
    platform: Platform,
    k: int,
    file: Seq<char>,
)
    requires
        k == 0,
        ({
            let text = expanded(trimmed(command), env, platform);
            let pattern = r"(?i)\btype\s+\S+\s+>\s*([^\s;&|]+)"@;
            &&& 0 <= k < matches_of(pattern, text).len()
            &&& captured(matches_of(pattern, text)[k], 1) == Some(file)
        }),
        file.len() > 0,
        !is_white_space(file[0]),
        !is_white_space(file.last()),
        !names_null_device(unquoted(file)),
    ensures
        holds_path(
            write_paths(command, cwd, env, platform),
            resolved(file, cwd, platform),
            platform,
        ),
{
    lemma_shell_rules();
    let text = expanded(trimmed(command), env, platform);
    let pattern = r"(?i)\btype\s+\S+\s+>\s*([^\s;&|]+)"@;
    law_picked(Seq::empty(), file, Seq::empty());
    assert(Seq::<char>::empty() + file + Seq::<char>::empty() == file);
    lemma_written(command, cwd, env, platform, 31, k, file, file);
}

/// The file of `tee` is written.
pub proof fn law_tee_writes(
    command: Seq<char>,
    cwd: Seq<char>,
    env: Seq<Pair>,
    platform: Platform,
    k: int,
    file: Seq<char>,
)
    requires
        k == 0,
        ({
            let text = expanded(trimmed(command), env, platform);
            let pattern = r"\btee\s+(?:(?:-[aAiz]+)\s+)*([^\s;&|>]+)"@;
            &&& 0 <= k < matches_of(pattern, text).len()
            &&& captured(matches_of(pattern, text)[k], 1) == Some(file)
        }),
        !names_null_device(unquoted(file)),
    ensures
        holds_path(
            write_paths(command, cwd, env, platform),
            resolved(file, cwd, platform),
            platform,
        ),
{
    lemma_shell_rules();
    let text = expanded(trimmed(command), env, platform);
    let pattern = r"\btee\s+(?:(?:-[aAiz]+)\s+)*([^\s;&|>]+)"@;
    lemma_written(command, cwd, env, platform, 1, k, file, file);
}

/// The `of` of `dd` is written.
pub proof fn law_dd_writes(
    command: Seq<char>,
    cwd: Seq<char>,
    env: Seq<Pair>,
    platform: Platform,
    k: int,
    file: Seq<char>,
)
    requires
        k == 0,
        ({
            let text = expanded(trimmed(command), env, platform);
            let pattern = r"\bdd\s+.*\bof\s*=\s*([^\s;&|]+)"@;
            &&& 0 <= k < matches_of(pattern, text).len()
            &&& captured(matches_of(pattern, text)[k], 1) == Some(file)
        }),
        !names_null_device(unquoted(file)),
    ensures
        holds_path(
            write_paths(command, cwd, env, platform),
            resolved(file, cwd, platform),
            platform,
        ),
{
    lemma_shell_rules();
    let text = expanded(trimmed(command), env, platform);
    let pattern = r"\bdd\s+.*\bof\s*=\s*([^\s;&|]+)"@;
    lemma_written(command, cwd, env, platform, 2, k, file, file);
}

/// The directory of `mkdir` is written.
pub proof fn law_mkdir_writes(
    command: Seq<char>,
    cwd: Seq<char>,
    env: Seq<Pair>,
    platform: Platform,
    k: int,
    file: Seq<char>,
)
    requires
        k == 0,
        ({
            let text = expanded(trimmed(command), env, platform);
            let pattern = r"\bmkdir\s+(?:(?:-[pvm]+)\s+)*([^\s;&|>]+)"@;
            &&& 0 <= k < matches_of(pattern, text).len()
            &&& captured(matches_of(pattern, text)[k], 1) == Some(file)
        }),
        !names_null_device(unquoted(file)),
    ensures
        holds_path(
            write_paths(command, cwd, env, platform),
            resolved(file, cwd, platform),
            platform,
        ),
{
    lemma_shell_rules();
    let text = expanded(trimmed(command), env, platform);
    let pattern = r"\bmkdir\s+(?:(?:-[pvm]+)\s+)*([^\s;&|>]+)"@;
    lemma_written(command, cwd, env, platform, 6, k, file, file);
}

/// The file of `touch` is written.
pub proof fn law_touch_writes(
    command: Seq<char>,
    cwd: Seq<char>,
    env: Seq<Pair>,
    platform: Platform,
    k: int,
    file: Seq<char>,
)
    requires
        k == 0,
        ({
            let text = expanded(trimmed(command), env, platform);
            let pattern = r"\btouch\s+(?:(?:-[\w]+)\s+)*([^\s;&|>]+)"@;
            &&& 0 <= k < matches_of(pattern, text).len()
            &&& captured(matches_of(pattern, text)[k], 1) == Some(file)
        }),
        !names_null_device(unquoted(file)),
    ensures
        holds_path(
            write_paths(command, cwd, env, platform),
            resolved(file, cwd, platform),
            platform,
        ),
{
    lemma_shell_rules();
    let text = expanded(trimmed(command), env, platform);
    let pattern = r"\btouch\s+(?:(?:-[\w]+)\s+)*([^\s;&|>]+)"@;
    lemma_written(command, cwd, env, platform, 7, k, file, file);
}

/// The destination of every `cp`, `mv` and `install` is written: of two or more arguments, the last
/// that does not begin with `-`.
pub proof fn law_copies_write(
    command: Seq<char>,
    cwd: Seq<char>,
    env: Seq<Pair>,
    platform: Platform,
    word: Seq<char>,
    front: Seq<Seq<char>>,
    x: Seq<char>,
    flags: Seq<Seq<char>>,
    k: int,
    file: Seq<char>,
)
    requires
        word == "cp"@ || word == "mv"@ || word == "install"@,
        ({
            let text = expanded(trimmed(command), env, platform);
            let pattern = word_pattern(r"\b"@, word, r#"\b(?:\s+(?:-[\w]+|--[\w-]+))*\s+((?:"[^"]*"|'[^']*'|[^;&|<>\n])+?)(?:\s+\d+[<>]|\s*\\?[;&|<>\n]|\s*$)"#@);
            &&& 0 <= k < matches_of(pattern, text).len()
            &&& captured(matches_of(pattern, text)[k], 1) == Some(file)
        }),
        arguments(file) == front.push(x) + flags,
        front.len() + flags.len() > 0,
        x.len() > 0 && x[0] != '-',
        !names_null_device(unquoted(x)),
        forall|i: int| 0 <= i < flags.len() ==> (#[trigger] flags[i]).len() > 0 && flags[i][0] == '-',
    ensures
        holds_path(
            write_paths(command, cwd, env, platform),
            resolved(x, cwd, platform),
            platform,
        ),
{
    lemma_shell_rules();
    let text = expanded(trimmed(command), env, platform);
    let pattern = word_pattern(r"\b"@, word, r#"\b(?:\s+(?:-[\w]+|--[\w-]+))*\s+((?:"[^"]*"|'[^']*'|[^;&|<>\n])+?)(?:\s+\d+[<>]|\s*\\?[;&|<>\n]|\s*$)"#@);
    law_destination(file, front, x, flags);
    let i: int = if word == "cp"@ {
        3
    } else if word == "mv"@ {
        4
    } else {
        5
    };
    lemma_written(command, cwd, env, platform, i, k, file, x);
}

/// The path of every `New-Item` is written, after `-Path` in quotes or bare.
pub proof fn law_new_item_writes(
    command: Seq<char>,
    cwd: Seq<char>,
    env: Seq<Pair>,
    platform: Platform,
    bare: bool,
    k: int,
    file: Seq<char>,
)
    requires
        ({
            let text = expanded(trimmed(command), env, platform);
            let pattern = if bare {
                r#"(?i)\bNew-Item\s+(?:.*?\s+)?-Path\s+([^\s;|&"']+)"#@
            } else {
                r#"(?i)\bNew-Item\s+(?:.*?\s+)?-Path\s+["']([^"']+)["']"#@
            };
            &&& 0 <= k < matches_of(pattern, text).len()
            &&& captured(matches_of(pattern, text)[k], 1) == Some(file)
        }),
        !names_null_device(unquoted(file)),
        bare ==> file.len() > 0 && file[0] != '-',
    ensures
        holds_path(
            write_paths(command, cwd, env, platform),
            resolved(file, cwd, platform),
            platform,
        ),
{
    lemma_shell_rules();
    let text = expanded(trimmed(command), env, platform);
    let pattern = if bare {
                r#"(?i)\bNew-Item\s+(?:.*?\s+)?-Path\s+([^\s;|&"']+)"#@
            } else {
                r#"(?i)\bNew-Item\s+(?:.*?\s+)?-Path\s+["']([^"']+)["']"#@
            };
    law_flags(file);
    let i: int = if bare {
        9
    } else {
        8
    };
    lemma_written(command, cwd, env, platform, i, k, file, file);
}

/// The path of every `New-Item` that directly follows it in quotes is written.
pub proof fn law_new_item_alone_writes(
    command: Seq<char>,
    cwd: Seq<char>,
    env: Seq<Pair>,
    platform: Platform,
    k: int,
    file: Seq<char>,
)
    requires
        ({
            let text = expanded(trimmed(command), env, platform);
            let pattern = r#"(?i)\bNew-Item\s+["']([^"']+)["']"#@;
            &&& 0 <= k < matches_of(pattern, text).len()
            &&& captured(matches_of(pattern, text)[k], 1) == Some(file)
        }),
        !names_null_device(unquoted(file)),
    ensures
        holds_path(
            write_paths(command, cwd, env, platform),
            resolved(file, cwd, platform),
            platform,
        ),
{
    lemma_shell_rules();
    let text = expanded(trimmed(command), env, platform);
    let pattern = r#"(?i)\bNew-Item\s+["']([^"']+)["']"#@;
    lemma_written(command, cwd, env, platform, 10, k, file, file);
}

/// The path of every `Set-Content`, `Add-Content` and `Out-File` is written, after `-Path` or
/// `-FilePath`, in quotes or bare; `sc` and `ac` are short names of the first two.
pub proof fn law_contents_write(
    command: Seq<char>,
    cwd: Seq<char>,
    env: Seq<Pair>,
    platform: Platform,
    word: Seq<char>,
    bare: bool,
    k: int,
    file: Seq<char>,
)
    requires
        word == "Set-Content"@ || word == "Add-Content"@ || word == "Out-File"@ || word == "sc"@ || word == "ac"@,
        ({
            let text = expanded(trimmed(command), env, platform);
            let pattern = word_pattern(
                r"(?i)\b"@,
                word,
                if bare {
                    r#"\s+(?:.*?\s+)?-(?:FilePath|Path)\s+([^\s;|&"']+)"#@
                } else {
                    r#"\s+(?:.*?\s+)?-(?:FilePath|Path)\s+["']([^"']+)["']"#@
                },
            );
            &&& 0 <= k < matches_of(pattern, text).len()
            &&& captured(matches_of(pattern, text)[k], 1) == Some(file)
        }),
        !names_null_device(unquoted(file)),
        bare ==> file.len() > 0 && file[0] != '-',
    ensures
        holds_path(
            write_paths(command, cwd, env, platform),
            resolved(file, cwd, platform),
            platform,
        ),
{
    lemma_shell_rules();
    let text = expanded(trimmed(command), env, platform);
    let pattern = word_pattern(
                r"(?i)\b"@,
                word,
                if bare {
                    r#"\s+(?:.*?\s+)?-(?:FilePath|Path)\s+([^\s;|&"']+)"#@
                } else {
                    r#"\s+(?:.*?\s+)?-(?:FilePath|Path)\s+["']([^"']+)["']"#@
                },
            );
    law_flags(file);
    let first: int = if word == "Set-Content"@ {
        11
    } else if word == "Add-Content"@ {
        13
    } else if word == "Out-File"@ {
        15
    } else if word == "sc"@ {
        17
    } else {
        19
    };
    let i = if bare {
        first + 1
    } else {
        first
    };
    lemma_written(command, cwd, env, platform, i, k, file, file);
}

/// The destination of every `Copy-Item` and `Move-Item` is written, in quotes or bare; `cpi` and `mi`
/// are their short names.
pub proof fn law_item_copies_write(
    command: Seq<char>,
    cwd: Seq<char>,
    env: Seq<Pair>,
    platform: Platform,
    word: Seq<char>,
    bare: bool,
    k: int,
    file: Seq<char>,
)
    requires
        word == "Copy-Item"@ || word == "Move-Item"@ || word == "cpi"@ || word == "mi"@,
        ({
            let text = expanded(trimmed(command), env, platform);
            let pattern = word_pattern(
                r"(?i)\b"@,
                word,
                if bare {
                    r#"\s+(?:.*?\s+)?-Destination\s+([^\s;|&"']+)"#@
                } else {
                    r#"\s+(?:.*?\s+)?-Destination\s+["']([^"']+)["']"#@
                },
            );
            &&& 0 <= k < matches_of(pattern, text).len()
            &&& captured(matches_of(pattern, text)[k], 1) == Some(file)
        }),
        !names_null_device(unquoted(file)),
        bare ==> file.len() > 0 && file[0] != '-',
    ensures
        holds_path(
            write_paths(command, cwd, env, platform),
            resolved(file, cwd, platform),
            platform,
        ),
{
    lemma_shell_rules();
    let text = expanded(trimmed(command), env, platform);
    let pattern = word_pattern(
                r"(?i)\b"@,
                word,
                if bare {
                    r#"\s+(?:.*?\s+)?-Destination\s+([^\s;|&"']+)"#@
                } else {
                    r#"\s+(?:.*?\s+)?-Destination\s+["']([^"']+)["']"#@
                },
            );
    law_flags(file);
    let first: int = if word == "Copy-Item"@ {
        21
    } else if word == "Move-Item"@ {
        23
    } else if word == "cpi"@ {
        25
    } else {
        27
    };
    let i = if bare {
        first + 1
    } else {
        first
    };
    lemma_written(command, cwd, env, platform, i, k, file, file);
}

/// The path of every `Remove-Item` is written, in quotes or bare.
pub proof fn law_remove_item_writes(
    command: Seq<char>,
    cwd: Seq<char>,
    env: Seq<Pair>,
    platform: Platform,
    bare: bool,
    k: int,
    file: Seq<char>,
)
    requires
        ({
            let text = expanded(trimmed(command), env, platform);
            let pattern = word_pattern(
                r"(?i)\b"@,
                "Remove-Item"@,
                if bare {
                    r#"\s+(?:.*?\s+)?-Path\s+([^\s;|&"']+)"#@
                } else {
                    r#"\s+(?:.*?\s+)?-Path\s+["']([^"']+)["']"#@
                },
            );
            &&& 0 <= k < matches_of(pattern, text).len()
            &&& captured(matches_of(pattern, text)[k], 1) == Some(file)
        }),
        !names_null_device(unquoted(file)),
        bare ==> file.len() > 0 && file[0] != '-',
    ensures
        holds_path(
            write_paths(command, cwd, env, platform),
            resolved(file, cwd, platform),
            platform,
        ),
{
    lemma_shell_rules();
    let text = expanded(trimmed(command), env, platform);
    let pattern = word_pattern(
                r"(?i)\b"@,
                "Remove-Item"@,
                if bare {
                    r#"\s+(?:.*?\s+)?-Path\s+([^\s;|&"']+)"#@
                } else {
                    r#"\s+(?:.*?\s+)?-Path\s+["']([^"']+)["']"#@
                },
            );
    law_flags(file);
    let i: int = if bare {
        30
    } else {
        29
    };
    lemma_written(command, cwd, env, platform, i, k, file, file);
}

/// A command in which none of these patterns has a match, and which gives no code to an interpreter
/// that writes anywhere, writes nothing.
pub proof fn law_nothing_else_writes(
    command: Seq<char>,
    cwd: Seq<char>,
    env: Seq<Pair>,
    platform: Platform,
)
    requires
        ({
            let text = expanded(trimmed(command), env, platform);
            &&& !is_found(r"(?:>{1,2})\s*([^\s;&|]+)"@, text)
            &&& !is_found(r"\btee\s+(?:(?:-[aAiz]+)\s+)*([^\s;&|>]+)"@, text)
            &&& !is_found(r"\bdd\s+.*\bof\s*=\s*([^\s;&|]+)"@, text)
            &&& !is_found(word_pattern(r"\b"@, "cp"@, r#"\b(?:\s+(?:-[\w]+|--[\w-]+))*\s+((?:"[^"]*"|'[^']*'|[^;&|<>\n])+?)(?:\s+\d+[<>]|\s*\\?[;&|<>\n]|\s*$)"#@), text)
            &&& !is_found(word_pattern(r"\b"@, "mv"@, r#"\b(?:\s+(?:-[\w]+|--[\w-]+))*\s+((?:"[^"]*"|'[^']*'|[^;&|<>\n])+?)(?:\s+\d+[<>]|\s*\\?[;&|<>\n]|\s*$)"#@), text)
            &&& !is_found(word_pattern(r"\b"@, "install"@, r#"\b(?:\s+(?:-[\w]+|--[\w-]+))*\s+((?:"[^"]*"|'[^']*'|[^;&|<>\n])+?)(?:\s+\d+[<>]|\s*\\?[;&|<>\n]|\s*$)"#@), text)
            &&& !is_found(r"\bmkdir\s+(?:(?:-[pvm]+)\s+)*([^\s;&|>]+)"@, text)
            &&& !is_found(r"\btouch\s+(?:(?:-[\w]+)\s+)*([^\s;&|>]+)"@, text)
            &&& !is_found(r#"(?i)\bNew-Item\s+(?:.*?\s+)?-Path\s+["']([^"']+)["']"#@, text)
            &&& !is_found(r#"(?i)\bNew-Item\s+(?:.*?\s+)?-Path\s+([^\s;|&"']+)"#@, text)
            &&& !is_found(r#"(?i)\bNew-Item\s+["']([^"']+)["']"#@, text)
            &&& !is_found(word_pattern(r"(?i)\b"@, "Set-Content"@, r#"\s+(?:.*?\s+)?-(?:FilePath|Path)\s+["']([^"']+)["']"#@), text)
            &&& !is_found(word_pattern(r"(?i)\b"@, "Set-Content"@, r#"\s+(?:.*?\s+)?-(?:FilePath|Path)\s+([^\s;|&"']+)"#@), text)
            &&& !is_found(word_pattern(r"(?i)\b"@, "Add-Content"@, r#"\s+(?:.*?\s+)?-(?:FilePath|Path)\s+["']([^"']+)["']"#@), text)
            &&& !is_found(word_pattern(r"(?i)\b"@, "Add-Content"@, r#"\s+(?:.*?\s+)?-(?:FilePath|Path)\s+([^\s;|&"']+)"#@), text)
            &&& !is_found(word_pattern(r"(?i)\b"@, "Out-File"@, r#"\s+(?:.*?\s+)?-(?:FilePath|Path)\s+["']([^"']+)["']"#@), text)
            &&& !is_found(word_pattern(r"(?i)\b"@, "Out-File"@, r#"\s+(?:.*?\s+)?-(?:FilePath|Path)\s+([^\s;|&"']+)"#@), text)
            &&& !is_found(word_pattern(r"(?i)\b"@, "sc"@, r#"\s+(?:.*?\s+)?-(?:FilePath|Path)\s+["']([^"']+)["']"#@), text)
            &&& !is_found(word_pattern(r"(?i)\b"@, "sc"@, r#"\s+(?:.*?\s+)?-(?:FilePath|Path)\s+([^\s;|&"']+)"#@), text)
            &&& !is_found(word_pattern(r"(?i)\b"@, "ac"@, r#"\s+(?:.*?\s+)?-(?:FilePath|Path)\s+["']([^"']+)["']"#@), text)
            &&& !is_found(word_pattern(r"(?i)\b"@, "ac"@, r#"\s+(?:.*?\s+)?-(?:FilePath|Path)\s+([^\s;|&"']+)"#@), text)
            &&& !is_found(word_pattern(r"(?i)\b"@, "Copy-Item"@, r#"\s+(?:.*?\s+)?-Destination\s+["']([^"']+)["']"#@), text)
            &&& !is_found(word_pattern(r"(?i)\b"@, "Copy-Item"@, r#"\s+(?:.*?\s+)?-Destination\s+([^\s;|&"']+)"#@), text)
            &&& !is_found(word_pattern(r"(?i)\b"@, "Move-Item"@, r#"\s+(?:.*?\s+)?-Destination\s+["']([^"']+)["']"#@), text)
            &&& !is_found(word_pattern(r"(?i)\b"@, "Move-Item"@, r#"\s+(?:.*?\s+)?-Destination\s+([^\s;|&"']+)"#@), text)
            &&& !is_found(word_pattern(r"(?i)\b"@, "cpi"@, r#"\s+(?:.*?\s+)?-Destination\s+["']([^"']+)["']"#@), text)
            &&& !is_found(word_pattern(r"(?i)\b"@, "cpi"@, r#"\s+(?:.*?\s+)?-Destination\s+([^\s;|&"']+)"#@), text)
            &&& !is_found(word_pattern(r"(?i)\b"@, "mi"@, r#"\s+(?:.*?\s+)?-Destination\s+["']([^"']+)["']"#@), text)
            &&& !is_found(word_pattern(r"(?i)\b"@, "mi"@, r#"\s+(?:.*?\s+)?-Destination\s+([^\s;|&"']+)"#@), text)
            &&& !is_found(word_pattern(r"(?i)\b"@, "Remove-Item"@, r#"\s+(?:.*?\s+)?-Path\s+["']([^"']+)["']"#@), text)
            &&& !is_found(word_pattern(r"(?i)\b"@, "Remove-Item"@, r#"\s+(?:.*?\s+)?-Path\s+([^\s;|&"']+)"#@), text)
            &&& !is_found(r"(?i)\btype\s+\S+\s+>\s*([^\s;&|]+)"@, text)
            &&& interpreter_targets(expanded(trimmed(text), env, platform)).len() == 0
        }),
    ensures
        write_paths(command, cwd, env, platform).len() == 0,
{
    lemma_shell_rules();
    let text = expanded(trimmed(command), env, platform);
    let rules = shell_rules();
    assert forall|i: int| 0 <= i < rules.len() implies matches_of(
        (#[trigger] rules[i]).pattern,
        text,
    ).len() == 0 by {
        assert(!is_found(rules[i].pattern, text));
    }
    law_no_match_no_target(text, rules);
    let inline = all_resolved(
        interpreter_targets(expanded(trimmed(text), env, platform)),
        cwd,
        platform,
    );
    assert(inline.len() == 0);
    assert(sorted_distinct(inline, platform).len() == 0);
    let all = all_resolved(targets_in(text, rules), cwd, platform) + interpreter_write_paths(
        text,
        cwd,
        env,
        platform,
    );
    assert(all.len() == 0);
}

/// On systems with Unix paths, an argument that begins with `/` is the path itself; any other is taken
/// from the working directory, with one `/` between the two. Quotes around it do not count.
pub proof fn law_resolved_on_unix(
    left: Seq<char>,
    arg: Seq<char>,
    right: Seq<char>,
    cwd: Seq<char>,
    platform: Platform,
)
    requires
        platform != Platform::Windows,
        arg.len() > 0,
        arg[0] != '"' && arg[0] != '\'',
        arg.last() != '"' && arg.last() != '\'',
        forall|k: int| 0 <= k < left.len() ==> (#[trigger] left[k] == '"' || left[k] == '\''),
        forall|k: int| 0 <= k < right.len() ==> (#[trigger] right[k] == '"' || right[k] == '\''),
    ensures
        arg[0] == '/' ==> resolved(left + arg + right, cwd, platform) == arg,
        arg[0] != '/' && cwd.len() > 0 && cwd.last() != '/' ==> resolved(
            left + arg + right,
            cwd,
            platform,
        ) == cwd + seq!['/'] + arg,
        arg[0] != '/' && cwd.len() > 0 && cwd.last() == '/' ==> resolved(
            left + arg + right,
            cwd,
            platform,
        ) == cwd + arg,
{
    law_unquoted(left, arg, right);
    assert(cwd.push('/') + arg == cwd + seq!['/'] + arg);
}

/// On Windows, an argument with a drive and a root is the path itself; a name is taken from the
/// working directory, here one on a drive, with one backslash between the two; and what begins with
/// one slash is taken from the drive of the working directory.
pub proof fn law_resolved_on_windows(arg: Seq<char>, cwd: Seq<char>)
    requires
        arg.len() > 0,
        arg[0] != '"' && arg[0] != '\'',
        arg.last() != '"' && arg.last() != '\'',
        cwd.len() > 2,
        'A' <= cwd[0] <= 'Z' || 'a' <= cwd[0] <= 'z',
        cwd[1] == ':',
    ensures
        arg.len() > 2 && ('A' <= arg[0] <= 'Z' || 'a' <= arg[0] <= 'z') && arg[1] == ':' && (arg[2]
            == '\\' || arg[2] == '/') ==> resolved(arg, cwd, Platform::Windows) == arg,
        arg[0] != '\\' && arg[0] != '/' && !(arg.len() > 1 && arg[1] == ':') && cwd.last() != '\\'
            && cwd.last() != '/' ==> resolved(arg, cwd, Platform::Windows) == cwd + seq!['\\']
            + arg,
        arg[0] != '\\' && arg[0] != '/' && !(arg.len() > 1 && arg[1] == ':') && (cwd.last() == '\\'
            || cwd.last() == '/') ==> resolved(arg, cwd, Platform::Windows) == cwd + arg,
        (arg[0] == '\\' || arg[0] == '/') && !(arg.len() > 1 && (arg[1] == '\\' || arg[1] == '/'))
            ==> resolved(arg, cwd, Platform::Windows) == cwd.take(2) + arg,
{
    law_unquoted(Seq::empty(), arg, Seq::empty());
    assert(cwd.push('\\') + arg == cwd + seq!['\\'] + arg);
}

} // verus!
