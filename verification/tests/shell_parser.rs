use bitfun_sandbox::args::split_args;
use bitfun_sandbox::danger::judge_mention;
use bitfun_sandbox::env::EnvMap;
use bitfun_sandbox::expand::expand_env_vars;
use bitfun_sandbox::host::{Host, Platform};
use bitfun_sandbox::interpreter::{find_code_targets, Language};
use bitfun_sandbox::pattern::replacement;
use bitfun_sandbox::rules::{pick_target, pick_targets, Pick};
use bitfun_sandbox::shell_parser::resolve_arg;

fn paths_of(command: &str) -> Vec<String> {
    extract(command, &Host::new(Platform::Linux))
}

fn extract(command: &str, host: &Host) -> Vec<String> {
    bitfun_sandbox::extract_write_paths(command, "/workspace", host)
}

fn has_inline(command: &str) -> bool {
    bitfun_sandbox::has_interpreter_inline_code(command, &Host::new(Platform::Linux))
}

fn is_dangerous(command: &str) -> bool {
    bitfun_sandbox::is_dangerous_command(command, &Host::new(Platform::Linux))
}

fn holds(paths: &[String], path: &str) -> bool {
    paths.iter().any(|p| p == path)
}

#[test]
fn test_redirect_write() {
    assert!(holds(&paths_of("echo hello > /tmp/test.txt"), "/tmp/test.txt"));
}

#[test]
fn test_redirect_append() {
    assert!(holds(&paths_of("echo hello >> /tmp/log.txt"), "/tmp/log.txt"));
}

#[test]
fn test_redirect_null_device() {
    let paths = paths_of("echo hello > /dev/null");
    assert!(!paths.iter().any(|p| p.contains("null")));
}

#[test]
fn test_tee_write() {
    assert!(holds(&paths_of("echo hello | tee /tmp/tee.txt"), "/tmp/tee.txt"));
}

#[test]
fn test_cp_destination() {
    assert!(holds(&paths_of("cp src.txt /tmp/dst.txt"), "/tmp/dst.txt"));
}

#[test]
fn test_mv_destination() {
    assert!(holds(&paths_of("mv old.txt /tmp/new.txt"), "/tmp/new.txt"));
}

#[test]
fn test_mkdir() {
    assert!(holds(&paths_of("mkdir -p /tmp/newdir"), "/tmp/newdir"));
}

#[test]
fn test_touch() {
    assert!(holds(&paths_of("touch /tmp/file.txt"), "/tmp/file.txt"));
}

#[test]
fn test_relative_path() {
    assert!(holds(&paths_of("echo hello > output.txt"), "/workspace/output.txt"));
}

#[test]
fn test_has_interpreter_inline_node() {
    assert!(has_inline("node -e \"require('fs').writeFileSync('/tmp/test', 'hi')\""));
}

#[test]
fn test_has_interpreter_inline_python() {
    assert!(has_inline("python -c \"open('/tmp/test', 'w')\""));
}

#[test]
fn test_no_interpreter_inline() {
    assert!(!has_inline("echo hello"));
}

#[test]
fn test_js_write_paths() {
    let paths = paths_of("node -e \"require('fs').writeFileSync('/tmp/test', 'hi')\"");
    assert!(holds(&paths, "/tmp/test"));
}

#[test]
fn test_python_write_paths() {
    let paths = paths_of("python -c \"open('/tmp/test', 'w')\"");
    assert!(holds(&paths, "/tmp/test"));
}

#[test]
fn test_dd_write() {
    let paths = paths_of("dd if=/dev/zero of=/tmp/disk.img bs=1M count=10");
    assert!(holds(&paths, "/tmp/disk.img"));
}

#[test]
fn test_null_device_nul() {
    assert!(bitfun_sandbox::is_null_device("NUL"));
    assert!(bitfun_sandbox::is_null_device("nul"));
    assert!(!bitfun_sandbox::is_null_device("/tmp/test"));
}

#[test]
fn debug_js() {
    let cmd = r#"node -e "require('fs').writeFileSync('/tmp/test', 'hi')""#;
    let expanded = expand_env_vars(cmd, &Host::new(Platform::Linux));
    assert_eq!(expanded, cmd);
    assert_eq!(paths_of(&expanded), ["/tmp/test"]);
}

#[test]
fn null_devices_in_any_case() {
    for name in ["/dev/null", "/DEV/Null", "Con", "CON", "nUl"] {
        assert!(bitfun_sandbox::is_null_device(name));
    }
    for name in ["", "/dev/nul", "NUL ", "CON1", "console"] {
        assert!(!bitfun_sandbox::is_null_device(name));
    }
}

#[test]
fn result_is_sorted_and_distinct() {
    assert_eq!(
        paths_of("echo a > /z; echo b > /a/b; echo c >> /z; echo d > /a//b/."),
        ["/a/b", "/z"]
    );
    assert!(paths_of("echo hello").is_empty());
    assert!(paths_of("").is_empty());
}

#[test]
fn paths_are_ordered_by_their_parts() {
    assert_eq!(paths_of("a > /a.b; b > /a/c; c > /a"), ["/a", "/a/c", "/a.b"]);
}

#[test]
fn copies_go_to_the_last_operand() {
    assert_eq!(paths_of("cp -r a b /dst"), ["/dst"]);
    assert_eq!(paths_of("cp a /dst -v"), ["/dst"]);
    assert_eq!(paths_of("install -m --backup a '/some dir/x'"), ["/some dir/x"]);
    assert!(paths_of("cp onlyone").is_empty());
    assert!(paths_of("mv a /dev/null").is_empty());
    assert_eq!(paths_of("cp a -v"), ["/workspace/a"]);
    assert_eq!(paths_of("cp a.txt /tmp/b.txt -v"), ["/tmp/b.txt"]);
}

#[test]
fn copies_end_where_their_command_ends() {
    assert_eq!(paths_of("cp a.txt /tmp/b.txt && echo done"), ["/tmp/b.txt"]);
    assert_eq!(paths_of("cp a /x; cp b /y"), ["/x", "/y"]);
    assert_eq!(paths_of("mv a /x | cat -n"), ["/x"]);
    assert_eq!(paths_of("cp a /x 2>/dev/null"), ["/x"]);
    assert_eq!(paths_of("cp a /x > /log"), ["/log", "/x"]);
    assert_eq!(paths_of("cp a /x\necho done"), ["/x"]);
    assert_eq!(paths_of("cp 'a;b' \"/c & d\""), ["/c & d"]);
    assert_eq!(paths_of("find . -exec cp {} /dst \\;"), ["/dst"]);
}

#[test]
fn the_first_operand_of_the_first_command_counts() {
    assert_eq!(paths_of("touch /one && touch /two"), ["/one"]);
    assert_eq!(paths_of("touch -m /one /two"), ["/one"]);
    assert_eq!(paths_of("touch --date=now /one"), ["/workspace/--date=now"]);
    assert_eq!(paths_of("x | tee -a /one /two | tee /three"), ["/one"]);
    assert_eq!(paths_of("x | tee -p /one"), ["/workspace/-p"]);
    assert_eq!(paths_of("mkdir -p -v /one; mkdir /two"), ["/one"]);
    assert_eq!(paths_of("mkdir '/a b'"), ["/a"]);
    assert_eq!(paths_of("dd if=a of=/one"), ["/one"]);
    assert_eq!(paths_of("dd of=/one of=/two"), ["/two"]);
    assert_eq!(paths_of("dd of=/one; dd of=/two"), ["/two"]);
    assert!(paths_of("echo x | tee /dev/null").is_empty());
    assert!(paths_of("dd if=/dev/zero of=/dev/null").is_empty());
    assert!(paths_of("touch NUL").is_empty());
    assert!(paths_of("mkdir con").is_empty());
    assert!(paths_of("touch").is_empty());
}

#[test]
fn redirects_end_at_blanks() {
    assert_eq!(paths_of("echo x > \"/a b\""), ["/a"]);
    assert_eq!(paths_of("echo x > '/a'"), ["/a"]);
    assert_eq!(paths_of("echo x>/a>>/b"), ["/a>>/b"]);
    assert_eq!(paths_of("echo x>/a; echo y>>/b"), ["/a", "/b"]);
    assert_eq!(paths_of("echo x > /a/'b'/c"), ["/a/'b'/c"]);
    assert_eq!(paths_of("bash -c \"echo x > /w/secret\" && echo \"hi\""), ["/w/secret"]);
    assert!(paths_of("echo x >| /a").is_empty());
    assert!(paths_of("echo x > 'NUL'").is_empty());
    assert_eq!(paths_of("echo x > \"\""), ["/workspace/"]);
    assert!(paths_of("cmd 2>&1").is_empty());
}

#[test]
fn powershell_commands() {
    assert_eq!(paths_of("New-Item -Path \"/a b/c\" -ItemType File"), ["/a b/c"]);
    assert_eq!(paths_of("new-item -ItemType File -Path /x"), ["/x"]);
    assert_eq!(paths_of("New-Item '/y'"), ["/y"]);
    assert_eq!(paths_of("Set-Content -Path \"/a\" -Value 1"), ["/a"]);
    assert_eq!(paths_of("'x' | Out-File -FilePath /b"), ["/b"]);
    assert_eq!(paths_of("Add-Content -Value x -Path '/c'"), ["/c"]);
    assert_eq!(paths_of("sc -Path /d"), ["/d"]);
    assert_eq!(paths_of("ac -Path /e"), ["/e"]);
    assert_eq!(paths_of("Copy-Item a -Destination \"/f\""), ["/f"]);
    assert_eq!(paths_of("Move-Item a -Destination /g; cpi a -Destination /h"), ["/g", "/h"]);
    assert_eq!(paths_of("mi a -Destination '/i'"), ["/i"]);
    assert_eq!(paths_of("Remove-Item -Recurse -Path \"/j\""), ["/j"]);
    assert_eq!(paths_of("Remove-Item -Path /tmp/x"), ["/tmp/x"]);
    assert_eq!(paths_of("remove-item -Force -Path /tmp/x -Recurse"), ["/tmp/x"]);
    assert_eq!(paths_of("Set-Content -Path /k; Set-Content -Path /l"), ["/l"]);
    assert_eq!(paths_of("Set-Content -Path /k\nSet-Content -Path /l"), ["/k", "/l"]);
    assert_eq!(paths_of("New-Item -Path '/m\" -ItemType File"), ["/m"]);
    assert!(paths_of("Set-Content -Path 'NUL'").is_empty());
    assert!(paths_of("Set-Content -Path NUL").is_empty());
    assert!(paths_of("Set-Content -Path -Value").is_empty());
}

#[test]
fn cmd_commands() {
    assert_eq!(paths_of("type nul > /tmp/empty"), ["/tmp/empty"]);
    assert_eq!(paths_of("TYPE nul > out"), ["/workspace/out"]);
    assert!(paths_of("type nul > NUL").is_empty());
}

#[test]
fn inline_code_of_each_language() {
    assert_eq!(paths_of("bun -e \"Bun.write('/b', x)\""), ["/b"]);
    assert_eq!(paths_of("deno eval \"Deno.writeTextFile('/d', x)\""), ["/d"]);
    assert_eq!(paths_of("node --eval 'fs.appendFile(\"/n\", x)'"), ["/n"]);
    assert_eq!(paths_of("python3 -c \"Path('/p').write_text('x')\""), ["/p"]);
    assert_eq!(paths_of("perl -e \"open(FH, '+', '/q')\"").len(), 0);
    assert_eq!(paths_of("ruby -e \"File.write('/r', 'x'); IO.write('rel', 'y')\""), [
        "/r",
        "/workspace/rel"
    ]);
    assert_eq!(paths_of("ruby -e \"File.open('/o', 'a')\""), ["/o"]);
    assert_eq!(paths_of("php -r \"file_put_contents('/f', 'x'); fopen('/g', 'w');\""), [
        "/f", "/g"
    ]);
    assert!(paths_of("python -c \"open('/p', 'r')\"").is_empty());
    assert!(paths_of("node -e fs.writeFileSync('/u')").is_empty());
    assert_eq!(
        paths_of("node -e \"fs.writeFile('/x')\" && node -e \"fs.writeFile('/y')\""),
        ["/x"]
    );
    assert_eq!(paths_of("python -c \"open(' x', 'w')\""), ["/workspace/ x"]);
    assert!(paths_of("python -c \"open('/dev/null', 'w')\"").is_empty());
}

#[test]
fn code_targets_by_language() {
    assert_eq!(
        find_code_targets("open(FH, '>>', '/log'); open(FH, '>', '/new')", Language::Perl),
        ["/log", "/new"]
    );
    assert_eq!(
        find_code_targets("Deno.writeSync('a'); fs.writeFileSync(\"b\")", Language::JavaScript),
        ["b", "a"]
    );
    assert!(find_code_targets("File.write('/r')", Language::Python).is_empty());
    assert_eq!(find_code_targets("Path('x').write_bytes", Language::Python), ["x"]);
    assert_eq!(find_code_targets("File.open('x', \"w\")", Language::Ruby), ["x"]);
    assert_eq!(find_code_targets("fopen('x', 'a')", Language::Php), ["x"]);
}

#[test]
fn inline_code_is_noticed() {
    for command in [
        "deno -E 'x'",
        "deno eval \"x\"",
        "bun --eval 'x'",
        "python2 -C \"x\"",
        "perl -e 'x'",
        "ruby -E 'x'",
        "php -R 'x'",
        "python -c print(1)",
        "node -e 1+1",
        "perl -e x",
        "perl -e'x'",
        "node --eval=1",
        "deno eval x",
    ] {
        assert!(has_inline(command));
    }
    for command in ["node script.js", "python -m http", "perl -e", "php", "pythonic -c 'x'", "node -e "] {
        assert!(!has_inline(command));
    }
}

#[test]
fn variables_are_expanded() {
    let mut host = Host::new(Platform::Linux);
    host.env.insert("OUT".to_string(), "/data".to_string());
    host.env.insert("HOME".to_string(), "/home/ada".to_string());
    assert_eq!(extract("echo x > $OUT/a", &host), ["/data/a"]);
    assert_eq!(extract("echo x > ${OUT}/b", &host), ["/data/b"]);
    assert_eq!(extract("echo x > $env:OUT/c", &host), ["/data/c"]);
    assert_eq!(extract("echo x > %OUT%/d", &host), ["/data/d"]);
    assert_eq!(extract("echo x > ~/Desktop/t.txt", &host), ["/home/ada/Desktop/t.txt"]);
    assert_eq!(expand_env_vars("$OUT $OUT;${OUT}%OUT%$env:OUT", &host), "/data /data;/data/data/data");
    assert_eq!(expand_env_vars("a $MISSING b ${NONE}", &host), "a  b ");
    assert_eq!(expand_env_vars("$OUT.txt $OUT", &host), "$OUT.txt /data");
    assert_eq!(expand_env_vars("$out", &host), "");
}

#[test]
fn windows_variables_ignore_case() {
    let mut host = Host::new(Platform::Windows);
    host.env.insert("UserProfile".to_string(), "C:\\Users\\ada".to_string());
    assert_eq!(expand_env_vars("$env:USERPROFILE\\x ~", &host), "C:\\Users\\ada\\x C:\\Users\\ada");
    assert_eq!(
        bitfun_sandbox::extract_write_paths(
            "New-Item -Path \"$env:USERPROFILE\\Desktop\\t.txt\" -ItemType File",
            "D:\\work",
            &host
        ),
        ["C:\\Users\\ada\\Desktop\\t.txt"]
    );
}

#[test]
fn plain_text_is_its_own_expansion() {
    let mut host = Host::new(Platform::Linux);
    host.env.insert("HOME".to_string(), "/home/ada".to_string());
    for text in ["", "echo hello > /tmp/x", "100% sure", "a $ b", "$1 %x"] {
        assert_eq!(expand_env_vars(text, &host), text);
    }
    let unknown = Host::new(Platform::Linux);
    assert_eq!(expand_env_vars("ls ~", &unknown), "ls ~");
}

#[test]
fn dangerous_commands_are_noticed() {
    for command in [
        "icacls C:\\x /grant all",
        "chmod 777 x",
        "sudo ls",
        "su -",
        "echo x && runas /user:a b",
        "Start-Process -Verb runas cmd",
        "start -verb   RUNAS",
        "setfacl -m x",
        "secedit /configure",
        "myauditpolicy",
        "Elevate",
    ] {
        assert!(is_dangerous(command), "{}", command);
    }
    for command in ["echo hello", "ls -l", "issue list", "result", "suspend", "pseudosu2", "visudo1"]
    {
        assert!(!is_dangerous(command), "{}", command);
    }
}

#[test]
fn dangerous_names_hidden_in_variables() {
    let mut host = Host::new(Platform::Linux);
    host.env.insert("X".to_string(), "sudo".to_string());
    assert!(bitfun_sandbox::is_dangerous_command("$X ls", &host));
}

#[test]
fn mentions_are_judged() {
    assert!(judge_mention("do sudo ls", "sudo", true));
    assert!(!judge_mention("do sudo ls", "sudo", false));
    assert!(judge_mention("xicaclsx", "icacls", false));
    assert!(!judge_mention("ls", "icacls", true));
}

#[test]
fn arguments_respect_quotes() {
    assert_eq!(split_args("a  b\tc"), ["a", "b", "c"]);
    assert_eq!(split_args("'a b' \"c 'd'\""), ["a b", "c 'd'"]);
    assert_eq!(split_args("a'b'c"), ["a", "b", "c"]);
    assert_eq!(split_args("/etc/'pass wd'  \"x\"'y'"), ["/etc/", "pass wd", "x", "y"]);
    assert_eq!(split_args("'' \"\""), Vec::<String>::new());
    assert_eq!(split_args("'open end"), ["open end"]);
}

#[test]
fn targets_are_picked() {
    let pick = |text: &str, pick: Pick| pick_target(text, pick);
    assert_eq!(pick(" x ", Pick::File).as_deref(), Some("x"));
    assert_eq!(pick("  ", Pick::File), None);
    assert_eq!(pick(" con ", Pick::File), None);
    assert_eq!(pick("'nul'", Pick::File), None);
    assert_eq!(pick(" x ", Pick::Plain).as_deref(), Some(" x "));
    assert_eq!(pick("-a", Pick::Plain).as_deref(), Some("-a"));
    assert_eq!(pick("CON", Pick::Plain), None);
    assert_eq!(pick("-Value", Pick::Value), None);
    assert_eq!(pick("NUL", Pick::Value), None);
    assert_eq!(pick("value", Pick::Value).as_deref(), Some("value"));
    assert_eq!(pick("a b -c", Pick::LastArgument).as_deref(), Some("b"));
    assert_eq!(pick("-a -b", Pick::LastArgument), None);
    assert_eq!(pick("a /dev/null", Pick::LastArgument), None);
    assert_eq!(pick("a", Pick::LastArgument), None);
}

#[test]
fn targets_are_picked_out_of_matches() {
    let group = |s: &str| Some(s.to_string());
    let matches = vec![
        vec![group("> a"), group("a")],
        vec![group("> b"), None],
        vec![group("> NUL"), group("NUL")],
        vec![group("> d"), group("d")],
    ];
    assert_eq!(pick_targets(Pick::File, true, &matches), ["a", "d"]);
    assert_eq!(pick_targets(Pick::File, false, &matches), ["a"]);
    assert!(pick_targets(Pick::File, false, &matches[1..].to_vec()).is_empty());
    assert!(pick_targets(Pick::File, true, &Vec::new()).is_empty());
    assert!(pick_targets(Pick::File, false, &Vec::new()).is_empty());
}

#[test]
fn chained_commands() {
    let mut host = Host::new(Platform::Linux);
    host.env.insert("X".to_string(), "su".to_string());
    host.env.insert("Y".to_string(), "do ls".to_string());
    let judge = |c: &str| bitfun_sandbox::is_dangerous_command(c, &host);
    let commands = [
        "ls", "icacls x", " setfacl x ", "echo x", "sudo x", "su", " su\t", "su\u{a0}", "xsu", "su_x",
        "-Verb", "RunAs", "runas x", "x -verb \u{3000}RUNA\u{17f}", "$X", "$X$Y", "${X}", "%X%", "$", "%X",
        "Y%", "~", "", "   ", "é", "su\u{e9}", ";", "Elevate",
    ];
    for a in commands {
        for b in commands {
            assert_eq!(judge(&format!("{}; {}", a, b)), judge(a) || judge(b), "{:?} {:?}", a, b);
        }
    }
    assert!(judge("$X"));
    assert!(judge("su\u{a0}"));
    assert!(judge("x -verb \u{3000}RUNA\u{17f}"));
    assert!(!judge("su\u{e9}"));
    assert!(!judge("su\u{660}"));
    assert!(judge("su\u{2014}"));
    assert!(!judge("-Verb x"));
}

#[test]
fn parts_between_separators_are_expanded_alone() {
    let mut host = Host::new(Platform::Linux);
    host.env.insert("A".to_string(), "$B".to_string());
    host.env.insert("B".to_string(), "%C".to_string());
    host.env.insert("C".to_string(), "c".to_string());
    host.env.insert("HOME".to_string(), "/h".to_string());
    let parts = ["$A", "$env:A", "${A}x", "%C%", "%A", "B%", "$env", ":A", "${", "A}", "~", "$A$B", "é$B"];
    for x in parts {
        for y in parts {
            for gap in [" ", ";", "/", "\\", "&&", "|", ">", "\u{2003}"] {
                assert_eq!(
                    expand_env_vars(&format!("{}{}{}", x, gap, y), &host),
                    format!("{}{}{}", expand_env_vars(x, &host), gap, expand_env_vars(y, &host))
                );
            }
        }
    }
    assert_eq!(expand_env_vars("$env:A", &host), "%C");
    assert_eq!(expand_env_vars("$A", &host), "$B");
    assert_eq!(expand_env_vars("${A}/%C%", &host), "%C/c");
    assert_eq!(expand_env_vars("%%C%C%", &host), "%cC%");
    assert_eq!(expand_env_vars("$env:1 ${1} $1 %1%", &host), "$env:1 ${1} $1 %1%");
    assert_eq!(expand_env_vars("$env:C1$env:C.", &host), "c.");
}

#[test]
fn mentions_are_replaced() {
    let mut env = EnvMap::new();
    env.insert("Out".to_string(), "/data".to_string());
    assert_eq!(replacement(&env, false, "Out", ";"), "/data;");
    assert_eq!(replacement(&env, false, "OUT", ";"), ";");
    assert_eq!(replacement(&env, true, "OUT", ""), "/data");
}

#[test]
fn extracted_paths_are_absolute() {
    for command in ["a > b; cp c ../d; touch 'e f'", "node -e \"fs.writeFile('g')\""] {
        for path in paths_of(command) {
            assert!(path.starts_with('/'));
        }
    }
}

#[test]
fn arguments_become_absolute_paths() {
    assert_eq!(resolve_arg("'/a b'", "/w", Platform::Linux), "/a b");
    assert_eq!(resolve_arg("\"x\"", "/w", Platform::Linux), "/w/x");
    assert_eq!(resolve_arg("x", "/w/", Platform::Linux), "/w/x");
    assert_eq!(resolve_arg("..", "/w", Platform::Linux), "/w/..");
    assert_eq!(resolve_arg("", "/w", Platform::Linux), "/w/");
    assert_eq!(resolve_arg("x\\y", "C:\\w", Platform::Windows), "C:\\w\\x\\y");
    assert_eq!(resolve_arg("\\y", "C:\\w", Platform::Windows), "C:\\y");
    assert_eq!(resolve_arg("D:\\y", "C:\\w", Platform::Windows), "D:\\y");
    assert_eq!(resolve_arg("D:y", "C:\\w", Platform::Windows), "D:y");
    assert_eq!(resolve_arg("..\\y", "\\\\?\\C:\\w", Platform::Windows), "\\\\?\\C:\\y");
}

#[test]
fn words_are_escaped_in_patterns() {
    assert_eq!(
        bitfun_sandbox::rules::make_word_pattern(r"\b", "Copy-Item", r"\b"),
        r"\bCopy\-Item\b"
    );
    assert_eq!(
        bitfun_sandbox::rules::make_word_pattern("", "a.b+c*d?(e)[f]{g}^h$i#j&k~l\\m|n o", ""),
        r"a\.b\+c\*d\?\(e\)\[f\]\{g\}\^h\$i\#j\&k\~l\\m\|n o"
    );
}
