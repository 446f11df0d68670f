use josh::{chars_of, split_words, Action, Evaluation, Shell, ShellError};

fn shell() -> Shell {
    Shell::new("/".to_string())
}

fn words(e: Evaluation) -> Vec<String> {
    match e {
        Evaluation::Words(w) => w,
        other => panic!("expected words, got {:?}", other),
    }
}

fn strs(v: &[&str]) -> Vec<String> {
    v.iter().map(|s| s.to_string()).collect()
}

#[test]
fn split_then_rejoin_is_stable() {
    let first = split_words(&chars_of("echo   \"a\"b  c")).unwrap();
    let joined: Vec<String> = first.iter().map(|w| w.iter().collect()).collect();
    assert_eq!(joined, strs(&["echo", "ab", "c"]));
    let again = split_words(&chars_of(&joined.join(" "))).unwrap();
    assert_eq!(again, first);
}

#[test]
fn assignment_sets_variable() {
    let mut sh = shell();
    let r = words(sh.parse_argv("FOO=bar".to_string(), &vec![]));
    assert!(r.is_empty());
    assert_eq!(sh.vars.get("FOO"), Some("bar".to_string()));
}

#[test]
fn braced_variable_expands() {
    let mut sh = shell();
    sh.vars.set("FOO", "bar");
    let r = words(sh.parse_argv("echo ${FOO}".to_string(), &vec![]));
    assert_eq!(r, strs(&["echo", "bar"]));
}

#[test]
fn plain_variable_stops_at_non_alphanumeric() {
    let mut sh = shell();
    sh.vars.set("FOO", "bar");
    let r = words(sh.parse_argv("echo $FOO-x $NOPE.".to_string(), &vec![]));
    assert_eq!(r, strs(&["echo", "bar-x", "."]));
}

#[test]
fn unset_braced_variable_is_empty() {
    let mut sh = shell();
    let r = words(sh.parse_argv("echo a${NOPE}b".to_string(), &vec![]));
    assert_eq!(r, strs(&["echo", "ab"]));
}

#[test]
fn quoted_space_is_kept() {
    let mut sh = shell();
    let r = words(sh.parse_argv("echo \"a b\"".to_string(), &vec![]));
    assert_eq!(r, strs(&["echo", "a b"]));
}

#[test]
fn unterminated_quote_fails() {
    let mut sh = shell();
    let r = sh.parse_argv("echo unterminated \"oops".to_string(), &vec![]);
    assert!(matches!(r, Evaluation::Unterminated));
}

#[test]
fn empty_and_blank_lines_give_no_words() {
    let mut sh = shell();
    assert!(words(sh.parse_argv("".to_string(), &vec![])).is_empty());
    assert!(words(sh.parse_argv("    ".to_string(), &vec![])).is_empty());
}

#[test]
fn newline_is_dropped() {
    let mut sh = shell();
    let r = words(sh.parse_argv("ec\nho hi\n".to_string(), &vec![]));
    assert_eq!(r, strs(&["echo", "hi"]));
}

#[test]
fn assignment_mid_line_removes_only_that_field() {
    let mut sh = shell();
    let r = words(sh.parse_argv("echo A=1 b".to_string(), &vec![]));
    assert_eq!(r, strs(&["echo", "b"]));
    assert_eq!(sh.vars.get("A"), Some("1".to_string()));
}

#[test]
fn field_with_empty_value_is_an_assignment() {
    let mut sh = shell();
    let r = sh.eval_vars(strs(&["A=", "=b", "x=y=z", "-c=1"]));
    assert_eq!(r, strs(&["=b", "-c=1"]));
    assert_eq!(sh.vars.get("x"), Some("y=z".to_string()));
    assert_eq!(sh.vars.get("A"), Some("".to_string()));
}

#[test]
fn empty_assignment_gives_no_words() {
    let mut sh = shell();
    let r = words(sh.parse_argv("FOO=".to_string(), &vec![]));
    assert!(r.is_empty());
    assert_eq!(sh.vars.get("FOO"), Some("".to_string()));
}

#[test]
fn substitution_asks_for_output_then_splices_it() {
    let mut sh = shell();
    let r = sh.parse_argv("X=1 echo $(date -u)".to_string(), &vec![]);
    match r {
        Evaluation::NeedsOutput(cmd) => assert_eq!(cmd, strs(&["date", "-u"])),
        other => panic!("expected a request, got {:?}", other),
    }
    assert_eq!(sh.vars.get("X"), None);
    let r = words(sh.parse_argv("X=1 echo $(date -u)".to_string(), &strs(&["Mon 1"])));
    assert_eq!(r, strs(&["echo", "Mon", "1"]));
    assert_eq!(sh.vars.get("X"), Some("1".to_string()));
}

#[test]
fn nested_substitution_runs_inner_first() {
    let mut sh = shell();
    let line = "echo $(cat $(ls))".to_string();
    match sh.parse_argv(line.clone(), &vec![]) {
        Evaluation::NeedsOutput(cmd) => assert_eq!(cmd, strs(&["ls"])),
        other => panic!("expected a request, got {:?}", other),
    }
    match sh.parse_argv(line.clone(), &strs(&["f"])) {
        Evaluation::NeedsOutput(cmd) => assert_eq!(cmd, strs(&["cat", "f"])),
        other => panic!("expected a request, got {:?}", other),
    }
    let r = words(sh.parse_argv(line, &strs(&["f", "text"])));
    assert_eq!(r, strs(&["echo", "text"]));
}

#[test]
fn builtin_in_substitution_gives_nothing() {
    let mut sh = shell();
    let r = words(sh.parse_argv("echo $(cd /tmp)x".to_string(), &vec![]));
    assert_eq!(r, strs(&["echo", "x"]));
}

#[test]
fn alias_round_trip() {
    let mut sh = shell();
    let r = sh.run_line("alias ll \"ls -la\"", &vec![]);
    assert!(matches!(r, Action::Continue));
    assert_eq!(sh.aliases.get("ll"), Some("ls -la".to_string()));
    match sh.run_line("ll /tmp", &vec![]) {
        Action::Spawn(name, argv) => {
            assert_eq!(name, "ll");
            assert_eq!(argv, strs(&["ls", "-la", "/tmp"]));
        }
        other => panic!("expected a spawn, got {:?}", other),
    }
}

#[test]
fn alias_arity_errors() {
    let mut sh = shell();
    assert!(matches!(sh.run_line("alias x", &vec![]), Action::Failed(ShellError::AliasTooFewArguments)));
    assert!(matches!(
        sh.run_line("alias a b c", &vec![]),
        Action::Failed(ShellError::AliasTooManyArguments)
    ));
    assert_eq!(sh.aliases.get("x"), None);
    assert_eq!(sh.aliases.get("a"), None);
}

#[test]
fn cd_with_two_arguments_is_refused() {
    let mut sh = shell();
    let r = sh.dispatch(&strs(&["cd", "a", "b"]), &vec![]);
    assert!(matches!(r, Action::Failed(ShellError::CdTooManyArguments)));
    assert_eq!(sh.working_dir, "/");
}

#[test]
fn cd_targets() {
    let mut sh = shell();
    match sh.run_line("cd", &vec![]) {
        Action::ChangeDir(d) => assert_eq!(d, "~"),
        other => panic!("expected cd, got {:?}", other),
    }
    match sh.run_line("cd /tmp", &vec![]) {
        Action::ChangeDir(d) => assert_eq!(d, "/tmp"),
        other => panic!("expected cd, got {:?}", other),
    }
    sh.finish_cd("/nope".to_string(), false);
    assert_eq!(sh.working_dir, "/");
    sh.finish_cd("/tmp".to_string(), true);
    assert_eq!(sh.working_dir, "/tmp");
}

#[test]
fn exit_and_plain_commands() {
    let mut sh = shell();
    assert!(matches!(sh.run_line("exit", &vec![]), Action::Exit));
    assert!(matches!(sh.run_line("", &vec![]), Action::Continue));
    match sh.run_line("ls -l", &vec![]) {
        Action::Spawn(name, argv) => {
            assert_eq!(name, "ls");
            assert_eq!(argv, strs(&["ls", "-l"]));
        }
        other => panic!("expected a spawn, got {:?}", other),
    }
    assert!(matches!(
        sh.run_line("echo \"x", &vec![]),
        Action::Failed(ShellError::UnterminatedQuote)
    ));
}

#[test]
fn new_shell_has_prompt_variable() {
    let sh = shell();
    assert_eq!(sh.vars.get("PS1"), Some("> ".to_string()));
    assert_eq!(sh.aliases.get("PS1"), None);
}

#[test]
fn evaluate_then_rejoin_is_stable() {
    let mut sh = shell();
    sh.vars.set("FOO", "x");
    let first = words(sh.parse_argv("  echo   ${FOO}y \"b\"  A=1".to_string(), &vec![]));
    assert_eq!(first, strs(&["echo", "xy", "b"]));
    let again = words(sh.parse_argv(first.join(" "), &vec![]));
    assert_eq!(again, first);
}
