use josh::{
    candidates, complete_line, completion_request, expand_tilde_with, format_prompt,
    history_entries, should_record, chars_of, Completion, Edit, Editor, Entry, Key,
};

fn strs(v: &[&str]) -> Vec<String> {
    v.iter().map(|s| s.to_string()).collect()
}

fn typed(e: &mut Editor, text: &str, hist: &Vec<String>) {
    for c in text.chars() {
        e.step(Key::Char(c), hist);
    }
}

#[test]
fn typing_and_cursor_moves() {
    let hist = vec![];
    let mut e = Editor::new();
    typed(&mut e, "ac", &hist);
    e.step(Key::Left, &hist);
    typed(&mut e, "b", &hist);
    assert_eq!(e.line(), "abc");
    assert_eq!(e.cursor_back(), 1);
    e.step(Key::Right, &hist);
    e.step(Key::Right, &hist);
    assert_eq!(e.cursor_back(), 0);
    e.step(Key::Backspace, &hist);
    assert_eq!(e.line(), "ab");
    e.step(Key::Left, &hist);
    e.step(Key::Left, &hist);
    e.step(Key::Left, &hist);
    e.step(Key::Backspace, &hist);
    assert_eq!(e.line(), "ab");
    assert_eq!(e.cursor_back(), 2);
    match e.step(Key::Enter, &hist) {
        Edit::Submitted(s) => assert_eq!(s, "ab"),
        other => panic!("expected a line, got {:?}", other),
    }
}

#[test]
fn interrupt_and_end_of_input() {
    let hist = vec![];
    let mut e = Editor::new();
    typed(&mut e, "x", &hist);
    assert!(matches!(e.step(Key::Interrupt, &hist), Edit::Aborted));
    assert!(matches!(e.step(Key::EndOfInput, &hist), Edit::Closed));
}

#[test]
fn up_arrow_loads_newest_entry() {
    let hist = strs(&["ls", "pwd"]);
    let mut e = Editor::new();
    e.step(Key::Up, &hist);
    assert_eq!(e.line(), "pwd");
    assert_eq!(e.cursor_back(), 0);
    e.step(Key::Up, &hist);
    assert_eq!(e.line(), "ls");
    e.step(Key::Up, &hist);
    assert_eq!(e.line(), "ls");
}

#[test]
fn down_arrow_returns_to_typed_text() {
    let hist = strs(&["one", "two", "three"]);
    let mut e = Editor::new();
    typed(&mut e, "draft", &hist);
    e.step(Key::Up, &hist);
    e.step(Key::Up, &hist);
    e.step(Key::Up, &hist);
    assert_eq!(e.line(), "one");
    e.step(Key::Down, &hist);
    assert_eq!(e.line(), "two");
    e.step(Key::Down, &hist);
    assert_eq!(e.line(), "three");
    e.step(Key::Down, &hist);
    assert_eq!(e.line(), "draft");
    e.step(Key::Down, &hist);
    assert_eq!(e.line(), "draft");
}

#[test]
fn completion_requests() {
    assert!(matches!(completion_request("ls"), Completion::Nothing));
    assert!(matches!(completion_request(""), Completion::Nothing));
    assert!(matches!(completion_request("ls "), Completion::WorkingDir));
    match completion_request("cat sr") {
        Completion::Search(d, p) => {
            assert_eq!(d, "./sr");
            assert_eq!(p, "sr");
        }
        other => panic!("expected a search, got {:?}", other),
    }
    match completion_request("cat /us") {
        Completion::Search(d, p) => {
            assert_eq!(d, "/us");
            assert_eq!(p, "/us");
        }
        other => panic!("expected a search, got {:?}", other),
    }
}

fn entry(path: &str, name: &str, is_dir: bool) -> Entry {
    Entry { path: path.to_string(), name: name.to_string(), is_dir }
}

#[test]
fn single_candidate_completes_field() {
    let req = completion_request("cat sr");
    let entries = vec![entry("./src", "src", true), entry("./Cargo.toml", "Cargo.toml", false)];
    let (full, shown) = candidates(&req, &entries);
    assert_eq!(full, strs(&["src/"]));
    assert_eq!(shown, strs(&["src/"]));
    let hist = vec![];
    let mut e = Editor::new();
    typed(&mut e, "cat sr", &hist);
    assert!(e.complete(&full));
    assert_eq!(e.line(), "cat src/");
    assert_eq!(e.cursor_back(), 0);
}

#[test]
fn several_candidates_leave_line() {
    let req = completion_request("cat src/m");
    let entries = vec![
        entry("./src/main.rs", "main.rs", false),
        entry("./src/mod", "mod", true),
        entry("./src/lib.rs", "lib.rs", false),
    ];
    let (full, shown) = candidates(&req, &entries);
    assert_eq!(full, strs(&["src/main.rs", "src/mod/"]));
    assert_eq!(shown, strs(&["main.rs", "mod/"]));
    let hist = vec![];
    let mut e = Editor::new();
    typed(&mut e, "cat src/m", &hist);
    assert!(!e.complete(&full));
    assert_eq!(e.line(), "cat src/m");
}

#[test]
fn working_dir_candidates_and_new_field() {
    let req = completion_request("ls ");
    let entries = vec![entry("./a", "a", false), entry("./b", "b", true)];
    let (full, shown) = candidates(&req, &entries);
    assert_eq!(full, strs(&["a", "b/"]));
    assert_eq!(shown, full);
    let line: String = complete_line(&chars_of("ls  "), "a").iter().collect();
    assert_eq!(line, "ls a");
    let line: String = complete_line(&chars_of("cat  x\ty"), "yes").iter().collect();
    assert_eq!(line, "cat x yes");
}

#[test]
fn tilde_expansion() {
    let home = Some("/home/u".to_string());
    assert_eq!(expand_tilde_with("~", home.clone()), Some("/home/u".to_string()));
    assert_eq!(expand_tilde_with("~/x/y", home.clone()), Some("/home/u/x/y".to_string()));
    assert_eq!(expand_tilde_with("~/x", Some("/".to_string())), Some("/x".to_string()));
    assert_eq!(expand_tilde_with("~foo", home.clone()), Some("~foo".to_string()));
    assert_eq!(expand_tilde_with("a/~", home), Some("a/~".to_string()));
    assert_eq!(expand_tilde_with("~", None), None);
    assert_eq!(expand_tilde_with("/tmp", None), Some("/tmp".to_string()));
}

#[test]
fn prompt_placeholders() {
    let p = format_prompt("\\u@\\h:\\w$ \\x", "/home/u/src", "/home/u", "box", "me");
    assert_eq!(p, "me@box:~/src$ \\x");
    let p = format_prompt("[\\w]", "/etc", "/home/u", "box", "me");
    assert_eq!(p, "[/etc]");
}

#[test]
fn history_rules() {
    let h = history_entries(&strs(&["ls", "", "pwd", ""]));
    assert_eq!(h, strs(&["ls", "pwd"]));
    assert!(should_record(&vec![], "ls"));
    assert!(!should_record(&h, "pwd"));
    assert!(should_record(&h, "ls"));
}

#[test]
fn prompt_from_shell_variable() {
    let mut sh = josh::Shell::new("/".to_string());
    assert_eq!(sh.get_ps1("/"), "> ");
    sh.vars.set("PS1", "$ ");
    assert_eq!(sh.get_ps1("/"), "$ ");
}

#[test]
fn paths_without_tilde_are_kept() {
    assert_eq!(josh::expand_tilde("/usr/bin"), Some("/usr/bin".to_string()));
    assert_eq!(josh::expand_tilde("rel/~x"), Some("rel/~x".to_string()));
}

#[test]
fn later_binding_replaces_earlier() {
    let mut t = josh::Table::new();
    t.set("A", "1");
    t.set("B", "2");
    t.set("A", "3");
    assert_eq!(t.get("A"), Some("3".to_string()));
    assert_eq!(t.get("B"), Some("2".to_string()));
    assert_eq!(t.get("C"), None);
    t.truncate(2);
    assert_eq!(t.get("A"), Some("1".to_string()));
}

#[test]
fn tab_completes_single_file_in_place() {
    let hist = vec![];
    let mut e = Editor::new();
    typed(&mut e, "cat fo", &hist);
    let req = completion_request(&e.line());
    let entries = vec![entry("./foo.txt", "foo.txt", false), entry("./bar", "bar", true)];
    let (full, shown) = candidates(&req, &entries);
    assert_eq!(full, strs(&["foo.txt"]));
    assert_eq!(shown, strs(&["foo.txt"]));
    assert!(e.complete(&full));
    assert_eq!(e.line(), "cat foo.txt");
    assert_eq!(e.cursor_back(), 0);
    match e.step(Key::Enter, &hist) {
        Edit::Submitted(s) => assert_eq!(s, "cat foo.txt"),
        other => panic!("expected a line, got {:?}", other),
    }
}
