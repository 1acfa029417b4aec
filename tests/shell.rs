use tinyshell::{
    builtin_names, handle_echo_cmd, handle_exit_cmd, is_builtin, parse_status, split_path, handle_type_cmd,
    Autocompleter, CommandType,
};

fn strings(v: &[&str]) -> Vec<String> {
    v.iter().map(|s| s.to_string()).collect()
}

#[test]
fn echo_joins_with_spaces() {
    assert_eq!(handle_echo_cmd(&strings(&["a", "b c", "d"])), "a b c d\n");
    assert_eq!(handle_echo_cmd(&strings(&[])), "\n");
}

#[test]
fn exit_status_reads_a_byte() {
    assert_eq!(handle_exit_cmd(&strings(&[])), 0);
    assert_eq!(handle_exit_cmd(&strings(&["3", "x"])), 3);
    assert_eq!(handle_exit_cmd(&strings(&["+7"])), 7);
    assert_eq!(handle_exit_cmd(&strings(&["255"])), 255);
    assert_eq!(handle_exit_cmd(&strings(&["256"])), 1);
    assert_eq!(handle_exit_cmd(&strings(&["abc"])), 1);
    assert_eq!(handle_exit_cmd(&strings(&["-1"])), 1);
}

#[test]
fn parse_status_agrees_with_std() {
    for s in ["0", "007", "+", "", "12a", "255", "256", "99999999999", "+0", "-0", " 1"] {
        assert_eq!(parse_status(s), s.parse::<u8>().ok(), "input {:?}", s);
    }
}

#[test]
fn builtins_are_known() {
    assert!(is_builtin("echo"));
    assert!(is_builtin("exit"));
    assert!(is_builtin("type"));
    assert!(!is_builtin("ls"));
    assert!(!is_builtin("echo "));
    assert_eq!(builtin_names(), strings(&["echo", "exit", "type"]));
}

#[test]
fn resolve_prefers_builtins() {
    assert_eq!(CommandType::resolve("echo", Some("/bin/echo".to_string())), Some(CommandType::Builtin));
    assert_eq!(
        CommandType::resolve("ls", Some("/bin/ls".to_string())),
        Some(CommandType::Executable("/bin/ls".to_string()))
    );
    assert_eq!(CommandType::resolve("nope", None), None);
}

#[test]
fn search_path_splits_on_colons() {
    assert_eq!(split_path("/bin:/usr/bin"), strings(&["/bin", "/usr/bin"]));
    assert_eq!(split_path("/bin::/x:"), strings(&["/bin", "", "/x", ""]));
    assert_eq!(split_path(""), strings(&[""]));
}

#[test]
fn type_reports_each_argument() {
    let args = strings(&["echo", "ls", "  ", "nope"]);
    let kinds = vec![
        Some(CommandType::Builtin),
        Some(CommandType::Executable("/bin/ls".to_string())),
        None,
        None,
    ];
    assert_eq!(
        handle_type_cmd(&args, &kinds),
        "echo is a shell builtin\nls is /bin/ls\nnope: not found\n"
    );
}

#[test]
fn completion_of_the_first_word() {
    let ac = Autocompleter::new(&strings(&["echo", "exit", "ls", "echo"]));
    let (start, found) = ac.find_matches("ec", 2);
    assert_eq!(start, 0);
    assert_eq!(found.len(), 1);
    assert_eq!(found[0].display, "echo");
    assert_eq!(found[0].replacement, "echo ");
    let (start, mut all) = ac.find_matches("e", 1);
    assert_eq!(start, 0);
    all.sort_by(|a, b| a.display.cmp(&b.display));
    let names: Vec<&str> = all.iter().map(|c| c.display.as_str()).collect();
    assert_eq!(names, vec!["echo", "exit"]);
}

#[test]
fn completion_after_other_text_offers_nothing() {
    let ac = Autocompleter::new(&strings(&["echo", "ls"]));
    let (start, found) = ac.find_matches("ls ec", 5);
    assert_eq!(start, 3);
    assert!(found.is_empty());
    let (start, found) = ac.find_matches("  l", 3);
    assert_eq!(start, 2);
    assert_eq!(found.len(), 1);
    assert_eq!(found[0].display, "ls");
}

#[test]
fn completion_word_stops_at_cursor() {
    let ac = Autocompleter::new(&strings(&["ls", "less"]));
    let (start, found) = ac.find_matches("lexx", 2);
    assert_eq!(start, 0);
    assert_eq!(found.len(), 1);
    assert_eq!(found[0].display, "less");
}
