use tinyshell::{
    escape_double_quoted_arg, extract_redirection, parse_input, tokenize, LexError, Mode, ParsedLine,
    Redirection, Stream, Token,
};

fn strings(v: &[&str]) -> Vec<String> {
    v.iter().map(|s| s.to_string()).collect()
}

fn parsed(line: &str) -> ParsedLine {
    parse_input(line).expect("the line should parse")
}

#[test]
fn plain_line_splits_on_blank_runs() {
    let p = parsed("  ls   -la \t /tmp  ");
    assert_eq!(p.command, "ls");
    assert_eq!(p.arguments, strings(&["-la", "/tmp"]));
    assert_eq!(p.redirection, Redirection::Inherit);
}

#[test]
fn single_quotes_keep_spaces() {
    let p = parsed("echo 'a b' c");
    assert_eq!(p.command, "echo");
    assert_eq!(p.arguments, strings(&["a b", "c"]));
    assert_eq!(p.redirection, Redirection::Inherit);
}

#[test]
fn adjacent_fragments_concatenate() {
    let p = parsed("echo 'hello'world");
    assert_eq!(p.arguments, strings(&["helloworld"]));
    let q = parsed("echo 'a'b\"c\"");
    assert_eq!(q.arguments, strings(&["abc"]));
}

#[test]
fn escaped_space_joins_argument() {
    let p = parsed("echo a\\ b");
    assert_eq!(p.arguments, strings(&["a b"]));
}

#[test]
fn escaped_quote_inside_double_quotes() {
    let p = parsed("echo \"say \\\"hi\\\"\"");
    assert_eq!(p.arguments, strings(&["say \"hi\""]));
}

#[test]
fn no_escapes_inside_single_quotes() {
    let p = parsed("echo '\\n'");
    assert_eq!(p.arguments, strings(&["\\n"]));
    assert_eq!(p.arguments[0].chars().count(), 2);
}

#[test]
fn truncate_redirection_to_stdout() {
    let p = parsed("ls > out.txt");
    assert_eq!(p.command, "ls");
    assert!(p.arguments.is_empty());
    assert_eq!(
        p.redirection,
        Redirection::Target { stream: Stream::Stdout, mode: Mode::Truncate, path: "out.txt".to_string() }
    );
}

#[test]
fn append_redirection_with_explicit_fd() {
    let p = parsed("ls 2>> err.log");
    assert_eq!(p.command, "ls");
    assert!(p.arguments.is_empty());
    assert_eq!(
        p.redirection,
        Redirection::Target { stream: Stream::Stderr, mode: Mode::Append, path: "err.log".to_string() }
    );
}

#[test]
fn quoted_operator_is_an_argument() {
    let p = parsed("echo '>' foo");
    assert_eq!(p.arguments, strings(&[">", "foo"]));
    assert_eq!(p.redirection, Redirection::Inherit);
}

#[test]
fn unterminated_quote_fails() {
    assert_eq!(parse_input("echo 'unterminated"), Err(LexError::UnterminatedQuote));
    assert_eq!(parse_input("echo \"abc \\\""), Err(LexError::UnterminatedQuote));
}

#[test]
fn parsing_twice_gives_the_same_result() {
    for line in ["echo 'a b' c > f", "ls 2>> err.log", "x 'open", "", "a\\ b \"c\\$\""] {
        assert_eq!(parse_input(line), parse_input(line));
    }
}

#[test]
fn empty_and_blank_lines_give_the_empty_command() {
    for line in ["", "   ", "\t \n", "> out.txt"] {
        let p = parsed(line);
        assert_eq!(p.command, "");
        assert!(p.arguments.is_empty());
        assert_eq!(p.redirection, Redirection::Inherit);
    }
}

#[test]
fn fd_one_selects_stdout() {
    let p = parsed("cat a 1>b.txt\n");
    assert_eq!(p.arguments, strings(&["a"]));
    assert_eq!(
        p.redirection,
        Redirection::Target { stream: Stream::Stdout, mode: Mode::Truncate, path: "b.txt".to_string() }
    );
}

#[test]
fn malformed_redirections_stay_arguments() {
    let p = parsed("echo 3> f");
    assert_eq!(p.arguments, strings(&["3>", "f"]));
    assert_eq!(p.redirection, Redirection::Inherit);
    let q = parsed("echo 12> f");
    assert_eq!(q.arguments, strings(&["12>", "f"]));
    assert_eq!(q.redirection, Redirection::Inherit);
    let r = parsed("echo a >  ");
    assert_eq!(r.arguments, strings(&["a", ">"]));
    assert_eq!(r.redirection, Redirection::Inherit);
}

#[test]
fn escaped_operator_is_an_argument() {
    let p = parsed("echo a\\>b");
    assert_eq!(p.arguments, strings(&["a>b"]));
    assert_eq!(p.redirection, Redirection::Inherit);
}

#[test]
fn operator_right_after_a_quote() {
    let p = parsed("echo 'x'>f");
    assert_eq!(p.arguments, strings(&["x"]));
    assert_eq!(
        p.redirection,
        Redirection::Target { stream: Stream::Stdout, mode: Mode::Truncate, path: "f".to_string() }
    );
}

#[test]
fn target_runs_to_end_of_line() {
    let p = parsed("echo hi >> 'my file'  ");
    assert_eq!(p.arguments, strings(&["hi"]));
    assert_eq!(
        p.redirection,
        Redirection::Target { stream: Stream::Stdout, mode: Mode::Append, path: "'my file'".to_string() }
    );
}

#[test]
fn trailing_backslash_is_literal() {
    let p = parsed("echo a\\");
    assert_eq!(p.arguments, strings(&["a\\"]));
}

#[test]
fn empty_quotes_add_nothing() {
    let p = parsed("echo '' x \"\"");
    assert_eq!(p.arguments, strings(&["x"]));
}

#[test]
fn double_quote_escapes_resolve() {
    let p = parsed("echo \"a\\$b\\nc\\\\d\\qe\"");
    assert_eq!(p.arguments, strings(&["a$b\nc\\d\\qe"]));
}

#[test]
fn quoted_command_name() {
    let p = parsed("'my prog' x");
    assert_eq!(p.command, "my prog");
    assert_eq!(p.arguments, strings(&["x"]));
}

#[test]
fn tokenize_classifies_fragments() {
    let t = tokenize("a  'b c'\"d\\\"\"\\ e").unwrap();
    assert_eq!(
        t,
        vec![
            Token::Literal("a".to_string()),
            Token::Boundary,
            Token::SingleQuoted("b c".to_string()),
            Token::DoubleQuoted("d\\\"".to_string()),
            Token::Escaped(' '),
            Token::Literal("e".to_string()),
        ]
    );
    assert_eq!(tokenize("a \"b"), Err(LexError::UnterminatedQuote));
    assert_eq!(tokenize(""), Ok(vec![]));
}

#[test]
fn extract_redirection_splits_the_line() {
    let (region, r) = extract_redirection("sort -r 2> errs");
    assert_eq!(region, "sort -r ");
    assert_eq!(
        r,
        Redirection::Target { stream: Stream::Stderr, mode: Mode::Truncate, path: "errs".to_string() }
    );
    let (whole, none) = extract_redirection("echo \"a > b\"");
    assert_eq!(whole, "echo \"a > b\"");
    assert_eq!(none, Redirection::Inherit);
}

#[test]
fn escape_double_quoted_arg_resolves_pairs() {
    assert_eq!(escape_double_quoted_arg("\\\\"), "\\");
    assert_eq!(escape_double_quoted_arg("\\\""), "\"");
    assert_eq!(escape_double_quoted_arg("\\$x"), "$x");
    assert_eq!(escape_double_quoted_arg("a\\nb"), "a\nb");
    assert_eq!(escape_double_quoted_arg("\\\\n"), "\\n");
    assert_eq!(escape_double_quoted_arg("\\t"), "\\t");
    assert_eq!(escape_double_quoted_arg("end\\"), "end\\");
}

#[test]
fn non_ascii_blanks_split_words() {
    let p = parsed("a\u{3000}b\u{a0}c");
    assert_eq!(p.command, "a");
    assert_eq!(p.arguments, strings(&["b", "c"]));
}

#[test]
fn blanks_are_the_unicode_white_space_characters() {
    let samples = (0u32..0x3100).chain([0xfeff, 0x180e, 0x200b, 0x10000, 0x1f600]);
    for u in samples {
        if let Some(c) = char::from_u32(u) {
            assert_eq!(tinyshell::text::is_space_char(c), c.is_whitespace(), "U+{:04X}", u);
        }
    }
}
