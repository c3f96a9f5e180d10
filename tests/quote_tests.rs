use red::quote::{compose_command, is_quoted, split_args, split_cmd_args};
use red::text::{parse_number, trim};

#[test]
fn quoting_by_quotes_and_brackets() {
    let text = r#"echo "a b" (c d) x"#;
    assert!(!is_quoted(text, 4));
    assert!(is_quoted(text, 8));
    assert!(!is_quoted(text, 10));
    assert!(is_quoted(text, 13));
    assert!(!is_quoted(text, 16));
    assert!(!is_quoted(r#"a\"b c"#, 4));
    assert!(is_quoted("{[ x", 3));
    assert!(is_quoted(r"a\b", 2));
    assert!(!is_quoted(r"a\\b", 3));
    assert!(is_quoted(r"a\\\ b", 4));
}

#[test]
fn escaped_blank_does_not_split() {
    assert_eq!(split_args(r"a\ b c"), vec![r"a\ b", "c"]);
}

#[test]
fn command_and_arguments() {
    assert_eq!(split_cmd_args("  ls   -l  /tmp "), ("ls".to_string(), "-l  /tmp".to_string()));
    assert_eq!(split_cmd_args("pwd"), ("pwd".to_string(), String::new()));
    assert_eq!(split_args(r#"-e "a b"  c"#), vec!["-e", r#""a b""#, "c"]);
    assert_eq!(split_args("(x y) z"), vec!["(x y)", "z"]);
    assert!(split_args("   ").is_empty());
    let (cmd, args) = compose_command("echo -e one two");
    assert_eq!(cmd, "echo");
    assert_eq!(args, vec!["-e", "one", "two"]);
}

#[test]
fn trimming_and_numbers() {
    assert_eq!(trim(" \t x y \n"), "x y");
    assert_eq!(parse_number("0042"), Some(42));
    assert_eq!(parse_number("18446744073709551615"), Some(usize::MAX));
    assert_eq!(parse_number("18446744073709551616"), None);
    assert_eq!(parse_number(""), None);
    assert_eq!(parse_number("4a"), None);
}
