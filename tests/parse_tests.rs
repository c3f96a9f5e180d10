use red::buffer::Buffer;
use red::format::split_lines;
use red::parse::{
    get_address_range, get_opchar_index, is_address_separator, is_in_regex, parse_address_field,
    parse_address_list, parse_command,
};

const COMMAND_CONTENT_LINE_1: &str = "testcmd";
const COMMAND_CONTENT_LINE_2: &str = "testcmda testcmdb";

/// The output of `echo -e` given `num_lines` lines of `line_str` followed
/// by their numbers.
fn echoed_lines(line_str: &str, num_lines: usize) -> String {
    let mut content = String::new();
    for i in 1..(num_lines + 1) {
        content.push_str(line_str);
        content.push_str(&i.to_string());
        content.push('\n');
    }
    content.push('\n');
    content
}

fn open_command_buffer_test(command_line_version: u8) -> Buffer {
    let line = match command_line_version {
        1 => COMMAND_CONTENT_LINE_1,
        2 => COMMAND_CONTENT_LINE_2,
        _ => "",
    };
    let mut buffer = Buffer::new(split_lines(&echoed_lines(line, 7)));
    buffer.set_current_address(1);
    buffer
}

#[test]
fn parse_get_opchar_index_test_1() {
    let _in: &str = "e myfile.txt";
    assert_eq!(get_opchar_index(_in).unwrap_or((9999, '\0')), (0, 'e'));
}

#[test]
fn parse_get_opchar_index_test_2() {
    let _in: &str = "       e myfile.txt";
    assert_eq!(get_opchar_index(_in).unwrap_or((9999, '\0')), (0, 'e'));
}

#[test]
fn parse_get_opchar_index_test_3() {
    let _in: &str = "  \t\t  \te myfile.txt";
    assert_eq!(get_opchar_index(_in).unwrap_or((9999, '\0')), (0, 'e'));
}

#[test]
fn parse_get_opchar_index_test_4() {
    let _in: &str = ".a";
    assert_eq!(get_opchar_index(_in).unwrap_or((9999, '\0')), (1, 'a'));
}

#[test]
fn parse_get_opchar_index_test_5() {
    let _in: &str = ".,.p";
    assert_eq!(get_opchar_index(_in).unwrap_or((9999, '\0')), (3, 'p'));
}

#[test]
fn parse_get_opchar_index_test_6() {
    let _in: &str = ".-2,.+2p";
    assert_eq!(get_opchar_index(_in).unwrap_or((9999, '\0')), (7, 'p'));
}

#[test]
fn parse_get_opchar_index_test_7() {
    let _in: &str = "/^Beginning with.*$/;/.* at the end$/s_mytest_yourtest_g";
    assert_eq!(get_opchar_index(_in).unwrap_or((9999, '\0')), (37, 's'));
}

#[test]
fn parse_get_opchar_index_test_8() {
    let _in: &str = "\t \t /^Beginning with.*$/;/.* at the end$/s_mytest_yourtest_g";
    assert_eq!(get_opchar_index(_in).unwrap_or((9999, '\0')), (37, 's'));
}

#[test]
fn parse_get_opchar_index_test_9() {
    let _in: &str = "?^Beginning with.*$?,?.* at the end$?s_mytest_yourtest_g";
    assert_eq!(get_opchar_index(_in).unwrap_or((9999, '\0')), (37, 's'));
}

fn opchar_position(input: &str) -> usize {
    get_opchar_index(input).map(|(i, _)| i).unwrap_or(9999)
}

#[test]
fn mod_get_opchar_index_test_1() {
    let _in: &str = "e myfile.txt";
    assert_eq!(opchar_position(_in), 0);
}

#[test]
fn mod_get_opchar_index_test_2() {
    let _in: &str = "       e myfile.txt";
    assert_eq!(opchar_position(_in), 0);
}

#[test]
fn mod_get_opchar_index_test_3() {
    let _in: &str = "  \t\t  \te myfile.txt";
    assert_eq!(opchar_position(_in), 0);
}

#[test]
fn mod_get_opchar_index_test_4() {
    let _in: &str = ".a";
    assert_eq!(opchar_position(_in), 1);
}

#[test]
fn mod_get_opchar_index_test_5() {
    let _in: &str = ".,.p";
    assert_eq!(opchar_position(_in), 3);
}

#[test]
fn mod_get_opchar_index_test_6() {
    let _in: &str = ".-2,.+2p";
    assert_eq!(opchar_position(_in), 7);
}

#[test]
fn mod_get_opchar_index_test_7() {
    let _in: &str = "/^Beginning with.*$/;/.* at the end$/s_mytest_yourtest_g";
    assert_eq!(opchar_position(_in), 37);
}

#[test]
fn mod_get_opchar_index_test_8() {
    let _in: &str = "\t\t  \t/^Beginning with.*$/;/.* at the end$/s_mytest_yourtest_g";
    assert_eq!(opchar_position(_in), 37);
}

#[test]
fn mod_get_opchar_index_test_9() {
    let _in: &str = "?^Beginning with.*$?,?.* at the end$?s_mytest_yourtest_g";
    assert_eq!(opchar_position(_in), 37);
}

#[test]
fn opchar_missing_is_an_error() {
    assert_eq!(get_opchar_index("1,2"), Err(red::error::RedError::OpCharIndex));
    assert_eq!(get_opchar_index("/abc/"), Err(red::error::RedError::OpCharIndex));
}

#[test]
fn is_in_regex_test_1() {
    let haystack = "This is a / abc /string to search";
    let indx = haystack.find("abc").unwrap();
    assert!(is_in_regex(haystack, indx), "abc");
    let indx = haystack.find("is a").unwrap();
    assert!(!is_in_regex(haystack, indx), "is a");
    let indx = haystack.find("search").unwrap();
    assert!(!is_in_regex(haystack, indx), "search");
}

#[test]
fn is_in_regex_test_2() {
    let haystack = "This is a ? abc ?string to search";
    let indx = haystack.find("abc").unwrap();
    assert!(is_in_regex(haystack, indx));
    let indx = haystack.find("is a").unwrap();
    assert!(!is_in_regex(haystack, indx));
    let indx = haystack.find("string").unwrap();
    assert!(!is_in_regex(haystack, indx));
}

#[test]
fn is_in_regex_test_3() {
    let haystack = r#"?This? "is a / abc /string" to search"#;
    let indx = haystack.find("abc").unwrap();
    assert!(!is_in_regex(haystack, indx));
    let indx = haystack.find("is a").unwrap();
    assert!(!is_in_regex(haystack, indx));
    let indx = haystack.find("string").unwrap();
    assert!(!is_in_regex(haystack, indx));
    let indx = haystack.find("This").unwrap();
    assert!(is_in_regex(haystack, indx));
}

#[test]
fn is_in_regex_test_4() {
    let haystack: &str = "\t\t  \t/^Beginning with.*$/;/.* at the end$/s_mytest_yourtest_g";
    let indx = haystack.find("Beginning").unwrap();
    assert!(is_in_regex(haystack, indx));
    let indx = haystack.find("the end").unwrap();
    assert!(is_in_regex(haystack, indx));
    let indx = haystack.find("with").unwrap();
    assert!(is_in_regex(haystack, indx));
    let indx = haystack.find("mytest").unwrap();
    assert!(!is_in_regex(haystack, indx));
}

#[test]
fn escaped_delimiter_does_not_open_a_search() {
    let haystack = r"a\/b c";
    assert!(!is_in_regex(haystack, 4));
}

#[test]
fn is_address_separator_test_1() {
    let ch = ';';
    assert!(is_address_separator(ch));
}

#[test]
fn is_address_separator_test_2() {
    let ch = '.';
    assert!(!is_address_separator(ch));
}

#[test]
fn is_address_separator_test_3() {
    let ch = 'r';
    assert!(!is_address_separator(ch));
}

#[test]
fn is_address_separator_test_4() {
    let ch = ',';
    assert!(is_address_separator(ch));
}

#[test]
fn get_address_range_test_1() {
    let buffer = open_command_buffer_test(1);
    let (ini, fin) = get_address_range("1, 3", &buffer).unwrap();
    assert_eq!(ini, 1);
    assert_eq!(fin, 3);
}

#[test]
fn get_address_range_test_2() {
    let buffer = open_command_buffer_test(1);
    let (ini, fin) = get_address_range("1, 56", &buffer).unwrap();
    assert_eq!(ini, 1);
    assert_eq!(fin, 8);
}

#[test]
fn get_address_range_test_3() {
    let buffer = open_command_buffer_test(1);
    let (ini, fin) = get_address_range("0, 4", &buffer).unwrap();
    assert_eq!(ini, 1);
    assert_eq!(fin, 4);
}

#[test]
fn get_address_range_test_4() {
    let buffer = open_command_buffer_test(1);
    let (ini, fin) = get_address_range("/testcmd1/, 5", &buffer).unwrap();
    assert_eq!(ini, 1);
    assert_eq!(fin, 5);
}

#[test]
fn whole_buffer_shorthands() {
    let mut buffer = open_command_buffer_test(1);
    assert_eq!(get_address_range("%", &buffer).unwrap(), (1, 8));
    assert_eq!(get_address_range(",", &buffer).unwrap(), (1, 8));
    buffer.set_current_address(3);
    assert_eq!(get_address_range(";", &buffer).unwrap(), (3, 8));
    assert_eq!(get_address_range("5", &buffer).unwrap(), (5, 5));
}

#[test]
fn range_with_unmatched_search_is_an_error() {
    let buffer = open_command_buffer_test(1);
    assert!(matches!(
        get_address_range("/nothing here/,3", &buffer),
        Err(red::error::RedError::AddressSyntax { .. })
    ));
}

#[test]
fn parse_address_list_test_1() {
    let (ini, fin) = parse_address_list("1, 3");
    assert_eq!(ini, "1");
    assert_eq!(fin, "3");
}

#[test]
fn parse_address_list_test_2() {
    let (ini, fin) = parse_address_list("1, 56");
    assert_eq!(ini, "1");
    assert_eq!(fin, "56");
}

#[test]
fn parse_address_list_test_3() {
    let (ini, fin) = parse_address_list("0, 4");
    assert_eq!(ini, "0");
    assert_eq!(fin, "4");
}

#[test]
fn parse_address_list_test_4() {
    let (ini, fin) = parse_address_list("/testcmd3/, 5");
    assert_eq!(ini, "/testcmd3/");
    assert_eq!(fin, "5");
}

#[test]
fn separator_inside_search_is_not_a_split() {
    let (ini, fin) = parse_address_list("/a,b/;4");
    assert_eq!(ini, "/a,b/");
    assert_eq!(fin, "4");
    let (ini, fin) = parse_address_list("7");
    assert_eq!(ini, "");
    assert_eq!(fin, "7");
}

fn field(address: &str, version: u8) -> Option<usize> {
    let buffer = open_command_buffer_test(version);
    parse_address_field(address, &buffer).unwrap()
}

#[test]
fn parse_address_field_test_1() {
    assert_eq!(field("1", 1).unwrap(), 1);
}

#[test]
fn parse_address_field_test_2() {
    assert_eq!(field("56", 1).unwrap(), 8);
}

#[test]
fn parse_address_field_test_3() {
    assert_eq!(field("0", 1).unwrap(), 1);
}

#[test]
fn parse_address_field_test_4() {
    assert_eq!(field("/testcmd3/", 1).unwrap(), 3);
}

#[test]
fn parse_address_field_test_5() {
    assert_eq!(field("?testcmd4?", 1).unwrap(), 4);
}

#[test]
fn parse_address_field_test_6() {
    assert_eq!(field("/cmda te/", 1), None);
}

#[test]
fn parse_address_field_test_7() {
    assert_eq!(field("/cmda te/", 2).unwrap(), 1);
}

#[test]
fn parse_address_field_test_8() {
    assert_eq!(field(".-3", 1).unwrap(), 1);
}

#[test]
fn parse_address_field_test_9() {
    assert_eq!(field("+", 1).unwrap(), 2);
}

#[test]
fn parse_address_field_test_10() {
    assert_eq!(field("5-3", 1).unwrap(), 2);
}

#[test]
fn parse_address_field_test_11() {
    assert_eq!(field(".+1", 1).unwrap(), 2);
}

#[test]
fn parse_address_field_test_12() {
    assert_eq!(field("7--1-3", 1).unwrap(), 2);
}

#[test]
fn parse_address_field_test_13() {
    assert_eq!(field(".+1---+5", 1).unwrap(), 4);
}

#[test]
fn parse_address_field_test_14() {
    assert_eq!(field("$-3", 1).unwrap(), 5);
}

#[test]
fn parse_address_field_test_15() {
    assert_eq!(field("-5", 1).unwrap(), 1);
}

#[test]
fn address_field_shapes() {
    let mut buffer = open_command_buffer_test(1);
    buffer.set_current_address(4);
    assert_eq!(parse_address_field("", &buffer).unwrap(), Some(4));
    assert_eq!(parse_address_field(".", &buffer).unwrap(), Some(4));
    assert_eq!(parse_address_field("$", &buffer).unwrap(), Some(8));
    assert_eq!(parse_address_field("'a", &buffer).unwrap(), Some(0));
    buffer.set_marker('c', 6);
    assert_eq!(parse_address_field("'c", &buffer).unwrap(), Some(6));
    // the forward search starts at the current line and wraps
    assert_eq!(parse_address_field("/testcmd[0-9]/", &buffer).unwrap(), Some(4));
    assert_eq!(parse_address_field("/testcmd2/", &buffer).unwrap(), Some(2));
    // the backward search starts just before the current line
    assert_eq!(parse_address_field("?testcmd[0-9]?", &buffer).unwrap(), Some(3));
}

#[test]
fn address_clamping_scenarios() {
    let buffer = open_command_buffer_test(1);
    assert_eq!(parse_address_field("$+100", &buffer).unwrap(), Some(8));
    assert_eq!(parse_address_field("2-10", &buffer).unwrap(), Some(1));
    assert_eq!(parse_address_field("3+2", &buffer).unwrap(), Some(5));
}

#[test]
fn address_syntax_errors() {
    let buffer = open_command_buffer_test(1);
    assert_eq!(
        parse_address_field("x1", &buffer),
        Err(red::error::RedError::AddressSyntax { address: "x1".to_string() })
    );
    assert!(parse_address_field("/(unclosed/", &buffer).is_err());
    assert!(parse_address_field("99999999999999999999999", &buffer).is_err());
}

#[test]
fn parse_command_scenarios() {
    let mut buffer = Buffer::new(split_lines("one\ntwo\nthree\nfour\nfive\n"));
    buffer.set_current_address(3);
    let c = parse_command(".,.p", &buffer).unwrap();
    assert_eq!((c.address_initial, c.address_final, c.operation), (3, 3, 'p'));
    let eight = Buffer::new(split_lines("1\n2\n3\n4\n5\n6\n7\n8\n"));
    let c = parse_command("1,56p", &eight).unwrap();
    assert_eq!((c.address_initial, c.address_final), (1, 8));
    let c = parse_command("  s/one/1/g  ", &buffer).unwrap();
    assert_eq!((c.address_initial, c.address_final, c.operation), (0, 0, 's'));
    assert_eq!(c.parameters, "/one/1/g");
}
