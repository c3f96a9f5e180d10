use red::buffer::Buffer;
use red::error::{error_code, RedError};
use red::format::{render_lines, split_lines};
use red::subst::{sub_captures, WhichMatch};

const FILE_CONTENT_LINE: &str = "testfile line number";
const COMMAND_CONTENT_LINE: &str = "testcmd line number";

/// The text `echo -e` prints for `num_lines` lines of `line_str` followed
/// by their numbers.
fn test_lines(line_str: &str, num_lines: usize) -> String {
    let mut content = String::new();
    for i in 1..(num_lines + 1) {
        content.push_str(line_str);
        content.push_str(&i.to_string());
        content.push('\n');
    }
    content.push('\n');
    content
}

fn open_file_buffer_test_gen(file_content_line: &str) -> Buffer {
    Buffer::new(split_lines(&test_lines(file_content_line, 21)))
}

fn open_file_buffer_test() -> Buffer {
    open_file_buffer_test_gen(FILE_CONTENT_LINE)
}

fn open_command_buffer_test() -> Buffer {
    Buffer::new(split_lines(&test_lines(COMMAND_CONTENT_LINE, 21)))
}

fn lines_of(buffer: &Buffer) -> Vec<String> {
    buffer.lines_iterator().cloned().collect()
}

#[test]
fn file_buffer_test_1() {
    let buffer = open_file_buffer_test();
    let expectation = FILE_CONTENT_LINE.to_string() + "2";
    assert_eq!(buffer.get_line_content(2).unwrap(), &expectation);
}

#[test]
fn file_buffer_test_2() {
    let buffer = open_file_buffer_test();
    for test_line in 1..buffer.num_lines() {
        let expectation = FILE_CONTENT_LINE.to_string() + test_line.to_string().as_str();
        assert_eq!(*buffer.get_line_content(test_line).unwrap(), expectation);
    }
}

#[test]
fn file_buffer_test_3() {
    let buffer = open_file_buffer_test();
    let mut lines_iter = buffer.lines_iterator();
    for test_line in 1..buffer.num_lines() {
        let expectation = FILE_CONTENT_LINE.to_string() + test_line.to_string().as_str();
        match lines_iter.next() {
            Some(line) => assert_eq!(*line, expectation),
            None => break,
        }
    }
}

#[test]
fn file_buffer_test_5() {
    let mut buffer = open_file_buffer_test();
    let new_line_content = "This is the new line!".to_string();
    let expectation = FILE_CONTENT_LINE.to_string() + "2";
    assert_eq!(*buffer.get_line_content(2).unwrap(), expectation);
    buffer.set_line_content(2, &new_line_content).unwrap();
    assert_eq!(*buffer.get_line_content(2).unwrap(), new_line_content);
}

#[test]
fn command_buffer_test_1() {
    let buffer = open_command_buffer_test();
    let expectation = COMMAND_CONTENT_LINE.to_string() + "2";
    assert_eq!(buffer.get_line_content(2).unwrap(), &expectation);
}

#[test]
fn command_buffer_test_2() {
    let buffer = open_command_buffer_test();
    for test_line in 1..buffer.num_lines() {
        let expectation = COMMAND_CONTENT_LINE.to_string() + test_line.to_string().as_str();
        assert_eq!(*buffer.get_line_content(test_line).unwrap(), expectation);
    }
}

#[test]
fn command_buffer_test_3() {
    let buffer = open_command_buffer_test();
    let mut lines_iter = buffer.lines_iterator();
    for test_line in 1..buffer.num_lines() {
        let expectation = COMMAND_CONTENT_LINE.to_string() + test_line.to_string().as_str();
        match lines_iter.next() {
            Some(line) => assert_eq!(*line, expectation),
            None => break,
        }
    }
}

#[test]
fn command_buffer_test_4() {
    let buffer = open_command_buffer_test();
    let expectation = COMMAND_CONTENT_LINE.to_string() + "2";
    assert_eq!(buffer.get_line_content(2).unwrap(), &expectation);
}

#[test]
fn command_buffer_test_5() {
    let buffer = open_command_buffer_test();
    for test_line in 1..buffer.num_lines() {
        let expectation = COMMAND_CONTENT_LINE.to_string() + test_line.to_string().as_str();
        assert_eq!(*buffer.get_line_content(test_line).unwrap(), expectation);
    }
}

#[test]
fn command_buffer_test_6() {
    let buffer = open_command_buffer_test();
    let mut lines_iter = buffer.lines_iterator();
    for test_line in 1..buffer.num_lines() {
        let expectation = COMMAND_CONTENT_LINE.to_string() + test_line.to_string().as_str();
        match lines_iter.next() {
            Some(line) => assert_eq!(*line, expectation),
            None => break,
        }
    }
}

fn check_substituted(buffer: &Buffer, num_lines: usize, expectation: &str) {
    let mut count = 0_usize;
    for line in buffer.lines_iterator() {
        count += 1;
        if count > num_lines {
            break;
        }
        let mut expected = expectation.to_string();
        expected.push_str(&count.to_string());
        assert_eq!(expected, *line);
    }
}

#[test]
fn substitute_test_1() {
    let mut buffer = open_file_buffer_test();
    let num_lines = buffer.num_lines() - 1;
    buffer.substitute(r#"(testfile) (line)"#, r#"\2 \1"#, WhichMatch::Global, 1, num_lines).unwrap();
    check_substituted(&buffer, num_lines, "line testfile number");
}

#[test]
fn substitute_test_2() {
    let mut buffer = open_file_buffer_test_gen("one two three four five -");
    let num_lines = buffer.num_lines() - 1;
    buffer
        .substitute(r#"(one) (two) (three) (four) (five)"#, r#"\5 \4 \3 \2 \1"#, WhichMatch::Global, 1, num_lines)
        .unwrap();
    check_substituted(&buffer, num_lines, "five four three two one -");
}

#[test]
fn substitute_test_3() {
    let mut buffer = open_file_buffer_test();
    let num_lines = buffer.num_lines() - 1;
    buffer.substitute(r#"e"#, r#"x"#, WhichMatch::Number(1), 1, num_lines).unwrap();
    check_substituted(&buffer, num_lines, "txstfile line number");
}

#[test]
fn substitute_test_4() {
    let mut buffer = open_file_buffer_test();
    let num_lines = buffer.num_lines() - 1;
    buffer.substitute(r#"e"#, r#"x"#, WhichMatch::Number(3), 1, num_lines).unwrap();
    check_substituted(&buffer, num_lines, "testfile linx number");
}

#[test]
fn substitute_test_5() {
    let mut buffer = open_file_buffer_test();
    let num_lines = buffer.num_lines() - 1;
    buffer.substitute(r#"e"#, r#"x"#, WhichMatch::Global, 1, num_lines).unwrap();
    check_substituted(&buffer, num_lines, "txstfilx linx numbxr");
}

#[test]
fn substitute_test_6() {
    let mut buffer = open_file_buffer_test();
    buffer.substitute(r#"e"#, r#"x"#, WhichMatch::Global, 8, 8).unwrap();
    assert_eq!("txstfilx linx numbxr8", buffer.get_line_content(8).unwrap());
}

#[test]
fn substitute_selects_only_the_kth_match() {
    let mut buffer = Buffer::new(vec!["a-a-a-a".to_string()]);
    buffer.substitute("a", "B", WhichMatch::Number(2), 1, 1).unwrap();
    assert_eq!(buffer.get_line_content(1).unwrap(), "a-B-a-a");
    buffer.substitute("a", "B", WhichMatch::Number(9), 1, 1).unwrap();
    assert_eq!(buffer.get_line_content(1).unwrap(), "a-B-a-a");
    buffer.substitute("a", "C", WhichMatch::Global, 1, 1).unwrap();
    assert_eq!(buffer.get_line_content(1).unwrap(), "C-B-C-C");
}

#[test]
fn substitute_marks_modified_even_without_match() {
    let mut buffer = Buffer::new(vec!["abc".to_string()]);
    assert!(!buffer.is_modified());
    buffer.substitute("zzz", "y", WhichMatch::Global, 1, 1).unwrap();
    assert_eq!(buffer.get_line_content(1).unwrap(), "abc");
    assert!(buffer.is_modified());
}

#[test]
fn substitute_rejects_invalid_pattern() {
    let mut buffer = Buffer::new(vec!["abc".to_string()]);
    assert_eq!(
        buffer.substitute("(", "y", WhichMatch::Global, 1, 1),
        Err(RedError::ParameterSyntax { parameter: "(".to_string() })
    );
    assert!(!buffer.is_modified());
}

#[test]
fn backreference_expansion() {
    let groups = vec!["whole".to_string(), "one".to_string(), "two".to_string()];
    assert_eq!(sub_captures(r"\2-\1-\9-\x", &groups), r"two-one--\x");
}

fn five_line_buffer() -> Buffer {
    Buffer::new((1..6).map(|i| format!("testfile{}", i)).collect())
}

#[test]
fn scenario_get_line_content() {
    let buffer = five_line_buffer();
    assert_eq!(buffer.get_line_content(2), Some("testfile2"));
    assert_eq!(buffer.get_line_content(0), None);
    assert_eq!(buffer.get_line_content(6), None);
}

#[test]
fn scenario_set_line_content() {
    let mut buffer = five_line_buffer();
    buffer.set_line_content(2, "NEW").unwrap();
    assert_eq!(buffer.get_line_content(2), Some("NEW"));
    assert_eq!(buffer.get_line_content(1), Some("testfile1"));
    assert_eq!(buffer.get_line_content(3), Some("testfile3"));
    assert_eq!(buffer.set_line_content(6, "x"), Err(RedError::SetLineOutOfBounds { address: 6 }));
    assert_eq!(buffer.set_line_content(0, "x"), Err(RedError::SetLineOutOfBounds { address: 0 }));
}

#[test]
fn scenario_substitute_first_match() {
    let mut buffer = five_line_buffer();
    buffer.substitute("e", "x", WhichMatch::Number(1), 1, 1).unwrap();
    assert_eq!(buffer.get_line_content(1), Some("txstfile1"));
}

#[test]
fn scenario_repeated_delete() {
    let mut buffer = Buffer::new((1..11).map(|i| format!("line{}", i)).collect());
    for _ in 0..3 {
        buffer.delete_line(3).unwrap();
    }
    assert_eq!(buffer.num_lines(), 7);
    assert_eq!(buffer.get_line_content(3), Some("line6"));
    assert_eq!(buffer.delete_line(8), Err(RedError::GetLineOutOfBounds { address: 8 }));
    assert_eq!(buffer.delete_line(0), Err(RedError::GetLineOutOfBounds { address: 0 }));
}

#[test]
fn insert_then_delete_restores_lines() {
    let mut buffer = five_line_buffer();
    let before = lines_of(&buffer);
    buffer.append_line(2, "inserted");
    assert_eq!(buffer.get_line_content(3), Some("inserted"));
    assert_eq!(buffer.get_current_address(), 3);
    assert_eq!(buffer.num_lines(), 6);
    buffer.delete_line(3).unwrap();
    assert_eq!(lines_of(&buffer), before);
    assert_eq!(buffer.num_lines(), 5);
}

#[test]
fn markers_follow_inserts_and_deletes() {
    let mut buffer = five_line_buffer();
    buffer.set_marker('a', 2);
    buffer.set_marker('b', 4);
    buffer.set_marker('c', 3);
    buffer.append_line(3, "new");
    assert_eq!(buffer.get_marked_line('a'), 2);
    assert_eq!(buffer.get_marked_line('c'), 3);
    assert_eq!(buffer.get_marked_line('b'), 5);
    buffer.delete_line(3).unwrap();
    assert_eq!(buffer.get_marked_line('a'), 2);
    assert_eq!(buffer.get_marked_line('c'), 0);
    assert_eq!(buffer.get_marked_line('b'), 4);
    assert_eq!(buffer.get_marked_line('Z'), 0);
}

#[test]
fn join_concatenates_lines() {
    let mut buffer = five_line_buffer();
    buffer.join_lines(2, 4).unwrap();
    assert_eq!(buffer.num_lines(), 3);
    assert_eq!(buffer.get_line_content(2), Some("testfile2testfile3testfile4"));
    assert_eq!(buffer.get_current_address(), 2);
}

#[test]
fn move_lines_down_and_up() {
    let mut buffer = five_line_buffer();
    buffer.move_lines(&1, &2, &4).unwrap();
    assert_eq!(lines_of(&buffer), vec!["testfile3", "testfile4", "testfile1", "testfile2", "testfile5"]);
    assert_eq!(buffer.get_current_address(), 4);
    buffer.move_lines(&3, &4, &0).unwrap();
    assert_eq!(lines_of(&buffer), vec!["testfile1", "testfile2", "testfile3", "testfile4", "testfile5"]);
    assert_eq!(buffer.get_current_address(), 2);
}

#[test]
fn move_into_itself_does_nothing() {
    let mut buffer = five_line_buffer();
    let before = lines_of(&buffer);
    buffer.move_lines(&2, &4, &3).unwrap();
    assert_eq!(lines_of(&buffer), before);
    assert!(!buffer.is_modified());
}

#[test]
fn copy_lines_after_destination() {
    let mut buffer = five_line_buffer();
    buffer.copy_lines(1, 2, 5).unwrap();
    assert_eq!(buffer.num_lines(), 7);
    assert_eq!(buffer.get_line_content(6), Some("testfile1"));
    assert_eq!(buffer.get_line_content(7), Some("testfile2"));
    assert_eq!(buffer.get_current_address(), 7);
}

#[test]
fn search_forward_and_backward() {
    let mut buffer = five_line_buffer();
    buffer.set_current_address(3);
    assert_eq!(buffer.find_match("file[12]").unwrap(), Some(1));
    assert_eq!(buffer.find_match("file3").unwrap(), Some(3));
    assert_eq!(buffer.find_match_reverse("file3").unwrap(), Some(3));
    assert_eq!(buffer.find_match_reverse("file[0-9]").unwrap(), Some(2));
    assert_eq!(buffer.find_match("absent").unwrap(), None);
    assert!(buffer.find_match("[").is_err());
    assert_eq!(buffer.does_match("file4$", 4), Ok(true));
    assert_eq!(buffer.does_match("file4$", 5), Ok(false));
}

#[test]
fn round_trip_through_disk_format() {
    let buffer = five_line_buffer();
    let written = buffer.render_range(1, buffer.num_lines());
    assert_eq!(written, "testfile1\ntestfile2\ntestfile3\ntestfile4\ntestfile5\n");
    let reread = Buffer::new(split_lines(&written));
    assert_eq!(lines_of(&reread), lines_of(&buffer));
    let empty: Vec<String> = Vec::new();
    assert_eq!(render_lines(&empty), "");
    assert_eq!(split_lines(""), empty);
    assert_eq!(split_lines("a\n\nb"), vec!["a", "", "b"]);
}

#[test]
fn write_target_and_saved_state() {
    let mut buffer = five_line_buffer();
    assert!(matches!(buffer.write_target(""), Err(RedError::ParameterSyntax { .. })));
    assert_eq!(buffer.write_target("out.txt"), Ok("out.txt".to_string()));
    assert_eq!(buffer.get_file_path(), Some("out.txt"));
    buffer.set_line_content(1, "changed").unwrap();
    assert_eq!(buffer.on_close(), Err(RedError::NoDestruct));
    buffer.written("", 1, 3);
    assert!(buffer.is_modified());
    buffer.written("", 1, 5);
    assert!(!buffer.is_modified());
    assert_eq!(buffer.on_close(), Ok(()));
}

#[test]
fn error_codes() {
    assert_eq!(error_code(RedError::OpCharIndex), 301);
    assert_eq!(error_code(RedError::AddressSyntax { address: String::new() }), 302);
    assert_eq!(error_code(RedError::NoDestruct), 305);
    assert_eq!(error_code(RedError::Quit), 0);
    assert_eq!(error_code(RedError::CriticalError(String::new())), 99);
    assert!(red::error::assert_addresses(1, 3, 5));
    assert!(!red::error::assert_addresses(0, 3, 5));
    assert!(!red::error::assert_addresses(4, 3, 5));
}
