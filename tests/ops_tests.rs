use red::buffer::Buffer;
use red::error::RedError;
use red::format::split_lines;
use red::ops::{
    mode_noop, parse_global_op, parse_substitution_parameter, Effect, EditorMode, EditorState, Operations,
};
use red::parse::{parse_command, Command};
use red::subst::WhichMatch;
use red::undo::{Change, Undo};
use red::session::{commands_for, next_selected, store_step, StoreAction};

fn state_with(text: &str) -> EditorState {
    EditorState::new(Buffer::new(split_lines(text)))
}

fn lines(state: &EditorState) -> Vec<String> {
    state.buffer.lines_iterator().cloned().collect()
}

/// Run one command line the way the session loop does.
fn run(ops: &Operations, state: &mut EditorState, line: &str) -> Result<(), RedError> {
    let command = parse_command(line, &state.buffer)?;
    let r = ops.execute(state, command);
    state.finish_command();
    r
}

fn markers(state: &EditorState) -> Vec<usize> {
    "abcdefghijklmnopqrstuvwxyz".chars().map(|c| state.buffer.get_marked_line(c)).collect()
}

#[test]
fn undo_restores_after_delete() {
    let ops = Operations::new();
    let mut state = state_with("one\ntwo\nthree\nfour\n");
    state.buffer.set_current_address(3);
    run(&ops, &mut state, "2ka").unwrap();
    let before = (lines(&state), state.buffer.get_current_address(), markers(&state));
    run(&ops, &mut state, "2,3d").unwrap();
    assert_eq!(lines(&state), vec!["one", "four"]);
    assert_eq!(state.buffer.get_current_address(), 1);
    run(&ops, &mut state, "u").unwrap();
    assert_eq!((lines(&state), state.buffer.get_current_address(), markers(&state)), before);
}

#[test]
fn undo_restores_after_join_move_transfer_substitute() {
    let ops = Operations::new();
    for cmd in ["1,2j", "1,2m3", "1,2t0", "1,3s/o/0/g"] {
        let mut state = state_with("one\ntwo\nthree\nfour\n");
        run(&ops, &mut state, "2kb").unwrap();
        let before = (lines(&state), state.buffer.get_current_address(), markers(&state));
        run(&ops, &mut state, cmd).unwrap();
        assert_ne!(lines(&state), before.0, "{}", cmd);
        run(&ops, &mut state, "u").unwrap();
        assert_eq!((lines(&state), state.buffer.get_current_address(), markers(&state)), before, "{}", cmd);
    }
}

#[test]
fn undo_restores_after_insert_session() {
    let ops = Operations::new();
    let mut state = state_with("one\ntwo\n");
    let before = (lines(&state), state.buffer.get_current_address(), markers(&state));
    run(&ops, &mut state, "1a").unwrap();
    assert_eq!(state.mode, EditorMode::Insert);
    state.insert_text("x");
    state.insert_text("y");
    state.mode = EditorMode::Command;
    state.finish_command();
    assert_eq!(lines(&state), vec!["one", "x", "y", "two"]);
    run(&ops, &mut state, "u").unwrap();
    assert_eq!((lines(&state), state.buffer.get_current_address(), markers(&state)), before);
}

#[test]
fn change_is_one_undo_step() {
    let ops = Operations::new();
    let mut state = state_with("one\ntwo\nthree\n");
    let before = lines(&state);
    run(&ops, &mut state, "2c").unwrap();
    state.insert_text("TWO");
    state.mode = EditorMode::Command;
    state.finish_command();
    assert_eq!(lines(&state), vec!["one", "TWO", "three"]);
    run(&ops, &mut state, "u").unwrap();
    assert_eq!(lines(&state), before);
}

#[test]
fn print_and_numbered_print_queue_output() {
    let ops = Operations::new();
    let mut state = state_with("a\nb\nc\nd\ne\nf\ng\nh\ni\nj\n");
    run(&ops, &mut state, "2,3p").unwrap();
    assert_eq!(state.effects, vec![Effect::Print("b".to_string()), Effect::Print("c".to_string())]);
    assert_eq!(state.buffer.get_current_address(), 3);
    state.effects.clear();
    run(&ops, &mut state, "9,10n").unwrap();
    assert_eq!(
        state.effects,
        vec![
            Effect::Numbered { number: 9, width: 2, line: "i".to_string() },
            Effect::Numbered { number: 10, width: 2, line: "j".to_string() },
        ]
    );
}

#[test]
fn default_addresses_apply_when_none_given() {
    let ops = Operations::new();
    let mut state = state_with("a\nb\nc\n");
    run(&ops, &mut state, "w").unwrap();
    assert_eq!(
        state.effects,
        vec![Effect::Write { file_name: String::new(), append: false, first: 1, last: 3 }]
    );
    state.effects.clear();
    run(&ops, &mut state, "W out").unwrap();
    assert_eq!(
        state.effects,
        vec![Effect::Write { file_name: "out".to_string(), append: true, first: 1, last: 3 }]
    );
    state.effects.clear();
    run(&ops, &mut state, "2p").unwrap();
    run(&ops, &mut state, "p").unwrap();
    assert_eq!(state.effects, vec![Effect::Print("b".to_string()), Effect::Print("b".to_string())]);
}

#[test]
fn global_runs_commands_on_matching_lines() {
    let ops = Operations::new();
    let mut state = state_with("apple\nbanana\navocado\ncherry\n");
    run(&ops, &mut state, "g/^a/p").unwrap();
    assert_eq!(state.effects, vec![Effect::Print("apple".to_string()), Effect::Print("avocado".to_string())]);
    state.effects.clear();
    run(&ops, &mut state, "v/^a/s/a/A/g").unwrap();
    assert_eq!(lines(&state), vec!["apple", "bAnAnA", "avocado", "cherry"]);
    assert!(matches!(run(&ops, &mut state, "g/a/g/b/p"), Err(RedError::InvalidOperation { operation: 'g' })));
}

#[test]
fn effects_for_files_and_quitting() {
    let ops = Operations::new();
    let mut state = state_with("a\n");
    run(&ops, &mut state, "e other.txt").unwrap();
    run(&ops, &mut state, "E @ls").unwrap();
    run(&ops, &mut state, "f").unwrap();
    run(&ops, &mut state, "f name").unwrap();
    run(&ops, &mut state, "q").unwrap();
    assert_eq!(
        state.effects,
        vec![
            Effect::Edit { source: "other.txt".to_string(), checked: true },
            Effect::Edit { source: "@ls".to_string(), checked: false },
            Effect::ShowFilename,
            Effect::SetFilename("name".to_string()),
            Effect::Quit,
        ]
    );
}

#[test]
fn mark_parameter_errors() {
    let ops = Operations::new();
    let mut state = state_with("a\nb\n");
    assert!(matches!(run(&ops, &mut state, "1kab"), Err(RedError::ParameterSyntax { .. })));
    assert!(matches!(run(&ops, &mut state, "1kA"), Err(RedError::ParameterSyntax { .. })));
    run(&ops, &mut state, "2kq").unwrap();
    assert_eq!(state.buffer.get_marked_line('q'), 2);
}

#[test]
fn unknown_and_unfinished_operations() {
    let ops = Operations::new();
    let mut state = state_with("a\nb\nc\n");
    assert_eq!(run(&ops, &mut state, "x"), Err(RedError::InvalidOperation { operation: 'x' }));
    assert_eq!(run(&ops, &mut state, "r"), Err(RedError::InvalidOperation { operation: 'r' }));
    assert!(matches!(run(&ops, &mut state, "3,2d"), Err(RedError::GetLineOutOfBounds { .. })));
    assert_eq!(lines(&state), vec!["a", "b", "c"]);
    run(&ops, &mut state, "H").unwrap();
    assert!(!state.show_help);
}

#[test]
fn substitution_parameters() {
    let s = parse_substitution_parameter("_mytest_yourtest_g").unwrap();
    assert_eq!((s.to_match.as_str(), s.to_sub.as_str(), s.which), ("mytest", "yourtest", WhichMatch::Global));
    let s = parse_substitution_parameter("/a/b/3").unwrap();
    assert_eq!(s.which, WhichMatch::Number(3));
    let s = parse_substitution_parameter("/a/b/").unwrap();
    assert_eq!(s.which, WhichMatch::Number(1));
    let s = parse_substitution_parameter("/a/b").unwrap();
    assert_eq!((s.to_sub.as_str(), s.which), ("b", WhichMatch::Number(1)));
    assert!(parse_substitution_parameter("/a/b/0").is_err());
    assert!(parse_substitution_parameter("/a/b/x").is_err());
    assert!(parse_substitution_parameter("/a").is_err());
    assert!(parse_substitution_parameter("").is_err());
}

#[test]
fn global_parameters() {
    assert_eq!(parse_global_op("/re/p"), Ok(("re".to_string(), "p".to_string())));
    assert_eq!(parse_global_op("/re/"), Ok(("re".to_string(), String::new())));
    assert!(parse_global_op("/re").is_err());
}

#[test]
fn interactive_global_is_handed_to_caller() {
    let ops = Operations::new();
    let mut state = state_with("a\nb\n");
    run(&ops, &mut state, "G/a/").unwrap();
    assert_eq!(
        state.effects,
        vec![Effect::Interactive { pattern: "a".to_string(), inverse: false, first: 1, last: 2 }]
    );
    assert!(run(&ops, &mut state, "V/a/p").is_err());
}

#[test]
fn execute_list_runs_each_line() {
    let ops = Operations::new();
    let mut state = state_with("a\nb\nc\n");
    ops.execute_list(&mut state, "p\ns/b/B/", 2).unwrap();
    assert_eq!(state.effects, vec![Effect::Print("b".to_string())]);
    assert_eq!(lines(&state), vec!["a", "B", "c"]);
    assert_eq!(state.buffer.get_current_address(), 2);
}

#[test]
fn undo_log_records() {
    let buffer = Buffer::new(split_lines("x\ny\nz\n"));
    let mut undo = Undo::new();
    undo.reset(&buffer);
    undo.added_lines(2, 3);
    undo.deleting_lines(&buffer, 1, 2);
    assert_eq!(
        undo.get_changes(),
        vec![
            Change::Add { address: 2 },
            Change::Add { address: 3 },
            Change::Remove { address: 1, content: "x".to_string() },
            Change::Remove { address: 1, content: "y".to_string() },
        ]
    );
    assert_eq!(undo.get_wascurrent_address(), 3);
    assert_eq!(undo.get_markers(), vec![0; 26]);
    undo.lock();
    undo.reset(&buffer);
    assert_eq!(undo.get_changes().len(), 4);
    undo.unlock();
    undo.reset(&buffer);
    assert_eq!(undo.get_changes().len(), 0);
}

#[test]
fn mode_noop_keeps_mode() {
    let mut mode = EditorMode::Insert;
    assert_eq!(mode_noop(&mut mode), EditorMode::Insert);
    let c = Command { address_initial: 0, address_final: 0, operation: 'p', parameters: String::new() };
    assert_eq!(c.operation, 'p');
}

#[test]
fn global_with_empty_list_prints_selected_lines() {
    let ops = Operations::new();
    let mut state = state_with("apple\nbanana\navocado\n");
    run(&ops, &mut state, "g/^a/").unwrap();
    assert_eq!(state.effects, vec![Effect::Print("apple".to_string()), Effect::Print("avocado".to_string())]);
    state.effects.clear();
    run(&ops, &mut state, "v/^a/").unwrap();
    assert_eq!(state.effects, vec![Effect::Print("banana".to_string())]);
    assert_eq!(lines(&state), vec!["apple", "banana", "avocado"]);
}

#[test]
fn mark_errors_name_the_parameter() {
    let ops = Operations::new();
    let mut state = state_with("a\nb\n");
    assert_eq!(run(&ops, &mut state, "1k7"), Err(RedError::ParameterSyntax { parameter: "7".to_string() }));
}

#[test]
fn mirror_retry_steps() {
    assert_eq!(store_step(1, true), StoreAction::Done);
    assert_eq!(store_step(1, false), StoreAction::Retry);
    assert_eq!(store_step(2, false), StoreAction::Retry);
    assert_eq!(store_step(3, false), StoreAction::GiveUp);
    assert_eq!(store_step(3, true), StoreAction::Done);
}

#[test]
fn interactive_steps() {
    let buffer = Buffer::new(split_lines("apple\nbanana\navocado\n"));
    assert_eq!(next_selected(&buffer, "^a", false, 1, 3), Ok(Some(1)));
    assert_eq!(next_selected(&buffer, "^a", false, 2, 3), Ok(Some(3)));
    assert_eq!(next_selected(&buffer, "^a", false, 4, 9), Ok(None));
    assert_eq!(next_selected(&buffer, "^a", true, 1, 3), Ok(Some(2)));
    assert!(next_selected(&buffer, "(", false, 1, 3).is_err());
    assert_eq!(commands_for(" & ", "p"), "p");
    assert_eq!(commands_for("s/a/b/", "p"), "s/a/b/");
}

#[test]
fn undo_after_finishing_the_command_restores_cursor() {
    let ops = Operations::new();
    let mut state = state_with("one\ntwo\nthree\n");
    state.buffer.set_current_address(2);
    let before = (lines(&state), state.buffer.get_current_address(), markers(&state));
    run(&ops, &mut state, "1t3").unwrap();
    assert_eq!(state.buffer.get_current_address(), 4);
    run(&ops, &mut state, "u").unwrap();
    assert_eq!((lines(&state), state.buffer.get_current_address(), markers(&state)), before);
}

#[test]
fn command_list_stops_at_first_failure() {
    let ops = Operations::new();
    let mut state = state_with("a\nb\nc\n");
    let r = ops.execute_list(&mut state, "p\nx\ns/b/B/", 2);
    assert_eq!(r, Err(RedError::InvalidOperation { operation: 'x' }));
    assert_eq!(state.effects, vec![Effect::Print("b".to_string())]);
    assert_eq!(lines(&state), vec!["a", "b", "c"]);
}

#[test]
fn global_runs_list_on_each_selected_line_in_order() {
    let ops = Operations::new();
    let mut state = state_with("a1\nb\na2\n");
    run(&ops, &mut state, "g/a/s/a/A/").unwrap();
    assert_eq!(lines(&state), vec!["A1", "b", "A2"]);
    assert!(matches!(run(&ops, &mut state, "g/b/x"), Err(RedError::InvalidOperation { operation: 'x' })));
}

#[test]
fn undo_twice_redoes() {
    let ops = Operations::new();
    let mut state = state_with("one\ntwo\nthree\n");
    run(&ops, &mut state, "2d").unwrap();
    let after = lines(&state);
    run(&ops, &mut state, "u").unwrap();
    assert_eq!(lines(&state), vec!["one", "two", "three"]);
    run(&ops, &mut state, "u").unwrap();
    assert_eq!(lines(&state), after);
}
