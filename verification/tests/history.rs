use codecrafters_shell::state::HistoryState;

#[test]
fn history_new_state_has_empty_history() {
    let state = HistoryState::new();
    assert!(state.entries.is_empty());
    assert_eq!(state.last_appended_index, 0);
}

#[test]
fn history_add_history_pushes_a_single_entry() {
    let mut state = HistoryState::new();
    state.add_history("echo hi".to_string());
    assert_eq!(state.entries, vec!["echo hi".to_string()]);
}

#[test]
fn loading_lines_keeps_nonblank_trimmed_lines() {
    let mut state = HistoryState::new();
    let lines = vec![
        "echo one".to_string(),
        "  echo two  ".to_string(),
        "".to_string(),
        "   ".to_string(),
        "echo three".to_string(),
    ];
    state.load_lines(&lines);
    assert_eq!(
        state.entries,
        vec!["echo one".to_string(), "echo two".to_string(), "echo three".to_string()]
    );
}

#[test]
fn history_file_text_has_one_line_per_entry() {
    let mut state = HistoryState::new();
    assert_eq!(state.history_file_text(), "");
    state.add_history("echo a".to_string());
    state.add_history("ls -l".to_string());
    assert_eq!(state.history_file_text(), "echo a\nls -l\n");
}

#[test]
fn appending_writes_only_the_entries_since_the_last_append() {
    let mut state = HistoryState::new();
    state.add_history("one".to_string());
    state.add_history("two".to_string());
    assert_eq!(state.unappended_text(), "one\ntwo\n");
    state.mark_all_appended();
    assert_eq!(state.last_appended_index, 2);
    assert_eq!(state.unappended_text(), "");
    state.add_history("three".to_string());
    assert_eq!(state.unappended_text(), "three\n");
}

#[test]
fn a_mark_past_the_end_appends_nothing() {
    let mut state = HistoryState::new();
    state.add_history("one".to_string());
    state.last_appended_index = 5;
    assert_eq!(state.unappended_text(), "");
}

#[test]
fn state_new_state_has_empty_history() {
    let state = codecrafters_shell::state::ShellState::new();
    assert!(state.history.entries.is_empty());
    assert_eq!(state.history.last_appended_index, 0);
}

#[test]
fn state_add_history_pushes_a_single_entry() {
    let mut state = codecrafters_shell::state::ShellState::new();
    state.add_history("echo hi".to_string());
    assert_eq!(state.history.entries, vec!["echo hi".to_string()]);
}

#[test]
fn history_text_reads_back_as_written() {
    let mut written = HistoryState::new();
    written.add_history("echo one".to_string());
    written.add_history("ls -l".to_string());
    let text = written.history_file_text();
    let mut read = HistoryState::new();
    read.load_history_text(&text);
    assert_eq!(read.entries, written.entries);
}

#[test]
fn history_text_lines_drop_carriage_returns_and_the_final_newline() {
    let mut state = HistoryState::new();
    state.load_history_text("a\r\n\n  b  \nc");
    assert_eq!(state.entries, vec!["a".to_string(), "b".to_string(), "c".to_string()]);
    assert_eq!(
        codecrafters_shell::state::history::lines_of("x\r\n\ny\n"),
        vec!["x".to_string(), "".to_string(), "y".to_string()]
    );
    assert_eq!(codecrafters_shell::state::history::lines_of(""), Vec::<String>::new());
}

/// Appends the unappended entries to `file` as appending to a history file does.
fn append_to(file: &mut String, state: &mut HistoryState) {
    file.push_str(&state.unappended_text());
    state.mark_all_appended();
}

#[test]
fn history_load_history_reads_nonblank_trimmed_lines() {
    let mut state = HistoryState::new();
    state.load_history_text("echo one\n  echo two  \n\n\necho three\n");
    assert_eq!(
        state.entries,
        vec!["echo one".to_string(), "echo two".to_string(), "echo three".to_string()]
    );
}

#[test]
fn history_write_history_overwrites_the_whole_file() {
    let mut state = HistoryState::new();
    state.add_history("echo one".to_string());
    state.add_history("echo two".to_string());
    assert_eq!(state.history_file_text(), "echo one\necho two\n");
}

#[test]
fn history_append_history_only_writes_new_entries_since_last_append() {
    let mut file = String::new();
    let mut state = HistoryState::new();
    state.add_history("echo one".to_string());
    append_to(&mut file, &mut state);
    assert_eq!(state.last_appended_index, 1);

    state.add_history("echo two".to_string());
    state.add_history("echo three".to_string());
    append_to(&mut file, &mut state);
    assert_eq!(state.last_appended_index, 3);

    append_to(&mut file, &mut state);
    assert_eq!(file, "echo one\necho two\necho three\n");
}

#[test]
fn history_append_history_preserves_pre_existing_file_content() {
    let mut file = String::from("echo previous-session\n");
    let mut state = HistoryState::new();
    state.add_history("echo new".to_string());
    append_to(&mut file, &mut state);
    assert_eq!(file, "echo previous-session\necho new\n");
}
