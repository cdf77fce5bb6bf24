//! Tests for the input line editor and the channel marks.

use nexus::client::{ChannelInfo, LineEditor, ViewMode};

fn editor_with(text: &str) -> LineEditor {
    let mut editor = LineEditor::new();
    editor.set(text);
    editor
}

#[test]
fn new_editor_is_empty() {
    let editor = LineEditor::new();
    assert!(editor.is_empty());
    assert_eq!(editor.content(), "");
    assert_eq!(editor.cursor_position(), 0);
}

#[test]
fn insert_moves_the_cursor_by_the_bytes_of_the_character() {
    let mut editor = LineEditor::new();
    editor.insert('a');
    editor.insert('\u{e9}');
    editor.insert('\u{4e16}');
    assert_eq!(editor.content(), "a\u{e9}\u{4e16}");
    assert_eq!(editor.cursor_position(), 1 + 2 + 3);
    assert!(!editor.is_empty());
}

#[test]
fn insert_in_the_middle() {
    let mut editor = editor_with("ac");
    assert!(editor.move_left());
    editor.insert('b');
    assert_eq!(editor.content(), "abc");
    assert_eq!(editor.cursor_position(), 2);
}

#[test]
fn backspace_takes_the_character_before_the_cursor() {
    let mut editor = editor_with("h\u{e9}llo");
    assert!(editor.backspace());
    assert_eq!(editor.content(), "h\u{e9}ll");
    assert!(editor.move_home());
    assert!(!editor.backspace());
    assert_eq!(editor.content(), "h\u{e9}ll");
    assert!(editor.move_right());
    assert!(editor.move_right());
    assert_eq!(editor.cursor_position(), 3);
    assert!(editor.backspace());
    assert_eq!(editor.content(), "hll");
    assert_eq!(editor.cursor_position(), 1);
}

#[test]
fn delete_takes_the_character_at_the_cursor() {
    let mut editor = editor_with("ab\u{4e16}c");
    assert!(!editor.delete());
    assert!(editor.move_home());
    assert!(editor.delete());
    assert_eq!(editor.content(), "b\u{4e16}c");
    assert_eq!(editor.cursor_position(), 0);
    assert!(editor.move_right());
    assert!(editor.delete());
    assert_eq!(editor.content(), "bc");
    assert_eq!(editor.cursor_position(), 1);
}

#[test]
fn cursor_moves_by_characters() {
    let mut editor = editor_with("a\u{e9}\u{4e16}");
    assert_eq!(editor.cursor_position(), 6);
    assert!(!editor.move_right());
    assert!(!editor.move_end());
    assert!(editor.move_left());
    assert_eq!(editor.cursor_position(), 3);
    assert!(editor.move_left());
    assert_eq!(editor.cursor_position(), 1);
    assert!(editor.move_left());
    assert_eq!(editor.cursor_position(), 0);
    assert!(!editor.move_left());
    assert!(!editor.move_home());
    assert!(editor.move_right());
    assert_eq!(editor.cursor_position(), 1);
    assert!(editor.move_end());
    assert_eq!(editor.cursor_position(), 6);
    assert!(editor.move_home());
    assert_eq!(editor.cursor_position(), 0);
    assert_eq!(editor.content(), "a\u{e9}\u{4e16}");
}

#[test]
fn delete_word_backward_takes_the_last_word() {
    let mut editor = editor_with("git commit  ");
    assert!(editor.delete_word_backward());
    assert_eq!(editor.content(), "git ");
    assert_eq!(editor.cursor_position(), 4);
    assert!(editor.delete_word_backward());
    assert_eq!(editor.content(), "");
    assert!(!editor.delete_word_backward());
}

#[test]
fn delete_word_backward_keeps_what_follows_the_cursor() {
    let mut editor = editor_with("one two three");
    for _ in 0..6 {
        assert!(editor.move_left());
    }
    // cursor behind "one two"
    assert!(editor.delete_word_backward());
    assert_eq!(editor.content(), "one  three");
    assert_eq!(editor.cursor_position(), 4);
}

#[test]
fn delete_word_backward_with_wide_whitespace() {
    let mut editor = editor_with("a\u{a0}b");
    assert!(editor.delete_word_backward());
    assert_eq!(editor.content(), "a\u{a0}");
    assert_eq!(editor.cursor_position(), 3);
}

#[test]
fn delete_to_end_and_to_start() {
    let mut editor = editor_with("hello world");
    assert!(!editor.delete_to_end());
    for _ in 0..5 {
        editor.move_left();
    }
    assert!(editor.delete_to_end());
    assert_eq!(editor.content(), "hello ");
    assert_eq!(editor.cursor_position(), 6);
    assert!(editor.move_left());
    assert!(editor.delete_to_start());
    assert_eq!(editor.content(), " ");
    assert_eq!(editor.cursor_position(), 0);
    assert!(!editor.delete_to_start());
}

#[test]
fn clear_set_and_take() {
    let mut editor = editor_with("abc");
    editor.clear();
    assert!(editor.is_empty());
    assert_eq!(editor.cursor_position(), 0);
    editor.set("\u{fc}ber");
    assert_eq!(editor.content(), "\u{fc}ber");
    assert_eq!(editor.cursor_position(), 5);
    let taken = editor.take();
    assert_eq!(taken, "\u{fc}ber");
    assert!(editor.is_empty());
    assert_eq!(editor.cursor_position(), 0);
}

#[test]
fn channel_marks() {
    let mut info = ChannelInfo {
        name: "c".to_string(),
        running: true,
        has_new_output: false,
        exit_code: None,
        is_subscribed: false,
    };
    assert_eq!(info.status_indicator(), "");
    info.has_new_output = true;
    assert_eq!(info.status_indicator(), "*");
    info.running = false;
    assert_eq!(info.status_indicator(), ": stopped");
    info.exit_code = Some(0);
    assert_eq!(info.status_indicator(), ": \u{2713}");
    info.exit_code = Some(1);
    assert_eq!(info.status_indicator(), ": \u{2717}");
    assert_ne!(ViewMode::ActiveChannel, ViewMode::AllChannels);
}

#[test]
fn cursor_stays_within_the_text() {
    let mut editor = LineEditor::new();
    for c in "héllo wörld".chars() {
        editor.insert(c);
    }
    assert_eq!(editor.cursor_position(), editor.content().len());
    editor.move_left();
    editor.move_left();
    assert!(editor.cursor_position() <= editor.content().len());
    assert!(editor.content().is_char_boundary(editor.cursor_position()));
    editor.delete_word_backward();
    assert_eq!(editor.content(), "héllo ld");
    assert!(editor.content().is_char_boundary(editor.cursor_position()));
}
