//! Tests for the preparation of text for display.

use nexus::client::renderer::{
    strip_ansi_codes, truncate_with_ansi, ChannelStatusInfo, Renderer, ViewMode,
};

#[test]
fn strip_takes_out_colour_sequences() {
    assert_eq!(strip_ansi_codes("\u{1b}[31mred\u{1b}[0m"), "red");
    assert_eq!(strip_ansi_codes("plain"), "plain");
    assert_eq!(strip_ansi_codes(""), "");
}

#[test]
fn strip_takes_out_cursor_and_title_sequences() {
    // CSI with parameters, ending in a letter or a tilde
    assert_eq!(strip_ansi_codes("a\u{1b}[2;5Hb\u{1b}[?25lc\u{1b}[3~d"), "abcd");
    // OSC ending in BEL or in ESC backslash
    assert_eq!(strip_ansi_codes("\u{1b}]0;title\u{7}x\u{1b}]2;t\u{1b}\\y"), "xy");
    // two-character sequences
    assert_eq!(strip_ansi_codes("\u{1b}Mup"), "up");
}

#[test]
fn ui_strip_is_the_same() {
    assert_eq!(nexus::client::ui::strip_ansi_codes("\u{1b}[1mbold\u{1b}[0m"), "bold");
}

#[test]
fn visible_len_counts_characters_that_show() {
    assert_eq!(Renderer::visible_len("\u{1b}[32mgr\u{fc}n\u{1b}[0m"), 4);
    assert_eq!(Renderer::visible_len(""), 0);
}

#[test]
fn truncate_counts_only_visible_characters() {
    assert_eq!(truncate_with_ansi("hello world", 5), "hello\u{1b}[0m");
    assert_eq!(
        truncate_with_ansi("\u{1b}[31mhello\u{1b}[0m world", 7),
        "\u{1b}[31mhello\u{1b}[0m w\u{1b}[0m"
    );
    assert_eq!(truncate_with_ansi("short", 10), "short\u{1b}[0m");
    assert_eq!(truncate_with_ansi("", 3), "\u{1b}[0m");
}

#[test]
fn truncate_keeps_escape_sequences_whole() {
    // no room at all: the sequence before the first visible character stays
    assert_eq!(truncate_with_ansi("\u{1b}[1;32mx", 0), "\u{1b}[1;32m\u{1b}[0m");
    // a sequence that never ends runs to the end of the text
    assert_eq!(truncate_with_ansi("ab\u{1b}[12;", 1), "a\u{1b}[0m");
    assert_eq!(truncate_with_ansi("a\u{1b}[12;", 1), "a\u{1b}[12;\u{1b}[0m");
    // a tilde ends a sequence
    assert_eq!(truncate_with_ansi("\u{1b}[3~abc", 2), "\u{1b}[3~ab\u{1b}[0m");
    // wide characters count as one
    assert_eq!(truncate_with_ansi("\u{4e16}\u{754c}!", 2), "\u{4e16}\u{754c}\u{1b}[0m");
}

#[test]
fn status_bar_marks() {
    let mut info = ChannelStatusInfo {
        name: "c".to_string(),
        running: true,
        has_new_output: true,
        exit_code: None,
    };
    assert_eq!(info.status_indicator(), "*");
    info.has_new_output = false;
    assert_eq!(info.status_indicator(), "");
    info.running = false;
    assert_eq!(info.status_indicator(), ": stopped");
    info.exit_code = Some(0);
    assert_eq!(info.status_indicator(), ": \u{2713}");
    info.exit_code = Some(-1);
    assert_eq!(info.status_indicator(), ": \u{2717}");
}

#[test]
fn view_mode_toggles() {
    assert_eq!(ViewMode::ActiveChannel.toggled(), ViewMode::AllChannels);
    assert_eq!(ViewMode::AllChannels.toggled(), ViewMode::ActiveChannel);
}
