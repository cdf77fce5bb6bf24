//! Tests for the state of the client's user interface.

use nexus::client::history::CommandHistory;
use nexus::client::lines::{take_lines, take_output_lines};
use nexus::client::renderer::{
    fit_line, visible_window, ChannelStatusInfo, Renderer, StatusColor, ViewMode as RendererMode,
};
use nexus::client::ui::{format_line, notice_text, prompt_text, status_label, status_tone, StatusTone};
use nexus::client::{App, ChannelColor, ChannelInfo};
use nexus::config::StatusBarPosition;
use nexus::protocol::ChannelInfo as ListedChannel;

fn channel(name: &str) -> ChannelInfo {
    ChannelInfo {
        name: name.to_string(),
        running: true,
        has_new_output: false,
        exit_code: None,
        is_subscribed: false,
    }
}

fn lines_of(app: &App, name: &str) -> Vec<String> {
    app.channel_buffers
        .get(name)
        .map(|lines| lines.iter().map(|l| l.content.clone()).collect())
        .unwrap_or_default()
}

#[test]
fn output_goes_to_the_channel_and_to_the_interleaved_buffer() {
    let mut app = App::new();
    assert!(app.show_welcome);
    app.add_output_at("a".to_string(), "one".to_string(), 1);
    app.add_output_at("b".to_string(), "two".to_string(), 2);
    app.add_output_at("a".to_string(), "three".to_string(), 3);
    assert!(!app.show_welcome);
    assert_eq!(lines_of(&app, "a"), vec!["one", "three"]);
    assert_eq!(lines_of(&app, "b"), vec!["two"]);
    let mixed: Vec<(String, String, i64)> = app
        .interleaved_buffer
        .iter()
        .map(|(c, l)| (c.clone(), l.content.clone(), l.timestamp))
        .collect();
    assert_eq!(
        mixed,
        vec![
            ("a".to_string(), "one".to_string(), 1),
            ("b".to_string(), "two".to_string(), 2),
            ("a".to_string(), "three".to_string(), 3)
        ]
    );
    // a view that is not scrolled stays at the bottom
    assert_eq!(app.scroll_offsets.get("a"), Some(&0));
    assert!(!app.is_scrolled(Some("a")));
    assert!(!app.is_scrolled(None));
}

#[test]
fn buffers_keep_the_newest_lines() {
    let mut app = App::new();
    app.max_buffer_lines = 3;
    for i in 0..5 {
        app.add_output_at("a".to_string(), format!("line{}", i), i);
    }
    app.add_output_at("b".to_string(), "other".to_string(), 9);
    assert_eq!(lines_of(&app, "a"), vec!["line2", "line3", "line4"]);
    assert_eq!(app.interleaved_buffer.len(), 3);
    assert_eq!(app.interleaved_buffer[0].1.content, "line3");
    assert_eq!(app.interleaved_buffer[2].1.content, "other");
    app.add_output("a".to_string(), "now".to_string());
    assert_eq!(lines_of(&app, "a"), vec!["line3", "line4", "now"]);
    assert!(app.channel_buffers.get("a").unwrap()[2].timestamp > 1_577_836_800_000);
}

#[test]
fn scrolling_is_bounded() {
    let mut app = App::new();
    app.scroll_up(3); // no active channel
    assert!(app.scroll_offsets.is_empty());
    app.active_channel = Some("a".to_string());
    app.scroll_up(3); // no lines
    assert_eq!(app.scroll_offsets.get("a"), Some(&0));
    for i in 0..10 {
        app.add_output_at("a".to_string(), format!("{}", i), i);
    }
    app.scroll_up(3);
    assert_eq!(app.scroll_offsets.get("a"), Some(&3));
    assert!(app.is_scrolled(Some("a")));
    // new output does not move a scrolled view
    app.add_output_at("a".to_string(), "x".to_string(), 11);
    assert_eq!(app.scroll_offsets.get("a"), Some(&3));
    app.scroll_up(usize::MAX);
    assert_eq!(app.scroll_offsets.get("a"), Some(&10));
    app.scroll_down(4);
    assert_eq!(app.scroll_offsets.get("a"), Some(&6));
    app.scroll_down(100);
    assert_eq!(app.scroll_offsets.get("a"), Some(&0));
    app.scroll_up(2);
    app.scroll_to_bottom(Some("a"));
    assert!(!app.is_scrolled(Some("a")));
    app.scroll_to_bottom(None);
    app.clear_output();
    assert!(app.channel_buffers.is_empty());
    assert!(app.interleaved_buffer.is_empty());
    assert!(app.scroll_offsets.is_empty());
}

#[test]
fn colours_are_given_out_in_order_and_kept() {
    let mut app = App::new();
    assert_eq!(app.get_channel_color("a"), ChannelColor::Blue);
    assert_eq!(app.get_channel_color("b"), ChannelColor::Magenta);
    assert_eq!(app.get_channel_color("a"), ChannelColor::Blue);
    assert_eq!(app.get_channel_color("c"), ChannelColor::Cyan);
    assert_eq!(app.get_channel_color("d"), ChannelColor::Yellow);
    assert_eq!(app.get_channel_color("e"), ChannelColor::Green);
    assert_eq!(app.get_channel_color("f"), ChannelColor::Red);
    // all taken: round the palette by the number of channels
    assert_eq!(app.get_channel_color("g"), ChannelColor::Blue);
    assert_eq!(app.get_channel_color("h"), ChannelColor::Magenta);
    assert_eq!(app.get_channel_color("g"), ChannelColor::Blue);
}

#[test]
fn next_and_previous_channel_go_round() {
    let mut app = App::new();
    app.next_channel();
    assert_eq!(app.active_channel, None);
    for name in ["a", "b", "c"] {
        app.channels.push(channel(name));
    }
    app.next_channel();
    assert_eq!(app.active_channel.as_deref(), Some("a"));
    app.next_channel();
    assert_eq!(app.active_channel.as_deref(), Some("b"));
    app.next_channel();
    app.next_channel();
    assert_eq!(app.active_channel.as_deref(), Some("a"));
    app.prev_channel();
    assert_eq!(app.active_channel.as_deref(), Some("c"));
    app.prev_channel();
    assert_eq!(app.active_channel.as_deref(), Some("b"));
    app.active_channel = Some("gone".to_string());
    app.next_channel();
    assert_eq!(app.active_channel.as_deref(), Some("gone"));
    app.prev_channel();
    assert_eq!(app.active_channel.as_deref(), Some("gone"));
    app.active_channel = None;
    app.prev_channel();
    assert_eq!(app.active_channel.as_deref(), Some("a"));
}

#[test]
fn channel_list_replaces_what_is_known() {
    let mut app = App::new();
    app.channels.push(channel("old"));
    let list = vec![
        ListedChannel { name: "a".to_string(), running: true, is_active: false, is_subscribed: true },
        ListedChannel { name: "b".to_string(), running: false, is_active: true, is_subscribed: false },
        ListedChannel { name: "c".to_string(), running: true, is_active: true, is_subscribed: true },
    ];
    app.set_channel_list(&list);
    let names: Vec<&str> = app.channels.iter().map(|c| c.name.as_str()).collect();
    assert_eq!(names, vec!["a", "b", "c"]);
    assert!(app.channels[0].is_subscribed && app.channels[0].running);
    assert!(!app.channels[1].running);
    assert_eq!(app.subscriptions, vec!["a", "c"]);
    assert_eq!(app.active_channel.as_deref(), Some("b"));
    // a list that marks none keeps the active channel
    let list = vec![ListedChannel {
        name: "z".to_string(),
        running: true,
        is_active: false,
        is_subscribed: false,
    }];
    app.set_channel_list(&list);
    assert_eq!(app.active_channel.as_deref(), Some("b"));
    app.active_channel = None;
    app.set_channel_list(&list);
    assert_eq!(app.active_channel.as_deref(), Some("z"));
    app.active_channel = None;
    app.set_channel_list(&[]);
    assert_eq!(app.active_channel, None);
    assert!(app.channels.is_empty());
}

#[test]
fn lifecycle_events_update_the_channels() {
    let mut app = App::new();
    app.channel_created("a");
    app.channel_created("b");
    assert_eq!(app.active_channel.as_deref(), Some("a"));
    assert!(app.channels[1].running);
    // output in the background marks the channel
    assert!(!app.note_output("a"));
    assert!(app.note_output("b"));
    assert!(app.channels[1].has_new_output);
    assert!(!app.note_output("unknown"));
    app.scroll_offsets.insert("b", 5);
    app.active_changed("b");
    assert_eq!(app.active_channel.as_deref(), Some("b"));
    assert!(!app.channels[1].has_new_output);
    assert_eq!(app.scroll_offsets.get("b"), Some(&0));
    app.channel_ended("a", Some(3));
    assert!(!app.channels[0].running);
    assert_eq!(app.channels[0].exit_code, Some(3));
    app.channel_ended("b", None);
    assert!(!app.channels[1].running);
    assert_eq!(app.channels[1].exit_code, None);
    app.channel_ended("unknown", Some(0));
    assert_eq!(app.channels.len(), 2);
}

#[test]
fn output_is_cut_into_lines() {
    let mut pending = String::new();
    assert_eq!(take_lines(&mut pending, "one\r\ntwo\npart"), vec!["one", "two"]);
    assert_eq!(pending, "part");
    assert_eq!(take_lines(&mut pending, "ial"), Vec::<String>::new());
    assert_eq!(pending, "partial");
    assert_eq!(take_lines(&mut pending, "\n\n\r\r\nrest\r"), vec!["partial", "", ""]);
    assert_eq!(pending, "rest\r");
    assert_eq!(take_lines(&mut pending, "\n"), vec!["rest"]);
    assert_eq!(pending, "");
    // a carriage return inside a line stays
    assert_eq!(take_lines(&mut pending, "a\rb\r\n"), vec!["a\rb"]);
}

#[test]
fn output_bytes_are_taken_as_text() {
    let mut pending = String::new();
    assert_eq!(
        take_output_lines(&mut pending, "gr\u{fc}n\n\u{4e16}".as_bytes()),
        vec!["gr\u{fc}n"]
    );
    assert_eq!(pending, "\u{4e16}");
    // what is not valid UTF-8 becomes the replacement character
    assert_eq!(take_output_lines(&mut pending, &[0xff, b'x', b'\n']), vec!["\u{4e16}\u{fffd}x"]);
}

#[test]
fn history_recalls_commands() {
    let mut history = CommandHistory::new(3);
    assert_eq!(history.up("typing"), None);
    assert_eq!(history.down(), None);
    history.add("");
    history.add("one");
    history.add("one");
    history.add("two");
    assert_eq!(history.up("typing"), Some("two"));
    assert_eq!(history.up("ignored"), Some("one"));
    assert_eq!(history.up("ignored"), Some("one"));
    assert_eq!(history.down(), Some("two"));
    assert_eq!(history.down(), Some("typing"));
    assert_eq!(history.down(), None);
    history.add("three");
    history.add("four");
    // the oldest entry left
    assert_eq!(history.up(""), Some("four"));
    assert_eq!(history.up(""), Some("three"));
    assert_eq!(history.up(""), Some("two"));
    assert_eq!(history.up(""), Some("two"));
    history.reset_position();
    assert_eq!(history.down(), None);
    assert_eq!(history.up("x"), Some("four"));
    // adding ends the browsing
    history.add("five");
    assert_eq!(history.down(), None);
}

#[test]
fn window_over_a_buffer() {
    assert_eq!(visible_window(100, 0, 20), (80, 100));
    assert_eq!(visible_window(100, 30, 20), (50, 70));
    assert_eq!(visible_window(10, 0, 20), (0, 10));
    assert_eq!(visible_window(10, 15, 20), (0, 0));
    assert_eq!(visible_window(0, 0, 20), (0, 0));
    assert_eq!(visible_window(10, 3, 0), (7, 7));
}

#[test]
fn lines_are_fitted_to_the_row() {
    assert_eq!(fit_line("hello", 10), "hello\u{1b}[0m");
    assert_eq!(fit_line("hello world", 5), "hello\u{1b}[0m");
    assert_eq!(fit_line("\u{1b}[31mhello\u{1b}[0m", 5), "\u{1b}[31mhello\u{1b}[0m\u{1b}[0m");
    // a row without width shows the line as it is
    assert_eq!(fit_line("hello", 0), "hello\u{1b}[0m");
}

#[test]
fn status_labels_and_tones() {
    let mut info = channel("web");
    assert_eq!(status_label(0, &info, true), "[1:#web]");
    assert_eq!(status_label(8, &info, true), "[9:#web]");
    assert_eq!(status_label(9, &info, true), "[#web]");
    assert_eq!(status_label(0, &info, false), "[#web]");
    info.is_subscribed = true;
    info.has_new_output = true;
    assert_eq!(status_label(2, &info, true), "[3:#web+*]");
    assert_eq!(status_tone(&info, Some("web")), StatusTone::Active);
    assert_eq!(status_tone(&info, Some("other")), StatusTone::NewOutput);
    info.has_new_output = false;
    assert_eq!(status_tone(&info, None), StatusTone::Idle);
    info.running = false;
    assert_eq!(status_tone(&info, None), StatusTone::Failed);
    assert_eq!(status_label(0, &info, false), "[#web+: stopped]");
    info.exit_code = Some(0);
    assert_eq!(status_tone(&info, None), StatusTone::Succeeded);
    info.exit_code = Some(2);
    assert_eq!(status_tone(&info, None), StatusTone::Failed);
    assert_eq!(status_label(1, &info, true), "[2:#web+: \u{2717}]");
}

#[test]
fn prompt_lines_and_notices() {
    assert_eq!(format_line("text", "12:30:01", true), "[12:30:01] text");
    assert_eq!(format_line("text", "12:30:01", false), "text");
    assert_eq!(prompt_text(Some("web"), "ls -la"), "#web \u{276f} ls -la");
    assert_eq!(prompt_text(None, ""), "#none \u{276f} ");
    assert_eq!(notice_text("Switched to #web", 40), " Switched to #web");
    assert_eq!(notice_text("Switched to #web", 10), " Switch...");
    assert_eq!(notice_text("abc", 2), "...");
    assert_eq!(notice_text("abc", 4), " abc");
}

#[test]
fn renderer_geometry() {
    let mut renderer = Renderer::new(80, 24);
    assert_eq!(renderer.terminal_size(), (80, 24));
    assert_eq!(renderer.output_height(), 22);
    assert_eq!(renderer.visible_output_rows(), 20);
    assert_eq!(renderer.status_bar_row(), 0);
    assert_eq!(renderer.prompt_row(), 23);
    assert_eq!(renderer.output_start_row(), 2);
    renderer.resize(100, 3);
    assert_eq!(renderer.terminal_size(), (100, 3));
    assert_eq!(renderer.output_height(), 1);
    assert_eq!(renderer.visible_output_rows(), 0);
    let bottom = Renderer::with_position(StatusBarPosition::Bottom, 80, 24);
    assert_eq!(bottom.status_bar_row(), 22);
    let tiny = Renderer::with_position(StatusBarPosition::Bottom, 80, 1);
    assert_eq!(tiny.status_bar_row(), 0);
    assert_eq!(tiny.prompt_row(), 0);
    assert_eq!(tiny.output_height(), 0);
}

#[test]
fn renderer_view_mode() {
    let mut renderer = Renderer::new(80, 24);
    assert_eq!(renderer.view_mode(), RendererMode::ActiveChannel);
    renderer.toggle_view_mode();
    assert_eq!(renderer.view_mode(), RendererMode::AllChannels);
    renderer.toggle_view_mode();
    assert_eq!(renderer.view_mode(), RendererMode::ActiveChannel);
    renderer.set_view_mode(RendererMode::AllChannels);
    assert_eq!(renderer.view_mode(), RendererMode::AllChannels);
}

#[test]
fn renderer_buffers_and_scrolling() {
    let mut renderer = Renderer::new(80, 9); // five rows of output
    assert!(renderer.shows_welcome());
    for i in 0..12 {
        renderer.record_output_line("a", &format!("a{}", i));
    }
    renderer.record_output_line("b", "b0");
    assert!(!renderer.shows_welcome());
    assert_eq!(renderer.visible_channel_lines(Some("a")), vec!["a7", "a8", "a9", "a10", "a11"]);
    assert_eq!(renderer.visible_channel_lines(Some("b")), vec!["b0"]);
    assert!(renderer.visible_channel_lines(Some("c")).is_empty());
    assert!(renderer.visible_channel_lines(None).is_empty());
    let mixed = renderer.visible_interleaved_lines();
    assert_eq!(mixed.len(), 5);
    assert_eq!(mixed[4], ("b".to_string(), "b0".to_string()));
    assert_eq!(mixed[0], ("a".to_string(), "a8".to_string()));

    renderer.scroll_up(Some("a"), 3);
    assert!(renderer.is_scrolled(Some("a")));
    assert_eq!(renderer.visible_channel_lines(Some("a")), vec!["a4", "a5", "a6", "a7", "a8"]);
    // not further than until the oldest line shows
    renderer.scroll_up(Some("a"), 100);
    assert_eq!(renderer.visible_channel_lines(Some("a")), vec!["a0", "a1", "a2", "a3", "a4"]);
    renderer.scroll_down(Some("a"), 2);
    assert_eq!(renderer.visible_channel_lines(Some("a")), vec!["a2", "a3", "a4", "a5", "a6"]);
    renderer.scroll_down(Some("a"), 100);
    assert!(!renderer.is_scrolled(Some("a")));
    renderer.scroll_up(Some("a"), 1);
    renderer.scroll_to_bottom(Some("a"));
    assert!(!renderer.is_scrolled(Some("a")));
    // a short buffer does not scroll
    renderer.scroll_up(Some("b"), 1);
    assert!(!renderer.is_scrolled(Some("b")));
    renderer.scroll_up(None, 1);

    renderer.clear_output_buffer(Some("a"));
    assert!(renderer.visible_channel_lines(Some("a")).is_empty());
    assert_eq!(renderer.visible_channel_lines(Some("b")), vec!["b0"]);
    assert_eq!(renderer.visible_interleaved_lines().len(), 5);
    renderer.clear_output_buffer(None);
    assert!(renderer.visible_channel_lines(Some("b")).is_empty());
    assert!(renderer.visible_interleaved_lines().is_empty());
}

#[test]
fn renderer_colours() {
    let mut renderer = Renderer::new(80, 24);
    assert_eq!(renderer.get_channel_color("a"), ChannelColor::Blue);
    assert_eq!(renderer.get_channel_color("b"), ChannelColor::Magenta);
    renderer.clear_channel_color("a");
    // the slot is free again
    assert_eq!(renderer.get_channel_color("c"), ChannelColor::Blue);
    assert_eq!(renderer.get_channel_color("b"), ChannelColor::Magenta);
}

#[test]
fn status_bar_content() {
    let channels = vec![
        ChannelStatusInfo { name: "shell".to_string(), running: true, has_new_output: false, exit_code: None },
        ChannelStatusInfo { name: "build".to_string(), running: false, has_new_output: false, exit_code: Some(0) },
        ChannelStatusInfo { name: "test".to_string(), running: false, has_new_output: false, exit_code: Some(1) },
        ChannelStatusInfo { name: "log".to_string(), running: true, has_new_output: true, exit_code: None },
        ChannelStatusInfo { name: "old".to_string(), running: false, has_new_output: false, exit_code: None },
    ];
    let renderer = Renderer::new(120, 24);
    let segments = renderer.build_status_bar_content(&channels, Some("shell"));
    assert_eq!(
        segments,
        vec![
            ("[channel]".to_string(), StatusColor::DarkGrey),
            ("[#shell]".to_string(), StatusColor::Green),
            ("[#build: \u{2713}]".to_string(), StatusColor::DarkGreen),
            ("[#test: \u{2717}]".to_string(), StatusColor::DarkRed),
            ("[#log*]".to_string(), StatusColor::Yellow),
            ("[#old: stopped]".to_string(), StatusColor::DarkGrey),
        ]
    );
    // a narrow terminal: what does not fit becomes an ellipsis
    let narrow = Renderer::new(30, 24);
    let segments = narrow.build_status_bar_content(&channels, None);
    assert_eq!(
        segments,
        vec![
            ("[channel]".to_string(), StatusColor::DarkGrey),
            ("[#shell]".to_string(), StatusColor::DarkGrey),
            (" ...".to_string(), StatusColor::DarkGrey),
        ]
    );
    let mut all = Renderer::new(8, 24);
    all.set_view_mode(RendererMode::AllChannels);
    assert_eq!(
        all.build_status_bar_content(&channels, None),
        vec![("[all]".to_string(), StatusColor::DarkGrey), (" ...".to_string(), StatusColor::DarkGrey)]
    );
    assert_eq!(
        all.build_status_bar_content(&[], None),
        vec![("[all]".to_string(), StatusColor::DarkGrey)]
    );
}
