//! Tests for the control commands of the client.

use nexus::client::{handle_control_command, App, CommandResult, ViewMode};
use nexus::protocol::ClientMessage;

fn args(list: &[&str]) -> Vec<String> {
    list.iter().map(|s| s.to_string()).collect()
}

#[test]
fn new_creates_a_channel() {
    let mut app = App::new();
    let outcome = handle_control_command("new", args(&["web", "python3", "-m", "http.server"]), &mut app);
    assert_eq!(outcome.result, CommandResult::Continue);
    assert!(outcome.notices.is_empty());
    match outcome.message {
        Some(ClientMessage::CreateChannel { name, command, working_dir }) => {
            assert_eq!(name, "web");
            assert_eq!(command.as_deref(), Some("python3 -m http.server"));
            assert!(working_dir.is_none());
        }
        other => panic!("unexpected: {:?}", other),
    }
    let outcome = handle_control_command("new", args(&["shell"]), &mut app);
    assert!(matches!(
        outcome.message,
        Some(ClientMessage::CreateChannel { name, command: None, .. }) if name == "shell"
    ));
    let outcome = handle_control_command("new", args(&[]), &mut app);
    assert!(outcome.message.is_none());
    assert_eq!(outcome.notices, vec!["Usage: :new <name> [command]"]);
}

#[test]
fn kill_takes_exactly_one_name() {
    let mut app = App::new();
    let outcome = handle_control_command("kill", args(&["web"]), &mut app);
    assert!(matches!(outcome.message, Some(ClientMessage::KillChannel { name }) if name == "web"));
    for bad in [args(&[]), args(&["a", "b"])] {
        let outcome = handle_control_command("kill", bad, &mut app);
        assert!(outcome.message.is_none());
        assert_eq!(outcome.notices, vec!["Usage: :kill <name>"]);
    }
}

#[test]
fn list_and_status() {
    let mut app = App::new();
    let outcome = handle_control_command("list", args(&[]), &mut app);
    assert!(matches!(outcome.message, Some(ClientMessage::ListChannels)));
    let outcome = handle_control_command("status", args(&[]), &mut app);
    assert!(matches!(outcome.message, Some(ClientMessage::GetStatus { channel: None })));
    let outcome = handle_control_command("status", args(&["web", "more"]), &mut app);
    assert!(matches!(
        outcome.message,
        Some(ClientMessage::GetStatus { channel: Some(name) }) if name == "web"
    ));
}

#[test]
fn subscribe_and_unsubscribe() {
    let mut app = App::new();
    for command in ["sub", "subscribe"] {
        let outcome = handle_control_command(command, args(&["a", "*"]), &mut app);
        assert!(matches!(
            outcome.message,
            Some(ClientMessage::Subscribe { channels }) if channels == vec!["a", "*"]
        ));
    }
    for command in ["unsub", "unsubscribe"] {
        let outcome = handle_control_command(command, args(&["a"]), &mut app);
        assert!(matches!(
            outcome.message,
            Some(ClientMessage::Unsubscribe { channels }) if channels == vec!["a"]
        ));
    }
    let outcome = handle_control_command("sub", args(&[]), &mut app);
    assert!(outcome.message.is_none());
    assert_eq!(
        outcome.notices,
        vec![
            "Usage: :sub <channel1> [channel2...] or :sub * for all",
            "Current subscriptions: none"
        ]
    );
    app.subscriptions = args(&["web", "db", "log"]);
    let outcome = handle_control_command("unsub", args(&[]), &mut app);
    assert_eq!(
        outcome.notices,
        vec!["Usage: :unsub <channel1> [channel2...]", "Current subscriptions: web, db, log"]
    );
    for command in ["subs", "subscriptions"] {
        let outcome = handle_control_command(command, args(&["ignored"]), &mut app);
        assert_eq!(outcome.notices, vec!["Current subscriptions: web, db, log"]);
    }
    app.subscriptions = args(&["only"]);
    let outcome = handle_control_command("subs", args(&[]), &mut app);
    assert_eq!(outcome.notices, vec!["Current subscriptions: only"]);
}

#[test]
fn clear_asks_for_the_output_to_be_emptied() {
    let mut app = App::new();
    let outcome = handle_control_command("clear", args(&[]), &mut app);
    assert!(outcome.clear_output);
    assert!(outcome.message.is_none());
    assert!(outcome.notices.is_empty());
    assert!(!handle_control_command("list", args(&[]), &mut app).clear_output);
}

#[test]
fn view_changes_the_mode() {
    let mut app = App::new();
    assert_eq!(app.view_mode, ViewMode::ActiveChannel);
    let outcome = handle_control_command("view", args(&[]), &mut app);
    assert_eq!(app.view_mode, ViewMode::AllChannels);
    assert_eq!(outcome.notices, vec!["View mode: all (interleaved with prefixes)"]);
    let outcome = handle_control_command("view", args(&[]), &mut app);
    assert_eq!(app.view_mode, ViewMode::ActiveChannel);
    assert_eq!(outcome.notices, vec!["View mode: channel (clean output)"]);
    for word in ["all", "interleaved"] {
        app.view_mode = ViewMode::ActiveChannel;
        let outcome = handle_control_command("view", args(&[word]), &mut app);
        assert_eq!(app.view_mode, ViewMode::AllChannels);
        assert!(outcome.notices.is_empty());
    }
    for word in ["channel", "active"] {
        handle_control_command("view", args(&[word]), &mut app);
        assert_eq!(app.view_mode, ViewMode::ActiveChannel);
    }
    let outcome = handle_control_command("view", args(&["sideways"]), &mut app);
    assert_eq!(app.view_mode, ViewMode::ActiveChannel);
    assert_eq!(outcome.notices, vec!["Usage: :view [channel|all]"]);
}

#[test]
fn timestamps_and_help_toggle() {
    let mut app = App::new();
    let outcome = handle_control_command("timestamps", args(&[]), &mut app);
    assert!(app.show_timestamps);
    assert_eq!(outcome.notices, vec!["Timestamps: enabled"]);
    let outcome = handle_control_command("ts", args(&[]), &mut app);
    assert!(!app.show_timestamps);
    assert_eq!(outcome.notices, vec!["Timestamps: disabled"]);
    assert!(!app.show_help);
    handle_control_command("help", args(&[]), &mut app);
    assert!(app.show_help);
    handle_control_command("?", args(&[]), &mut app);
    assert!(!app.show_help);
}

#[test]
fn quit_and_unknown() {
    let mut app = App::new();
    for command in ["quit", "exit"] {
        let outcome = handle_control_command(command, args(&[]), &mut app);
        assert_eq!(outcome.result, CommandResult::Exit);
        assert!(outcome.message.is_none());
    }
    let outcome = handle_control_command("frobnicate", args(&["x"]), &mut app);
    assert_eq!(outcome.result, CommandResult::Continue);
    assert_eq!(outcome.notices, vec!["Unknown command: frobnicate"]);
    // command names are matched as they are typed
    let outcome = handle_control_command("Quit", args(&[]), &mut app);
    assert_eq!(outcome.result, CommandResult::Continue);
    assert_eq!(outcome.notices, vec!["Unknown command: Quit"]);
}

#[test]
fn subscription_lines_join_names_by_comma_and_space() {
    assert_eq!(
        nexus::client::notices::subscriptions_updated(&vec!["a".to_string(), "".to_string(), "b c".to_string()]),
        "Subscriptions updated: a, , b c"
    );
}
