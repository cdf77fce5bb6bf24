//! Tests for tab completion.

use nexus::client::{common_prefix, complete, App, ChannelInfo};

fn create_test_app(channel_names: Vec<&str>) -> App {
    let mut app = App::new();
    for name in channel_names {
        app.channels.push(ChannelInfo {
            name: name.to_string(),
            running: true,
            has_new_output: false,
            exit_code: None,
            is_subscribed: false,
        });
    }
    app
}

#[test]
fn test_complete_command() {
    let app = create_test_app(vec![]);
    let completions = complete(":ne", &app);
    assert_eq!(completions, vec![":new"]);
}

#[test]
fn test_complete_command_multiple() {
    let app = create_test_app(vec!["shell"]);
    let completions = complete(":s", &app);
    assert!(completions.contains(&":status".to_string()));
    assert!(completions.contains(&":sub".to_string()));
    assert!(completions.contains(&":subs".to_string()));
}

#[test]
fn test_complete_channel() {
    let app = create_test_app(vec!["shell", "build", "server"]);
    let completions = complete("#sh", &app);
    assert_eq!(completions, vec!["#shell"]);
}

#[test]
fn test_complete_channel_arg() {
    let app = create_test_app(vec!["shell", "build"]);
    let completions = complete(":kill sh", &app);
    assert_eq!(completions, vec![":kill shell"]);
}

#[test]
fn test_common_prefix() {
    let completions = vec![
        ":status".to_string(),
        ":sub".to_string(),
        ":subs".to_string(),
    ];
    assert_eq!(common_prefix(&completions), Some(":s".to_string()));
}

#[test]
fn common_prefix_of_nothing_and_of_one() {
    assert_eq!(common_prefix(&[]), None);
    assert_eq!(common_prefix(&["".to_string()]), Some("".to_string()));
    assert_eq!(common_prefix(&[":new".to_string()]), Some(":new".to_string()));
}

#[test]
fn common_prefix_may_be_empty_or_whole() {
    let nothing_shared = vec!["abc".to_string(), "xbc".to_string()];
    assert_eq!(common_prefix(&nothing_shared), None);
    let first_is_prefix = vec!["ab".to_string(), "abc".to_string(), "abd".to_string()];
    assert_eq!(common_prefix(&first_is_prefix), Some("ab".to_string()));
    let with_wide_characters = vec!["\u{e9}t\u{e9}".to_string(), "\u{e9}tat".to_string()];
    assert_eq!(common_prefix(&with_wide_characters), Some("\u{e9}t".to_string()));
}

#[test]
fn command_completion_ignores_case_of_what_was_typed() {
    let app = create_test_app(vec![]);
    assert_eq!(complete(":NE", &app), vec![":new"]);
    assert_eq!(complete("  :Qu  ", &app), vec![":quit"]);
}

#[test]
fn command_completion_offers_what_makes_sense() {
    // no channels: nothing to kill, to subscribe to or to unsubscribe from
    let app = create_test_app(vec![]);
    assert_eq!(complete(":k", &app), Vec::<String>::new());
    assert_eq!(complete(":su", &app), vec![":subs"]);
    assert_eq!(complete(":u", &app), Vec::<String>::new());

    // one running channel that is the active one: still nothing to kill
    let mut app = create_test_app(vec!["shell"]);
    app.active_channel = Some("shell".to_string());
    assert_eq!(complete(":k", &app), Vec::<String>::new());
    assert_eq!(complete(":su", &app), vec![":sub", ":subs"]);

    // a second channel, subscribed
    app.channels.push(ChannelInfo {
        name: "build".to_string(),
        running: true,
        has_new_output: false,
        exit_code: None,
        is_subscribed: true,
    });
    assert_eq!(complete(":k", &app), vec![":kill"]);
    assert_eq!(complete(":u", &app), vec![":unsub"]);
}

#[test]
fn all_commands_are_offered_in_order() {
    let mut app = create_test_app(vec!["a", "b"]);
    app.channels[1].is_subscribed = true;
    assert_eq!(
        complete(":", &app),
        vec![
            ":new", ":kill", ":list", ":status", ":sub", ":unsub", ":subs", ":clear", ":view",
            ":timestamps", ":help", ":quit", ":exit"
        ]
    );
}

#[test]
fn channel_completion_ignores_case() {
    let app = create_test_app(vec!["Shell", "build", "SHOP"]);
    assert_eq!(complete("#sh", &app), vec!["#Shell", "#SHOP"]);
    assert_eq!(complete("#SH", &app), vec!["#Shell", "#SHOP"]);
    assert_eq!(complete("#", &app), vec!["#Shell", "#build", "#SHOP"]);
}

#[test]
fn argument_completion_depends_on_the_command() {
    let mut app = create_test_app(vec!["shell", "build", "server"]);
    app.channels[0].is_subscribed = true;
    app.channels[2].running = false;
    assert_eq!(complete(":kill s", &app), vec![":kill shell"]);
    assert_eq!(complete(":sub s", &app), vec![":sub server"]);
    assert_eq!(complete(":unsub s", &app), vec![":unsub shell"]);
    // the input is trimmed first, so a space at its end does not start an argument
    assert_eq!(complete(":unsub ", &app), vec![":unsub"]);
    assert_eq!(complete(":view s", &app), Vec::<String>::new());
    assert_eq!(complete(":kill    b", &app), vec![":kill build"]);
}

#[test]
fn other_input_completes_to_nothing() {
    let app = create_test_app(vec!["shell"]);
    assert_eq!(complete("sh", &app), Vec::<String>::new());
    assert_eq!(complete("", &app), Vec::<String>::new());
    assert_eq!(complete("@sh", &app), Vec::<String>::new());
}
