use nexus::client::notices::{
    error_line, event_notice, output_notice, should_notify, status_line, subscriptions_updated,
};
use nexus::client::App;
use nexus::protocol::{ChannelEvent, ChannelStatus, ServerMessage};
use nexus::server::{when_full, WhenFull, MAILBOX_CAPACITY};

#[test]
fn status_lines() {
    let running = ChannelStatus {
        name: "build".to_string(),
        running: true,
        exit_code: None,
        pid: Some(4242),
        command: "bash".to_string(),
        working_dir: "/tmp".to_string(),
        created_at: 0,
        output_lines: 0,
    };
    assert_eq!(
        status_line(&running),
        "#build running pid=Some(4242) exit=None cwd=/tmp cmd=bash"
    );
    let stopped = ChannelStatus {
        name: "job".to_string(),
        running: false,
        exit_code: Some(-2),
        pid: None,
        command: "make all".to_string(),
        working_dir: "/".to_string(),
        created_at: 0,
        output_lines: 0,
    };
    assert_eq!(
        status_line(&stopped),
        "#job stopped pid=None exit=Some(-2) cwd=/ cmd=make all"
    );
    let extreme = ChannelStatus {
        name: "x".to_string(),
        running: false,
        exit_code: Some(i32::MIN),
        pid: Some(u32::MAX),
        command: String::new(),
        working_dir: String::new(),
        created_at: 0,
        output_lines: 0,
    };
    assert_eq!(
        status_line(&extreme),
        format!(
            "#x stopped pid={:?} exit={:?} cwd= cmd=",
            Some(u32::MAX),
            Some(i32::MIN)
        )
    );
}

#[test]
fn event_notices() {
    let created = event_notice(&ChannelEvent::Created {
        name: "a".to_string(),
    })
    .unwrap();
    assert_eq!(created.message, "Channel #a created.");
    assert_eq!(created.seconds, 3);

    let exited = event_notice(&ChannelEvent::Exited {
        name: "a".to_string(),
        exit_code: Some(0),
    })
    .unwrap();
    assert_eq!(exited.message, "Channel #a exited with code Some(0)");
    assert_eq!(exited.seconds, 3);

    let lost = event_notice(&ChannelEvent::Exited {
        name: "a".to_string(),
        exit_code: None,
    })
    .unwrap();
    assert_eq!(lost.message, "Channel #a exited with code None");

    let killed = event_notice(&ChannelEvent::Killed {
        name: "b".to_string(),
    })
    .unwrap();
    assert_eq!(killed.message, "Channel #b killed.");
    assert_eq!(killed.seconds, 3);

    let switched = event_notice(&ChannelEvent::ActiveChanged {
        name: "c".to_string(),
    })
    .unwrap();
    assert_eq!(switched.message, "Switched to #c");
    assert_eq!(switched.seconds, 2);

    assert!(event_notice(&ChannelEvent::SubscriptionChanged {
        subscribed: vec!["a".to_string()],
    })
    .is_none());
}

#[test]
fn subscription_and_error_lines() {
    assert_eq!(subscriptions_updated(&vec![]), "Subscriptions updated: none");
    assert_eq!(
        subscriptions_updated(&vec!["a".to_string()]),
        "Subscriptions updated: a"
    );
    assert_eq!(
        subscriptions_updated(&vec!["a".to_string(), "b".to_string(), "c".to_string()]),
        "Subscriptions updated: a, b, c"
    );
    assert_eq!(error_line("no such channel"), "Error: no such channel");
    let notice = output_notice("logs");
    assert_eq!(notice.message, "New output in #logs");
    assert_eq!(notice.seconds, 3);
}

#[test]
fn notices_keep_to_the_cooldown() {
    assert!(should_notify(None, 0, 5000));
    assert!(should_notify(Some(1000), 6000, 5000));
    assert!(!should_notify(Some(1000), 5999, 5000));
    assert!(should_notify(Some(1000), 1000, 0));
    assert!(!should_notify(Some(2000), 1000, 0));
    assert!(should_notify(Some(2000), 1000, -1000));
    assert!(should_notify(Some(i64::MIN), i64::MAX, i64::MAX));
    assert!(!should_notify(Some(i64::MAX), i64::MIN, i64::MIN));
    assert!(should_notify(Some(-1), i64::MAX, i64::MAX));
    assert!(should_notify(Some(0), i64::MAX, i64::MAX));
    assert!(!should_notify(Some(0), i64::MIN, i64::MIN + 1));
    assert!(should_notify(Some(0), i64::MIN, i64::MIN));
}

#[test]
fn a_single_completion_replaces_the_line() {
    let mut app = App::new();
    app.line_editor.set(":he");
    app.completions = Some(vec!["old".to_string()]);
    app.take_completions(vec![":help".to_string()]);
    assert_eq!(app.line_editor.content(), ":help");
    assert_eq!(app.line_editor.cursor_position(), 5);
    assert_eq!(app.completions, None);
}

#[test]
fn several_completions_extend_the_line_to_what_they_share() {
    let mut app = App::new();
    app.line_editor.set(":s");
    let offered = vec![":subs".to_string(), ":subscribe".to_string()];
    app.take_completions(offered.clone());
    assert_eq!(app.line_editor.content(), ":subs");
    assert_eq!(app.completions, Some(offered));

    let mut app = App::new();
    app.line_editor.set(":s");
    let offered = vec![":status".to_string(), ":sub".to_string()];
    app.take_completions(offered.clone());
    assert_eq!(app.line_editor.content(), ":s");
    assert_eq!(app.completions, Some(offered));
}

#[test]
fn no_completions_leave_the_line() {
    let mut app = App::new();
    app.line_editor.set("zzz");
    app.completions = Some(vec!["old".to_string()]);
    app.take_completions(Vec::new());
    assert_eq!(app.line_editor.content(), "zzz");
    assert_eq!(app.completions, None);
}

#[test]
fn a_full_mailbox_drops_output_and_closes_for_the_rest() {
    assert_eq!(MAILBOX_CAPACITY, 256);
    let output = ServerMessage::Output {
        channel: "a".to_string(),
        data: vec![1],
        timestamp: 0,
    };
    assert_eq!(when_full(&output), WhenFull::Drop);
    let error = ServerMessage::Error {
        message: "x".to_string(),
    };
    assert_eq!(when_full(&error), WhenFull::Close);
    let ack = ServerMessage::Ack {
        for_command: "Hello".to_string(),
    };
    assert_eq!(when_full(&ack), WhenFull::Close);
    let event = ServerMessage::Event(ChannelEvent::Killed {
        name: "a".to_string(),
    });
    assert_eq!(when_full(&event), WhenFull::Close);
}
