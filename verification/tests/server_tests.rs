//! Tests for the session listener: handshake, message handling, the event
//! pump, and what clients are sent.

use nexus::channel::{
    ChannelManagerEvent, ChannelState, LaunchPlan, PtyRequest, SpawnDefaults, TerminalSize,
};
use nexus::protocol::{ChannelEvent, ClientMessage, ServerMessage, PROTOCOL_VERSION};
use nexus::server::{
    create_error_message, create_welcome_message, read_message, write_message, ClientConnection,
    Effect, ServerListener, ServerState, Session, Startup, MAX_BUFFERED_OUTPUTS,
};

const A: u128 = 0xa;
const B: u128 = 0xb;

fn new_state() -> ServerState {
    let listener = ServerListener::new("test".to_string(), "/tmp/nexus/test.sock".to_string());
    listener.open_session(SpawnDefaults {
        shell: "/bin/sh".to_string(),
        working_dir: "/work".to_string(),
    })
}

fn create_message(name: &str, command: Option<&str>) -> ClientMessage {
    ClientMessage::CreateChannel {
        name: name.to_string(),
        command: command.map(|c| c.to_string()),
        working_dir: None,
    }
}

/// Runs a `CreateChannel` through both of its steps, as if the process started.
fn create_channel(state: &mut ServerState, client: u128, name: &str) -> Vec<Effect> {
    let mut effects = state.process_message(create_message(name, None), client);
    assert_eq!(effects.len(), 1);
    match effects.remove(0) {
        Effect::Spawn { client: asked, plan } => {
            assert_eq!(asked, client);
            state.complete_create(client, &plan, Ok(Some(1234)), 1_000)
        }
        other => panic!("expected a spawn request, got {:?}", other),
    }
}

fn sent_to(effects: &[Effect], client: u128) -> Vec<String> {
    effects
        .iter()
        .filter_map(|e| match e {
            Effect::Send { client: to, message } if *to == client => Some(format!("{:?}", message)),
            _ => None,
        })
        .collect()
}

fn names(list: &[&str]) -> Vec<String> {
    list.iter().map(|s| s.to_string()).collect()
}

fn subscription_changed(subscribed: &[&str]) -> String {
    format!(
        "{:?}",
        ServerMessage::Event(ChannelEvent::SubscriptionChanged { subscribed: names(subscribed) })
    )
}

fn ack(command: &str) -> String {
    format!("{:?}", ServerMessage::Ack { for_command: command.to_string() })
}

fn event(event: ChannelEvent) -> String {
    format!("{:?}", ServerMessage::Event(event))
}

fn output(channel: &str, data: &[u8], timestamp: i64) -> String {
    format!(
        "{:?}",
        ServerMessage::Output { channel: channel.to_string(), data: data.to_vec(), timestamp }
    )
}

fn error(text: &str) -> String {
    format!("{:?}", ServerMessage::Error { message: text.to_string() })
}

#[test]
fn handshake_welcomes_and_acknowledges_hello() {
    let mut state = new_state();
    let session_id = state.session().id();
    let effects = state.connect_client(A).expect("fresh identifier");
    assert_eq!(
        sent_to(&effects, A),
        vec![format!(
            "{:?}",
            ServerMessage::Welcome { session_id, protocol_version: 1 }
        )]
    );
    assert_eq!(effects.len(), 1);
    let effects = state.process_message(ClientMessage::Hello { protocol_version: 1 }, A);
    assert_eq!(effects.len(), 1);
    assert_eq!(sent_to(&effects, A), vec![ack("Hello")]);
}

#[test]
fn handshake_refuses_another_version_and_closes() {
    let mut state = new_state();
    state.connect_client(A).unwrap();
    let effects = state.process_message(ClientMessage::Hello { protocol_version: 999 }, A);
    assert_eq!(effects.len(), 2);
    match &effects[0] {
        Effect::Send { client, message: ServerMessage::Error { message } } => {
            assert_eq!(*client, A);
            assert!(message.contains("Protocol version"));
            assert_eq!(message, "Protocol version mismatch: expected 1, got 999");
        }
        other => panic!("unexpected: {:?}", other),
    }
    assert!(matches!(effects[1], Effect::Disconnect { client } if client == A));
}

#[test]
fn connecting_twice_under_one_identifier_is_refused() {
    let mut state = new_state();
    assert!(state.connect_client(A).is_some());
    assert!(state.connect_client(A).is_none());
    assert_eq!(state.client_ids(), vec![A]);
    assert_eq!(state.session().client_ids(), &[A]);
    assert!(state.session().has_clients());
}

#[test]
fn accepted_clients_get_distinct_identifiers() {
    let mut state = new_state();
    let (first, effects) = state.accept_client().expect("accepted");
    assert_eq!(effects.len(), 1);
    let (second, _) = state.accept_client().expect("accepted");
    assert_ne!(first, second);
    assert_eq!(state.client_ids(), vec![first, second]);
}

#[test]
fn disconnect_removes_the_client() {
    let mut state = new_state();
    state.connect_client(A).unwrap();
    state.connect_client(B).unwrap();
    state.disconnect_client(A);
    assert_eq!(state.client_ids(), vec![B]);
    assert_eq!(state.session().client_ids(), &[B]);
    assert!(state.client(A).is_none());
    assert!(state.client(B).is_some());
    state.disconnect_client(A);
    assert_eq!(state.client_ids(), vec![B]);
    state.disconnect_client(B);
    assert!(!state.session().has_clients());
}

#[test]
fn subscription_fan_out() {
    let mut state = new_state();
    state.connect_client(A).unwrap();
    state.connect_client(B).unwrap();

    // A creates the channel
    let mut effects = state.process_message(create_message("chan", Some("/bin/echo hi")), A);
    assert_eq!(effects.len(), 1);
    let plan: LaunchPlan = match effects.remove(0) {
        Effect::Spawn { client, plan } => {
            assert_eq!(client, A);
            plan
        }
        other => panic!("unexpected: {:?}", other),
    };
    assert_eq!(plan.name, "chan");
    assert_eq!(plan.command, "/bin/echo hi");
    assert_eq!(plan.working_dir, "/work");
    assert_eq!(plan.size, TerminalSize { rows: 24, cols: 80, pixel_width: 0, pixel_height: 0 });
    let effects = state.complete_create(A, &plan, Ok(Some(77)), 500);
    assert!(matches!(
        &effects[0],
        Effect::Publish(ChannelManagerEvent::StateChanged { channel_name, state: ChannelState::Running })
        if channel_name == "chan"
    ));
    let created = event(ChannelEvent::Created { name: "chan".to_string() });
    assert_eq!(sent_to(&effects, A), vec![ack("CreateChannel"), created.clone()]);
    assert_eq!(sent_to(&effects, B), vec![created]);
    assert_eq!(effects.len(), 4);

    // the Running state is passed over by the pump
    let running = ChannelManagerEvent::StateChanged {
        channel_name: "chan".to_string(),
        state: ChannelState::Running,
    };
    assert!(state.handle_channel_event_at(running, 501).is_empty());

    // A subscribes
    let effects = state.process_message(ClientMessage::Subscribe { channels: names(&["chan"]) }, A);
    assert_eq!(sent_to(&effects, A), vec![subscription_changed(&["chan"])]);
    assert_eq!(effects.len(), 1);

    // the channel prints
    let produced = state.record_output("chan", b"hi\r\n").expect("published");
    let effects = state.handle_channel_event_at(produced, 600);
    assert_eq!(sent_to(&effects, A), vec![output("chan", b"hi\r\n", 600)]);
    assert!(sent_to(&effects, B).is_empty());
    assert_eq!(effects.len(), 1);

    // and exits
    let ended = state.record_exit("chan", Some(0)).expect("published");
    let effects = state.handle_channel_event_at(ended, 700);
    let exited = event(ChannelEvent::Exited { name: "chan".to_string(), exit_code: Some(0) });
    assert_eq!(sent_to(&effects, A), vec![subscription_changed(&[]), exited.clone()]);
    assert_eq!(sent_to(&effects, B), vec![exited]);
    assert_eq!(effects.len(), 3);
    assert!(state.client(A).unwrap().get_subscriptions().is_empty());

    // nothing follows the end
    assert!(state.record_output("chan", b"late").is_none());
    assert!(state.record_exit("chan", Some(1)).is_none());
}

#[test]
fn sends_output_only_to_subscribers() {
    let mut state = new_state();
    state.connect_client(A).unwrap();
    state.connect_client(B).unwrap();
    create_channel(&mut state, A, "chan");
    state.process_message(ClientMessage::Subscribe { channels: names(&["chan"]) }, A);

    let effects = state.handle_channel_event_at(
        ChannelManagerEvent::Output { channel_name: "chan".to_string(), data: b"hello".to_vec() },
        42,
    );

    assert_eq!(effects.len(), 1);
    match &effects[0] {
        Effect::Send { client, message: ServerMessage::Output { channel, data, timestamp } } => {
            assert_eq!(*client, A);
            assert_eq!(channel, "chan");
            assert_eq!(data, b"hello");
            assert_eq!(*timestamp, 42);
        }
        other => panic!("unexpected message for subscriber: {:?}", other),
    }
    assert!(sent_to(&effects, B).is_empty(), "unsubscribed client should not receive output");
}

#[test]
fn replays_buffer_on_subscribe() {
    let mut state = new_state();
    // the first channel is the active one, so a later client would be
    // subscribed to it from the start: make another one
    state.connect_client(A).unwrap();
    create_channel(&mut state, A, "first");
    create_channel(&mut state, A, "chan");

    let effects = state.handle_channel_event_at(
        ChannelManagerEvent::Output { channel_name: "chan".to_string(), data: b"missed".to_vec() },
        7,
    );
    assert!(effects.is_empty());

    // Subscribe after output was produced
    let effects = state.process_message(ClientMessage::Subscribe { channels: names(&["chan"]) }, A);
    assert_eq!(
        sent_to(&effects, A),
        vec![output("chan", b"missed", 7), subscription_changed(&["chan"])]
    );
    assert_eq!(effects.len(), 2);
}

#[test]
fn replay_on_late_subscribe() {
    let mut state = new_state();
    state.connect_client(A).unwrap();
    create_channel(&mut state, A, "idle");
    create_channel(&mut state, A, "c");
    let produced = state.record_output("c", b"line1\n").unwrap();
    assert!(state.handle_channel_event_at(produced, 10).is_empty());

    // B attaches later and subscribes
    state.connect_client(B).unwrap();
    let effects = state.process_message(ClientMessage::Subscribe { channels: names(&["c"]) }, B);
    assert_eq!(
        sent_to(&effects, B),
        vec![output("c", b"line1\n", 10), subscription_changed(&["idle", "c"])]
    );
    // live output follows the replay
    let produced = state.record_output("c", b"line2\n").unwrap();
    let effects = state.handle_channel_event_at(produced, 20);
    assert_eq!(sent_to(&effects, B), vec![output("c", b"line2\n", 20)]);
}

#[test]
fn new_client_is_subscribed_to_the_active_channel_and_gets_its_replay() {
    let mut state = new_state();
    state.connect_client(A).unwrap();
    create_channel(&mut state, A, "main");
    for (i, chunk) in [b"one".as_slice(), b"two".as_slice()].iter().enumerate() {
        let produced = state.record_output("main", chunk).unwrap();
        state.handle_channel_event_at(produced, i as i64);
    }
    let session_id = state.session().id();
    let effects = state.connect_client(B).unwrap();
    assert_eq!(
        sent_to(&effects, B),
        vec![
            format!("{:?}", create_welcome_message(session_id)),
            output("main", b"one", 0),
            output("main", b"two", 1),
        ]
    );
    assert_eq!(state.client(B).unwrap().get_subscriptions(), vec!["main"]);
    // A attached before the channel was there: it is not subscribed
    assert!(state.client(A).unwrap().get_subscriptions().is_empty());
}

#[test]
fn new_client_is_not_subscribed_to_an_active_channel_that_has_ended() {
    let mut state = new_state();
    state.connect_client(A).unwrap();
    create_channel(&mut state, A, "main");
    state.record_exit("main", Some(0));
    state.connect_client(B).unwrap();
    assert!(state.client(B).unwrap().get_subscriptions().is_empty());
}

#[test]
fn kill_while_active() {
    let mut state = new_state();
    state.connect_client(A).unwrap();
    create_channel(&mut state, A, "a");
    create_channel(&mut state, A, "b");
    state.process_message(ClientMessage::Subscribe { channels: names(&["a", "b"]) }, A);
    assert_eq!(state.channel_manager().active_channel(), Some("a"));

    let mut effects = state.process_message(ClientMessage::KillChannel { name: "a".to_string() }, A);
    assert_eq!(effects.len(), 3);
    assert!(matches!(&effects[0], Effect::Pty(PtyRequest::Kill { channel }) if channel == "a"));
    assert_eq!(sent_to(&effects, A), vec![ack("KillChannel")]);
    let killed = match effects.remove(1) {
        Effect::Publish(event) => event,
        other => panic!("unexpected: {:?}", other),
    };
    assert!(matches!(
        &killed,
        ChannelManagerEvent::StateChanged { channel_name, state: ChannelState::Killed } if channel_name == "a"
    ));

    // later the pump tells of the kill
    let effects = state.handle_channel_event_at(killed, 9);
    assert_eq!(
        sent_to(&effects, A),
        vec![subscription_changed(&["b"]), event(ChannelEvent::Killed { name: "a".to_string() })]
    );

    // the list shows b only, and b is active
    let effects = state.process_message(ClientMessage::ListChannels, A);
    match &effects[0] {
        Effect::Send { client, message: ServerMessage::ChannelList { channels } } => {
            assert_eq!(*client, A);
            assert_eq!(channels.len(), 1);
            assert_eq!(channels[0].name, "b");
            assert!(channels[0].is_active);
            assert!(channels[0].running);
            assert!(channels[0].is_subscribed);
        }
        other => panic!("unexpected: {:?}", other),
    }

    // killing it again succeeds silently
    let effects = state.process_message(ClientMessage::KillChannel { name: "a".to_string() }, A);
    assert_eq!(sent_to(&effects, A), vec![ack("KillChannel")]);
    assert_eq!(effects.len(), 1);
}

#[test]
fn kill_of_unknown_or_exited_channel_is_an_error() {
    let mut state = new_state();
    state.connect_client(A).unwrap();
    let effects = state.process_message(ClientMessage::KillChannel { name: "x".to_string() }, A);
    assert_eq!(sent_to(&effects, A), vec![error("Failed to kill channel: Channel 'x' not found")]);
    create_channel(&mut state, A, "x");
    state.record_exit("x", Some(0));
    let effects = state.process_message(ClientMessage::KillChannel { name: "x".to_string() }, A);
    assert_eq!(
        sent_to(&effects, A),
        vec![error("Failed to kill channel: Channel 'x' is not running")]
    );
    assert_eq!(effects.len(), 1);
}

#[test]
fn duplicate_creation() {
    let mut state = new_state();
    state.connect_client(A).unwrap();
    let first = create_channel(&mut state, A, "x");
    assert_eq!(first.len(), 3);
    let second = state.process_message(create_message("x", None), A);
    assert_eq!(second.len(), 1);
    match &second[0] {
        Effect::Send { client, message: ServerMessage::Error { message } } => {
            assert_eq!(*client, A);
            assert!(message.contains("already exists"));
            assert_eq!(message, "Failed to create channel: Channel 'x' already exists");
        }
        other => panic!("unexpected: {:?}", other),
    }
    assert_eq!(state.channel_manager().list_channels(), vec!["x"]);
}

#[test]
fn duplicate_creation_while_the_first_is_starting() {
    let mut state = new_state();
    state.connect_client(A).unwrap();
    state.connect_client(B).unwrap();
    // both are asked to start before either completes
    let plan_a = match state.process_message(create_message("x", None), A).remove(0) {
        Effect::Spawn { plan, .. } => plan,
        other => panic!("unexpected: {:?}", other),
    };
    let plan_b = match state.process_message(create_message("x", None), B).remove(0) {
        Effect::Spawn { plan, .. } => plan,
        other => panic!("unexpected: {:?}", other),
    };
    let first = state.complete_create(A, &plan_a, Ok(Some(1)), 0);
    assert_eq!(first.len(), 4);
    let second = state.complete_create(B, &plan_b, Ok(Some(2)), 0);
    assert_eq!(
        sent_to(&second, B),
        vec![error("Failed to create channel: Channel 'x' already exists")]
    );
    assert_eq!(second.len(), 1);
    assert_eq!(state.channel_manager().list_channels(), vec!["x"]);
    assert_eq!(state.channel_manager().statuses(None)[0].pid, Some(1));
}

#[test]
fn spawn_failure_registers_nothing() {
    let mut state = new_state();
    state.connect_client(A).unwrap();
    let plan = match state.process_message(create_message("x", Some("/no/such")), A).remove(0) {
        Effect::Spawn { plan, .. } => plan,
        other => panic!("unexpected: {:?}", other),
    };
    let effects = state.complete_create(A, &plan, Err("No such file or directory".to_string()), 0);
    assert_eq!(
        sent_to(&effects, A),
        vec![error("Failed to create channel: No such file or directory")]
    );
    assert_eq!(effects.len(), 1);
    assert!(state.channel_manager().list_channels().is_empty());
}

#[test]
fn subscribe_to_everything() {
    let mut state = new_state();
    state.connect_client(A).unwrap();
    create_channel(&mut state, A, "one");
    create_channel(&mut state, A, "two");
    create_channel(&mut state, A, "three");
    create_channel(&mut state, A, "four");
    state.record_exit("two", Some(0));
    state.process_message(ClientMessage::KillChannel { name: "four".to_string() }, A);
    let effects = state.process_message(
        ClientMessage::Subscribe { channels: names(&["ignored", "*"]) },
        A,
    );
    assert_eq!(sent_to(&effects, A), vec![subscription_changed(&["one", "three"])]);
}

#[test]
fn subscribe_passes_over_what_is_not_live() {
    let mut state = new_state();
    state.connect_client(A).unwrap();
    create_channel(&mut state, A, "one");
    create_channel(&mut state, A, "two");
    state.record_exit("two", Some(0));
    let effects = state.process_message(
        ClientMessage::Subscribe { channels: names(&["two", "nope", "one", "one"]) },
        A,
    );
    assert_eq!(sent_to(&effects, A), vec![subscription_changed(&["one"])]);
    // again: nothing changes and nothing is replayed
    let produced = state.record_output("one", b"x").unwrap();
    state.handle_channel_event_at(produced, 1);
    let effects = state.process_message(ClientMessage::Subscribe { channels: names(&["one"]) }, A);
    assert_eq!(sent_to(&effects, A), vec![subscription_changed(&["one"])]);
    assert_eq!(effects.len(), 1);
}

#[test]
fn unsubscribe_removes_channels() {
    let mut state = new_state();
    state.connect_client(A).unwrap();
    create_channel(&mut state, A, "one");
    create_channel(&mut state, A, "two");
    state.process_message(ClientMessage::Subscribe { channels: names(&["*"]) }, A);
    let effects = state.process_message(
        ClientMessage::Unsubscribe { channels: names(&["one", "unknown"]) },
        A,
    );
    assert_eq!(sent_to(&effects, A), vec![subscription_changed(&["two"])]);
    let produced = state.record_output("one", b"x").unwrap();
    assert!(state.handle_channel_event_at(produced, 1).is_empty());
}

#[test]
fn messages_from_unknown_clients() {
    let mut state = new_state();
    for message in [
        ClientMessage::Subscribe { channels: names(&["*"]) },
        ClientMessage::Unsubscribe { channels: names(&["x"]) },
        ClientMessage::ListChannels,
    ] {
        let effects = state.process_message(message, A);
        assert_eq!(sent_to(&effects, A), vec![error("Client not found")]);
    }
}

#[test]
fn list_shows_each_client_its_own_subscriptions() {
    let mut state = new_state();
    state.connect_client(A).unwrap();
    create_channel(&mut state, A, "one");
    create_channel(&mut state, A, "two");
    state.connect_client(B).unwrap(); // subscribed to "one", the active channel
    state.process_message(ClientMessage::Subscribe { channels: names(&["two"]) }, A);
    let flags = |effects: Vec<Effect>| -> Vec<(String, bool, bool)> {
        match &effects[0] {
            Effect::Send { message: ServerMessage::ChannelList { channels }, .. } => channels
                .iter()
                .map(|c| (c.name.clone(), c.is_active, c.is_subscribed))
                .collect(),
            other => panic!("unexpected: {:?}", other),
        }
    };
    assert_eq!(
        flags(state.process_message(ClientMessage::ListChannels, A)),
        vec![("one".to_string(), true, false), ("two".to_string(), false, true)]
    );
    assert_eq!(
        flags(state.process_message(ClientMessage::ListChannels, B)),
        vec![("one".to_string(), true, true), ("two".to_string(), false, false)]
    );
}

#[test]
fn switch_channel_tells_everyone() {
    let mut state = new_state();
    state.connect_client(A).unwrap();
    state.connect_client(B).unwrap();
    create_channel(&mut state, A, "one");
    create_channel(&mut state, A, "two");
    let effects = state.process_message(ClientMessage::SwitchChannel { name: "two".to_string() }, B);
    let changed = event(ChannelEvent::ActiveChanged { name: "two".to_string() });
    assert_eq!(sent_to(&effects, B), vec![ack("SwitchChannel"), changed.clone()]);
    assert_eq!(sent_to(&effects, A), vec![changed]);
    assert_eq!(state.channel_manager().active_channel(), Some("two"));
    let effects = state.process_message(ClientMessage::SwitchChannel { name: "nope".to_string() }, B);
    assert_eq!(
        sent_to(&effects, B),
        vec![error("Failed to switch channel: Channel 'nope' not found")]
    );
    assert_eq!(state.channel_manager().active_channel(), Some("two"));
}

#[test]
fn input_goes_to_the_active_or_the_named_channel() {
    let mut state = new_state();
    state.connect_client(A).unwrap();
    let effects = state.process_message(ClientMessage::Input { data: b"x".to_vec() }, A);
    assert_eq!(sent_to(&effects, A), vec![error("Failed to send input: No active channel")]);
    create_channel(&mut state, A, "one");
    create_channel(&mut state, A, "two");
    let effects = state.process_message(ClientMessage::Input { data: b"ls\n".to_vec() }, A);
    assert_eq!(effects.len(), 1);
    assert!(matches!(
        &effects[0],
        Effect::Pty(PtyRequest::Write { channel, data }) if channel == "one" && data == b"ls\n"
    ));
    let effects = state.process_message(
        ClientMessage::InputTo { channel: "two".to_string(), data: b"pwd\n".to_vec() },
        A,
    );
    assert!(matches!(
        &effects[0],
        Effect::Pty(PtyRequest::Write { channel, data }) if channel == "two" && data == b"pwd\n"
    ));
    let effects = state.process_message(
        ClientMessage::InputTo { channel: "three".to_string(), data: b"pwd\n".to_vec() },
        A,
    );
    assert_eq!(
        sent_to(&effects, A),
        vec![error("Failed to send input: Channel 'three' not found")]
    );
    state.record_exit("one", Some(0));
    let effects = state.process_message(ClientMessage::Input { data: b"ls\n".to_vec() }, A);
    assert_eq!(
        sent_to(&effects, A),
        vec![error("Failed to send input: Channel 'one' is not running")]
    );
}

#[test]
fn resize_goes_to_every_live_channel_silently() {
    let mut state = new_state();
    state.connect_client(A).unwrap();
    assert!(state.process_message(ClientMessage::Resize { cols: 80, rows: 24 }, A).is_empty());
    create_channel(&mut state, A, "one");
    create_channel(&mut state, A, "two");
    state.record_exit("one", None);
    let effects = state.process_message(ClientMessage::Resize { cols: 132, rows: 50 }, A);
    assert_eq!(effects.len(), 1);
    assert!(matches!(
        &effects[0],
        Effect::Pty(PtyRequest::Resize { channel, size })
        if channel == "two" && *size == TerminalSize { rows: 50, cols: 132, pixel_width: 0, pixel_height: 0 }
    ));
}

#[test]
fn status_reports_channels() {
    let mut state = new_state();
    state.connect_client(A).unwrap();
    create_channel(&mut state, A, "one");
    create_channel(&mut state, A, "two");
    state.record_output("two", b"a\nb\nc");
    state.record_exit("two", Some(9));
    let effects = state.process_message(ClientMessage::GetStatus { channel: None }, A);
    match &effects[0] {
        Effect::Send { message: ServerMessage::Status { channels }, .. } => {
            assert_eq!(channels.len(), 2);
            assert_eq!(channels[0].name, "one");
            assert!(channels[0].running);
            assert_eq!(channels[0].pid, Some(1234));
            assert_eq!(channels[0].command, "/bin/sh");
            assert_eq!(channels[0].working_dir, "/work");
            assert_eq!(channels[0].created_at, 1_000);
            assert_eq!(channels[1].name, "two");
            assert!(!channels[1].running);
            assert_eq!(channels[1].exit_code, Some(9));
            assert_eq!(channels[1].output_lines, 2);
        }
        other => panic!("unexpected: {:?}", other),
    }
    let effects = state.process_message(
        ClientMessage::GetStatus { channel: Some("two".to_string()) },
        A,
    );
    match &effects[0] {
        Effect::Send { message: ServerMessage::Status { channels }, .. } => {
            assert_eq!(channels.len(), 1);
            assert_eq!(channels[0].name, "two");
        }
        other => panic!("unexpected: {:?}", other),
    }
}

#[test]
fn detach_and_shutdown() {
    let mut state = new_state();
    state.connect_client(A).unwrap();
    let effects = state.process_message(ClientMessage::Detach, A);
    assert_eq!(sent_to(&effects, A), vec![ack("Detach")]);
    assert!(matches!(effects[1], Effect::Disconnect { client } if client == A));
    assert_eq!(effects.len(), 2);
    let effects = state.process_message(ClientMessage::Shutdown, A);
    assert_eq!(sent_to(&effects, A), vec![ack("Shutdown")]);
    assert!(matches!(effects[1], Effect::Shutdown));
    assert_eq!(effects.len(), 2);
}

#[test]
fn one_undecodable_message_does_not_end_the_connection() {
    let mut state = new_state();
    state.connect_client(A).unwrap();
    let effects = state.handle_undecodable(A, "bad tag");
    assert_eq!(sent_to(&effects, A), vec![error("Invalid message: bad tag")]);
    assert_eq!(effects.len(), 1);
    // a good message in between
    state.process_message(ClientMessage::ListChannels, A);
    let effects = state.handle_undecodable(A, "bad tag");
    assert_eq!(effects.len(), 1);
    // two in a row
    let effects = state.handle_undecodable(A, "worse");
    assert_eq!(sent_to(&effects, A), vec![error("Invalid message: worse")]);
    assert!(matches!(effects[1], Effect::Disconnect { client } if client == A));
    assert_eq!(effects.len(), 2);
}

#[test]
fn replay_buffer_keeps_the_newest_chunks() {
    let mut state = new_state();
    state.connect_client(A).unwrap();
    create_channel(&mut state, A, "idle");
    create_channel(&mut state, A, "busy");
    assert_eq!(MAX_BUFFERED_OUTPUTS, 200);
    for i in 0..205u32 {
        let event = ChannelManagerEvent::Output {
            channel_name: "busy".to_string(),
            data: i.to_be_bytes().to_vec(),
        };
        state.handle_channel_event_at(event, i as i64);
    }
    let chunks = state.buffered_output("busy");
    assert_eq!(chunks.len(), 200);
    assert_eq!(chunks[0].data, 5u32.to_be_bytes());
    assert_eq!(chunks[0].timestamp, 5);
    assert_eq!(chunks[199].data, 204u32.to_be_bytes());
    assert!(state.buffered_output("idle").is_empty());
    assert!(state.buffered_output("unknown").is_empty());
    let effects = state.send_buffered_output(A, &names(&["unknown", "busy", "idle"]));
    assert_eq!(effects.len(), 200);
    assert_eq!(sent_to(&effects, A)[0], output("busy", &5u32.to_be_bytes(), 5));
}

#[test]
fn output_keeps_its_order_per_client() {
    let mut state = new_state();
    state.connect_client(A).unwrap();
    state.connect_client(B).unwrap();
    create_channel(&mut state, A, "x");
    create_channel(&mut state, A, "y");
    state.process_message(ClientMessage::Subscribe { channels: names(&["x", "y"]) }, A);
    state.process_message(ClientMessage::Subscribe { channels: names(&["y"]) }, B);
    let mut seen_a = Vec::new();
    let mut seen_b = Vec::new();
    for (i, (channel, data)) in [("x", "1"), ("y", "2"), ("x", "3"), ("y", "4")].iter().enumerate() {
        let produced = state.record_output(channel, data.as_bytes()).unwrap();
        let effects = state.handle_channel_event_at(produced, i as i64);
        seen_a.extend(sent_to(&effects, A));
        seen_b.extend(sent_to(&effects, B));
    }
    assert_eq!(
        seen_a,
        vec![output("x", b"1", 0), output("y", b"2", 1), output("x", b"3", 2), output("y", b"4", 3)]
    );
    assert_eq!(seen_b, vec![output("y", b"2", 1), output("y", b"4", 3)]);
}

#[test]
fn handle_channel_event_takes_the_time_itself() {
    let mut state = new_state();
    state.connect_client(A).unwrap();
    create_channel(&mut state, A, "x");
    state.process_message(ClientMessage::Subscribe { channels: names(&["x"]) }, A);
    let effects = state.handle_channel_event(ChannelManagerEvent::Output {
        channel_name: "x".to_string(),
        data: b"now".to_vec(),
    });
    match &effects[0] {
        Effect::Send { message: ServerMessage::Output { timestamp, data, .. }, .. } => {
            assert_eq!(data, b"now");
            // some time after 2020
            assert!(*timestamp > 1_577_836_800_000);
        }
        other => panic!("unexpected: {:?}", other),
    }
}

#[test]
fn broadcast_reaches_every_client_in_order() {
    let mut state = new_state();
    state.connect_client(B).unwrap();
    state.connect_client(A).unwrap();
    let message = create_error_message("maintenance".to_string());
    let effects = state.broadcast_to_clients(&message);
    assert_eq!(effects.len(), 2);
    assert!(matches!(&effects[0], Effect::Send { client, .. } if *client == B));
    assert!(matches!(&effects[1], Effect::Send { client, .. } if *client == A));
    assert_eq!(sent_to(&effects, A), vec![error("maintenance")]);
}

#[test]
fn welcome_names_the_protocol_version() {
    assert_eq!(PROTOCOL_VERSION, 1);
    match create_welcome_message(17) {
        ServerMessage::Welcome { session_id, protocol_version } => {
            assert_eq!(session_id, 17);
            assert_eq!(protocol_version, PROTOCOL_VERSION);
        }
        other => panic!("unexpected: {:?}", other),
    }
}

#[test]
fn client_connection_subscriptions() {
    let mut client = ClientConnection::with_id(5);
    assert_eq!(client.id(), 5);
    assert!(client.get_subscriptions().is_empty());
    let added = client.subscribe(&names(&["a", "b", "a"]));
    assert_eq!(added, vec!["a", "b"]);
    let added = client.subscribe(&names(&["b", "c"]));
    assert_eq!(added, vec!["c"]);
    assert_eq!(client.get_subscriptions(), vec!["a", "b", "c"]);
    assert!(client.is_subscribed("b"));
    client.unsubscribe(&names(&["b", "x"]));
    assert_eq!(client.get_subscriptions(), vec!["a", "c"]);
    assert!(!client.is_subscribed("b"));
    assert_ne!(ClientConnection::new().id(), ClientConnection::new().id());
}

#[test]
fn session_tracks_its_clients() {
    let mut session = Session::with_identity(9, "work".to_string(), "/tmp/w.sock".to_string(), 123);
    assert_eq!(session.id(), 9);
    assert_eq!(session.name(), "work");
    assert_eq!(session.info.socket_path, "/tmp/w.sock");
    assert_eq!(session.info.created_at, 123);
    assert!(!session.has_clients());
    session.add_client(1);
    session.add_client(2);
    session.add_client(1);
    assert_eq!(session.client_ids(), &[1, 2, 1]);
    assert_eq!(session.info.client_count, 3);
    session.remove_client(1);
    assert_eq!(session.client_ids(), &[2]);
    assert_eq!(session.info.client_count, 1);
    let fresh = Session::new("s".to_string(), "p".to_string());
    assert_eq!(fresh.name(), "s");
    assert!(fresh.info.created_at > 1_577_836_800_000);
    assert_ne!(fresh.id(), Session::new("s".to_string(), "p".to_string()).id());
}

#[test]
fn startup_decisions() {
    let listener = ServerListener::new("work".to_string(), "/definitely/not/there.sock".to_string());
    assert_eq!(listener.socket_path(), "/definitely/not/there.sock");
    assert_eq!(listener.session_name(), "work");
    assert!(!listener.socket_exists());
    assert!(matches!(listener.startup(false, false), Startup::Bind));
    assert!(matches!(listener.startup(false, true), Startup::Bind));
    assert!(matches!(listener.startup(true, false), Startup::RemoveStale));
    match listener.startup(true, true) {
        Startup::AlreadyRunning { message } => {
            assert_eq!(message, "Server already running for session 'work'");
        }
        other => panic!("unexpected: {:?}", other),
    }
    let here = ServerListener::new("t".to_string(), "/".to_string());
    assert!(here.socket_exists());
}

#[test]
fn stream_reading() {
    // clean close: fewer than four bytes are left
    assert!(read_message(&[]).unwrap().is_none());
    assert!(read_message(&[0, 0]).unwrap().is_none());
    // a whole frame, then more
    let mut stream = write_message(b"hello");
    stream.extend_from_slice(&write_message(b"world!"));
    let (payload, consumed) = read_message(&stream).unwrap().unwrap();
    assert_eq!(payload, b"hello");
    assert_eq!(consumed, 9);
    let (payload, consumed) = read_message(&stream[consumed..]).unwrap().unwrap();
    assert_eq!(payload, b"world!");
    assert_eq!(consumed, 10);
    // the stream ends inside a frame
    let err = read_message(&stream[..7]).unwrap_err();
    assert!(err.to_string().starts_with("Invalid frame: "));
    // an oversize header is refused without its payload
    let err = read_message(&0x8000_0000u32.to_be_bytes()).unwrap_err();
    assert!(err.to_string().contains("Message too large"));
}

#[test]
fn kill_of_a_killed_active_channel_moves_the_active_role() {
    let mut state = new_state();
    state.connect_client(A).unwrap();
    create_channel(&mut state, A, "a");
    create_channel(&mut state, A, "b");
    state.process_message(ClientMessage::KillChannel { name: "a".to_string() }, A);
    assert_eq!(state.channel_manager().active_channel(), Some("b"));
    state.process_message(ClientMessage::SwitchChannel { name: "a".to_string() }, A);
    assert_eq!(state.channel_manager().active_channel(), Some("a"));
    let effects = state.process_message(ClientMessage::KillChannel { name: "a".to_string() }, A);
    assert_eq!(effects.len(), 1);
    assert_eq!(sent_to(&effects, A), vec![ack("KillChannel")]);
    assert_eq!(state.channel_manager().active_channel(), Some("b"));
}

#[test]
fn a_client_is_subscribed_to_a_channel_at_most_once() {
    let mut state = new_state();
    state.connect_client(A).unwrap();
    create_channel(&mut state, A, "a");
    create_channel(&mut state, A, "b");
    state.process_message(ClientMessage::Subscribe { channels: names(&["a", "b", "a"]) }, A);
    state.process_message(ClientMessage::Subscribe { channels: names(&["*", "b"]) }, A);
    state.process_message(ClientMessage::Subscribe { channels: names(&["b", "b"]) }, A);
    let mut subscribed = state.client(A).unwrap().get_subscriptions();
    subscribed.sort();
    assert_eq!(subscribed, names(&["a", "b"]));
}
