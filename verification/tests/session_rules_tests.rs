//! What a client sees first of a session.

use nexus::channel::SpawnDefaults;
use nexus::protocol::{ClientMessage, ServerMessage, PROTOCOL_VERSION};
use nexus::server::{Effect, ServerListener, ServerState};

fn serve(session: &str) -> ServerState {
    let server = ServerListener::new(session.to_string(), format!("/tmp/{}.sock", session));
    server.open_session(SpawnDefaults {
        shell: "/bin/sh".to_string(),
        working_dir: "/".to_string(),
    })
}

/// The one message that the effects send to the client.
fn response(mut effects: Vec<Effect>, client: u128) -> ServerMessage {
    match effects.remove(0) {
        Effect::Send { client: to, message } => {
            assert_eq!(to, client);
            message
        }
        other => panic!("Expected a message, got {:?}", other),
    }
}

#[test]
fn test_server_accepts_connection() {
    let mut state = serve("test");

    let (client, effects) = state.accept_client().expect("Should accept");

    // Should receive welcome message
    let welcome = response(effects, client);

    match welcome {
        ServerMessage::Welcome {
            protocol_version, ..
        } => {
            assert_eq!(protocol_version, PROTOCOL_VERSION);
        }
        _ => panic!("Expected Welcome message, got {:?}", welcome),
    }
}

#[test]
fn test_server_handles_hello() {
    let mut state = serve("test_hello");
    let (client, _welcome) = state.accept_client().expect("Should accept");

    // Send Hello
    let hello = ClientMessage::Hello {
        protocol_version: PROTOCOL_VERSION,
    };

    // Should receive Ack
    let response = response(state.process_message(hello, client), client);

    match response {
        ServerMessage::Ack { for_command } => {
            assert_eq!(for_command, "Hello");
        }
        _ => panic!("Expected Ack message, got {:?}", response),
    }
}

#[test]
fn test_server_handles_list_channels() {
    let mut state = serve("test_list");
    let (client, _welcome) = state.accept_client().expect("Should accept");

    // Send ListChannels
    let list_msg = ClientMessage::ListChannels;

    // Should receive ChannelList (empty for now)
    let response = response(state.process_message(list_msg, client), client);

    match response {
        ServerMessage::ChannelList { channels } => {
            assert!(channels.is_empty(), "Should have no channels yet");
        }
        _ => panic!("Expected ChannelList message, got {:?}", response),
    }
}

#[test]
fn test_server_rejects_wrong_protocol_version() {
    let mut state = serve("test_version");
    let (client, _welcome) = state.accept_client().expect("Should accept");

    // Send Hello with wrong version
    let hello = ClientMessage::Hello {
        protocol_version: 999,
    };

    // Should receive Error
    let effects = state.process_message(hello, client);
    assert!(matches!(effects[1], Effect::Disconnect { client: closed } if closed == client));
    let response = response(effects, client);

    match response {
        ServerMessage::Error { message } => {
            assert!(message.contains("Protocol version mismatch"));
        }
        _ => panic!("Expected Error message, got {:?}", response),
    }
}
