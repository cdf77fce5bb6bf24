//! The daemon side: connected clients, the session, and the rules by which
//! client messages and channel events change the session and produce what is
//! sent back.

mod connection;
mod guarantees;
mod listener;
mod session;

pub use connection::{
    create_error_message, create_welcome_message, read_message, when_full, write_message,
    ClientConnection, ClientView, FrameRead, WhenFull, MAILBOX_CAPACITY,
};
pub use guarantees::{
    after_events, chunk_of, data_of, delivered, delivers, ended, events_effects, is_end_of,
    lemma_buffer_holds_newest, lemma_closed_channel_unsubscribed,
    lemma_connect_keeps_subscriptions_live, lemma_create_keeps_subscriptions_live,
    lemma_disconnect_keeps_subscriptions_live, lemma_end_keeps_subscriptions_live,
    lemma_event_keeps_subscriptions_live, lemma_late_subscriber,
    lemma_list_shows_own_subscriptions, lemma_live_names, lemma_message_keeps_subscriptions_live,
    lemma_no_output_after_end, lemma_noting_keeps_subscriptions_live,
    lemma_output_keeps_subscriptions_live, lemma_outputs_in_order, lemma_subscribe_again,
    lemma_subscribe_to_subscribed,
    lemma_subscribe_targets, lemma_subscribe_twice, lemma_subscribed_channels, newest_chunks,
    produced, produced_chunks, produces, receives, Pumped,
};
pub use listener::{
    ack, already_running_text, appended, chunk_effects, client_other_than, error,
    lemma_replay_frame, lemma_with_client, live_in, notify, output_delivery, pty, subscribed_to,
    terminal_event, unsubscribe_notice, unsubscribed, version_mismatch_text, MAX_BUFFERED_OUTPUTS,
    BufferedOutput, BufferedOutputView, Effect, EffectView, OutputBufferView, ServerListener,
    ServerState, ServerView, Startup,
};
pub(crate) use session::now_millis;
pub use session::{other_than, without_id, Session, SessionInfo, SessionView};
