//! Client connection handling: a client's identity and subscription set, and
//! the framing of what it sends and receives.

use crate::protocol::{
    be_value, frame_message, framed, unframe_message, ProtocolError, ServerMessage,
    ServerMessageView, MAX_MESSAGE_SIZE, PROTOCOL_VERSION,
};
use crate::text::{add_names, contains_name, newly_added, remove_names, with_names, without_names};
use vstd::prelude::*;
use vstd::string::*;

verus! {

/// `uuid::Uuid::new_v4`: a random version-4 UUID, handed on as its 128-bit
/// value. Nothing is promised of the value.
#[verifier::external_body]
pub(crate) fn random_uuid() -> u128 {
    uuid::Uuid::new_v4().as_u128()
}

/// Mathematical value of a [`ClientConnection`].
pub struct ClientView {
    pub id: u128,
    pub subscriptions: Seq<Seq<char>>,
    pub decode_failed: bool,
}

/// Represents a connected client.
#[derive(Debug)]
pub struct ClientConnection {
    /// Unique client identifier: the 128-bit value of a UUID.
    id: u128,
    /// Names of the channels whose output the client receives.
    subscriptions: Vec<String>,
    /// Whether the last thing the client sent could not be decoded.
    decode_failed: bool,
}

impl View for ClientConnection {
    type V = ClientView;

    closed spec fn view(&self) -> ClientView {
        ClientView {
            id: self.id,
            subscriptions: self.subscriptions.deep_view(),
            decode_failed: self.decode_failed,
        }
    }
}

impl DeepView for ClientConnection {
    type V = ClientView;

    open spec fn deep_view(&self) -> ClientView {
        self@
    }
}

impl ClientConnection {
    /// Create a new client connection under a fresh random identifier, with
    /// no subscriptions.
    pub fn new() -> (client: Self)
        ensures
            client@.subscriptions.len() == 0,
            !client@.decode_failed,
    {
        Self::with_id(random_uuid())
    }

    /// Create a new client connection under the given identifier, with no
    /// subscriptions.
    pub fn with_id(id: u128) -> (client: Self)
        ensures
            client@ == (ClientView { id, subscriptions: Seq::empty(), decode_failed: false }),
    {
        let client = Self { id, subscriptions: Vec::new(), decode_failed: false };
        assert(client@.subscriptions =~= Seq::empty());
        client
    }

    /// Get client ID.
    pub fn id(&self) -> (id: u128)
        ensures
            id == self@.id,
    {
        self.id
    }

    /// Adds the channels to the subscription set and returns those that were
    /// not in it before, in the order given. A channel already subscribed
    /// changes nothing.
    pub fn subscribe(&mut self, channels: &[String]) -> (added: Vec<String>)
        ensures
            final(self)@ == (ClientView {
                subscriptions: with_names(old(self)@.subscriptions, channels.deep_view()),
                ..old(self)@
            }),
            added.deep_view() == newly_added(old(self)@.subscriptions, channels.deep_view()),
    {
        add_names(&mut self.subscriptions, channels)
    }

    /// Takes the channels out of the subscription set.
    pub fn unsubscribe(&mut self, channels: &[String])
        ensures
            final(self)@ == (ClientView {
                subscriptions: without_names(old(self)@.subscriptions, channels.deep_view()),
                ..old(self)@
            }),
    {
        remove_names(&mut self.subscriptions, channels);
    }

    /// Whether the client receives the output of the channel.
    pub fn is_subscribed(&self, name: &str) -> (subscribed: bool)
        ensures
            subscribed == self@.subscriptions.contains(name@),
    {
        contains_name(self.subscriptions.as_slice(), name)
    }

    /// The subscription set, in the order in which the channels were added.
    pub fn get_subscriptions(&self) -> (subscriptions: Vec<String>)
        ensures
            subscriptions.deep_view() == self@.subscriptions,
    {
        self.subscriptions.clone()
    }

    /// Notes whether what the client sent last could be decoded, and returns
    /// whether the connection is to be closed: it is when this message and
    /// the one before it both failed to decode.
    pub fn note_decoded(&mut self, ok: bool) -> (close: bool)
        ensures
            final(self)@ == (ClientView { decode_failed: !ok, ..old(self)@ }),
            close == (!ok && old(self)@.decode_failed),
    {
        let close = !ok && self.decode_failed;
        self.decode_failed = !ok;
        close
    }
}

/// What the front of a byte stream holds, where the stream is known to its end.
pub enum FrameRead {
    /// Fewer than four bytes are left: the stream was closed between frames.
    Closed,
    /// The header declares more than `MAX_MESSAGE_SIZE` bytes.
    TooLarge { size: u32 },
    /// The stream ends inside a frame.
    Truncated,
    /// A whole frame, and the number of bytes it takes with its header.
    Message { payload: Seq<u8>, consumed: int },
}

/// Reads one frame off the front of a stream that ends where `stream` ends.
pub open spec fn frame_read(stream: Seq<u8>) -> FrameRead {
    if stream.len() < 4 {
        FrameRead::Closed
    } else if be_value(stream) > MAX_MESSAGE_SIZE {
        FrameRead::TooLarge { size: be_value(stream) as u32 }
    } else if stream.len() < 4 + be_value(stream) {
        FrameRead::Truncated
    } else {
        FrameRead::Message {
            payload: stream.subrange(4, 4 + be_value(stream)),
            consumed: 4 + be_value(stream),
        }
    }
}

/// Read a length-prefixed message from the bytes that a stream delivers up
/// to its end.
///
/// Returns the payload and the number of bytes taken, or `None` where the
/// stream ends before a header is complete. A header that declares more than
/// `MAX_MESSAGE_SIZE` bytes gives `MessageTooLarge` whether or not the payload
/// follows; a stream that ends inside a frame gives `InvalidFrame`.
pub fn read_message(stream: &[u8]) -> (result: Result<Option<(Vec<u8>, usize)>, ProtocolError>)
    ensures
        match frame_read(stream@) {
            FrameRead::Closed => result matches Ok(None),
            FrameRead::TooLarge { size } => result matches Err(
                ProtocolError::MessageTooLarge { size: s, max: m },
            ) && s == size && m == MAX_MESSAGE_SIZE,
            FrameRead::Truncated => result matches Err(ProtocolError::InvalidFrame(reason))
                && reason@ == "stream ended inside a frame"@,
            FrameRead::Message { payload, consumed } => result matches Ok(Some((p, n))) && p@
                == payload && n == consumed,
        },
{
    if stream.len() < 4 {
        return Ok(None);
    }
    match unframe_message(stream) {
        Ok(Some((payload, rest))) => {
            let consumed = stream.len() - rest.len();
            Ok(Some((payload, consumed)))
        },
        Ok(None) => Err(ProtocolError::InvalidFrame("stream ended inside a frame".to_string())),
        Err(e) => Err(e),
    }
}

/// The bytes to write for a payload: its frame.
pub fn write_message(payload: &[u8]) -> (bytes: Vec<u8>)
    ensures
        bytes@ == framed(payload@),
{
    frame_message(payload)
}

/// Create a welcome message for a new client.
pub fn create_welcome_message(session_id: u128) -> (message: ServerMessage)
    ensures
        message@ == (ServerMessageView::Welcome { session_id, protocol_version: PROTOCOL_VERSION }),
{
    ServerMessage::Welcome { session_id, protocol_version: PROTOCOL_VERSION }
}

/// Create an error message.
pub fn create_error_message(message: String) -> (error: ServerMessage)
    ensures
        error@ == (ServerMessageView::Error { message: message@ }),
{
    ServerMessage::Error { message }
}

/// The number of messages that a client's mailbox holds.
pub const MAILBOX_CAPACITY: usize = 256;

/// What becomes of a message for a client whose mailbox is full.
#[derive(Debug, Clone, Copy, PartialEq, Eq, Structural)]
pub enum WhenFull {
    /// The message is dropped, and the client stays.
    Drop,
    /// The client is closed.
    Close,
}

/// What becomes of a message for a client whose mailbox is full: output is
/// dropped, and a client that cannot be told anything else is closed.
pub fn when_full(message: &ServerMessage) -> (decision: WhenFull)
    ensures
        decision == (if message is Output {
            WhenFull::Drop
        } else {
            WhenFull::Close
        }),
{
    match message {
        ServerMessage::Output { .. } => WhenFull::Drop,
        _ => WhenFull::Close,
    }
}

} // verus!
