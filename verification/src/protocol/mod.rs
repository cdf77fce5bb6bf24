//! Wire protocol between clients and the daemon.
//!
//! A stream carries frames; each frame is a 4-byte big-endian length followed
//! by that many payload bytes.

mod message;

pub use message::{
    ChannelEvent, ChannelEventView, ChannelInfo, ChannelInfoView, ChannelStatus,
    ChannelStatusView, ClientMessage, ClientMessageView, ServerMessage, ServerMessageView,
};
use crate::text::{decimal, push_decimal};
use vstd::prelude::*;
use vstd::slice::{slice_subrange, slice_to_vec};
use vstd::string::*;

verus! {

/// Protocol version for compatibility checking.
pub const PROTOCOL_VERSION: u32 = 1;

/// Largest payload a frame may declare (10 MiB).
pub const MAX_MESSAGE_SIZE: u32 = 10485760;

/// Errors of the protocol layer.
#[derive(Debug)]
pub enum ProtocolError {
    VersionMismatch { client: u32, server: u32 },
    InvalidFrame(String),
    MalformedMessage(String),
    MessageTooLarge { size: u32, max: u32 },
}

impl ProtocolError {
    /// The text of the error.
    pub open spec fn text(self) -> Seq<char> {
        match self {
            ProtocolError::VersionMismatch { client, server } => {
                "Protocol version mismatch: client="@ + decimal(client as nat) + ", server="@
                    + decimal(server as nat)
            },
            ProtocolError::InvalidFrame(reason) => "Invalid frame: "@ + reason@,
            ProtocolError::MalformedMessage(reason) => "Malformed message: "@ + reason@,
            ProtocolError::MessageTooLarge { size, max } => {
                "Message too large: "@ + decimal(size as nat) + " bytes (max: "@ + decimal(
                    max as nat,
                ) + ")"@
            },
        }
    }

    /// The text of the error.
    pub fn to_string(&self) -> (text: String)
        ensures
            text@ == self.text(),
    {
        match self {
            ProtocolError::VersionMismatch { client, server } => {
                let mut text = "Protocol version mismatch: client=".to_string();
                push_decimal(&mut text, *client as u64);
                text.append(", server=");
                push_decimal(&mut text, *server as u64);
                text
            },
            ProtocolError::InvalidFrame(reason) => {
                let mut text = "Invalid frame: ".to_string();
                text.append(reason.as_str());
                text
            },
            ProtocolError::MalformedMessage(reason) => {
                let mut text = "Malformed message: ".to_string();
                text.append(reason.as_str());
                text
            },
            ProtocolError::MessageTooLarge { size, max } => {
                let mut text = "Message too large: ".to_string();
                push_decimal(&mut text, *size as u64);
                text.append(" bytes (max: ");
                push_decimal(&mut text, *max as u64);
                text.append(")");
                text
            },
        }
    }
}

/// Check if client and server protocol versions are compatible: they are
/// when they are equal.
pub fn check_version_compatibility(client_version: u32, server_version: u32) -> (result: Result<
    (),
    ProtocolError,
>)
    ensures
        client_version == server_version ==> result is Ok,
        client_version != server_version ==> (result matches Err(
            ProtocolError::VersionMismatch { client, server },
        ) && client == client_version && server == server_version),
{
    if client_version != server_version {
        return Err(
            ProtocolError::VersionMismatch { client: client_version, server: server_version },
        );
    }
    Ok(())
}

/// The four bytes of `n`, most significant first.
pub open spec fn be_bytes(n: u32) -> Seq<u8> {
    seq![
        (n / 0x100_0000) as u8,
        ((n / 0x1_0000) % 0x100) as u8,
        ((n / 0x100) % 0x100) as u8,
        (n % 0x100) as u8,
    ]
}

/// The number that the first four bytes of `bytes` spell, most significant first.
pub open spec fn be_value(bytes: Seq<u8>) -> int
    recommends
        bytes.len() >= 4,
{
    bytes[0] * 0x100_0000 + bytes[1] * 0x1_0000 + bytes[2] * 0x100 + bytes[3]
}

/// The length prefix written for a payload of `len` bytes: `len` reduced to 32 bits.
pub open spec fn length_prefix(len: nat) -> u32 {
    (len % 0x1_0000_0000) as u32
}

/// One frame: the length prefix, then the payload.
pub open spec fn framed(payload: Seq<u8>) -> Seq<u8> {
    be_bytes(length_prefix(payload.len())) + payload
}

/// What reading one frame off the front of a buffer yields.
pub enum Unframed {
    /// The buffer does not yet hold a whole frame.
    Incomplete,
    /// The header declares more than `MAX_MESSAGE_SIZE` bytes.
    TooLarge { size: u32 },
    /// A whole frame, and the bytes that follow it.
    Frame { payload: Seq<u8>, rest: Seq<u8> },
}

/// Reads one frame off the front of `buffer`. The size limit is checked on the
/// header alone, before the payload is looked at.
pub open spec fn unframed(buffer: Seq<u8>) -> Unframed {
    if buffer.len() < 4 {
        Unframed::Incomplete
    } else if be_value(buffer) > MAX_MESSAGE_SIZE {
        Unframed::TooLarge { size: be_value(buffer) as u32 }
    } else if buffer.len() < 4 + be_value(buffer) {
        Unframed::Incomplete
    } else {
        Unframed::Frame {
            payload: buffer.subrange(4, 4 + be_value(buffer)),
            rest: buffer.subrange(4 + be_value(buffer), buffer.len() as int),
        }
    }
}

/// `be_value` undoes `be_bytes`.
pub proof fn lemma_be_roundtrip(n: u32)
    ensures
        be_bytes(n).len() == 4,
        be_value(be_bytes(n)) == n,
{
    let b0: u32 = n / 0x100_0000;
    let b1: u32 = (n / 0x1_0000) % 0x100;
    let b2: u32 = (n / 0x100) % 0x100;
    let b3: u32 = n % 0x100;
    assert(b0 < 0x100 && b1 < 0x100 && b2 < 0x100 && b3 < 0x100 && n == b0 * 0x100_0000 + b1
        * 0x1_0000 + b2 * 0x100 + b3) by (bit_vector)
        requires
            b0 == n / 0x100_0000,
            b1 == (n / 0x1_0000) % 0x100,
            b2 == (n / 0x100) % 0x100,
            b3 == n % 0x100,
    ;
}

/// Unframing a frame that is followed by other bytes gives back the payload
/// and those bytes, for every payload of at most `MAX_MESSAGE_SIZE` bytes.
pub proof fn lemma_unframe_frame_then(payload: Seq<u8>, rest: Seq<u8>)
    requires
        payload.len() <= MAX_MESSAGE_SIZE,
    ensures
        unframed(framed(payload) + rest) == (Unframed::Frame { payload, rest }),
{
    let n = length_prefix(payload.len());
    assert(n == payload.len());
    lemma_be_roundtrip(n);
    let buffer = framed(payload) + rest;
    assert(buffer[0] == be_bytes(n)[0]);
    assert(buffer[1] == be_bytes(n)[1]);
    assert(buffer[2] == be_bytes(n)[2]);
    assert(buffer[3] == be_bytes(n)[3]);
    assert(be_value(buffer) == be_value(be_bytes(n)));
    assert(buffer.subrange(4, 4 + be_value(buffer)) =~= payload);
    assert(buffer.subrange(4 + be_value(buffer), buffer.len() as int) =~= rest);
}

/// Unframing a frame gives back its payload and leaves nothing, for every
/// payload of at most `MAX_MESSAGE_SIZE` bytes.
pub proof fn lemma_unframe_frame(payload: Seq<u8>)
    requires
        payload.len() <= MAX_MESSAGE_SIZE,
    ensures
        unframed(framed(payload)) == (Unframed::Frame { payload, rest: Seq::empty() }),
{
    lemma_unframe_frame_then(payload, Seq::empty());
    assert(framed(payload) + Seq::<u8>::empty() =~= framed(payload));
}

/// Two frames one after the other, unframed twice, give back the first
/// payload, then the second, and leave nothing.
pub proof fn lemma_unframe_two_frames(first: Seq<u8>, second: Seq<u8>)
    requires
        first.len() <= MAX_MESSAGE_SIZE,
        second.len() <= MAX_MESSAGE_SIZE,
    ensures
        unframed(framed(first) + framed(second)) == (Unframed::Frame {
            payload: first,
            rest: framed(second),
        }),
        unframed(framed(second)) == (Unframed::Frame { payload: second, rest: Seq::empty() }),
{
    lemma_unframe_frame_then(first, framed(second));
    lemma_unframe_frame(second);
}

/// A header that declares more than `MAX_MESSAGE_SIZE` bytes is refused on
/// the header alone, whatever follows it and however little of it.
pub proof fn lemma_oversize_refused(buffer: Seq<u8>)
    requires
        buffer.len() >= 4,
        be_value(buffer) > MAX_MESSAGE_SIZE,
    ensures
        unframed(buffer) == (Unframed::TooLarge { size: be_value(buffer) as u32 }),
        unframed(buffer.take(4)) == (Unframed::TooLarge { size: be_value(buffer) as u32 }),
{
    assert(be_value(buffer.take(4)) == be_value(buffer));
}

/// Frame a payload with its length prefix.
pub fn frame_message(payload: &[u8]) -> (frame: Vec<u8>)
    ensures
        frame@ == framed(payload@),
{
    let len: u64 = (payload.len() as u64) % 0x1_0000_0000u64;
    let mut frame: Vec<u8> = Vec::with_capacity(4);
    frame.push((len / 0x100_0000) as u8);
    frame.push(((len / 0x1_0000) % 0x100) as u8);
    frame.push(((len / 0x100) % 0x100) as u8);
    frame.push((len % 0x100) as u8);
    assert(frame@ =~= be_bytes(length_prefix(payload@.len())));
    frame.extend_from_slice(payload);
    assert(frame@ =~= framed(payload@));
    frame
}

/// Take one frame off the front of `buffer`.
///
/// Returns the payload and the bytes after the frame, `None` while the buffer
/// holds less than a whole frame, and `MessageTooLarge` as soon as a header
/// declares more than `MAX_MESSAGE_SIZE` bytes, whether or not the payload has
/// arrived.
pub fn unframe_message(buffer: &[u8]) -> (result: Result<Option<(Vec<u8>, &[u8])>, ProtocolError>)
    ensures
        match unframed(buffer@) {
            Unframed::Incomplete => result matches Ok(None),
            Unframed::TooLarge { size } => result matches Err(
                ProtocolError::MessageTooLarge { size: s, max: m },
            ) && s == size && m == MAX_MESSAGE_SIZE,
            Unframed::Frame { payload, rest } => result matches Ok(Some((p, r))) && p@ == payload
                && r@ == rest,
        },
{
    if buffer.len() < 4 {
        return Ok(None);
    }
    let message_length: u32 = (buffer[0] as u32) * 0x100_0000 + (buffer[1] as u32) * 0x1_0000 + (
    buffer[2] as u32) * 0x100 + (buffer[3] as u32);
    if message_length > MAX_MESSAGE_SIZE {
        return Err(ProtocolError::MessageTooLarge { size: message_length, max: MAX_MESSAGE_SIZE });
    }
    let total_length: usize = 4 + message_length as usize;
    if buffer.len() < total_length {
        return Ok(None);
    }
    let payload = slice_to_vec(slice_subrange(buffer, 4, total_length));
    let remaining = slice_subrange(buffer, total_length, buffer.len());
    Ok(Some((payload, remaining)))
}

} // verus!
