//! Reading a channel's terminal: how much is read at a time, what becomes of
//! what a read gave, and what holds of the output that a channel publishes
//! over everything that happens to it.

use super::manager::ChannelManagerEventView;
use super::pty_handler::PtyChannelView;
use vstd::prelude::*;

verus! {

/// The most bytes that one read from a channel's terminal takes.
pub const READ_SIZE: usize = 4096;

/// The buffer that the reads from a terminal fill: `READ_SIZE` bytes.
pub fn read_buffer() -> (buffer: Vec<u8>)
    ensures
        buffer@.len() == READ_SIZE,
        forall|i: int| 0 <= i < READ_SIZE ==> buffer@[i] == 0u8,
{
    let mut buffer: Vec<u8> = Vec::new();
    while buffer.len() < READ_SIZE
        invariant
            buffer@.len() <= READ_SIZE,
            forall|i: int| 0 <= i < buffer@.len() ==> buffer@[i] == 0u8,
        decreases READ_SIZE - buffer@.len(),
    {
        buffer.push(0u8);
    }
    buffer
}

/// The bytes that a read put into the buffer: the first `count` of it, and
/// all of it where `count` is beyond its end.
pub open spec fn bytes_read(buffer: Seq<u8>, count: int) -> Seq<u8> {
    if count <= 0 {
        Seq::empty()
    } else if count >= buffer.len() {
        buffer
    } else {
        buffer.take(count)
    }
}

/// What a read that put `count` bytes into the buffer gives to record: the
/// bytes, or `None` where there are none, which is the end of the
/// terminal's output.
pub fn chunk_read(buffer: &[u8], count: usize) -> (chunk: Option<Vec<u8>>)
    ensures
        bytes_read(buffer@, count as int).len() == 0 ==> chunk is None,
        bytes_read(buffer@, count as int).len() > 0 ==> (chunk matches Some(bytes) && bytes@
            == bytes_read(buffer@, count as int)),
        buffer@.len() <= READ_SIZE ==> bytes_read(buffer@, count as int).len() <= READ_SIZE,
{
    let end = if count < buffer.len() {
        count
    } else {
        buffer.len()
    };
    if end == 0 {
        return None;
    }
    let mut bytes: Vec<u8> = Vec::new();
    let mut i: usize = 0;
    while i < end
        invariant
            i <= end <= buffer.len(),
            bytes@ == buffer@.take(i as int),
        decreases end - i,
    {
        bytes.push(buffer[i]);
        assert(bytes@ =~= buffer@.take(i + 1));
        i += 1;
    }
    assert(buffer@.take(buffer@.len() as int) =~= buffer@);
    Some(bytes)
}

/// Something that happens to a channel: a read from its terminal gave
/// bytes, its process ended, or it was killed.
pub enum Happening {
    Read { data: Seq<u8> },
    Exited { wait: Option<u32> },
    Killed,
}

/// The bytes of the chunks, one after the other.
pub open spec fn concatenated(chunks: Seq<Seq<u8>>) -> Seq<u8>
    decreases chunks.len(),
{
    if chunks.len() == 0 {
        Seq::empty()
    } else {
        concatenated(chunks.drop_last()) + chunks.last()
    }
}

/// What the reads among the happenings gave, read after read.
pub open spec fn reads_of(happenings: Seq<Happening>) -> Seq<Seq<u8>>
    decreases happenings.len(),
{
    if happenings.len() == 0 {
        Seq::empty()
    } else {
        match happenings.last() {
            Happening::Read { data } => reads_of(happenings.drop_last()).push(data),
            _ => reads_of(happenings.drop_last()),
        }
    }
}

impl PtyChannelView {
    /// The channel after something happened to it.
    pub open spec fn after(self, happening: Happening) -> PtyChannelView {
        match happening {
            Happening::Read { data } => self.with_output(data),
            Happening::Exited { wait } => self.exited(wait),
            Happening::Killed => self.killed(),
        }
    }

    /// The channel after all of the happenings, in order.
    pub open spec fn after_all(self, happenings: Seq<Happening>) -> PtyChannelView
        decreases happenings.len(),
    {
        if happenings.len() == 0 {
            self
        } else {
            self.after_all(happenings.drop_last()).after(happenings.last())
        }
    }

    /// The output event that a read publishes, if any.
    pub open spec fn output_of(self, happening: Happening) -> Option<ChannelManagerEventView> {
        match happening {
            Happening::Read { data } => if self.publishes(data) {
                Some(ChannelManagerEventView::Output { channel_name: self.name, data })
            } else {
                None
            },
            _ => None,
        }
    }

    /// The output events that the channel publishes over the happenings, in order.
    pub open spec fn published(self, happenings: Seq<Happening>) -> Seq<ChannelManagerEventView>
        decreases happenings.len(),
    {
        if happenings.len() == 0 {
            Seq::empty()
        } else {
            let before = self.published(happenings.drop_last());
            match self.after_all(happenings.drop_last()).output_of(happenings.last()) {
                Some(event) => before.push(event),
                None => before,
            }
        }
    }
}

/// The chunks that the output events carry, in order.
pub open spec fn chunks_of(events: Seq<ChannelManagerEventView>) -> Seq<Seq<u8>>
    decreases events.len(),
{
    if events.len() == 0 {
        Seq::empty()
    } else {
        match events.last() {
            ChannelManagerEventView::Output { channel_name, data } => chunks_of(
                events.drop_last(),
            ).push(data),
            _ => chunks_of(events.drop_last()),
        }
    }
}

/// Whatever happens to a channel, it keeps its name, and once it has
/// reached a final state it stays in one.
pub proof fn lemma_after_all(channel: PtyChannelView, happenings: Seq<Happening>)
    ensures
        channel.after_all(happenings).name == channel.name,
        channel.after_all(happenings).state.alive() ==> channel.state.alive(),
    decreases happenings.len(),
{
    if happenings.len() > 0 {
        lemma_after_all(channel, happenings.drop_last());
    }
}

/// The output that a channel publishes is what the reads from its terminal
/// gave, in order and without gaps, up to the end of the channel. Every
/// output event is for the channel and carries a chunk that is not empty and
/// that is what one read gave; the chunks one after the other are the start
/// of the bytes that were read, and all of them while the channel is live.
pub proof fn lemma_published_is_what_was_read(channel: PtyChannelView, happenings: Seq<Happening>)
    ensures
        forall|k: int|
            0 <= k < channel.published(happenings).len() ==> (
            #[trigger] channel.published(happenings)[k] matches ChannelManagerEventView::Output {
                channel_name,
                data,
            } && channel_name == channel.name && data.len() > 0 && reads_of(happenings).contains(
                data,
            )),
        concatenated(chunks_of(channel.published(happenings))).is_prefix_of(
            concatenated(reads_of(happenings)),
        ),
        channel.after_all(happenings).state.alive() ==> concatenated(
            chunks_of(channel.published(happenings)),
        ) == concatenated(reads_of(happenings)),
    decreases happenings.len(),
{
    let events = channel.published(happenings);
    if happenings.len() > 0 {
        let earlier = happenings.drop_last();
        let last = happenings.last();
        let before = channel.after_all(earlier);
        let sofar = channel.published(earlier);
        lemma_published_is_what_was_read(channel, earlier);
        lemma_after_all(channel, earlier);
        let read_before = reads_of(earlier);
        let read = reads_of(happenings);
        assert forall|k: int| 0 <= k < events.len() implies (
        #[trigger] events[k] matches ChannelManagerEventView::Output { channel_name, data }
            && channel_name == channel.name && data.len() > 0 && read.contains(data)) by {
            if k < sofar.len() {
                assert(events[k] == sofar[k]);
                let data = sofar[k]->Output_data;
                let i = choose|i: int| 0 <= i < read_before.len() && read_before[i] == data;
                assert(read[i] == data);
            } else {
                assert(last is Read);
                assert(read[read.len() - 1] == last->data);
            }
        }
        match last {
            Happening::Read { data } => {
                assert(read.drop_last() =~= read_before);
                if before.publishes(data) {
                    assert(events.drop_last() =~= sofar);
                    assert(chunks_of(events) =~= chunks_of(sofar).push(data));
                    assert(chunks_of(events).drop_last() =~= chunks_of(sofar));
                } else if data.len() == 0 {
                    assert(concatenated(read) =~= concatenated(read_before));
                }
            },
            _ => {},
        }
    } else {
        assert(chunks_of(events) =~= Seq::<Seq<u8>>::empty());
    }
}

/// Where no read gives more than `READ_SIZE` bytes, no output event carries more.
pub proof fn lemma_published_chunks_are_bounded(
    channel: PtyChannelView,
    happenings: Seq<Happening>,
)
    requires
        forall|i: int|
            0 <= i < reads_of(happenings).len() ==> (#[trigger] reads_of(happenings)[i]).len()
                <= READ_SIZE,
    ensures
        forall|k: int|
            0 <= k < channel.published(happenings).len() ==> (
            #[trigger] channel.published(happenings)[k] matches ChannelManagerEventView::Output {
                channel_name,
                data,
            } && 0 < data.len() <= READ_SIZE),
{
    lemma_published_is_what_was_read(channel, happenings);
    let events = channel.published(happenings);
    let read = reads_of(happenings);
    assert forall|k: int| 0 <= k < events.len() implies (
    #[trigger] events[k] matches ChannelManagerEventView::Output { channel_name, data } && 0
        < data.len() <= READ_SIZE) by {
        let data = events[k]->Output_data;
        let i = choose|i: int| 0 <= i < read.len() && read[i] == data;
        assert(read[i].len() <= READ_SIZE);
    }
}

} // verus!
