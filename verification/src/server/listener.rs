//! The session listener: the state shared by all connections, and the rules
//! by which client messages and channel events change it and decide what is
//! sent to whom.
//!
//! Nothing here performs I/O. Every rule returns the list of [`Effect`]s that
//! its caller is to carry out, in order.

use super::connection::{create_error_message, create_welcome_message, ClientConnection, ClientView};
use super::session::{other_than, without_id, Session, SessionView};
use crate::channel::{
    already_exists_text, launch_plan, no_active_text, not_alive_text, not_found_text, spawned,
    ChannelConfig, ChannelConfigView, ChannelError, ChannelManager, ChannelManagerEvent,
    ChannelManagerEventView, ChannelState, LaunchPlan, LaunchPlanView, ManagerView,
    PtyChannelView, PtyRequest, PtyRequestView, SpawnDefaults,
};
use crate::protocol::{
    ChannelEvent, ChannelEventView, ChannelInfo, ChannelInfoView, ClientMessage,
    ClientMessageView, ServerMessage, ServerMessageView, PROTOCOL_VERSION,
};
use crate::text::{
    contains_name, decimal, lemma_filter_all, lemma_filter_distinct, lemma_filter_map,
    lemma_filter_remove, lemma_filter_step, lemma_with_names, lemma_without_names, newly_added,
    push_decimal, str_eq, with_names, without_names,
};
use std::collections::VecDeque;
use vstd::prelude::*;
use vstd::string::*;

verus! {

/// Number of output chunks kept per channel for replay.
pub const MAX_BUFFERED_OUTPUTS: usize = 200;

/// One chunk of channel output with the time at which it was received.
#[derive(Debug, Clone)]
pub struct BufferedOutput {
    pub data: Vec<u8>,
    pub timestamp: i64,
}

/// Mathematical value of a [`BufferedOutput`].
pub struct BufferedOutputView {
    pub data: Seq<u8>,
    pub timestamp: i64,
}

impl View for BufferedOutput {
    type V = BufferedOutputView;

    open spec fn view(&self) -> BufferedOutputView {
        BufferedOutputView { data: self.data@, timestamp: self.timestamp }
    }
}

impl DeepView for BufferedOutput {
    type V = BufferedOutputView;

    open spec fn deep_view(&self) -> BufferedOutputView {
        self@
    }
}

/// Mathematical value of a channel's replay buffer: its chunks, oldest first.
pub struct OutputBufferView {
    pub channel: Seq<char>,
    pub entries: Seq<BufferedOutputView>,
}

/// The replay buffer of one channel.
#[derive(Debug)]
struct OutputBuffer {
    channel: String,
    entries: VecDeque<BufferedOutput>,
}

impl View for OutputBuffer {
    type V = OutputBufferView;

    closed spec fn view(&self) -> OutputBufferView {
        OutputBufferView { channel: self.channel@, entries: self.entries.deep_view() }
    }
}

impl DeepView for OutputBuffer {
    type V = OutputBufferView;

    open spec fn deep_view(&self) -> OutputBufferView {
        self@
    }
}

/// Something the caller of a rule is to carry out.
#[derive(Debug)]
pub enum Effect {
    /// Put the message into the client's mailbox.
    Send { client: u128, message: ServerMessage },
    /// Start the process that the plan describes, then report how that went
    /// with `complete_create`.
    Spawn { client: u128, plan: LaunchPlan },
    /// Perform the request on the channel's pseudo-terminal.
    Pty(PtyRequest),
    /// Hand the event to the event pump.
    Publish(ChannelManagerEvent),
    /// Close the client's connection once what was sent to it has been written.
    Disconnect { client: u128 },
    /// Shut the daemon down.
    Shutdown,
}

/// Mathematical value of an [`Effect`].
pub enum EffectView {
    Send { client: u128, message: ServerMessageView },
    Spawn { client: u128, plan: LaunchPlanView },
    Pty(PtyRequestView),
    Publish(ChannelManagerEventView),
    Disconnect { client: u128 },
    Shutdown,
}

impl View for Effect {
    type V = EffectView;

    open spec fn view(&self) -> EffectView {
        match *self {
            Effect::Send { client, message } => EffectView::Send { client, message: message@ },
            Effect::Spawn { client, plan } => EffectView::Spawn { client, plan: plan@ },
            Effect::Pty(request) => EffectView::Pty(request@),
            Effect::Publish(event) => EffectView::Publish(event@),
            Effect::Disconnect { client } => EffectView::Disconnect { client },
            Effect::Shutdown => EffectView::Shutdown,
        }
    }
}

impl DeepView for Effect {
    type V = EffectView;

    open spec fn deep_view(&self) -> EffectView {
        self@
    }
}

/// The effect of sending an acknowledgment of `command` to `client`.
pub open spec fn ack(client: u128, command: Seq<char>) -> EffectView {
    EffectView::Send { client, message: ServerMessageView::Ack { for_command: command } }
}

/// The effect of sending an error with the given text to `client`.
pub open spec fn error(client: u128, text: Seq<char>) -> EffectView {
    EffectView::Send { client, message: ServerMessageView::Error { message: text } }
}

/// The effect of sending a channel event to `client`.
pub open spec fn notify(client: u128, event: ChannelEventView) -> EffectView {
    EffectView::Send { client, message: ServerMessageView::Event(event) }
}

/// What a client is told whose `Hello` names another protocol version.
pub open spec fn version_mismatch_text(version: u32) -> Seq<char> {
    "Protocol version mismatch: expected "@ + decimal(PROTOCOL_VERSION as nat) + ", got "@
        + decimal(version as nat)
}

/// The replay of a channel's buffered chunks to a client, oldest first.
pub open spec fn chunk_effects(
    client: u128,
    channel: Seq<char>,
    entries: Seq<BufferedOutputView>,
) -> Seq<EffectView> {
    entries.map_values(
        |e: BufferedOutputView|
            EffectView::Send {
                client,
                message: ServerMessageView::Output {
                    channel,
                    data: e.data,
                    timestamp: e.timestamp,
                },
            },
    )
}

/// A replay buffer after a chunk was appended: the oldest chunks leave until
/// no more than `MAX_BUFFERED_OUTPUTS` are held.
pub open spec fn appended(
    entries: Seq<BufferedOutputView>,
    chunk: BufferedOutputView,
) -> Seq<BufferedOutputView> {
    let all = entries.push(chunk);
    if all.len() > MAX_BUFFERED_OUTPUTS {
        all.skip(all.len() - MAX_BUFFERED_OUTPUTS)
    } else {
        all
    }
}

/// The lifecycle event that clients are told of when a channel reaches the
/// given state, if any: only the two final states are announced.
pub open spec fn terminal_event(channel: Seq<char>, state: ChannelState) -> Option<
    ChannelEventView,
> {
    match state {
        ChannelState::Exited(code) => Some(
            ChannelEventView::Exited { name: channel, exit_code: code },
        ),
        ChannelState::Killed => Some(ChannelEventView::Killed { name: channel }),
        _ => None,
    }
}

/// Whether a name is that of a live channel of the manager.
pub open spec fn live_in(manager: ManagerView) -> spec_fn(Seq<char>) -> bool {
    |n: Seq<char>| manager.is_live(n)
}

/// Whether a client is subscribed to the channel.
pub open spec fn subscribed_to(channel: Seq<char>) -> spec_fn(ClientView) -> bool {
    |c: ClientView| c.subscriptions.contains(channel)
}

/// A client after the channel left its subscription set.
pub open spec fn unsubscribed(channel: Seq<char>) -> spec_fn(ClientView) -> ClientView {
    |c: ClientView|
        ClientView { subscriptions: without_names(c.subscriptions, seq![channel]), ..c }
}

/// What a client is told after the channel left its subscription set: the
/// set as it is now.
pub open spec fn unsubscribe_notice(channel: Seq<char>) -> spec_fn(ClientView) -> EffectView {
    |c: ClientView|
        notify(
            c.id,
            ChannelEventView::SubscriptionChanged {
                subscribed: without_names(c.subscriptions, seq![channel]),
            },
        )
}

/// The delivery of a chunk of a channel's output to a client.
pub open spec fn output_delivery(channel: Seq<char>, data: Seq<u8>, timestamp: i64) -> spec_fn(
    ClientView,
) -> EffectView {
    |c: ClientView|
        EffectView::Send {
            client: c.id,
            message: ServerMessageView::Output { channel, data, timestamp },
        }
}

/// Whether a client has another identifier than `id`.
pub open spec fn client_other_than(id: u128) -> spec_fn(ClientView) -> bool {
    |c: ClientView| c.id != id
}

/// Mathematical value of the [`ServerState`].
pub struct ServerView {
    pub session: SessionView,
    /// The connected clients, in the order in which they attached.
    pub clients: Seq<ClientView>,
    pub manager: ManagerView,
    /// The replay buffers, in the order in which they were made.
    pub buffers: Seq<OutputBufferView>,
    /// The channels whose end was published and which the event pump has
    /// yet to take out of the subscription sets.
    pub closing: Seq<Seq<char>>,
    /// The shell that a channel runs where its configuration names no command.
    pub shell: Seq<char>,
    /// The directory that a channel runs in where its configuration names none.
    pub current_dir: Seq<char>,
}

impl ServerView {
    /// Whether a client of that identifier is connected.
    pub open spec fn has_client(self, id: u128) -> bool {
        exists|i: int| 0 <= i < self.clients.len() && (#[trigger] self.clients[i]).id == id
    }

    /// Where the client of that identifier stands.
    pub open spec fn client_position(self, id: u128) -> int {
        choose|i: int| 0 <= i < self.clients.len() && (#[trigger] self.clients[i]).id == id
    }

    /// The client of that identifier.
    pub open spec fn client(self, id: u128) -> ClientView {
        self.clients[self.client_position(id)]
    }

    /// Whether the channel has a replay buffer.
    pub open spec fn has_buffer(self, channel: Seq<char>) -> bool {
        exists|i: int|
            0 <= i < self.buffers.len() && (#[trigger] self.buffers[i]).channel == channel
    }

    /// Where the replay buffer of the channel stands.
    pub open spec fn buffer_position(self, channel: Seq<char>) -> int {
        choose|i: int|
            0 <= i < self.buffers.len() && (#[trigger] self.buffers[i]).channel == channel
    }

    /// The buffered chunks of the channel, oldest first; none where it has no buffer.
    pub open spec fn buffered(self, channel: Seq<char>) -> Seq<BufferedOutputView> {
        if self.has_buffer(channel) {
            self.buffers[self.buffer_position(channel)].entries
        } else {
            Seq::empty()
        }
    }

    /// The manager and the session are well-formed, the session lists the
    /// connected clients, client identifiers and buffer names are unique, no
    /// client is subscribed to a channel twice, and no buffer holds more than
    /// `MAX_BUFFERED_OUTPUTS` chunks.
    pub open spec fn wf(self) -> bool {
        &&& self.manager.wf()
        &&& self.session.wf()
        &&& self.session.client_ids == self.clients.map_values(|c: ClientView| c.id)
        &&& forall|i: int, j: int|
            0 <= i < j < self.clients.len() ==> (#[trigger] self.clients[i]).id != (
            #[trigger] self.clients[j]).id
        &&& forall|i: int|
            0 <= i < self.clients.len() ==> (
            #[trigger] self.clients[i]).subscriptions.no_duplicates()
        &&& forall|i: int, j: int|
            0 <= i < j < self.buffers.len() ==> (#[trigger] self.buffers[i]).channel != (
            #[trigger] self.buffers[j]).channel
        &&& forall|i: int|
            0 <= i < self.buffers.len() ==> (#[trigger] self.buffers[i]).entries.len()
                <= MAX_BUFFERED_OUTPUTS
    }

    /// Every channel that a client is subscribed to is live, or is one
    /// whose end the event pump has yet to handle.
    pub open spec fn subscriptions_live(self) -> bool {
        forall|i: int, name: Seq<char>|
            0 <= i < self.clients.len() && (#[trigger] self.clients[i].subscriptions.contains(
                name,
            )) ==> self.manager.is_live(name) || self.closing.contains(name)
    }

    /// The state with the client of that identifier replaced.
    pub open spec fn with_client(self, id: u128, client: ClientView) -> ServerView {
        ServerView { clients: self.clients.update(self.client_position(id), client), ..self }
    }

    /// The same message sent to every connected client, in the order in
    /// which they attached.
    pub open spec fn broadcast(self, message: ServerMessageView) -> Seq<EffectView> {
        self.clients.map_values(|c: ClientView| EffectView::Send { client: c.id, message })
    }

    /// The replay of the buffers of `channels` to a client: channel after
    /// channel in the order given, each buffer oldest chunk first.
    pub open spec fn replay(self, client: u128, channels: Seq<Seq<char>>) -> Seq<EffectView>
        decreases channels.len(),
    {
        if channels.len() == 0 {
            Seq::empty()
        } else {
            self.replay(client, channels.drop_last()) + chunk_effects(
                client,
                channels.last(),
                self.buffered(channels.last()),
            )
        }
    }

    /// The state after `chunk` went into the replay buffer of `channel`,
    /// which is made first where there is none.
    pub open spec fn with_chunk(self, channel: Seq<char>, chunk: BufferedOutputView) -> ServerView {
        if self.has_buffer(channel) {
            ServerView {
                buffers: self.buffers.update(
                    self.buffer_position(channel),
                    OutputBufferView {
                        channel,
                        entries: appended(self.buffered(channel), chunk),
                    },
                ),
                ..self
            }
        } else {
            ServerView {
                buffers: self.buffers.push(OutputBufferView { channel, entries: seq![chunk] }),
                ..self
            }
        }
    }

    /// The state in which `channel` has a replay buffer: an empty one is
    /// made where there is none.
    pub open spec fn with_buffer(self, channel: Seq<char>) -> ServerView {
        if self.has_buffer(channel) {
            self
        } else {
            ServerView {
                buffers: self.buffers.push(OutputBufferView { channel, entries: Seq::empty() }),
                ..self
            }
        }
    }

    /// The state after a kill of a channel: the manager records it, which
    /// moves the active role away from the channel where the kill succeeds,
    /// and where the kill ended a live channel, the channel is one whose end
    /// the event pump has yet to handle.
    pub open spec fn killed(self, name: Seq<char>) -> ServerView {
        ServerView {
            manager: self.manager.killed(name),
            closing: if self.manager.is_live(name) {
                self.closing.push(name)
            } else {
                self.closing
            },
            ..self
        }
    }

    /// The state after the process of a channel ended: the manager records
    /// it, and where that ended a live channel, the channel is one whose end
    /// the event pump has yet to handle.
    pub open spec fn exited(self, name: Seq<char>, wait: Option<u32>) -> ServerView {
        ServerView {
            manager: self.manager.exited(name, wait),
            closing: if self.manager.is_live(name) {
                self.closing.push(name)
            } else {
                self.closing
            },
            ..self
        }
    }

    /// The state after the event pump handled the end of a channel: no
    /// client is subscribed to the channel, and its end is handled.
    pub open spec fn closed(self, name: Seq<char>) -> ServerView {
        ServerView {
            clients: self.clients.map_values(unsubscribed(name)),
            closing: without_names(self.closing, seq![name]),
            ..self
        }
    }

    /// The state after something that the client sent was decoded.
    pub open spec fn decoded(self, client: u128) -> ServerView {
        if self.has_client(client) {
            self.with_client(client, ClientView { decode_failed: false, ..self.client(client) })
        } else {
            self
        }
    }

    /// The channels that a subscription request is for: every live channel
    /// where the request holds `*`, and else the requested channels that are
    /// live, in the order given.
    pub open spec fn subscribe_targets(self, requested: Seq<Seq<char>>) -> Seq<Seq<char>> {
        if requested.contains("*"@) {
            self.manager.live_names()
        } else {
            requested.filter(live_in(self.manager))
        }
    }

    /// What a listing says of one channel to one client: whether the channel
    /// is subscribed is the client's own subscription.
    pub open spec fn info_for(self, client: u128, c: PtyChannelView) -> ChannelInfoView {
        ChannelInfoView {
            name: c.name,
            running: c.state.alive(),
            is_active: self.manager.active == Some(c.name),
            is_subscribed: self.client(client).subscriptions.contains(c.name),
        }
    }

    /// The channel list as one client is given it.
    pub open spec fn channel_list(self, client: u128) -> Seq<ChannelInfoView> {
        self.manager.listed().map_values(|c: PtyChannelView| self.info_for(client, c))
    }
}

impl ServerView {
    /// The channels that a new client is subscribed to: the active channel,
    /// where there is one and it is live.
    pub open spec fn initial_channels(self) -> Seq<Seq<char>> {
        match self.manager.active {
            Some(n) => if self.manager.is_live(n) {
                seq![n]
            } else {
                Seq::empty()
            },
            None => Seq::empty(),
        }
    }

    /// The state after a client attached under `id`. An identifier that is
    /// in use changes nothing.
    pub open spec fn connected(self, id: u128) -> ServerView {
        if self.has_client(id) {
            self
        } else {
            ServerView {
                clients: self.clients.push(
                    ClientView {
                        id,
                        subscriptions: self.initial_channels(),
                        decode_failed: false,
                    },
                ),
                session: SessionView {
                    client_ids: self.session.client_ids.push(id),
                    client_count: (self.session.client_ids.len() + 1) as usize,
                    ..self.session
                },
                ..self
            }
        }
    }

    /// What a client that attached under `id` is sent: the welcome, then the
    /// replay of the channels it is subscribed to from the start.
    pub open spec fn connect_effects(self, id: u128) -> Seq<EffectView> {
        seq![
            EffectView::Send {
                client: id,
                message: ServerMessageView::Welcome {
                    session_id: self.session.id,
                    protocol_version: PROTOCOL_VERSION,
                },
            },
        ] + self.replay(id, self.initial_channels())
    }

    /// The state after the client of that identifier went away.
    pub open spec fn disconnected(self, id: u128) -> ServerView {
        ServerView {
            clients: self.clients.filter(client_other_than(id)),
            session: SessionView {
                client_ids: without_id(self.session.client_ids, id),
                client_count: without_id(self.session.client_ids, id).len() as usize,
                ..self.session
            },
            ..self
        }
    }
}

/// Server state shared across connections.
#[derive(Debug)]
pub struct ServerState {
    session: Session,
    clients: Vec<ClientConnection>,
    channel_manager: ChannelManager,
    output_buffers: Vec<OutputBuffer>,
    closing: Vec<String>,
    defaults: SpawnDefaults,
}

impl View for ServerState {
    type V = ServerView;

    closed spec fn view(&self) -> ServerView {
        ServerView {
            session: self.session@,
            clients: self.clients.deep_view(),
            manager: self.channel_manager@,
            buffers: self.output_buffers.deep_view(),
            closing: self.closing.deep_view(),
            shell: self.defaults.shell@,
            current_dir: self.defaults.working_dir@,
        }
    }
}

impl ServerState {
    /// The state of a daemon that has just started: the given session, no
    /// clients, no channels and no buffers.
    pub fn new(session: Session, defaults: SpawnDefaults) -> (state: Self)
        requires
            session@.wf(),
            session@.client_ids.len() == 0,
        ensures
            state@.session == session@,
            state@.clients.len() == 0,
            state@.manager.channels.len() == 0,
            state@.manager.active is None,
            state@.buffers.len() == 0,
            state@.closing.len() == 0,
            state@.shell == defaults.shell@,
            state@.current_dir == defaults.working_dir@,
            state@.wf(),
            state@.subscriptions_live(),
    {
        let state = Self {
            session,
            clients: Vec::new(),
            channel_manager: ChannelManager::new(),
            output_buffers: Vec::new(),
            closing: Vec::new(),
            defaults,
        };
        assert(state@.session.client_ids =~= state@.clients.map_values(|c: ClientView| c.id));
        state
    }

    /// The session.
    pub fn session(&self) -> (session: &Session)
        ensures
            session@ == self@.session,
    {
        &self.session
    }

    /// The channel manager.
    pub fn channel_manager(&self) -> (manager: &ChannelManager)
        ensures
            manager@ == self@.manager,
    {
        &self.channel_manager
    }

    /// Where the client of that identifier stands, if one is connected.
    fn find_client(&self, id: u128) -> (found: Option<usize>)
        ensures
            found matches Some(i) ==> i < self@.clients.len() && self@.clients[i as int].id == id
                && self@.has_client(id) && (self@.wf() ==> i == self@.client_position(id)),
            found is None ==> !self@.has_client(id),
    {
        let mut i: usize = 0;
        while i < self.clients.len()
            invariant
                i <= self.clients.len(),
                forall|j: int| 0 <= j < i ==> (#[trigger] self@.clients[j]).id != id,
            decreases self.clients.len() - i,
        {
            if self.clients[i].id() == id {
                proof {
                    if self@.wf() {
                        let p = self@.client_position(id);
                        if p < i {
                            assert(self@.clients[p].id != self@.clients[i as int].id);
                        }
                        if i < p {
                            assert(self@.clients[i as int].id != self@.clients[p].id);
                        }
                    }
                }
                return Some(i);
            }
            i += 1;
        }
        None
    }

    /// The client of that identifier, if one is connected.
    pub fn client(&self, id: u128) -> (client: Option<&ClientConnection>)
        requires
            self@.wf(),
        ensures
            client is Some == self@.has_client(id),
            client matches Some(c) ==> c@ == self@.client(id),
    {
        match self.find_client(id) {
            Some(i) => Some(&self.clients[i]),
            None => None,
        }
    }

    /// Where the replay buffer of the channel stands, if it has one.
    fn find_buffer(&self, channel: &str) -> (found: Option<usize>)
        ensures
            found matches Some(i) ==> i < self@.buffers.len() && self@.buffers[i as int].channel
                == channel@ && self@.has_buffer(channel@) && (self@.wf() ==> i
                == self@.buffer_position(channel@)),
            found is None ==> !self@.has_buffer(channel@),
    {
        let mut i: usize = 0;
        while i < self.output_buffers.len()
            invariant
                i <= self.output_buffers.len(),
                forall|j: int| 0 <= j < i ==> (#[trigger] self@.buffers[j]).channel != channel@,
            decreases self.output_buffers.len() - i,
        {
            if str_eq(self.output_buffers[i].channel.as_str(), channel) {
                assert(self@.buffers[i as int].channel == channel@);
                return Some(i);
            }
            i += 1;
        }
        None
    }

    /// The chunks held for replay of the channel's output, oldest first.
    pub fn buffered_output(&self, channel: &str) -> (chunks: Vec<BufferedOutput>)
        requires
            self@.wf(),
        ensures
            chunks.deep_view() == self@.buffered(channel@),
    {
        let mut chunks: Vec<BufferedOutput> = Vec::new();
        match self.find_buffer(channel) {
            Some(b) => {
                let entries = &self.output_buffers[b].entries;
                let mut k: usize = 0;
                while k < entries.len()
                    invariant
                        k <= entries.len(),
                        chunks.len() == k,
                        forall|j: int| 0 <= j < k ==> chunks@[j]@ == entries@[j]@,
                    decreases entries.len() - k,
                {
                    chunks.push(
                        BufferedOutput {
                            data: entries[k].data.clone(),
                            timestamp: entries[k].timestamp,
                        },
                    );
                    k += 1;
                }
                assert(chunks.deep_view() =~= entries.deep_view());
            },
            None => {
                assert(chunks.deep_view() =~= Seq::empty());
            },
        }
        chunks
    }

    /// Broadcasts a server message to all connected clients.
    pub fn broadcast_to_clients(&self, message: &ServerMessage) -> (effects: Vec<Effect>)
        ensures
            effects.deep_view() == self@.broadcast(message@),
    {
        let mut effects: Vec<Effect> = Vec::new();
        let mut i: usize = 0;
        while i < self.clients.len()
            invariant
                i <= self.clients.len(),
                effects.len() == i,
                forall|j: int|
                    0 <= j < i ==> effects@[j]@ == (EffectView::Send {
                        client: self@.clients[j].id,
                        message: message@,
                    }),
            decreases self.clients.len() - i,
        {
            effects.push(Effect::Send { client: self.clients[i].id(), message: message.duplicate() });
            i += 1;
        }
        assert(effects.deep_view() =~= self@.broadcast(message@));
        effects
    }

    /// Send buffered output for specified channels to the given client:
    /// channel after channel in the order given, each buffer oldest chunk
    /// first. A channel without a buffer contributes nothing.
    pub fn send_buffered_output(&self, client_id: u128, channels: &[String]) -> (effects: Vec<
        Effect,
    >)
        requires
            self@.wf(),
        ensures
            effects.deep_view() == self@.replay(client_id, channels.deep_view()),
    {
        let mut effects: Vec<Effect> = Vec::new();
        let mut i: usize = 0;
        assert(effects.deep_view() =~= Seq::empty());
        while i < channels.len()
            invariant
                i <= channels.len(),
                self@.wf(),
                effects.deep_view() == self@.replay(client_id, channels.deep_view().take(i as int)),
            decreases channels.len() - i,
        {
            let ghost before = effects.deep_view();
            let ghost name = channels.deep_view()[i as int];
            assert(channels.deep_view().take(i + 1).drop_last() =~= channels.deep_view().take(
                i as int,
            ));
            match self.find_buffer(channels[i].as_str()) {
                Some(b) => {
                    let entries = &self.output_buffers[b].entries;
                    let mut k: usize = 0;
                    while k < entries.len()
                        invariant
                            k <= entries.len(),
                            entries.deep_view() == self@.buffered(name),
                            name == channels.deep_view()[i as int],
                            i < channels.len(),
                            effects.deep_view() == before + chunk_effects(
                                client_id,
                                name,
                                entries.deep_view().take(k as int),
                            ),
                        decreases entries.len() - k,
                    {
                        let ghost sofar = effects.deep_view();
                        let message = ServerMessage::Output {
                            channel: channels[i].clone(),
                            data: entries[k].data.clone(),
                            timestamp: entries[k].timestamp,
                        };
                        let ghost sent = EffectView::Send { client: client_id, message: message@ };
                        effects.push(Effect::Send { client: client_id, message });
                        assert(effects.deep_view() =~= sofar.push(sent));
                        k += 1;
                        assert(entries.deep_view().take(k as int) =~= entries.deep_view().take(
                            k - 1,
                        ).push(entries.deep_view()[k - 1]));
                        assert(chunk_effects(client_id, name, entries.deep_view().take(k as int))
                            =~= chunk_effects(
                            client_id,
                            name,
                            entries.deep_view().take(k - 1),
                        ).push(sent));
                        assert(effects.deep_view() =~= before + chunk_effects(
                            client_id,
                            name,
                            entries.deep_view().take(k as int),
                        ));
                    }
                    assert(entries.deep_view().take(entries.len() as int)
                        =~= entries.deep_view());
                },
                None => {
                    assert(before + chunk_effects(client_id, name, self@.buffered(name))
                        =~= before);
                },
            }
            i += 1;
        }
        assert(channels.deep_view().take(channels.len() as int) =~= channels.deep_view());
        effects
    }
}

impl ServerState {
    /// Attaches a client under the given identifier: registers it with the
    /// session, subscribes it to the active channel where that is live, and
    /// returns the welcome and the replay of that channel to send. An
    /// identifier that is in use is refused with `None` and changes nothing.
    pub fn connect_client(&mut self, id: u128) -> (effects: Option<Vec<Effect>>)
        requires
            old(self)@.wf(),
        ensures
            final(self)@.wf(),
            old(self)@.subscriptions_live() ==> final(self)@.subscriptions_live(),
            final(self)@ == old(self)@.connected(id),
            old(self)@.has_client(id) ==> effects is None,
            !old(self)@.has_client(id) ==> (effects matches Some(e) && e.deep_view() == old(
                self,
            )@.connect_effects(id)),
    {
        proof {
            if self@.subscriptions_live() {
                super::guarantees::lemma_connect_keeps_subscriptions_live(self@, id);
            }
        }
        if self.find_client(id).is_some() {
            return None;
        }
        let ghost before = self@;
        let mut initial: Vec<String> = Vec::new();
        assert(initial.deep_view() =~= Seq::<Seq<char>>::empty());
        match self.channel_manager.active_channel() {
            Some(name) => {
                if self.channel_manager.is_live(name) {
                    initial.push(name.to_owned());
                    assert(initial.deep_view() =~= seq![name@]);
                }
            },
            None => {},
        }
        assert(initial.deep_view() == before.initial_channels());
        let mut client = ClientConnection::with_id(id);
        let _ = client.subscribe(initial.as_slice());
        proof {
            reveal_with_fuel(with_names, 2);
            assert(with_names(Seq::<Seq<char>>::empty(), initial.deep_view())
                =~= initial.deep_view());
        }
        let mut effects: Vec<Effect> = Vec::new();
        effects.push(
            Effect::Send { client: id, message: create_welcome_message(self.session.id()) },
        );
        let mut replayed = self.send_buffered_output(id, initial.as_slice());
        let ghost welcome = effects.deep_view();
        let ghost replay = replayed.deep_view();
        effects.append(&mut replayed);
        assert(effects.deep_view() =~= welcome + replay);
        assert(welcome =~= seq![
            EffectView::Send {
                client: id,
                message: ServerMessageView::Welcome {
                    session_id: before.session.id,
                    protocol_version: PROTOCOL_VERSION,
                },
            },
        ]);
        self.session.add_client(id);
        self.clients.push(client);
        proof {
            let after = self@;
            assert(after.clients =~= before.clients.push(client@));
            assert(after.session.client_ids =~= after.clients.map_values(|c: ClientView| c.id));
            assert forall|i: int, j: int| 0 <= i < j < after.clients.len() implies (
            #[trigger] after.clients[i]).id != (#[trigger] after.clients[j]).id by {
                if j == before.clients.len() {
                    assert(before.clients[i].id != id);
                } else {
                    assert(before.clients[i].id != before.clients[j].id);
                }
            }
        }
        Some(effects)
    }

    /// Attaches a client under a fresh random identifier and returns the
    /// identifier with what is to be sent, or `None` where the identifier
    /// drawn is in use. While no client is attached no identifier is in
    /// use, and the client is attached whatever was drawn.
    pub fn accept_client(&mut self) -> (accepted: Option<(u128, Vec<Effect>)>)
        requires
            old(self)@.wf(),
        ensures
            final(self)@.wf(),
            old(self)@.subscriptions_live() ==> final(self)@.subscriptions_live(),
            accepted matches Some((id, effects)) ==> !old(self)@.has_client(id) && final(self)@
                == old(self)@.connected(id) && effects.deep_view() == old(self)@.connect_effects(
                id,
            ),
            accepted is None ==> final(self)@ == old(self)@,
            old(self)@.clients.len() == 0 ==> accepted is Some,
    {
        let id = ClientConnection::new().id();
        match self.connect_client(id) {
            Some(effects) => Some((id, effects)),
            None => None,
        }
    }

    /// Removes a client: from the session and from the connected clients.
    pub fn disconnect_client(&mut self, id: u128)
        requires
            old(self)@.wf(),
        ensures
            final(self)@.wf(),
            old(self)@.subscriptions_live() ==> final(self)@.subscriptions_live(),
            final(self)@ == old(self)@.disconnected(id),
    {
        proof {
            if self@.subscriptions_live() {
                super::guarantees::lemma_disconnect_keeps_subscriptions_live(self@, id);
            }
        }
        let ghost before = self@;
        let ghost keep = client_other_than(id);
        let ghost id_of = |c: ClientView| c.id;
        let ghost keep_id = other_than(id);
        self.session.remove_client(id);
        match self.find_client(id) {
            Some(i) => {
                let _ = self.clients.remove(i);
                proof {
                    assert(self.clients.deep_view() =~= before.clients.remove(i as int));
                    assert forall|j: int|
                        0 <= j < before.clients.len() && j != i implies keep(
                        #[trigger] before.clients[j],
                    ) by {
                        if j < i {
                            assert(before.clients[j].id != before.clients[i as int].id);
                        } else {
                            assert(before.clients[i as int].id != before.clients[j].id);
                        }
                    }
                    lemma_filter_remove(before.clients, keep, i as int);
                }
            },
            None => {
                proof {
                    assert(self.clients.deep_view() == before.clients);
                    assert forall|j: int| 0 <= j < before.clients.len() implies keep(
                        #[trigger] before.clients[j],
                    ) by {
                        if before.clients[j].id == id {
                            assert(self@.has_client(id));
                        }
                    }
                    lemma_filter_all(before.clients, keep);
                }
            },
        }
        proof {
            let after = self@;
            assert(after.clients == before.clients.filter(keep));
            lemma_filter_map(before.clients, id_of, keep_id, keep);
            assert(before.session.client_ids == before.clients.map_values(id_of));
            assert(after.session.client_ids == after.clients.map_values(id_of));
            lemma_filter_distinct(before.clients, id_of, keep);
        }
    }
}

/// The effect of asking for a request on a pseudo-terminal.
pub open spec fn pty(request: PtyRequestView) -> EffectView {
    EffectView::Pty(request)
}

impl ServerView {
    /// What a `Hello` is answered with: an acknowledgment where the version
    /// is this daemon's, and else an error and the end of the connection.
    pub open spec fn hello_effects(client: u128, version: u32) -> Seq<EffectView> {
        if version == PROTOCOL_VERSION {
            seq![ack(client, "Hello"@)]
        } else {
            seq![
                error(client, version_mismatch_text(version)),
                EffectView::Disconnect { client },
            ]
        }
    }

    /// What a `CreateChannel` leads to: an error where the name is taken,
    /// and else the request to start the channel's process.
    pub open spec fn create_effects(self, client: u128, config: ChannelConfigView) -> Seq<
        EffectView,
    > {
        if self.manager.contains(config.name) {
            seq![error(client, "Failed to create channel: "@ + already_exists_text(config.name))]
        } else {
            seq![
                EffectView::Spawn {
                    client,
                    plan: launch_plan(config, self.shell, self.current_dir),
                },
            ]
        }
    }

    /// The state after the process of a new channel was started: the channel
    /// is registered and has a replay buffer. A name that is taken changes
    /// nothing.
    pub open spec fn created(self, plan: LaunchPlanView, pid: Option<u32>, created_at: i64) -> ServerView {
        if self.manager.contains(plan.name) {
            self
        } else {
            (ServerView {
                manager: self.manager.created(spawned(plan, pid, created_at)),
                ..self
            }).with_buffer(plan.name)
        }
    }

    /// What follows the start of a new channel's process: the `Running`
    /// state goes to the event pump, the client that asked gets its
    /// acknowledgment, and every client is told of the new channel. A name
    /// that is taken gives the asking client an error instead.
    pub open spec fn created_effects(self, client: u128, name: Seq<char>) -> Seq<EffectView> {
        if self.manager.contains(name) {
            seq![error(client, "Failed to create channel: "@ + already_exists_text(name))]
        } else {
            seq![
                EffectView::Publish(
                    ChannelManagerEventView::StateChanged {
                        channel_name: name,
                        state: ChannelState::Running,
                    },
                ),
                ack(client, "CreateChannel"@),
            ] + self.broadcast(ServerMessageView::Event(ChannelEventView::Created { name }))
        }
    }

    /// What a `KillChannel` leads to. The first kill of a live channel asks
    /// for the signal, hands the `Killed` state to the event pump and is
    /// acknowledged; the kill of a killed channel is acknowledged and nothing
    /// else; an unknown or exited channel gives an error.
    pub open spec fn kill_effects(self, client: u128, name: Seq<char>) -> Seq<EffectView> {
        if !self.manager.contains(name) {
            seq![error(client, "Failed to kill channel: "@ + not_found_text(name))]
        } else if self.manager.channel(name).state is Exited {
            seq![error(client, "Failed to kill channel: "@ + not_alive_text(name))]
        } else if self.manager.channel(name).state is Killed {
            seq![ack(client, "KillChannel"@)]
        } else {
            seq![
                pty(PtyRequestView::Kill { channel: name }),
                EffectView::Publish(
                    ChannelManagerEventView::StateChanged {
                        channel_name: name,
                        state: ChannelState::Killed,
                    },
                ),
                ack(client, "KillChannel"@),
            ]
        }
    }

    /// What a `SwitchChannel` leads to: the acknowledgment and the word to
    /// every client that the active channel changed, or an error where no
    /// such channel is registered.
    pub open spec fn switch_effects(self, client: u128, name: Seq<char>) -> Seq<EffectView> {
        if self.manager.contains(name) {
            seq![ack(client, "SwitchChannel"@)] + self.broadcast(
                ServerMessageView::Event(ChannelEventView::ActiveChanged { name }),
            )
        } else {
            seq![error(client, "Failed to switch channel: "@ + not_found_text(name))]
        }
    }

    /// What input for a named channel leads to: the write, or an error
    /// where the channel is unknown or its process has ended.
    pub open spec fn input_to_effects(self, client: u128, name: Seq<char>, data: Seq<u8>) -> Seq<
        EffectView,
    > {
        if !self.manager.contains(name) {
            seq![error(client, "Failed to send input: "@ + not_found_text(name))]
        } else if !self.manager.is_live(name) {
            seq![error(client, "Failed to send input: "@ + not_alive_text(name))]
        } else {
            seq![pty(PtyRequestView::Write { channel: name, data })]
        }
    }

    /// What input for the active channel leads to: as for a named channel,
    /// and an error where no channel is active.
    pub open spec fn input_effects(self, client: u128, data: Seq<u8>) -> Seq<EffectView> {
        match self.manager.active {
            Some(name) => self.input_to_effects(client, name, data),
            None => seq![error(client, "Failed to send input: "@ + no_active_text())],
        }
    }

    /// What a `Resize` leads to: one resize request for every live channel.
    pub open spec fn resize_effects(self, cols: u16, rows: u16) -> Seq<EffectView> {
        self.manager.resize_requests(cols, rows).map_values(|r: PtyRequestView| pty(r))
    }

    /// What a `GetStatus` is answered with.
    pub open spec fn status_effects(self, client: u128, channel: Option<Seq<char>>) -> Seq<
        EffectView,
    > {
        seq![
            EffectView::Send {
                client,
                message: ServerMessageView::Status { channels: self.manager.statuses(channel) },
            },
        ]
    }

    /// What a `Detach` leads to: the acknowledgment, then the end of the connection.
    pub open spec fn detach_effects(client: u128) -> Seq<EffectView> {
        seq![ack(client, "Detach"@), EffectView::Disconnect { client }]
    }

    /// What a `Shutdown` leads to: the acknowledgment, then the shutdown of the daemon.
    pub open spec fn shutdown_effects(client: u128) -> Seq<EffectView> {
        seq![ack(client, "Shutdown"@), EffectView::Shutdown]
    }
}

/// Replacing a client by one of the same identifier keeps the state
/// well-formed and every client where it was.
pub proof fn lemma_with_client(before: ServerView, id: u128, client: ClientView)
    requires
        before.wf(),
        before.has_client(id),
        client.id == id,
        client.subscriptions.no_duplicates(),
    ensures
        before.with_client(id, client).wf(),
        before.with_client(id, client).client(id) == client,
        forall|other: u128| before.with_client(id, client).has_client(other) == before.has_client(other),
        forall|other: u128|
            before.has_client(other) ==> before.with_client(id, client).client_position(other)
                == before.client_position(other),
{
    let after = before.with_client(id, client);
    let p = before.client_position(id);
    assert forall|k: int| 0 <= k < before.clients.len() implies (#[trigger] after.clients[k]).id
        == before.clients[k].id by {}
    assert(after.session.client_ids =~= after.clients.map_values(|c: ClientView| c.id));
    assert forall|i: int, j: int| 0 <= i < j < after.clients.len() implies (
    #[trigger] after.clients[i]).id != (#[trigger] after.clients[j]).id by {
        assert(before.clients[i].id != before.clients[j].id);
    }
    assert forall|other: u128| after.has_client(other) == before.has_client(other) by {
        if before.has_client(other) {
            let i = before.client_position(other);
            assert(after.clients[i].id == other);
        }
        if after.has_client(other) {
            let i = after.client_position(other);
            assert(before.clients[i].id == other);
        }
    }
    assert forall|other: u128| before.has_client(other) implies after.client_position(other)
        == before.client_position(other) by {
        let i = before.client_position(other);
        let j = after.client_position(other);
        assert(after.clients[i].id == other);
        assert(before.clients[j].id == other);
        if i < j {
            assert(before.clients[i].id != before.clients[j].id);
        }
        if j < i {
            assert(before.clients[j].id != before.clients[i].id);
        }
    }
}

/// The text of an error: what was attempted, then why it failed.
fn failure(what: &str, why: &ChannelError) -> (text: String)
    ensures
        text@ == what@ + why.text(),
{
    let mut text = what.to_owned();
    text.append(why.to_string().as_str());
    text
}

impl ServerState {
    /// Notes that something the client sent was decoded.
    fn set_decoded(&mut self, client_id: u128)
        requires
            old(self)@.wf(),
        ensures
            final(self)@.wf(),
            final(self)@ == old(self)@.decoded(client_id),
    {
        let ghost before = self@;
        match self.find_client(client_id) {
            Some(i) => {
                let _ = self.clients[i].note_decoded(true);
                proof {
                    let updated = ClientView { decode_failed: false, ..before.client(client_id) };
                    assert(self.clients.deep_view() =~= before.clients.update(i as int, updated));
                    lemma_with_client(before, client_id, updated);
                }
            },
            None => {},
        }
    }

    /// Answers a `Hello`.
    fn on_hello(client_id: u128, protocol_version: u32) -> (effects: Vec<Effect>)
        ensures
            effects.deep_view() == ServerView::hello_effects(client_id, protocol_version),
    {
        let mut effects: Vec<Effect> = Vec::new();
        if protocol_version == PROTOCOL_VERSION {
            effects.push(
                Effect::Send {
                    client: client_id,
                    message: ServerMessage::Ack { for_command: "Hello".to_string() },
                },
            );
        } else {
            let mut text = "Protocol version mismatch: expected ".to_string();
            push_decimal(&mut text, PROTOCOL_VERSION as u64);
            text.append(", got ");
            push_decimal(&mut text, protocol_version as u64);
            effects.push(Effect::Send { client: client_id, message: create_error_message(text) });
            effects.push(Effect::Disconnect { client: client_id });
        }
        assert(effects.deep_view() =~= ServerView::hello_effects(client_id, protocol_version));
        effects
    }

    /// Handles a `CreateChannel`: refuses a name that is taken, and else
    /// asks for the process to be started.
    fn on_create(&self, client_id: u128, config: &ChannelConfig) -> (effects: Vec<Effect>)
        requires
            self@.wf(),
        ensures
            effects.deep_view() == self@.create_effects(client_id, config@),
    {
        let mut effects: Vec<Effect> = Vec::new();
        match self.channel_manager.plan_channel(config, &self.defaults) {
            Ok(plan) => {
                effects.push(Effect::Spawn { client: client_id, plan });
            },
            Err(e) => {
                effects.push(
                    Effect::Send {
                        client: client_id,
                        message: create_error_message(failure("Failed to create channel: ", &e)),
                    },
                );
            },
        }
        assert(effects.deep_view() =~= self@.create_effects(client_id, config@));
        effects
    }

    /// Makes sure that the channel has a replay buffer.
    fn ensure_buffer(&mut self, channel: &str)
        requires
            old(self)@.wf(),
        ensures
            final(self)@.wf(),
            final(self)@ == old(self)@.with_buffer(channel@),
    {
        let ghost before = self@;
        if self.find_buffer(channel).is_none() {
            let buffer = OutputBuffer { channel: channel.to_owned(), entries: VecDeque::new() };
            assert(buffer@.entries =~= Seq::empty());
            self.output_buffers.push(buffer);
            proof {
                let after = self@;
                assert(after.buffers =~= before.buffers.push(
                    OutputBufferView { channel: channel@, entries: Seq::empty() },
                ));
                assert forall|i: int, j: int| 0 <= i < j < after.buffers.len() implies (
                #[trigger] after.buffers[i]).channel != (#[trigger] after.buffers[j]).channel by {
                    if j == before.buffers.len() {
                        assert(before.buffers[i].channel != channel@);
                    } else {
                        assert(before.buffers[i].channel != before.buffers[j].channel);
                    }
                }
            }
        }
    }

    /// Reports how the start of a new channel's process went.
    ///
    /// On success the channel is registered as `Running` and gets a replay
    /// buffer; the `Running` state goes to the event pump, the client that
    /// asked gets its acknowledgment, and every client is told of the new
    /// channel. Where the start failed, or the name has been taken
    /// meanwhile, nothing is registered and the client gets an error.
    pub fn complete_create(
        &mut self,
        client_id: u128,
        plan: &LaunchPlan,
        outcome: Result<Option<u32>, String>,
        created_at: i64,
    ) -> (effects: Vec<Effect>)
        requires
            old(self)@.wf(),
        ensures
            final(self)@.wf(),
            old(self)@.subscriptions_live() ==> final(self)@.subscriptions_live(),
            outcome matches Ok(pid) ==> final(self)@ == old(self)@.created(plan@, pid, created_at)
                && effects.deep_view() == old(self)@.created_effects(client_id, plan@.name),
            outcome matches Err(reason) ==> final(self)@ == old(self)@ && effects.deep_view()
                == seq![error(client_id, "Failed to create channel: "@ + reason@)],
    {
        proof {
            if self@.subscriptions_live() {
                if let Ok(pid) = outcome {
                    super::guarantees::lemma_create_keeps_subscriptions_live(
                        self@,
                        plan@,
                        pid,
                        created_at,
                    );
                }
            }
        }
        let ghost before = self@;
        let mut effects: Vec<Effect> = Vec::new();
        match outcome {
            Ok(pid) => {
                match self.channel_manager.create_channel(plan, pid, created_at) {
                    Ok(event) => {
                        self.ensure_buffer(plan.name.as_str());
                        effects.push(Effect::Publish(event));
                        effects.push(
                            Effect::Send {
                                client: client_id,
                                message: ServerMessage::Ack {
                                    for_command: "CreateChannel".to_string(),
                                },
                            },
                        );
                        let created = ServerMessage::Event(
                            ChannelEvent::Created { name: plan.name.clone() },
                        );
                        let mut told = self.broadcast_to_clients(&created);
                        let ghost first = effects.deep_view();
                        let ghost rest = told.deep_view();
                        effects.append(&mut told);
                        assert(effects.deep_view() =~= first + rest);
                        assert(rest == before.broadcast(created@));
                        assert(effects.deep_view() =~= before.created_effects(
                            client_id,
                            plan@.name,
                        ));
                    },
                    Err(e) => {
                        effects.push(
                            Effect::Send {
                                client: client_id,
                                message: create_error_message(
                                    failure("Failed to create channel: ", &e),
                                ),
                            },
                        );
                        assert(effects.deep_view() =~= before.created_effects(
                            client_id,
                            plan@.name,
                        ));
                    },
                }
            },
            Err(reason) => {
                let mut text = "Failed to create channel: ".to_string();
                text.append(reason.as_str());
                effects.push(Effect::Send { client: client_id, message: create_error_message(text) });
                assert(effects.deep_view() =~= seq![
                    error(client_id, "Failed to create channel: "@ + reason@),
                ]);
            },
        }
        effects
    }

    /// Handles a `KillChannel`.
    fn on_kill(&mut self, client_id: u128, name: &str) -> (effects: Vec<Effect>)
        requires
            old(self)@.wf(),
        ensures
            final(self)@.wf(),
            final(self)@ == old(self)@.killed(name@),
            effects.deep_view() == old(self)@.kill_effects(client_id, name@),
    {
        let ghost before = self@;
        let mut effects: Vec<Effect> = Vec::new();
        match self.channel_manager.kill_channel(name) {
            Ok(Some((request, event))) => {
                self.closing.push(name.to_owned());
                assert(self.closing.deep_view() =~= before.closing.push(name@));
                effects.push(Effect::Pty(request));
                effects.push(Effect::Publish(event));
                effects.push(
                    Effect::Send {
                        client: client_id,
                        message: ServerMessage::Ack { for_command: "KillChannel".to_string() },
                    },
                );
            },
            Ok(None) => {
                effects.push(
                    Effect::Send {
                        client: client_id,
                        message: ServerMessage::Ack { for_command: "KillChannel".to_string() },
                    },
                );
            },
            Err(e) => {
                effects.push(
                    Effect::Send {
                        client: client_id,
                        message: create_error_message(failure("Failed to kill channel: ", &e)),
                    },
                );
            },
        }
        assert(effects.deep_view() =~= before.kill_effects(client_id, name@));
        effects
    }

    /// Handles a `SwitchChannel`.
    fn on_switch(&mut self, client_id: u128, name: &str) -> (effects: Vec<Effect>)
        requires
            old(self)@.wf(),
        ensures
            final(self)@.wf(),
            final(self)@ == (ServerView {
                manager: old(self)@.manager.switched(name@),
                ..old(self)@
            }),
            effects.deep_view() == old(self)@.switch_effects(client_id, name@),
    {
        let ghost before = self@;
        let mut effects: Vec<Effect> = Vec::new();
        match self.channel_manager.switch_active(name) {
            Ok(()) => {
                effects.push(
                    Effect::Send {
                        client: client_id,
                        message: ServerMessage::Ack { for_command: "SwitchChannel".to_string() },
                    },
                );
                let changed = ServerMessage::Event(
                    ChannelEvent::ActiveChanged { name: name.to_owned() },
                );
                let mut told = self.broadcast_to_clients(&changed);
                let ghost first = effects.deep_view();
                let ghost rest = told.deep_view();
                effects.append(&mut told);
                assert(effects.deep_view() =~= first + rest);
            },
            Err(e) => {
                effects.push(
                    Effect::Send {
                        client: client_id,
                        message: create_error_message(failure("Failed to switch channel: ", &e)),
                    },
                );
            },
        }
        assert(effects.deep_view() =~= before.switch_effects(client_id, name@));
        effects
    }

    /// Handles an `Input` or an `InputTo`.
    fn on_input(&self, client_id: u128, target: Option<&str>, data: &[u8]) -> (effects: Vec<Effect>)
        requires
            self@.wf(),
        ensures
            target matches Some(name) ==> effects.deep_view() == self@.input_to_effects(
                client_id,
                name@,
                data@,
            ),
            target is None ==> effects.deep_view() == self@.input_effects(client_id, data@),
    {
        let mut effects: Vec<Effect> = Vec::new();
        let result = match target {
            Some(name) => self.channel_manager.send_input_to(name, data),
            None => self.channel_manager.send_input(data),
        };
        match result {
            Ok(request) => {
                effects.push(Effect::Pty(request));
            },
            Err(e) => {
                effects.push(
                    Effect::Send {
                        client: client_id,
                        message: create_error_message(failure("Failed to send input: ", &e)),
                    },
                );
            },
        }
        proof {
            match target {
                Some(name) => {
                    assert(effects.deep_view() =~= self@.input_to_effects(client_id, name@, data@));
                },
                None => {
                    assert(effects.deep_view() =~= self@.input_effects(client_id, data@));
                },
            }
        }
        effects
    }

    /// Handles a `Resize`.
    fn on_resize(&self, cols: u16, rows: u16) -> (effects: Vec<Effect>)
        ensures
            effects.deep_view() == self@.resize_effects(cols, rows),
    {
        let mut requests = self.channel_manager.resize_all(cols, rows);
        let ghost wanted = requests.deep_view();
        let mut effects: Vec<Effect> = Vec::new();
        let mut i: usize = 0;
        while i < requests.len()
            invariant
                i <= requests.len(),
                effects.len() == i,
                forall|j: int| 0 <= j < i ==> effects@[j]@ == pty(requests@[j]@),
            decreases requests.len() - i,
        {
            effects.push(Effect::Pty(requests[i].duplicate()));
            i += 1;
        }
        assert(effects.deep_view() =~= self@.resize_effects(cols, rows));
        effects
    }

    /// Handles a `GetStatus`.
    fn on_status(&self, client_id: u128, channel: Option<&str>) -> (effects: Vec<Effect>)
        ensures
            effects.deep_view() == self@.status_effects(client_id, channel.deep_view()),
    {
        let mut effects: Vec<Effect> = Vec::new();
        let channels = self.channel_manager.statuses(channel);
        effects.push(
            Effect::Send { client: client_id, message: ServerMessage::Status { channels } },
        );
        assert(effects.deep_view() =~= self@.status_effects(client_id, channel.deep_view()));
        effects
    }

    /// Handles a `Detach`.
    fn on_detach(client_id: u128) -> (effects: Vec<Effect>)
        ensures
            effects.deep_view() == ServerView::detach_effects(client_id),
    {
        let mut effects: Vec<Effect> = Vec::new();
        effects.push(
            Effect::Send {
                client: client_id,
                message: ServerMessage::Ack { for_command: "Detach".to_string() },
            },
        );
        effects.push(Effect::Disconnect { client: client_id });
        assert(effects.deep_view() =~= ServerView::detach_effects(client_id));
        effects
    }

    /// Handles a `Shutdown`.
    fn on_shutdown(client_id: u128) -> (effects: Vec<Effect>)
        ensures
            effects.deep_view() == ServerView::shutdown_effects(client_id),
    {
        let mut effects: Vec<Effect> = Vec::new();
        effects.push(
            Effect::Send {
                client: client_id,
                message: ServerMessage::Ack { for_command: "Shutdown".to_string() },
            },
        );
        effects.push(Effect::Shutdown);
        assert(effects.deep_view() =~= ServerView::shutdown_effects(client_id));
        effects
    }
}

impl ServerView {
    /// The state after a client subscribed: the channels that the request is
    /// for join its subscription set.
    pub open spec fn subscribed(self, client: u128, requested: Seq<Seq<char>>) -> ServerView {
        if self.has_client(client) {
            self.with_client(
                client,
                ClientView {
                    subscriptions: with_names(
                        self.client(client).subscriptions,
                        self.subscribe_targets(requested),
                    ),
                    ..self.client(client)
                },
            )
        } else {
            self
        }
    }

    /// What a `Subscribe` leads to: the replay of the channels that joined
    /// the client's subscription set, then the set as it is now.
    pub open spec fn subscribe_effects(self, client: u128, requested: Seq<Seq<char>>) -> Seq<
        EffectView,
    > {
        if self.has_client(client) {
            self.replay(
                client,
                newly_added(self.client(client).subscriptions, self.subscribe_targets(requested)),
            ) + seq![
                notify(
                    client,
                    ChannelEventView::SubscriptionChanged {
                        subscribed: with_names(
                            self.client(client).subscriptions,
                            self.subscribe_targets(requested),
                        ),
                    },
                ),
            ]
        } else {
            seq![error(client, "Client not found"@)]
        }
    }

    /// The state after a client unsubscribed from the channels.
    pub open spec fn unsubscribed_from(self, client: u128, channels: Seq<Seq<char>>) -> ServerView {
        if self.has_client(client) {
            self.with_client(
                client,
                ClientView {
                    subscriptions: without_names(self.client(client).subscriptions, channels),
                    ..self.client(client)
                },
            )
        } else {
            self
        }
    }

    /// What an `Unsubscribe` is answered with: the subscription set as it is now.
    pub open spec fn unsubscribe_effects(self, client: u128, channels: Seq<Seq<char>>) -> Seq<
        EffectView,
    > {
        if self.has_client(client) {
            seq![
                notify(
                    client,
                    ChannelEventView::SubscriptionChanged {
                        subscribed: without_names(self.client(client).subscriptions, channels),
                    },
                ),
            ]
        } else {
            seq![error(client, "Client not found"@)]
        }
    }

    /// What a `ListChannels` is answered with.
    pub open spec fn list_effects(self, client: u128) -> Seq<EffectView> {
        if self.has_client(client) {
            seq![
                EffectView::Send {
                    client,
                    message: ServerMessageView::ChannelList { channels: self.channel_list(client) },
                },
            ]
        } else {
            seq![error(client, "Client not found"@)]
        }
    }

    /// The state after a client message was handled.
    pub open spec fn after_message(self, client: u128, message: ClientMessageView) -> ServerView {
        match message {
            ClientMessageView::KillChannel { name } => self.killed(name),
            ClientMessageView::SwitchChannel { name } => ServerView {
                manager: self.manager.switched(name),
                ..self
            },
            ClientMessageView::Subscribe { channels } => self.subscribed(client, channels),
            ClientMessageView::Unsubscribe { channels } => self.unsubscribed_from(client, channels),
            _ => self,
        }
    }

    /// What the handling of a client message leaves to be carried out.
    pub open spec fn message_effects(self, client: u128, message: ClientMessageView) -> Seq<
        EffectView,
    > {
        match message {
            ClientMessageView::Hello { protocol_version } => Self::hello_effects(
                client,
                protocol_version,
            ),
            ClientMessageView::Input { data } => self.input_effects(client, data),
            ClientMessageView::InputTo { channel, data } => self.input_to_effects(
                client,
                channel,
                data,
            ),
            ClientMessageView::CreateChannel { name, command, working_dir } => self.create_effects(
                client,
                ChannelConfigView { name, command, working_dir, env: None, size: None },
            ),
            ClientMessageView::KillChannel { name } => self.kill_effects(client, name),
            ClientMessageView::SwitchChannel { name } => self.switch_effects(client, name),
            ClientMessageView::Subscribe { channels } => self.subscribe_effects(client, channels),
            ClientMessageView::Unsubscribe { channels } => self.unsubscribe_effects(
                client,
                channels,
            ),
            ClientMessageView::ListChannels => self.list_effects(client),
            ClientMessageView::GetStatus { channel } => self.status_effects(client, channel),
            ClientMessageView::Resize { cols, rows } => self.resize_effects(cols, rows),
            ClientMessageView::Detach => Self::detach_effects(client),
            ClientMessageView::Shutdown => Self::shutdown_effects(client),
        }
    }

    /// The state after something that the client sent could not be decoded.
    pub open spec fn undecodable(self, client: u128) -> ServerView {
        if self.has_client(client) {
            self.with_client(client, ClientView { decode_failed: true, ..self.client(client) })
        } else {
            self
        }
    }

    /// What follows something that could not be decoded: the client is told,
    /// and where the thing before it could not be decoded either, the
    /// connection ends.
    pub open spec fn undecodable_effects(self, client: u128, reason: Seq<char>) -> Seq<EffectView> {
        if self.has_client(client) && self.client(client).decode_failed {
            seq![error(client, "Invalid message: "@ + reason), EffectView::Disconnect { client }]
        } else {
            seq![error(client, "Invalid message: "@ + reason)]
        }
    }

    /// What a chunk of output leads to: its delivery to every client that
    /// is subscribed to the channel, in the order in which they attached.
    pub open spec fn output_effects(self, channel: Seq<char>, data: Seq<u8>, timestamp: i64) -> Seq<
        EffectView,
    > {
        self.clients.filter(subscribed_to(channel)).map_values(
            output_delivery(channel, data, timestamp),
        )
    }

    /// What the end of a channel leads to: every client that was subscribed
    /// to it is told its subscription set as it is now, and then every client
    /// is told of the end.
    pub open spec fn closed_effects(self, channel: Seq<char>, event: ChannelEventView) -> Seq<
        EffectView,
    > {
        self.clients.filter(subscribed_to(channel)).map_values(unsubscribe_notice(channel))
            + self.broadcast(ServerMessageView::Event(event))
    }

    /// The state after the event pump handled an event at the given time.
    /// Output goes into the channel's replay buffer; the end of a channel
    /// takes it out of every subscription set; other state changes leave the
    /// state as it is.
    pub open spec fn after_event(self, event: ChannelManagerEventView, timestamp: i64) -> ServerView {
        match event {
            ChannelManagerEventView::Output { channel_name, data } => self.with_chunk(
                channel_name,
                BufferedOutputView { data, timestamp },
            ),
            ChannelManagerEventView::StateChanged { channel_name, state } => {
                if terminal_event(channel_name, state) is Some {
                    self.closed(channel_name)
                } else {
                    self
                }
            },
        }
    }

    /// What the handling of an event leaves to be carried out.
    pub open spec fn event_effects(self, event: ChannelManagerEventView, timestamp: i64) -> Seq<
        EffectView,
    > {
        match event {
            ChannelManagerEventView::Output { channel_name, data } => self.output_effects(
                channel_name,
                data,
                timestamp,
            ),
            ChannelManagerEventView::StateChanged { channel_name, state } => {
                match terminal_event(channel_name, state) {
                    Some(e) => self.closed_effects(channel_name, e),
                    None => Seq::empty(),
                }
            },
        }
    }
}

/// The replay looks at the buffers alone.
pub proof fn lemma_replay_frame(a: ServerView, b: ServerView, client: u128, channels: Seq<Seq<char>>)
    requires
        a.buffers == b.buffers,
    ensures
        a.replay(client, channels) == b.replay(client, channels),
    decreases channels.len(),
{
    if channels.len() > 0 {
        lemma_replay_frame(a, b, client, channels.drop_last());
    }
}

impl ServerState {
    /// The channels that a subscription request is for.
    fn targets_of(&self, requested: &[String]) -> (targets: Vec<String>)
        requires
            self@.wf(),
        ensures
            targets.deep_view() == self@.subscribe_targets(requested.deep_view()),
    {
        if contains_name(requested, "*") {
            return self.channel_manager.live_channels();
        }
        let ghost live = live_in(self@.manager);
        let mut targets: Vec<String> = Vec::new();
        let mut i: usize = 0;
        while i < requested.len()
            invariant
                i <= requested.len(),
                self@.wf(),
                live == live_in(self@.manager),
                targets.deep_view() == requested.deep_view().take(i as int).filter(live),
            decreases requested.len() - i,
        {
            let ghost before = targets.deep_view();
            proof {
                lemma_filter_step(requested.deep_view(), live, i as int);
            }
            if self.channel_manager.is_live(requested[i].as_str()) {
                targets.push(requested[i].clone());
                assert(targets.deep_view() =~= before.push(requested.deep_view()[i as int]));
            }
            i += 1;
        }
        assert(requested.deep_view().take(requested.len() as int) =~= requested.deep_view());
        targets
    }

    /// Handles a `Subscribe`.
    fn on_subscribe(&mut self, client_id: u128, requested: &[String]) -> (effects: Vec<Effect>)
        requires
            old(self)@.wf(),
        ensures
            final(self)@.wf(),
            final(self)@ == old(self)@.subscribed(client_id, requested.deep_view()),
            effects.deep_view() == old(self)@.subscribe_effects(client_id, requested.deep_view()),
    {
        let ghost before = self@;
        let mut effects: Vec<Effect> = Vec::new();
        let i = match self.find_client(client_id) {
            Some(i) => i,
            None => {
                effects.push(
                    Effect::Send {
                        client: client_id,
                        message: create_error_message("Client not found".to_string()),
                    },
                );
                assert(effects.deep_view() =~= before.subscribe_effects(
                    client_id,
                    requested.deep_view(),
                ));
                return effects;
            },
        };
        let targets = self.targets_of(requested);
        let added = self.clients[i].subscribe(targets.as_slice());
        let subscribed = self.clients[i].get_subscriptions();
        proof {
            let updated = ClientView {
                subscriptions: with_names(
                    before.client(client_id).subscriptions,
                    before.subscribe_targets(requested.deep_view()),
                ),
                ..before.client(client_id)
            };
            assert(self.clients.deep_view() =~= before.clients.update(i as int, updated));
            lemma_with_names(
                before.client(client_id).subscriptions,
                before.subscribe_targets(requested.deep_view()),
            );
            lemma_with_client(before, client_id, updated);
            lemma_replay_frame(self@, before, client_id, added.deep_view());
        }
        let mut effects = self.send_buffered_output(client_id, added.as_slice());
        let ghost replayed = effects.deep_view();
        effects.push(
            Effect::Send {
                client: client_id,
                message: ServerMessage::Event(ChannelEvent::SubscriptionChanged { subscribed }),
            },
        );
        assert(effects.deep_view() =~= before.subscribe_effects(client_id, requested.deep_view()));
        effects
    }

    /// Handles an `Unsubscribe`.
    fn on_unsubscribe(&mut self, client_id: u128, channels: &[String]) -> (effects: Vec<Effect>)
        requires
            old(self)@.wf(),
        ensures
            final(self)@.wf(),
            final(self)@ == old(self)@.unsubscribed_from(client_id, channels.deep_view()),
            effects.deep_view() == old(self)@.unsubscribe_effects(client_id, channels.deep_view()),
    {
        let ghost before = self@;
        let mut effects: Vec<Effect> = Vec::new();
        match self.find_client(client_id) {
            Some(i) => {
                self.clients[i].unsubscribe(channels);
                let subscribed = self.clients[i].get_subscriptions();
                proof {
                    let updated = ClientView {
                        subscriptions: without_names(
                            before.client(client_id).subscriptions,
                            channels.deep_view(),
                        ),
                        ..before.client(client_id)
                    };
                    assert(self.clients.deep_view() =~= before.clients.update(i as int, updated));
                    lemma_without_names(
                        before.client(client_id).subscriptions,
                        channels.deep_view(),
                    );
                    lemma_with_client(before, client_id, updated);
                }
                effects.push(
                    Effect::Send {
                        client: client_id,
                        message: ServerMessage::Event(
                            ChannelEvent::SubscriptionChanged { subscribed },
                        ),
                    },
                );
            },
            None => {
                effects.push(
                    Effect::Send {
                        client: client_id,
                        message: create_error_message("Client not found".to_string()),
                    },
                );
            },
        }
        assert(effects.deep_view() =~= before.unsubscribe_effects(client_id, channels.deep_view()));
        effects
    }

    /// Handles a `ListChannels`: the manager's listing, with the client's
    /// own subscriptions in place of the session's.
    fn on_list(&self, client_id: u128) -> (effects: Vec<Effect>)
        requires
            self@.wf(),
        ensures
            effects.deep_view() == self@.list_effects(client_id),
    {
        let mut effects: Vec<Effect> = Vec::new();
        match self.find_client(client_id) {
            Some(c) => {
                let infos = self.channel_manager.list_channels_info();
                let ghost listed = self@.manager.listed();
                assert(infos.deep_view().len() == listed.len());
                let mut channels: Vec<ChannelInfo> = Vec::new();
                let mut i: usize = 0;
                while i < infos.len()
                    invariant
                        i <= infos.len(),
                        c < self.clients.len(),
                        self@.wf(),
                        c == self@.client_position(client_id),
                        listed == self@.manager.listed(),
                        infos.deep_view() == self@.manager.infos(),
                        infos.len() == listed.len(),
                        channels.len() == i,
                        forall|j: int|
                            0 <= j < i ==> channels@[j]@ == self@.info_for(client_id, listed[j]),
                    decreases infos.len() - i,
                {
                    assert(infos.deep_view()[i as int] == self@.manager.info_of(listed[i as int]));
                    let info = ChannelInfo {
                        name: infos[i].name.clone(),
                        running: infos[i].running,
                        is_active: infos[i].is_active,
                        is_subscribed: self.clients[c].is_subscribed(infos[i].name.as_str()),
                    };
                    channels.push(info);
                    i += 1;
                }
                assert(channels.deep_view() =~= self@.channel_list(client_id));
                effects.push(
                    Effect::Send {
                        client: client_id,
                        message: ServerMessage::ChannelList { channels },
                    },
                );
            },
            None => {
                effects.push(
                    Effect::Send {
                        client: client_id,
                        message: create_error_message("Client not found".to_string()),
                    },
                );
            },
        }
        assert(effects.deep_view() =~= self@.list_effects(client_id));
        effects
    }

    /// Process a client message.
    ///
    /// The client is first noted as having sent something that could be
    /// decoded. Then the message is handled as the rules of
    /// `ServerView::after_message` and `ServerView::message_effects` say,
    /// and what is left to be carried out is returned in order.
    pub fn process_message(&mut self, message: ClientMessage, client_id: u128) -> (effects: Vec<
        Effect,
    >)
        requires
            old(self)@.wf(),
        ensures
            final(self)@.wf(),
            old(self)@.subscriptions_live() ==> final(self)@.subscriptions_live(),
            final(self)@ == old(self)@.decoded(client_id).after_message(client_id, message@),
            effects.deep_view() == old(self)@.decoded(client_id).message_effects(
                client_id,
                message@,
            ),
    {
        proof {
            if self@.subscriptions_live() {
                super::guarantees::lemma_noting_keeps_subscriptions_live(self@, client_id);
            }
        }
        self.set_decoded(client_id);
        proof {
            if self@.subscriptions_live() {
                super::guarantees::lemma_message_keeps_subscriptions_live(
                    self@,
                    client_id,
                    message@,
                );
            }
        }
        match message {
            ClientMessage::Hello { protocol_version } => Self::on_hello(client_id, protocol_version),
            ClientMessage::Input { data } => self.on_input(client_id, None, data.as_slice()),
            ClientMessage::InputTo { channel, data } => self.on_input(
                client_id,
                Some(channel.as_str()),
                data.as_slice(),
            ),
            ClientMessage::CreateChannel { name, command, working_dir } => {
                let config = ChannelConfig { name, command, working_dir, env: None, size: None };
                self.on_create(client_id, &config)
            },
            ClientMessage::KillChannel { name } => self.on_kill(client_id, name.as_str()),
            ClientMessage::SwitchChannel { name } => self.on_switch(client_id, name.as_str()),
            ClientMessage::Subscribe { channels } => self.on_subscribe(
                client_id,
                channels.as_slice(),
            ),
            ClientMessage::Unsubscribe { channels } => self.on_unsubscribe(
                client_id,
                channels.as_slice(),
            ),
            ClientMessage::ListChannels => self.on_list(client_id),
            ClientMessage::GetStatus { channel } => {
                let only = match &channel {
                    Some(name) => Some(name.as_str()),
                    None => None,
                };
                self.on_status(client_id, only)
            },
            ClientMessage::Resize { cols, rows } => self.on_resize(cols, rows),
            ClientMessage::Detach => Self::on_detach(client_id),
            ClientMessage::Shutdown => Self::on_shutdown(client_id),
        }
    }

    /// Handles something from a client that could not be decoded: the client
    /// is told why, and where the thing before it could not be decoded
    /// either, the connection is to end.
    pub fn handle_undecodable(&mut self, client_id: u128, reason: &str) -> (effects: Vec<Effect>)
        requires
            old(self)@.wf(),
        ensures
            final(self)@.wf(),
            old(self)@.subscriptions_live() ==> final(self)@.subscriptions_live(),
            final(self)@ == old(self)@.undecodable(client_id),
            effects.deep_view() == old(self)@.undecodable_effects(client_id, reason@),
    {
        proof {
            if self@.subscriptions_live() {
                super::guarantees::lemma_noting_keeps_subscriptions_live(self@, client_id);
            }
        }
        let ghost before = self@;
        let mut text = "Invalid message: ".to_string();
        text.append(reason);
        let mut effects: Vec<Effect> = Vec::new();
        effects.push(Effect::Send { client: client_id, message: create_error_message(text) });
        match self.find_client(client_id) {
            Some(i) => {
                let close = self.clients[i].note_decoded(false);
                proof {
                    let updated = ClientView { decode_failed: true, ..before.client(client_id) };
                    assert(self.clients.deep_view() =~= before.clients.update(i as int, updated));
                    lemma_with_client(before, client_id, updated);
                }
                if close {
                    effects.push(Effect::Disconnect { client: client_id });
                }
            },
            None => {},
        }
        assert(effects.deep_view() =~= before.undecodable_effects(client_id, reason@));
        effects
    }
}

impl ServerState {
    /// Puts a chunk into the replay buffer of the channel, which is made
    /// first where there is none; the oldest chunk leaves where the buffer
    /// would hold more than `MAX_BUFFERED_OUTPUTS`.
    fn buffer_output(&mut self, channel: &str, data: &[u8], timestamp: i64)
        requires
            old(self)@.wf(),
        ensures
            final(self)@.wf(),
            final(self)@ == old(self)@.with_chunk(
                channel@,
                BufferedOutputView { data: data@, timestamp },
            ),
    {
        let ghost before = self@;
        let ghost chunk = BufferedOutputView { data: data@, timestamp };
        let entry = BufferedOutput { data: vstd::slice::slice_to_vec(data), timestamp };
        match self.find_buffer(channel) {
            Some(b) => {
                let ghost held = before.buffers[b as int].entries;
                self.output_buffers[b].entries.push_back(entry);
                assert(self.output_buffers[b as int].entries.deep_view() =~= held.push(chunk));
                if self.output_buffers[b].entries.len() > MAX_BUFFERED_OUTPUTS {
                    let _ = self.output_buffers[b].entries.pop_front();
                    assert(self.output_buffers[b as int].entries.deep_view() =~= held.push(
                        chunk,
                    ).skip(1));
                }
                proof {
                    let after = self@;
                    assert(after.buffers[b as int].entries == appended(held, chunk));
                    assert(after.buffers =~= before.buffers.update(
                        b as int,
                        OutputBufferView { channel: channel@, entries: appended(held, chunk) },
                    ));
                    assert forall|i: int, j: int| 0 <= i < j < after.buffers.len() implies (
                    #[trigger] after.buffers[i]).channel != (
                    #[trigger] after.buffers[j]).channel by {
                        assert(before.buffers[i].channel != before.buffers[j].channel);
                    }
                    assert forall|i: int| 0 <= i < after.buffers.len() implies (
                    #[trigger] after.buffers[i]).entries.len() <= MAX_BUFFERED_OUTPUTS by {
                        if i != b {
                            assert(before.buffers[i].entries.len() <= MAX_BUFFERED_OUTPUTS);
                        }
                    }
                }
            },
            None => {
                let mut entries: VecDeque<BufferedOutput> = VecDeque::new();
                entries.push_back(entry);
                assert(entries.deep_view() =~= seq![chunk]);
                self.output_buffers.push(OutputBuffer { channel: channel.to_owned(), entries });
                proof {
                    let after = self@;
                    assert(after.buffers =~= before.buffers.push(
                        OutputBufferView { channel: channel@, entries: seq![chunk] },
                    ));
                    assert forall|i: int, j: int| 0 <= i < j < after.buffers.len() implies (
                    #[trigger] after.buffers[i]).channel != (
                    #[trigger] after.buffers[j]).channel by {
                        if j == before.buffers.len() {
                            assert(before.buffers[i].channel != channel@);
                        } else {
                            assert(before.buffers[i].channel != before.buffers[j].channel);
                        }
                    }
                    assert forall|i: int| 0 <= i < after.buffers.len() implies (
                    #[trigger] after.buffers[i]).entries.len() <= MAX_BUFFERED_OUTPUTS by {
                        if i < before.buffers.len() {
                            assert(before.buffers[i].entries.len() <= MAX_BUFFERED_OUTPUTS);
                        }
                    }
                }
            },
        }
    }

    /// Handles a chunk of channel output: it goes into the replay buffer and
    /// to every subscribed client.
    fn on_output(&mut self, channel: &str, data: &[u8], timestamp: i64) -> (effects: Vec<Effect>)
        requires
            old(self)@.wf(),
        ensures
            final(self)@.wf(),
            final(self)@ == old(self)@.with_chunk(
                channel@,
                BufferedOutputView { data: data@, timestamp },
            ),
            effects.deep_view() == old(self)@.output_effects(channel@, data@, timestamp),
    {
        let ghost before = self@;
        self.buffer_output(channel, data, timestamp);
        let ghost wanted = subscribed_to(channel@);
        let ghost delivery = output_delivery(channel@, data@, timestamp);
        let mut effects: Vec<Effect> = Vec::new();
        let mut i: usize = 0;
        assert(effects.deep_view() =~= before.clients.take(0).filter(wanted).map_values(delivery))
            by {
            reveal(Seq::filter);
        }
        while i < self.clients.len()
            invariant
                i <= self.clients.len(),
                self@.clients == before.clients,
                wanted == subscribed_to(channel@),
                delivery == output_delivery(channel@, data@, timestamp),
                effects.deep_view() == before.clients.take(i as int).filter(wanted).map_values(
                    delivery,
                ),
            decreases self.clients.len() - i,
        {
            let ghost sofar = effects.deep_view();
            proof {
                lemma_filter_step(before.clients, wanted, i as int);
            }
            if self.clients[i].is_subscribed(channel) {
                let message = ServerMessage::Output {
                    channel: channel.to_owned(),
                    data: vstd::slice::slice_to_vec(data),
                    timestamp,
                };
                effects.push(Effect::Send { client: self.clients[i].id(), message });
                assert(effects.deep_view() =~= sofar.push(delivery(before.clients[i as int])));
                assert(before.clients.take(i + 1).filter(wanted).map_values(delivery)
                    =~= sofar.push(delivery(before.clients[i as int])));
            }
            i += 1;
        }
        assert(before.clients.take(before.clients.len() as int) =~= before.clients);
        effects
    }

    /// Handles the end of a channel: it leaves every subscription set, every
    /// client that was subscribed to it is told its set as it is now, and
    /// then every client is told of the end.
    fn on_closed(&mut self, channel: &str, event: ChannelEvent) -> (effects: Vec<Effect>)
        requires
            old(self)@.wf(),
        ensures
            final(self)@.wf(),
            final(self)@ == old(self)@.closed(channel@),
            effects.deep_view() == old(self)@.closed_effects(channel@, event@),
    {
        let ghost before = self@;
        let ghost wanted = subscribed_to(channel@);
        let ghost notice = unsubscribe_notice(channel@);
        let ghost leave = unsubscribed(channel@);
        let mut gone: Vec<String> = Vec::new();
        gone.push(channel.to_owned());
        assert(gone.deep_view() =~= seq![channel@]);
        let message = ServerMessage::Event(event);
        let mut told = self.broadcast_to_clients(&message);
        crate::text::remove_names(&mut self.closing, gone.as_slice());
        let mut effects: Vec<Effect> = Vec::new();
        let mut i: usize = 0;
        assert(effects.deep_view() =~= before.clients.take(0).filter(wanted).map_values(notice)) by {
            reveal(Seq::filter);
        }
        while i < self.clients.len()
            invariant
                i <= self.clients.len(),
                self.clients.len() == before.clients.len(),
                self@.session == before.session,
                self@.manager == before.manager,
                self@.buffers == before.buffers,
                self@.closing == without_names(before.closing, seq![channel@]),
                self@.shell == before.shell,
                self@.current_dir == before.current_dir,
                gone.deep_view() == seq![channel@],
                wanted == subscribed_to(channel@),
                notice == unsubscribe_notice(channel@),
                leave == unsubscribed(channel@),
                forall|j: int| 0 <= j < i ==> self@.clients[j] == leave(before.clients[j]),
                forall|j: int| i <= j < self.clients.len() ==> self@.clients[j] == before.clients[j],
                effects.deep_view() == before.clients.take(i as int).filter(wanted).map_values(
                    notice,
                ),
            decreases self.clients.len() - i,
        {
            let ghost sofar = effects.deep_view();
            let ghost clients_before = self.clients.deep_view();
            proof {
                lemma_filter_step(before.clients, wanted, i as int);
            }
            let was_subscribed = self.clients[i].is_subscribed(channel);
            self.clients[i].unsubscribe(gone.as_slice());
            assert(self.clients.deep_view() =~= clients_before.update(
                i as int,
                leave(before.clients[i as int]),
            ));
            if was_subscribed {
                let subscribed = self.clients[i].get_subscriptions();
                effects.push(
                    Effect::Send {
                        client: self.clients[i].id(),
                        message: ServerMessage::Event(
                            ChannelEvent::SubscriptionChanged { subscribed },
                        ),
                    },
                );
                assert(effects.deep_view() =~= sofar.push(notice(before.clients[i as int])));
                assert(before.clients.take(i + 1).filter(wanted).map_values(notice)
                    =~= sofar.push(notice(before.clients[i as int])));
            }
            i += 1;
        }
        assert(before.clients.take(before.clients.len() as int) =~= before.clients);
        let ghost notices = effects.deep_view();
        let ghost broadcast = told.deep_view();
        effects.append(&mut told);
        assert(effects.deep_view() =~= notices + broadcast);
        proof {
            let after = self@;
            assert(after.clients =~= before.clients.map_values(leave));
            assert(after.session.client_ids =~= after.clients.map_values(|c: ClientView| c.id));
            assert forall|a: int, b: int| 0 <= a < b < after.clients.len() implies (
            #[trigger] after.clients[a]).id != (#[trigger] after.clients[b]).id by {
                assert(before.clients[a].id != before.clients[b].id);
            }
            assert forall|k: int| 0 <= k < after.clients.len() implies (
            #[trigger] after.clients[k]).subscriptions.no_duplicates() by {
                lemma_without_names(before.clients[k].subscriptions, seq![channel@]);
            }
        }
        effects
    }

    /// Handles an event that came from the channel manager at the given time.
    ///
    /// Output goes into the channel's replay buffer and to every client that
    /// is subscribed to the channel. The end of a channel, by exit or by
    /// kill, takes it out of every subscription set; the clients that were
    /// subscribed are told their set as it is now, and then every client is
    /// told of the end. Other state changes are passed over.
    pub fn handle_channel_event_at(&mut self, event: ChannelManagerEvent, timestamp: i64) -> (effects:
        Vec<Effect>)
        requires
            old(self)@.wf(),
        ensures
            final(self)@.wf(),
            old(self)@.subscriptions_live() ==> final(self)@.subscriptions_live(),
            final(self)@ == old(self)@.after_event(event@, timestamp),
            effects.deep_view() == old(self)@.event_effects(event@, timestamp),
    {
        proof {
            if self@.subscriptions_live() {
                super::guarantees::lemma_event_keeps_subscriptions_live(self@, event@, timestamp);
            }
        }
        match event {
            ChannelManagerEvent::Output { channel_name, data } => self.on_output(
                channel_name.as_str(),
                data.as_slice(),
                timestamp,
            ),
            ChannelManagerEvent::StateChanged { channel_name, state } => {
                match state {
                    ChannelState::Exited(code) => {
                        let event = ChannelEvent::Exited {
                            name: channel_name.clone(),
                            exit_code: code,
                        };
                        self.on_closed(channel_name.as_str(), event)
                    },
                    ChannelState::Killed => {
                        let event = ChannelEvent::Killed { name: channel_name.clone() };
                        self.on_closed(channel_name.as_str(), event)
                    },
                    _ => {
                        let effects: Vec<Effect> = Vec::new();
                        assert(effects.deep_view() =~= Seq::empty());
                        effects
                    },
                }
            },
        }
    }

    /// Handles an event that came from the channel manager, at the time at
    /// which it is handled. Whatever the time is, the event is handled as
    /// `handle_channel_event_at` handles it at that time.
    pub fn handle_channel_event(&mut self, event: ChannelManagerEvent) -> (effects: Vec<Effect>)
        requires
            old(self)@.wf(),
        ensures
            final(self)@.wf(),
            old(self)@.subscriptions_live() ==> final(self)@.subscriptions_live(),
            exists|timestamp: i64|
                final(self)@ == old(self)@.after_event(event@, timestamp) && effects.deep_view()
                    == #[trigger] old(self)@.event_effects(event@, timestamp),
    {
        let timestamp = super::session::now_millis();
        self.handle_channel_event_at(event, timestamp)
    }
}

impl ServerState {
    /// Records a chunk read from the terminal of a channel and returns the
    /// event to hand to the event pump, if any: one for every non-empty
    /// chunk of a live channel, none once the channel has reached a final
    /// state.
    pub fn record_output(&mut self, channel: &str, data: &[u8]) -> (event: Option<
        ChannelManagerEvent,
    >)
        requires
            old(self)@.wf(),
        ensures
            final(self)@.wf(),
            old(self)@.subscriptions_live() ==> final(self)@.subscriptions_live(),
            final(self)@ == (ServerView {
                manager: old(self)@.manager.with_output(channel@, data@),
                ..old(self)@
            }),
            event.deep_view() == old(self)@.manager.output_event(channel@, data@),
    {
        proof {
            if self@.subscriptions_live() {
                super::guarantees::lemma_output_keeps_subscriptions_live(self@, channel@, data@);
            }
        }
        self.channel_manager.channel_output(channel, data)
    }

    /// Records that the wait on a channel's child ended, with its exit
    /// status or with `None` where the wait failed, and returns the event
    /// to hand to the event pump, if any: one for a channel that was still
    /// live, none for a channel already in a final state.
    pub fn record_exit(&mut self, channel: &str, wait: Option<u32>) -> (event: Option<
        ChannelManagerEvent,
    >)
        requires
            old(self)@.wf(),
        ensures
            final(self)@.wf(),
            old(self)@.subscriptions_live() ==> final(self)@.subscriptions_live(),
            final(self)@ == old(self)@.exited(channel@, wait),
            event.deep_view() == old(self)@.manager.exit_event(channel@, wait),
    {
        proof {
            if self@.subscriptions_live() {
                super::guarantees::lemma_end_keeps_subscriptions_live(self@, channel@, wait);
            }
        }
        let ghost before = self@;
        let event = self.channel_manager.channel_exited(channel, wait);
        if event.is_some() {
            self.closing.push(channel.to_owned());
            assert(self.closing.deep_view() =~= before.closing.push(channel@));
        }
        event
    }

    /// The channels to kill when the daemon shuts down: every live channel.
    pub fn live_channels(&self) -> (names: Vec<String>)
        ensures
            names.deep_view() == self@.manager.live_names(),
    {
        self.channel_manager.live_channels()
    }

    /// The identifiers of the connected clients, in the order in which they attached.
    pub fn client_ids(&self) -> (ids: Vec<u128>)
        ensures
            ids@ == self@.clients.map_values(|c: ClientView| c.id),
    {
        let mut ids: Vec<u128> = Vec::new();
        let mut i: usize = 0;
        while i < self.clients.len()
            invariant
                i <= self.clients.len(),
                ids.len() == i,
                forall|j: int| 0 <= j < i ==> ids@[j] == self@.clients[j].id,
            decreases self.clients.len() - i,
        {
            ids.push(self.clients[i].id());
            i += 1;
        }
        assert(ids@ =~= self@.clients.map_values(|c: ClientView| c.id));
        ids
    }
}

/// What the daemon does about its socket path when it starts.
#[derive(Debug)]
pub enum Startup {
    /// Nothing is in the way: bind the socket.
    Bind,
    /// A socket file is left over from a daemon that is gone: remove it, then bind.
    RemoveStale,
    /// Another daemon answers on the socket: give up with this message.
    AlreadyRunning { message: String },
}

/// What a daemon that finds its session served already says.
pub open spec fn already_running_text(session_name: Seq<char>) -> Seq<char> {
    "Server already running for session '"@ + session_name + "'"@
}

/// Unix socket server listener.
#[derive(Debug)]
pub struct ServerListener {
    socket_path: String,
    session_name: String,
}

impl ServerListener {
    /// Create a new server listener.
    pub fn new(session_name: String, socket_path: String) -> (listener: Self)
        ensures
            listener.path() == socket_path@,
            listener.name() == session_name@,
    {
        Self { socket_path, session_name }
    }

    /// The socket path.
    pub closed spec fn path(&self) -> Seq<char> {
        self.socket_path@
    }

    /// The session name.
    pub closed spec fn name(&self) -> Seq<char> {
        self.session_name@
    }

    /// Check if socket already exists (another server running).
    ///
    /// This is `std::path::Path::exists` on the socket path: whether
    /// something stands at that path at the moment of the call. Nothing is
    /// promised of the answer.
    #[verifier::external_body]
    pub fn socket_exists(&self) -> bool {
        std::path::Path::new(&self.socket_path).exists()
    }

    /// Get the socket path.
    pub fn socket_path(&self) -> (path: &str)
        ensures
            path@ == self.path(),
    {
        self.socket_path.as_str()
    }

    /// Get the session name.
    pub fn session_name(&self) -> (name: &str)
        ensures
            name@ == self.name(),
    {
        self.session_name.as_str()
    }

    /// Decides what to do about the socket path at startup, from whether a
    /// file stands there and whether a daemon answers on it. With no file
    /// the socket is bound; a file on which nobody answers is stale and is
    /// removed first; a file on which a daemon answers means that the session
    /// is served already, and this daemon gives up.
    pub fn startup(&self, socket_exists: bool, peer_answers: bool) -> (step: Startup)
        ensures
            !socket_exists ==> step is Bind,
            socket_exists && !peer_answers ==> step is RemoveStale,
            socket_exists && peer_answers ==> (step matches Startup::AlreadyRunning { message }
                && message@ == already_running_text(self.name())),
    {
        if !socket_exists {
            Startup::Bind
        } else if peer_answers {
            let mut message = "Server already running for session '".to_string();
            message.append(self.session_name.as_str());
            message.append("'");
            Startup::AlreadyRunning { message }
        } else {
            Startup::RemoveStale
        }
    }

    /// The state with which the daemon starts to serve: a new session of
    /// this listener's name and socket path, no clients and no channels.
    pub fn open_session(&self, defaults: SpawnDefaults) -> (state: ServerState)
        ensures
            state@.wf(),
            state@.session.name == self.name(),
            state@.session.socket_path == self.path(),
            state@.clients.len() == 0,
            state@.manager.channels.len() == 0,
            state@.manager.active is None,
            state@.buffers.len() == 0,
            state@.closing.len() == 0,
            state@.shell == defaults.shell@,
            state@.current_dir == defaults.working_dir@,
            state@.subscriptions_live(),
    {
        let session = Session::new(self.session_name.clone(), self.socket_path.clone());
        ServerState::new(session, defaults)
    }
}

} // verus!
