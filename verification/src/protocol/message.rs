//! Message types exchanged between clients and the daemon.

use vstd::prelude::*;

verus! {

/// Messages sent from a client to the daemon.
#[derive(Debug, Clone)]
#[allow(inconsistent_fields)]
pub enum ClientMessage {
    /// Handshake with protocol version.
    Hello { protocol_version: u32 },
    /// Send input to the active channel.
    Input { data: Vec<u8> },
    /// Send input to a specific channel.
    InputTo { channel: String, data: Vec<u8> },
    /// Create a new channel.
    CreateChannel { name: String, command: Option<String>, working_dir: Option<String> },
    /// Destroy a channel.
    KillChannel { name: String },
    /// Switch the active channel.
    SwitchChannel { name: String },
    /// Subscribe to channel output.
    Subscribe { channels: Vec<String> },
    /// Unsubscribe from channel output.
    Unsubscribe { channels: Vec<String> },
    /// Request the channel list.
    ListChannels,
    /// Request channel status.
    GetStatus { channel: Option<String> },
    /// Terminal resize event.
    Resize { cols: u16, rows: u16 },
    /// Detach from the session (the daemon keeps running).
    Detach,
    /// Graceful shutdown request.
    Shutdown,
}

/// Channel lifecycle events.
#[derive(Debug, Clone)]
pub enum ChannelEvent {
    /// New channel created.
    Created { name: String },
    /// Channel exited.
    Exited { name: String, exit_code: Option<i32> },
    /// Channel was killed.
    Killed { name: String },
    /// Active channel changed.
    ActiveChanged { name: String },
    /// Subscription changed.
    SubscriptionChanged { subscribed: Vec<String> },
}

/// Basic channel info for a list response.
#[derive(Debug, Clone)]
pub struct ChannelInfo {
    pub name: String,
    pub running: bool,
    pub is_active: bool,
    pub is_subscribed: bool,
}

/// Detailed channel status.
#[derive(Debug, Clone)]
pub struct ChannelStatus {
    pub name: String,
    pub pid: Option<u32>,
    pub running: bool,
    pub exit_code: Option<i32>,
    pub working_dir: String,
    pub command: String,
    pub created_at: i64,
    pub output_lines: usize,
}

/// Messages sent from the daemon to a client.
#[derive(Debug, Clone)]
#[allow(inconsistent_fields)]
pub enum ServerMessage {
    /// Handshake response. The session id is the 128-bit value of its UUID.
    Welcome { session_id: u128, protocol_version: u32 },
    /// Output from a channel; the timestamp is in milliseconds.
    Output { channel: String, data: Vec<u8>, timestamp: i64 },
    /// Channel event notification.
    Event(ChannelEvent),
    /// Channel list response.
    ChannelList { channels: Vec<ChannelInfo> },
    /// Status response.
    Status { channels: Vec<ChannelStatus> },
    /// Error response.
    Error { message: String },
    /// Acknowledgment of a command.
    Ack { for_command: String },
}

/// Mathematical value of a [`ClientMessage`].
#[allow(inconsistent_fields)]
pub enum ClientMessageView {
    Hello { protocol_version: u32 },
    Input { data: Seq<u8> },
    InputTo { channel: Seq<char>, data: Seq<u8> },
    CreateChannel { name: Seq<char>, command: Option<Seq<char>>, working_dir: Option<Seq<char>> },
    KillChannel { name: Seq<char> },
    SwitchChannel { name: Seq<char> },
    Subscribe { channels: Seq<Seq<char>> },
    Unsubscribe { channels: Seq<Seq<char>> },
    ListChannels,
    GetStatus { channel: Option<Seq<char>> },
    Resize { cols: u16, rows: u16 },
    Detach,
    Shutdown,
}

/// Mathematical value of a [`ChannelEvent`].
pub enum ChannelEventView {
    Created { name: Seq<char> },
    Exited { name: Seq<char>, exit_code: Option<i32> },
    Killed { name: Seq<char> },
    ActiveChanged { name: Seq<char> },
    SubscriptionChanged { subscribed: Seq<Seq<char>> },
}

/// Mathematical value of a [`ChannelInfo`].
pub struct ChannelInfoView {
    pub name: Seq<char>,
    pub running: bool,
    pub is_active: bool,
    pub is_subscribed: bool,
}

/// Mathematical value of a [`ChannelStatus`].
pub struct ChannelStatusView {
    pub name: Seq<char>,
    pub pid: Option<u32>,
    pub running: bool,
    pub exit_code: Option<i32>,
    pub working_dir: Seq<char>,
    pub command: Seq<char>,
    pub created_at: i64,
    pub output_lines: usize,
}

/// Mathematical value of a [`ServerMessage`].
#[allow(inconsistent_fields)]
pub enum ServerMessageView {
    Welcome { session_id: u128, protocol_version: u32 },
    Output { channel: Seq<char>, data: Seq<u8>, timestamp: i64 },
    Event(ChannelEventView),
    ChannelList { channels: Seq<ChannelInfoView> },
    Status { channels: Seq<ChannelStatusView> },
    Error { message: Seq<char> },
    Ack { for_command: Seq<char> },
}

impl View for ClientMessage {
    type V = ClientMessageView;

    open spec fn view(&self) -> ClientMessageView {
        match *self {
            ClientMessage::Hello { protocol_version } => ClientMessageView::Hello {
                protocol_version,
            },
            ClientMessage::Input { data } => ClientMessageView::Input { data: data@ },
            ClientMessage::InputTo { channel, data } => ClientMessageView::InputTo {
                channel: channel@,
                data: data@,
            },
            ClientMessage::CreateChannel {
                name,
                command,
                working_dir,
            } => ClientMessageView::CreateChannel {
                name: name@,
                command: command.deep_view(),
                working_dir: working_dir.deep_view(),
            },
            ClientMessage::KillChannel { name } => ClientMessageView::KillChannel { name: name@ },
            ClientMessage::SwitchChannel { name } => ClientMessageView::SwitchChannel {
                name: name@,
            },
            ClientMessage::Subscribe { channels } => ClientMessageView::Subscribe {
                channels: channels.deep_view(),
            },
            ClientMessage::Unsubscribe { channels } => ClientMessageView::Unsubscribe {
                channels: channels.deep_view(),
            },
            ClientMessage::ListChannels => ClientMessageView::ListChannels,
            ClientMessage::GetStatus { channel } => ClientMessageView::GetStatus {
                channel: channel.deep_view(),
            },
            ClientMessage::Resize { cols, rows } => ClientMessageView::Resize { cols, rows },
            ClientMessage::Detach => ClientMessageView::Detach,
            ClientMessage::Shutdown => ClientMessageView::Shutdown,
        }
    }
}

impl View for ChannelEvent {
    type V = ChannelEventView;

    open spec fn view(&self) -> ChannelEventView {
        match *self {
            ChannelEvent::Created { name } => ChannelEventView::Created { name: name@ },
            ChannelEvent::Exited { name, exit_code } => ChannelEventView::Exited {
                name: name@,
                exit_code,
            },
            ChannelEvent::Killed { name } => ChannelEventView::Killed { name: name@ },
            ChannelEvent::ActiveChanged { name } => ChannelEventView::ActiveChanged {
                name: name@,
            },
            ChannelEvent::SubscriptionChanged { subscribed } => {
                ChannelEventView::SubscriptionChanged { subscribed: subscribed.deep_view() }
            },
        }
    }
}

impl View for ChannelInfo {
    type V = ChannelInfoView;

    open spec fn view(&self) -> ChannelInfoView {
        ChannelInfoView {
            name: self.name@,
            running: self.running,
            is_active: self.is_active,
            is_subscribed: self.is_subscribed,
        }
    }
}

impl DeepView for ChannelInfo {
    type V = ChannelInfoView;

    open spec fn deep_view(&self) -> ChannelInfoView {
        self@
    }
}

impl View for ChannelStatus {
    type V = ChannelStatusView;

    open spec fn view(&self) -> ChannelStatusView {
        ChannelStatusView {
            name: self.name@,
            pid: self.pid,
            running: self.running,
            exit_code: self.exit_code,
            working_dir: self.working_dir@,
            command: self.command@,
            created_at: self.created_at,
            output_lines: self.output_lines,
        }
    }
}

impl DeepView for ChannelStatus {
    type V = ChannelStatusView;

    open spec fn deep_view(&self) -> ChannelStatusView {
        self@
    }
}

impl View for ServerMessage {
    type V = ServerMessageView;

    open spec fn view(&self) -> ServerMessageView {
        match *self {
            ServerMessage::Welcome { session_id, protocol_version } => ServerMessageView::Welcome {
                session_id,
                protocol_version,
            },
            ServerMessage::Output { channel, data, timestamp } => ServerMessageView::Output {
                channel: channel@,
                data: data@,
                timestamp,
            },
            ServerMessage::Event(event) => ServerMessageView::Event(event@),
            ServerMessage::ChannelList { channels } => ServerMessageView::ChannelList {
                channels: channels.deep_view(),
            },
            ServerMessage::Status { channels } => ServerMessageView::Status {
                channels: channels.deep_view(),
            },
            ServerMessage::Error { message } => ServerMessageView::Error { message: message@ },
            ServerMessage::Ack { for_command } => ServerMessageView::Ack {
                for_command: for_command@,
            },
        }
    }
}

impl DeepView for ServerMessage {
    type V = ServerMessageView;

    open spec fn deep_view(&self) -> ServerMessageView {
        self@
    }
}

impl ChannelInfo {
    /// A copy with the same value.
    pub fn duplicate(&self) -> (copy: ChannelInfo)
        ensures
            copy@ == self@,
    {
        ChannelInfo {
            name: self.name.clone(),
            running: self.running,
            is_active: self.is_active,
            is_subscribed: self.is_subscribed,
        }
    }
}

impl ChannelStatus {
    /// A copy with the same value.
    pub fn duplicate(&self) -> (copy: ChannelStatus)
        ensures
            copy@ == self@,
    {
        ChannelStatus {
            name: self.name.clone(),
            pid: self.pid,
            running: self.running,
            exit_code: self.exit_code,
            working_dir: self.working_dir.clone(),
            command: self.command.clone(),
            created_at: self.created_at,
            output_lines: self.output_lines,
        }
    }
}

impl ChannelEvent {
    /// A copy with the same value.
    pub fn duplicate(&self) -> (copy: ChannelEvent)
        ensures
            copy@ == self@,
    {
        match self {
            ChannelEvent::Created { name } => ChannelEvent::Created { name: name.clone() },
            ChannelEvent::Exited { name, exit_code } => ChannelEvent::Exited {
                name: name.clone(),
                exit_code: *exit_code,
            },
            ChannelEvent::Killed { name } => ChannelEvent::Killed { name: name.clone() },
            ChannelEvent::ActiveChanged { name } => ChannelEvent::ActiveChanged {
                name: name.clone(),
            },
            ChannelEvent::SubscriptionChanged { subscribed } => ChannelEvent::SubscriptionChanged {
                subscribed: subscribed.clone(),
            },
        }
    }
}

impl ServerMessage {
    /// A copy with the same value.
    pub fn duplicate(&self) -> (copy: ServerMessage)
        ensures
            copy@ == self@,
    {
        match self {
            ServerMessage::Welcome { session_id, protocol_version } => ServerMessage::Welcome {
                session_id: *session_id,
                protocol_version: *protocol_version,
            },
            ServerMessage::Output { channel, data, timestamp } => ServerMessage::Output {
                channel: channel.clone(),
                data: data.clone(),
                timestamp: *timestamp,
            },
            ServerMessage::Event(event) => ServerMessage::Event(event.duplicate()),
            ServerMessage::ChannelList { channels } => {
                let mut copy: Vec<ChannelInfo> = Vec::new();
                let mut i: usize = 0;
                while i < channels.len()
                    invariant
                        i <= channels.len(),
                        copy.len() == i,
                        forall|j: int| 0 <= j < i ==> copy@[j]@ == channels@[j]@,
                    decreases channels.len() - i,
                {
                    copy.push(channels[i].duplicate());
                    i += 1;
                }
                assert(copy.deep_view() =~= channels.deep_view());
                ServerMessage::ChannelList { channels: copy }
            },
            ServerMessage::Status { channels } => {
                let mut copy: Vec<ChannelStatus> = Vec::new();
                let mut i: usize = 0;
                while i < channels.len()
                    invariant
                        i <= channels.len(),
                        copy.len() == i,
                        forall|j: int| 0 <= j < i ==> copy@[j]@ == channels@[j]@,
                    decreases channels.len() - i,
                {
                    copy.push(channels[i].duplicate());
                    i += 1;
                }
                assert(copy.deep_view() =~= channels.deep_view());
                ServerMessage::Status { channels: copy }
            },
            ServerMessage::Error { message } => ServerMessage::Error { message: message.clone() },
            ServerMessage::Ack { for_command } => ServerMessage::Ack {
                for_command: for_command.clone(),
            },
        }
    }
}

} // verus!
