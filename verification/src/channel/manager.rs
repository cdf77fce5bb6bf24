//! The channel manager: all channels of a session, the active one, and the
//! session-level subscription.

use super::pty_handler::{
    launch_plan, spawned, LaunchPlan, PtyChannel, PtyChannelView, PtyRequest, PtyRequestView,
    SpawnDefaults, TerminalSize,
};
use super::{ChannelConfig, ChannelError, ChannelState};
use crate::protocol::{ChannelInfo, ChannelInfoView, ChannelStatus, ChannelStatusView};
use crate::text::{
    add_names, contains_name, lemma_filter_first, lemma_filter_none, lemma_filter_step,
    lemma_with_names, lemma_without_names, remove_names, str_eq, with_names, without_names,
};
use vstd::prelude::*;
use vstd::string::*;

verus! {

/// Event emitted by channels.
#[derive(Debug, Clone)]
pub enum ChannelManagerEvent {
    /// Output received from a channel.
    Output { channel_name: String, data: Vec<u8> },
    /// Channel state changed.
    StateChanged { channel_name: String, state: ChannelState },
}

/// Mathematical value of a [`ChannelManagerEvent`].
pub enum ChannelManagerEventView {
    Output { channel_name: Seq<char>, data: Seq<u8> },
    StateChanged { channel_name: Seq<char>, state: ChannelState },
}

impl View for ChannelManagerEvent {
    type V = ChannelManagerEventView;

    open spec fn view(&self) -> ChannelManagerEventView {
        match *self {
            ChannelManagerEvent::Output { channel_name, data } => ChannelManagerEventView::Output {
                channel_name: channel_name@,
                data: data@,
            },
            ChannelManagerEvent::StateChanged {
                channel_name,
                state,
            } => ChannelManagerEventView::StateChanged { channel_name: channel_name@, state },
        }
    }
}

impl DeepView for ChannelManagerEvent {
    type V = ChannelManagerEventView;

    open spec fn deep_view(&self) -> ChannelManagerEventView {
        self@
    }
}

impl ChannelManagerEvent {
    /// A copy with the same value.
    pub fn duplicate(&self) -> (copy: ChannelManagerEvent)
        ensures
            copy@ == self@,
    {
        match self {
            ChannelManagerEvent::Output { channel_name, data } => ChannelManagerEvent::Output {
                channel_name: channel_name.clone(),
                data: data.clone(),
            },
            ChannelManagerEvent::StateChanged {
                channel_name,
                state,
            } => ChannelManagerEvent::StateChanged {
                channel_name: channel_name.clone(),
                state: *state,
            },
        }
    }
}

/// Mathematical value of a [`ChannelManager`]: the channels in the order in
/// which they were created, the active channel's name, and the names the
/// session is subscribed to.
pub struct ManagerView {
    pub channels: Seq<PtyChannelView>,
    pub active: Option<Seq<char>>,
    pub subscribed: Seq<Seq<char>>,
}

/// What a client is told of a channel in a status report.
pub open spec fn status_of(c: PtyChannelView) -> ChannelStatusView {
    ChannelStatusView {
        name: c.name,
        pid: c.pid,
        running: c.state.alive(),
        exit_code: match c.state {
            ChannelState::Exited(code) => code,
            _ => None,
        },
        working_dir: c.working_dir,
        command: c.command,
        created_at: c.created_at,
        output_lines: c.output_lines,
    }
}

impl ManagerView {
    /// Whether a channel of that name is registered.
    pub open spec fn contains(self, name: Seq<char>) -> bool {
        exists|i: int| 0 <= i < self.channels.len() && (#[trigger] self.channels[i]).name == name
    }

    /// Where the channel of that name stands.
    pub open spec fn position(self, name: Seq<char>) -> int {
        choose|i: int| 0 <= i < self.channels.len() && (#[trigger] self.channels[i]).name == name
    }

    /// The channel of that name.
    pub open spec fn channel(self, name: Seq<char>) -> PtyChannelView {
        self.channels[self.position(name)]
    }

    /// Names are unique, the active channel is a registered one, and the
    /// subscription holds names of registered channels, none of them twice.
    pub open spec fn wf(self) -> bool {
        &&& forall|i: int, j: int|
            0 <= i < j < self.channels.len() ==> (#[trigger] self.channels[i]).name != (
            #[trigger] self.channels[j]).name
        &&& (self.active matches Some(n) ==> self.contains(n))
        &&& self.subscribed.no_duplicates()
        &&& forall|n: Seq<char>| #[trigger] self.subscribed.contains(n) ==> self.contains(n)
    }

    /// Whether a channel of that name is registered and has not reached a final state.
    pub open spec fn is_live(self, name: Seq<char>) -> bool {
        self.contains(name) && self.channel(name).state.alive()
    }

    /// The channels that have not reached a final state, in order.
    pub open spec fn live(self) -> Seq<PtyChannelView> {
        self.channels.filter(|c: PtyChannelView| c.state.alive())
    }

    /// The names of the channels that have not reached a final state, in order.
    pub open spec fn live_names(self) -> Seq<Seq<char>> {
        self.live().map_values(|c: PtyChannelView| c.name)
    }

    /// The channels that a listing shows: all but the killed ones, in order.
    pub open spec fn listed(self) -> Seq<PtyChannelView> {
        self.channels.filter(|c: PtyChannelView| !(c.state is Killed))
    }

    /// The names of the listed channels, in order.
    pub open spec fn names(self) -> Seq<Seq<char>> {
        self.listed().map_values(|c: PtyChannelView| c.name)
    }

    /// What a listing says of one channel.
    pub open spec fn info_of(self, c: PtyChannelView) -> ChannelInfoView {
        ChannelInfoView {
            name: c.name,
            running: c.state.alive(),
            is_active: self.active == Some(c.name),
            is_subscribed: self.subscribed.contains(c.name),
        }
    }

    /// The listing.
    pub open spec fn infos(self) -> Seq<ChannelInfoView> {
        self.listed().map_values(|c: PtyChannelView| self.info_of(c))
    }

    /// The status report: of every listed channel, or of the one named.
    pub open spec fn statuses(self, only: Option<Seq<char>>) -> Seq<ChannelStatusView> {
        self.channels.filter(
            |c: PtyChannelView|
                !(c.state is Killed) && (only matches Some(n) ==> c.name == n),
        ).map_values(|c: PtyChannelView| status_of(c))
    }

    /// The channel that takes over when `name` stops being the active one:
    /// the first live channel other than `name`, or none.
    pub open spec fn successor(self, name: Seq<char>) -> Option<Seq<char>> {
        let others = self.channels.filter(
            |c: PtyChannelView| c.name != name && c.state.alive(),
        );
        if others.len() > 0 {
            Some(others[0].name)
        } else {
            None
        }
    }

    /// The manager after a new channel was registered. The first channel
    /// becomes the active one and is subscribed to.
    pub open spec fn created(self, channel: PtyChannelView) -> ManagerView {
        if self.contains(channel.name) {
            self
        } else if self.channels.len() == 0 {
            ManagerView {
                channels: self.channels.push(channel),
                active: Some(channel.name),
                subscribed: self.subscribed.push(channel.name),
            }
        } else {
            ManagerView { channels: self.channels.push(channel), ..self }
        }
    }

    /// Whether a kill of `name` succeeds: the channel is registered and its
    /// process has not exited.
    pub open spec fn can_kill(self, name: Seq<char>) -> bool {
        self.contains(name) && !(self.channel(name).state is Exited)
    }

    /// The manager after a kill of `name`. A kill succeeds on a channel that
    /// is live or was killed before: the channel is `Killed`, it is not in the
    /// subscription, and if it was the active one its successor takes over.
    /// A kill that is refused changes nothing.
    pub open spec fn killed(self, name: Seq<char>) -> ManagerView {
        if self.can_kill(name) {
            ManagerView {
                channels: self.channels.update(
                    self.position(name),
                    self.channel(name).killed(),
                ),
                active: if self.active == Some(name) {
                    self.successor(name)
                } else {
                    self.active
                },
                subscribed: without_names(self.subscribed, seq![name]),
            }
        } else {
            self
        }
    }

    /// The manager after the process of `name` ended.
    pub open spec fn exited(self, name: Seq<char>, wait: Option<u32>) -> ManagerView {
        if self.contains(name) {
            ManagerView {
                channels: self.channels.update(
                    self.position(name),
                    self.channel(name).exited(wait),
                ),
                ..self
            }
        } else {
            self
        }
    }

    /// The manager after a chunk was read from the terminal of `name`.
    pub open spec fn with_output(self, name: Seq<char>, data: Seq<u8>) -> ManagerView {
        if self.contains(name) {
            ManagerView {
                channels: self.channels.update(
                    self.position(name),
                    self.channel(name).with_output(data),
                ),
                ..self
            }
        } else {
            self
        }
    }

    /// The manager after a switch to `name`, which only a registered channel allows.
    pub open spec fn switched(self, name: Seq<char>) -> ManagerView {
        if self.contains(name) {
            ManagerView { active: Some(name), ..self }
        } else {
            self
        }
    }

    /// The manager after the session subscribed to `names`; names of no
    /// registered channel are passed over.
    pub open spec fn subscribed_to(self, names: Seq<Seq<char>>) -> ManagerView {
        ManagerView {
            subscribed: with_names(
                self.subscribed,
                names.filter(|n: Seq<char>| self.contains(n)),
            ),
            ..self
        }
    }

    /// The manager after the session unsubscribed from `names`.
    pub open spec fn unsubscribed_from(self, names: Seq<Seq<char>>) -> ManagerView {
        ManagerView { subscribed: without_names(self.subscribed, names), ..self }
    }

    /// The event that a chunk read from the terminal of `name` is published
    /// as: one for a non-empty chunk of a live channel, and else none.
    pub open spec fn output_event(self, name: Seq<char>, data: Seq<u8>) -> Option<
        ChannelManagerEventView,
    > {
        if self.is_live(name) && data.len() > 0 {
            Some(ChannelManagerEventView::Output { channel_name: name, data })
        } else {
            None
        }
    }

    /// The event that the end of the process of `name` is published as: one
    /// for a live channel, none for a channel that has reached a final state.
    pub open spec fn exit_event(self, name: Seq<char>, wait: Option<u32>) -> Option<
        ChannelManagerEventView,
    > {
        if self.is_live(name) {
            Some(
                ChannelManagerEventView::StateChanged {
                    channel_name: name,
                    state: self.channel(name).exited(wait).state,
                },
            )
        } else {
            None
        }
    }

    /// The event that a kill of `name` is published as: one for a live
    /// channel, none for a channel that has reached a final state.
    pub open spec fn kill_event(self, name: Seq<char>) -> Option<ChannelManagerEventView> {
        if self.is_live(name) {
            Some(
                ChannelManagerEventView::StateChanged {
                    channel_name: name,
                    state: ChannelState::Killed,
                },
            )
        } else {
            None
        }
    }

    /// The resize requests for every live channel, in order.
    pub open spec fn resize_requests(self, cols: u16, rows: u16) -> Seq<PtyRequestView> {
        self.live().map_values(
            |c: PtyChannelView|
                PtyRequestView::Resize {
                    channel: c.name,
                    size: TerminalSize { rows, cols, pixel_width: 0, pixel_height: 0 },
                },
        )
    }
}

/// Manages all channels in a session.
#[derive(Debug)]
pub struct ChannelManager {
    /// All channels, in the order of their creation; names are unique.
    channels: Vec<PtyChannel>,
    /// Currently active channel (receives input by default).
    active_channel: Option<String>,
    /// Channels the session is subscribed to.
    subscribed_channels: Vec<String>,
}

impl View for ChannelManager {
    type V = ManagerView;

    closed spec fn view(&self) -> ManagerView {
        ManagerView {
            channels: self.channels.deep_view(),
            active: self.active_channel.deep_view(),
            subscribed: self.subscribed_channels.deep_view(),
        }
    }
}

impl ChannelManager {
    /// Create a new channel manager, with no channels.
    pub fn new() -> (manager: Self)
        ensures
            manager@.channels.len() == 0,
            manager@.active is None,
            manager@.subscribed.len() == 0,
            manager@.wf(),
    {
        Self { channels: Vec::new(), active_channel: None, subscribed_channels: Vec::new() }
    }

    /// Where the channel of that name stands, if one is registered.
    fn find(&self, name: &str) -> (found: Option<usize>)
        ensures
            found matches Some(i) ==> i < self@.channels.len() && self@.channels[i as int].name
                == name@ && self@.contains(name@) && (self@.wf() ==> i == self@.position(name@)),
            found is None ==> !self@.contains(name@),
    {
        let mut i: usize = 0;
        while i < self.channels.len()
            invariant
                i <= self.channels.len(),
                forall|j: int| 0 <= j < i ==> (#[trigger] self@.channels[j]).name != name@,
            decreases self.channels.len() - i,
        {
            if str_eq(self.channels[i].name(), name) {
                return Some(i);
            }
            i += 1;
        }
        None
    }

    /// Whether a channel of that name is registered.
    pub fn contains(&self, name: &str) -> (known: bool)
        ensures
            known == self@.contains(name@),
    {
        self.find(name).is_some()
    }

    /// Whether a channel of that name is registered and has not reached a final state.
    pub fn is_live(&self, name: &str) -> (live: bool)
        requires
            self@.wf(),
        ensures
            live == self@.is_live(name@),
    {
        match self.find(name) {
            Some(i) => self.channels[i].state().is_alive(),
            None => false,
        }
    }

    /// Works out how to start a new channel. Refused with `AlreadyExists`
    /// where the name is taken.
    pub fn plan_channel(&self, config: &ChannelConfig, defaults: &SpawnDefaults) -> (result: Result<
        LaunchPlan,
        ChannelError,
    >)
        ensures
            self@.contains(config.name@) ==> (result matches Err(
                ChannelError::AlreadyExists { name },
            ) && name@ == config.name@),
            !self@.contains(config.name@) ==> (result matches Ok(plan) && plan@ == launch_plan(
                config@,
                defaults.shell@,
                defaults.working_dir@,
            )),
    {
        if self.contains(config.name.as_str()) {
            return Err(ChannelError::AlreadyExists { name: config.name.clone() });
        }
        Ok(PtyChannel::plan(config, defaults))
    }

    /// Registers a channel whose process was started from `plan`, in state
    /// `Running`, and reports the change. The first channel becomes the active
    /// one and is subscribed to. Refused with `AlreadyExists`, and nothing
    /// changes, where the name is taken.
    pub fn create_channel(&mut self, plan: &LaunchPlan, pid: Option<u32>, created_at: i64) -> (result:
        Result<ChannelManagerEvent, ChannelError>)
        requires
            old(self)@.wf(),
        ensures
            final(self)@.wf(),
            final(self)@ == old(self)@.created(spawned(plan@, pid, created_at)),
            old(self)@.contains(plan.name@) ==> (result matches Err(
                ChannelError::AlreadyExists { name },
            ) && name@ == plan.name@),
            !old(self)@.contains(plan.name@) ==> (result matches Ok(event) && event@ == (
            ChannelManagerEventView::StateChanged {
                channel_name: plan.name@,
                state: ChannelState::Running,
            })),
    {
        if self.contains(plan.name.as_str()) {
            return Err(ChannelError::AlreadyExists { name: plan.name.clone() });
        }
        let channel = PtyChannel::spawn(plan, pid, created_at);
        let is_first = self.channels.len() == 0;
        let ghost before = self@;
        self.channels.push(channel);
        assert(self.channels.deep_view() =~= before.channels.push(channel@));
        if is_first {
            self.active_channel = Some(plan.name.clone());
            self.subscribed_channels.push(plan.name.clone());
            assert(self.subscribed_channels.deep_view() =~= before.subscribed.push(plan.name@));
        }
        proof {
            let after = self@;
            assert(after.channels[before.channels.len() as int].name == plan.name@);
            assert(after.contains(plan.name@));
            if let Some(n) = after.active {
                if before.active == Some(n) {
                    let i = before.position(n);
                    assert(after.channels[i].name == n);
                }
            }
            assert forall|i: int, j: int| 0 <= i < j < after.channels.len() implies (
            #[trigger] after.channels[i]).name != (#[trigger] after.channels[j]).name by {
                if j == before.channels.len() {
                    assert(before.channels[i].name != plan.name@);
                } else {
                    assert(before.channels[i].name != before.channels[j].name);
                }
            }
            assert forall|n: Seq<char>| #[trigger] after.subscribed.contains(n) implies after.contains(
                n,
            ) by {
                if before.subscribed.contains(n) {
                    let i = before.position(n);
                    assert(after.channels[i].name == n);
                }
            }
            if is_first {
                assert(before.subscribed.len() == 0) by {
                    if before.subscribed.len() > 0 {
                        assert(before.subscribed.contains(before.subscribed[0]));
                    }
                }
            }
        }
        Ok(
            ChannelManagerEvent::StateChanged {
                channel_name: plan.name.clone(),
                state: ChannelState::Running,
            },
        )
    }

    /// The name of the first live channel other than `name`.
    fn find_successor(&self, name: &str) -> (next: Option<String>)
        ensures
            next.deep_view() == self@.successor(name@),
    {
        let ghost pred = |c: PtyChannelView| c.name != name@ && c.state.alive();
        let mut i: usize = 0;
        while i < self.channels.len()
            invariant
                i <= self.channels.len(),
                pred == (|c: PtyChannelView| c.name != name@ && c.state.alive()),
                forall|j: int| 0 <= j < i ==> !pred(#[trigger] self@.channels[j]),
            decreases self.channels.len() - i,
        {
            if !str_eq(self.channels[i].name(), name) && self.channels[i].state().is_alive() {
                proof {
                    lemma_filter_first(self@.channels, pred, i as int);
                }
                return Some(self.channels[i].name().to_owned());
            }
            i += 1;
        }
        proof {
            lemma_filter_none(self@.channels, pred);
        }
        None
    }

    /// Kill a channel.
    ///
    /// A kill succeeds on a channel that is live or was killed before. The
    /// channel is then `Killed` and out of the session's subscription, and
    /// where it was the active one, the first other live channel is, or none.
    /// The first kill of a live channel returns the signal to deliver and the
    /// change to report; a kill of a killed channel returns neither. A
    /// channel that is not registered gives `NotFound`, one whose process has
    /// exited gives `NotAlive`, and nothing changes.
    pub fn kill_channel(&mut self, name: &str) -> (result: Result<
        Option<(PtyRequest, ChannelManagerEvent)>,
        ChannelError,
    >)
        requires
            old(self)@.wf(),
        ensures
            final(self)@.wf(),
            final(self)@ == old(self)@.killed(name@),
            !old(self)@.contains(name@) ==> (result matches Err(ChannelError::NotFound { name: n })
                && n@ == name@),
            old(self)@.contains(name@) && old(self)@.channel(name@).state is Exited ==> (
            result matches Err(ChannelError::NotAlive { name: n }) && n@ == name@),
            old(self)@.contains(name@) && old(self)@.channel(name@).state is Killed ==> (
            result matches Ok(None)),
            old(self)@.is_live(name@) ==> (result matches Ok(Some((request, event))) && request@
                == (PtyRequestView::Kill { channel: name@ }) && Some(event@) == old(
                self,
            )@.kill_event(name@)),
            result is Ok == old(self)@.can_kill(name@),
            result is Ok ==> final(self)@.active != Some(name@) && !final(self)@.is_live(name@),
            result is Ok && old(self)@.active == Some(name@) ==> (match final(self)@.active {
                Some(next) => final(self)@.is_live(next),
                None => forall|other: Seq<char>| !#[trigger] final(self)@.is_live(other),
            }),
    {
        proof {
            if self@.can_kill(name@) {
                lemma_kill_moves_active(self@, name@);
                if self@.active == Some(name@) {
                    lemma_kill_active(self@, name@);
                }
                if self@.is_live(name@) {
                    lemma_end_is_recorded_once(self@, name@, None);
                } else {
                    lemma_killed_position(self@, name@);
                }
            }
        }
        let i = match self.find(name) {
            Some(i) => i,
            None => {
                return Err(ChannelError::NotFound { name: name.to_owned() });
            },
        };
        let ghost before = self@;
        let request = match self.channels[i].kill() {
            Ok(request) => request,
            Err(e) => {
                assert(self.channels.deep_view() =~= before.channels);
                return Err(e);
            },
        };
        assert(self.channels.deep_view() =~= before.channels.update(
            i as int,
            before.channels[i as int].killed(),
        ));
        let was_active = match &self.active_channel {
            Some(active) => str_eq(active.as_str(), name),
            None => false,
        };
        if was_active {
            let next = self.find_successor(name);
            proof {
                let pred = |c: PtyChannelView| c.name != name@ && c.state.alive();
                assert(self@.channels.filter(pred) =~= before.channels.filter(pred)) by {
                    lemma_filter_update_rejected(before.channels, pred, i as int, self@.channels[i as int]);
                }
            }
            self.active_channel = next;
        }
        let mut gone: Vec<String> = Vec::new();
        gone.push(name.to_owned());
        assert(gone.deep_view() =~= seq![name@]);
        remove_names(&mut self.subscribed_channels, gone.as_slice());
        proof {
            let after = self@;
            assert forall|k: int| 0 <= k < after.channels.len() implies (
            #[trigger] after.channels[k]).name == before.channels[k].name by {}
            lemma_without_names(before.subscribed, seq![name@]);
            assert forall|n: Seq<char>| #[trigger] after.subscribed.contains(n) implies after.contains(
                n,
            ) by {
                let p = before.position(n);
                assert(after.channels[p].name == n);
            }
            if let Some(n) = after.active {
                if before.active == Some(n) && n != name@ {
                    let p = before.position(n);
                    assert(after.channels[p].name == n);
                } else {
                    let pred = |c: PtyChannelView| c.name != name@ && c.state.alive();
                    before.channels.lemma_filter_contains_rev(pred, before.channels.filter(pred)[0]);
                    let q = choose|q: int| 0 <= q < before.channels.len() && before.channels[q] == before.channels.filter(pred)[0];
                    assert(after.channels[q].name == n);
                }
            }
        }
        match request {
            Some(request) => Ok(
                Some(
                    (
                        request,
                        ChannelManagerEvent::StateChanged {
                            channel_name: name.to_owned(),
                            state: ChannelState::Killed,
                        },
                    ),
                ),
            ),
            None => Ok(None),
        }
    }
}

impl ChannelManager {
    /// Switch the active channel. Refused with `NotFound`, and nothing
    /// changes, where no channel of that name is registered.
    pub fn switch_active(&mut self, name: &str) -> (result: Result<(), ChannelError>)
        requires
            old(self)@.wf(),
        ensures
            final(self)@.wf(),
            final(self)@ == old(self)@.switched(name@),
            old(self)@.contains(name@) ==> result is Ok,
            !old(self)@.contains(name@) ==> (result matches Err(ChannelError::NotFound { name: n })
                && n@ == name@),
    {
        if !self.contains(name) {
            return Err(ChannelError::NotFound { name: name.to_owned() });
        }
        self.active_channel = Some(name.to_owned());
        Ok(())
    }

    /// The active channel's name.
    pub fn active_channel(&self) -> (active: Option<&str>)
        ensures
            active.deep_view() == self@.active,
    {
        match &self.active_channel {
            Some(name) => Some(name.as_str()),
            None => None,
        }
    }

    /// Routes input to the active channel. Refused with `NoActiveChannel`
    /// where there is none, and as `send_input_to` refuses otherwise.
    pub fn send_input(&self, data: &[u8]) -> (result: Result<PtyRequest, ChannelError>)
        requires
            self@.wf(),
        ensures
            self@.active is None ==> result matches Err(ChannelError::NoActiveChannel),
            self@.active matches Some(name) ==> (if self@.is_live(name) {
                result matches Ok(request) && request@ == (PtyRequestView::Write {
                    channel: name,
                    data: data@,
                })
            } else {
                result matches Err(ChannelError::NotAlive { name: n }) && n@ == name
            }),
    {
        match &self.active_channel {
            Some(name) => self.send_input_to(name.as_str(), data),
            None => Err(ChannelError::NoActiveChannel),
        }
    }

    /// Routes input to the named channel. Refused with `NotFound` where no
    /// such channel is registered and with `NotAlive` where its process has
    /// ended.
    pub fn send_input_to(&self, channel_name: &str, data: &[u8]) -> (result: Result<
        PtyRequest,
        ChannelError,
    >)
        requires
            self@.wf(),
        ensures
            !self@.contains(channel_name@) ==> (result matches Err(
                ChannelError::NotFound { name: n },
            ) && n@ == channel_name@),
            self@.contains(channel_name@) && !self@.is_live(channel_name@) ==> (result matches Err(
                ChannelError::NotAlive { name: n },
            ) && n@ == channel_name@),
            self@.is_live(channel_name@) ==> (result matches Ok(request) && request@ == (
            PtyRequestView::Write { channel: channel_name@, data: data@ })),
    {
        match self.find(channel_name) {
            Some(i) => self.channels[i].write(data),
            None => Err(ChannelError::NotFound { name: channel_name.to_owned() }),
        }
    }

    /// Subscribes the session to the named channels; names of no registered
    /// channel are passed over, and a name already subscribed changes nothing.
    pub fn subscribe(&mut self, channel_names: &[String])
        ensures
            final(self)@ == old(self)@.subscribed_to(channel_names.deep_view()),
            old(self)@.wf() ==> final(self)@.wf(),
    {
        let ghost known_pred = |n: Seq<char>| self@.contains(n);
        let mut known: Vec<String> = Vec::new();
        let mut i: usize = 0;
        while i < channel_names.len()
            invariant
                i <= channel_names.len(),
                known_pred == (|n: Seq<char>| self@.contains(n)),
                known.deep_view() == channel_names.deep_view().take(i as int).filter(known_pred),
            decreases channel_names.len() - i,
        {
            let ghost before = known.deep_view();
            proof {
                lemma_filter_step(channel_names.deep_view(), known_pred, i as int);
            }
            if self.contains(channel_names[i].as_str()) {
                known.push(channel_names[i].clone());
                assert(known.deep_view() =~= before.push(channel_names.deep_view()[i as int]));
            }
            i += 1;
        }
        assert(channel_names.deep_view().take(channel_names.len() as int)
            =~= channel_names.deep_view());
        let ghost before = self@;
        let _ = add_names(&mut self.subscribed_channels, known.as_slice());
        proof {
            lemma_with_names(before.subscribed, known.deep_view());
            if before.wf() {
                assert forall|n: Seq<char>| #[trigger]
                    self@.subscribed.contains(n) implies self@.contains(n) by {
                    if known.deep_view().contains(n) {
                        channel_names.deep_view().lemma_filter_contains_rev(known_pred, n);
                    }
                }
            }
        }
    }

    /// Unsubscribes the session from the named channels.
    pub fn unsubscribe(&mut self, channel_names: &[String])
        ensures
            final(self)@ == old(self)@.unsubscribed_from(channel_names.deep_view()),
            old(self)@.wf() ==> final(self)@.wf(),
    {
        proof {
            lemma_without_names(self@.subscribed, channel_names.deep_view());
        }
        remove_names(&mut self.subscribed_channels, channel_names);
    }

    /// Whether the session is subscribed to the channel.
    pub fn is_subscribed(&self, name: &str) -> (subscribed: bool)
        ensures
            subscribed == self@.subscribed.contains(name@),
    {
        contains_name(self.subscribed_channels.as_slice(), name)
    }

    /// The names of all listed channels: every channel but the killed ones,
    /// in the order of their creation.
    pub fn list_channels(&self) -> (names: Vec<String>)
        ensures
            names.deep_view() == self@.names(),
    {
        let ghost pred = |c: PtyChannelView| !(c.state is Killed);
        let ghost name_of = |c: PtyChannelView| c.name;
        let mut names: Vec<String> = Vec::new();
        let mut i: usize = 0;
        while i < self.channels.len()
            invariant
                i <= self.channels.len(),
                pred == (|c: PtyChannelView| !(c.state is Killed)),
                name_of == (|c: PtyChannelView| c.name),
                names.deep_view() == self@.channels.take(i as int).filter(pred).map_values(name_of),
            decreases self.channels.len() - i,
        {
            let ghost before = names.deep_view();
            proof {
                lemma_filter_step(self@.channels, pred, i as int);
            }
            if self.channels[i].state() != ChannelState::Killed {
                names.push(self.channels[i].name().to_owned());
                assert(names.deep_view() =~= before.push(self@.channels[i as int].name));
                assert(self@.channels.take(i + 1).filter(pred).map_values(name_of) =~= before.push(
                    self@.channels[i as int].name,
                ));
            }
            i += 1;
        }
        assert(self@.channels.take(self.channels.len() as int) =~= self@.channels);
        names
    }

    /// The names of the channels that have not reached a final state, in the
    /// order of their creation.
    pub fn live_channels(&self) -> (names: Vec<String>)
        ensures
            names.deep_view() == self@.live_names(),
    {
        let ghost pred = |c: PtyChannelView| c.state.alive();
        let ghost name_of = |c: PtyChannelView| c.name;
        let mut names: Vec<String> = Vec::new();
        let mut i: usize = 0;
        while i < self.channels.len()
            invariant
                i <= self.channels.len(),
                pred == (|c: PtyChannelView| c.state.alive()),
                name_of == (|c: PtyChannelView| c.name),
                names.deep_view() == self@.channels.take(i as int).filter(pred).map_values(name_of),
            decreases self.channels.len() - i,
        {
            let ghost before = names.deep_view();
            proof {
                lemma_filter_step(self@.channels, pred, i as int);
            }
            if self.channels[i].state().is_alive() {
                names.push(self.channels[i].name().to_owned());
                assert(names.deep_view() =~= before.push(self@.channels[i as int].name));
                assert(self@.channels.take(i + 1).filter(pred).map_values(name_of) =~= before.push(
                    self@.channels[i as int].name,
                ));
            }
            i += 1;
        }
        assert(self@.channels.take(self.channels.len() as int) =~= self@.channels);
        names
    }

    /// Detailed info for all listed channels: name, whether the process may
    /// still run, whether the channel is the active one, and whether the
    /// session is subscribed to it.
    pub fn list_channels_info(&self) -> (infos: Vec<ChannelInfo>)
        ensures
            infos.deep_view() == self@.infos(),
    {
        let ghost pred = |c: PtyChannelView| !(c.state is Killed);
        let ghost info_of = |c: PtyChannelView| self@.info_of(c);
        let mut infos: Vec<ChannelInfo> = Vec::new();
        let mut i: usize = 0;
        while i < self.channels.len()
            invariant
                i <= self.channels.len(),
                pred == (|c: PtyChannelView| !(c.state is Killed)),
                info_of == (|c: PtyChannelView| self@.info_of(c)),
                infos.deep_view() == self@.channels.take(i as int).filter(pred).map_values(info_of),
            decreases self.channels.len() - i,
        {
            let ghost before = infos.deep_view();
            proof {
                lemma_filter_step(self@.channels, pred, i as int);
            }
            let channel = &self.channels[i];
            if channel.state() != ChannelState::Killed {
                let is_active = match &self.active_channel {
                    Some(active) => str_eq(active.as_str(), channel.name()),
                    None => false,
                };
                let info = ChannelInfo {
                    name: channel.name().to_owned(),
                    running: channel.state().is_alive(),
                    is_active,
                    is_subscribed: self.is_subscribed(channel.name()),
                };
                assert(info@ == self@.info_of(self@.channels[i as int]));
                infos.push(info);
                assert(infos.deep_view() =~= before.push(self@.info_of(self@.channels[i as int])));
                assert(self@.channels.take(i + 1).filter(pred).map_values(info_of) =~= before.push(
                    self@.info_of(self@.channels[i as int]),
                ));
            }
            i += 1;
        }
        assert(self@.channels.take(self.channels.len() as int) =~= self@.channels);
        infos
    }

    /// The status report: of every listed channel, or of the one named.
    pub fn statuses(&self, only: Option<&str>) -> (statuses: Vec<ChannelStatus>)
        ensures
            statuses.deep_view() == self@.statuses(only.deep_view()),
    {
        let ghost which = only.deep_view();
        let ghost pred = |c: PtyChannelView|
            !(c.state is Killed) && (which matches Some(n) ==> c.name == n);
        let ghost status = |c: PtyChannelView| status_of(c);
        let mut statuses: Vec<ChannelStatus> = Vec::new();
        let mut i: usize = 0;
        while i < self.channels.len()
            invariant
                i <= self.channels.len(),
                which == only.deep_view(),
                pred == (|c: PtyChannelView|
                    !(c.state is Killed) && (which matches Some(n) ==> c.name == n)),
                status == (|c: PtyChannelView| status_of(c)),
                statuses.deep_view() == self@.channels.take(i as int).filter(pred).map_values(
                    status,
                ),
            decreases self.channels.len() - i,
        {
            let ghost before = statuses.deep_view();
            proof {
                lemma_filter_step(self@.channels, pred, i as int);
            }
            let channel = &self.channels[i];
            let wanted = match only {
                Some(n) => str_eq(channel.name(), n),
                None => true,
            };
            if channel.state() != ChannelState::Killed && wanted {
                let entry = ChannelStatus {
                    name: channel.name().to_owned(),
                    pid: channel.pid(),
                    running: channel.state().is_alive(),
                    exit_code: match channel.state() {
                        ChannelState::Exited(code) => code,
                        _ => None,
                    },
                    working_dir: channel.working_dir().to_owned(),
                    command: channel.command().to_owned(),
                    created_at: channel.created_at(),
                    output_lines: channel.output_lines(),
                };
                assert(entry@ == status_of(self@.channels[i as int]));
                statuses.push(entry);
                assert(statuses.deep_view() =~= before.push(status_of(self@.channels[i as int])));
                assert(self@.channels.take(i + 1).filter(pred).map_values(status) =~= before.push(
                    status_of(self@.channels[i as int]),
                ));
            }
            i += 1;
        }
        assert(self@.channels.take(self.channels.len() as int) =~= self@.channels);
        statuses
    }

    /// Fans a resize out to every live channel: one request each, in the
    /// order of their creation.
    pub fn resize_all(&self, cols: u16, rows: u16) -> (requests: Vec<PtyRequest>)
        ensures
            requests.deep_view() == self@.resize_requests(cols, rows),
    {
        let ghost pred = |c: PtyChannelView| c.state.alive();
        let ghost request_of = |c: PtyChannelView|
            PtyRequestView::Resize {
                channel: c.name,
                size: TerminalSize { rows, cols, pixel_width: 0, pixel_height: 0 },
            };
        let mut requests: Vec<PtyRequest> = Vec::new();
        let mut i: usize = 0;
        while i < self.channels.len()
            invariant
                i <= self.channels.len(),
                pred == (|c: PtyChannelView| c.state.alive()),
                request_of == (|c: PtyChannelView|
                    PtyRequestView::Resize {
                        channel: c.name,
                        size: TerminalSize { rows, cols, pixel_width: 0, pixel_height: 0 },
                    }),
                requests.deep_view() == self@.channels.take(i as int).filter(pred).map_values(
                    request_of,
                ),
            decreases self.channels.len() - i,
        {
            let ghost before = requests.deep_view();
            proof {
                lemma_filter_step(self@.channels, pred, i as int);
            }
            if self.channels[i].state().is_alive() {
                let request = self.channels[i].resize(cols, rows);
                requests.push(request);
                assert(requests.deep_view() =~= before.push(request_of(self@.channels[i as int])));
                assert(self@.channels.take(i + 1).filter(pred).map_values(request_of)
                    =~= before.push(request_of(self@.channels[i as int])));
            }
            i += 1;
        }
        assert(self@.channels.take(self.channels.len() as int) =~= self@.channels);
        requests
    }

    /// Records a chunk read from the terminal of a channel, and returns the
    /// `Output` event to publish: one for every non-empty chunk of a live
    /// channel, none once the channel has reached a final state.
    pub fn channel_output(&mut self, name: &str, data: &[u8]) -> (event: Option<
        ChannelManagerEvent,
    >)
        requires
            old(self)@.wf(),
        ensures
            final(self)@.wf(),
            final(self)@ == old(self)@.with_output(name@, data@),
            event.deep_view() == old(self)@.output_event(name@, data@),
    {
        let i = match self.find(name) {
            Some(i) => i,
            None => {
                return None;
            },
        };
        let ghost before = self@;
        let event = self.channels[i].record_output(data);
        assert(self.channels.deep_view() =~= before.channels.update(
            i as int,
            before.channels[i as int].with_output(data@),
        ));
        proof {
            lemma_same_names(before, self@);
        }
        event
    }

    /// Records that the wait on a channel's child ended, and returns the
    /// `StateChanged` event to publish: one for a channel that was still
    /// live, none for a channel already in a final state.
    pub fn channel_exited(&mut self, name: &str, wait: Option<u32>) -> (event: Option<
        ChannelManagerEvent,
    >)
        requires
            old(self)@.wf(),
        ensures
            final(self)@.wf(),
            final(self)@ == old(self)@.exited(name@, wait),
            event.deep_view() == old(self)@.exit_event(name@, wait),
    {
        let i = match self.find(name) {
            Some(i) => i,
            None => {
                return None;
            },
        };
        let ghost before = self@;
        let event = self.channels[i].record_exit(wait);
        assert(self.channels.deep_view() =~= before.channels.update(
            i as int,
            before.channels[i as int].exited(wait),
        ));
        proof {
            lemma_same_names(before, self@);
            assert(self@.channels[i as int].name == name@);
            assert(self@.position(name@) == i);
        }
        event
    }
}

/// Killing the active channel hands the active role to another channel that
/// is live, or to none where no other channel is live. This holds of every
/// kill that succeeds: of a live channel, and of one that was killed before
/// and made the active one again.
pub proof fn lemma_kill_active(manager: ManagerView, name: Seq<char>)
    requires
        manager.wf(),
        manager.active == Some(name),
        manager.can_kill(name),
    ensures
        match manager.killed(name).active {
            Some(next) => next != name && manager.killed(name).is_live(next),
            None => forall|other: Seq<char>| !#[trigger] manager.killed(name).is_live(other),
        },
{
    let after = manager.killed(name);
    let pred = |c: PtyChannelView| c.name != name && c.state.alive();
    let others = manager.channels.filter(pred);
    let p = manager.position(name);
    assert forall|k: int| 0 <= k < manager.channels.len() implies (#[trigger] after.channels[k]).name
        == manager.channels[k].name by {}
    lemma_without_names(manager.subscribed, seq![name]);
    lemma_same_names(manager, ManagerView { active: manager.active, ..after });
    assert forall|n: Seq<char>| after.contains(n) == manager.contains(n) by {
        let same = ManagerView { active: manager.active, ..after };
        assert(same.contains(n) == after.contains(n));
    }
    assert forall|n: Seq<char>| manager.contains(n) implies after.position(n) == manager.position(
        n,
    ) by {
        let same = ManagerView { active: manager.active, ..after };
        assert(same.position(n) == after.position(n));
    }
    if others.len() > 0 {
        let next = others[0];
        manager.channels.lemma_filter_contains_rev(pred, next);
        manager.channels.lemma_filter_pred(pred, 0);
        let q = choose|q: int| 0 <= q < manager.channels.len() && manager.channels[q] == next;
        assert(manager.channels[q].name == next.name);
        assert(manager.contains(next.name));
        if q < manager.position(next.name) {
            assert(manager.channels[q].name != manager.channels[manager.position(next.name)].name);
        }
        if manager.position(next.name) < q {
            assert(manager.channels[manager.position(next.name)].name != manager.channels[q].name);
        }
        assert(manager.position(next.name) == q);
        assert(q != p);
        assert(after.channels[q] == manager.channels[q]);
    } else {
        assert forall|other: Seq<char>| !#[trigger] after.is_live(other) by {
            if other == name {
                assert(after.position(name) == p);
                assert(!after.channels[p].state.alive());
            } else if after.is_live(other) {
                let q = after.position(other);
                assert(manager.position(other) == q);
                assert(q != p) by {
                    assert(manager.channels[p].name == name);
                }
                assert(after.channels[q] == manager.channels[q]);
                assert(pred(manager.channels[q]));
                manager.channels.lemma_filter_contains(pred, q);
            }
        }
    }
}

/// The active channel is never one that a kill has just succeeded on:
/// after the kill it is the first live channel other than the killed one
/// if that was the active one, and none where no other channel is live.
pub proof fn lemma_kill_moves_active(manager: ManagerView, name: Seq<char>)
    requires
        manager.wf(),
        manager.can_kill(name),
    ensures
        manager.killed(name).active != Some(name),
        manager.active == Some(name) ==> manager.killed(name).active == manager.successor(name),
        manager.active != Some(name) ==> manager.killed(name).active == manager.active,
{
    let pred = |c: PtyChannelView| c.name != name && c.state.alive();
    let others = manager.channels.filter(pred);
    if others.len() > 0 {
        manager.channels.lemma_filter_pred(pred, 0);
    }
}

/// A kill leaves every channel where it stands.
proof fn lemma_killed_position(manager: ManagerView, name: Seq<char>)
    requires
        manager.wf(),
    ensures
        forall|n: Seq<char>| manager.killed(name).contains(n) == manager.contains(n),
        forall|n: Seq<char>|
            manager.contains(n) ==> manager.killed(name).position(n) == manager.position(n),
{
    let after = manager.killed(name);
    if manager.can_kill(name) {
        let same = ManagerView { active: manager.active, ..after };
        assert forall|k: int| 0 <= k < manager.channels.len() implies (
        #[trigger] same.channels[k]).name == manager.channels[k].name by {}
        lemma_without_names(manager.subscribed, seq![name]);
        lemma_same_names(manager, same);
        assert forall|n: Seq<char>| after.contains(n) == manager.contains(n) by {
            assert(same.contains(n) == after.contains(n));
        }
        assert forall|n: Seq<char>| manager.contains(n) implies after.position(n)
            == manager.position(n) by {
            assert(same.position(n) == after.position(n));
        }
    }
}

/// Killing twice is as killing once: the second kill changes nothing and publishes nothing.
pub proof fn lemma_kill_twice(manager: ManagerView, name: Seq<char>)
    requires
        manager.wf(),
    ensures
        manager.killed(name).killed(name) == manager.killed(name),
        manager.killed(name).kill_event(name) is None,
{
    let after = manager.killed(name);
    if manager.can_kill(name) {
        let p = manager.position(name);
        lemma_kill_moves_active(manager, name);
        assert forall|k: int| 0 <= k < manager.channels.len() implies (
        #[trigger] after.channels[k]).name == manager.channels[k].name by {}
        lemma_without_names(manager.subscribed, seq![name]);
        lemma_same_names(manager, ManagerView { active: manager.active, ..after });
        let same = ManagerView { active: manager.active, ..after };
        assert(same.contains(name) == after.contains(name));
        assert(same.position(name) == after.position(name));
        assert(after.position(name) == p);
        assert(after.channels[p].state is Killed);
        assert(after.channels.update(p, after.channels[p].killed()) =~= after.channels);
        lemma_without_names(manager.subscribed, seq![name]);
        assert(seq![name].contains(name)) by {
            assert(seq![name][0] == name);
        }
        lemma_without_names(after.subscribed, seq![name]);
    } else if manager.contains(name) {
        assert(manager.channel(name).state is Exited);
    }
}

/// A channel that has reached a final state stays as it is, whatever is
/// recorded of it afterwards, and nothing more is published for it: no
/// output, no exit and no kill.
pub proof fn lemma_final_state_is_final(
    manager: ManagerView,
    name: Seq<char>,
    data: Seq<u8>,
    wait: Option<u32>,
)
    requires
        manager.wf(),
        manager.contains(name),
        !manager.channel(name).state.alive(),
    ensures
        manager.output_event(name, data) is None,
        manager.exit_event(name, wait) is None,
        manager.kill_event(name) is None,
        manager.with_output(name, data) == manager,
        manager.exited(name, wait) == manager,
        manager.killed(name).channels == manager.channels,
{
    let p = manager.position(name);
    assert(manager.channels.update(p, manager.channels[p]) =~= manager.channels);
}

/// A channel's process ends at most once: after the end of a live channel
/// was recorded, by exit or by kill, the channel is in a final state.
pub proof fn lemma_end_is_recorded_once(manager: ManagerView, name: Seq<char>, wait: Option<u32>)
    requires
        manager.wf(),
        manager.is_live(name),
    ensures
        manager.exited(name, wait).wf(),
        manager.exited(name, wait).contains(name),
        !manager.exited(name, wait).is_live(name),
        manager.killed(name).contains(name),
        !manager.killed(name).is_live(name),
{
    let p = manager.position(name);
    let a = manager.exited(name, wait);
    assert forall|k: int| 0 <= k < manager.channels.len() implies (#[trigger] a.channels[k]).name
        == manager.channels[k].name by {}
    lemma_same_names(manager, a);
    assert(a.channels[p].name == name);
    let b = manager.killed(name);
    let same = ManagerView { active: manager.active, ..b };
    assert forall|k: int| 0 <= k < manager.channels.len() implies (
    #[trigger] same.channels[k]).name == manager.channels[k].name by {}
    lemma_without_names(manager.subscribed, seq![name]);
    lemma_same_names(manager, same);
    assert(same.contains(name) == b.contains(name));
    assert(same.position(name) == b.position(name));
}

/// Registering a channel changes nothing for the channels that were
/// registered, and nothing for a name that stays unregistered.
pub proof fn lemma_created_keeps_others(manager: ManagerView, channel: PtyChannelView, name: Seq<char>)
    requires
        manager.wf(),
        name != channel.name,
    ensures
        manager.created(channel).contains(name) == manager.contains(name),
        manager.created(channel).is_live(name) == manager.is_live(name),
{
    let after = manager.created(channel);
    if !manager.contains(channel.name) {
        assert(after.channels =~= manager.channels.push(channel));
        if manager.contains(name) {
            let p = manager.position(name);
            assert(after.channels[p].name == name);
            let q = after.position(name);
            assert(q < manager.channels.len()) by {
                if q == manager.channels.len() {
                    assert(after.channels[q] == channel);
                }
            }
            assert(manager.channels[q].name == name);
            if p < q {
                assert(manager.channels[p].name != manager.channels[q].name);
            }
            if q < p {
                assert(manager.channels[q].name != manager.channels[p].name);
            }
        }
        if after.contains(name) {
            let q = after.position(name);
            assert(q < manager.channels.len()) by {
                if q == manager.channels.len() {
                    assert(after.channels[q] == channel);
                }
            }
            assert(manager.channels[q].name == name);
        }
    }
}

/// A kill changes nothing for the other channels.
pub proof fn lemma_killed_keeps_others(manager: ManagerView, killed: Seq<char>, name: Seq<char>)
    requires
        manager.wf(),
        name != killed,
    ensures
        manager.killed(killed).contains(name) == manager.contains(name),
        manager.killed(killed).is_live(name) == manager.is_live(name),
{
    let after = manager.killed(killed);
    if manager.can_kill(killed) {
        let same = ManagerView { active: manager.active, ..after };
        assert forall|k: int| 0 <= k < manager.channels.len() implies (
        #[trigger] same.channels[k]).name == manager.channels[k].name by {}
        lemma_without_names(manager.subscribed, seq![killed]);
        lemma_same_names(manager, same);
        assert(same.contains(name) == after.contains(name));
        assert(same.position(name) == after.position(name));
        if manager.contains(name) {
            let p = manager.position(name);
            assert(p != manager.position(killed)) by {
                assert(manager.channels[manager.position(killed)].name == killed);
            }
        }
    }
}

/// The end of a channel's process changes nothing for the other channels.
pub proof fn lemma_exited_keeps_others(
    manager: ManagerView,
    ended: Seq<char>,
    wait: Option<u32>,
    name: Seq<char>,
)
    requires
        manager.wf(),
        name != ended,
    ensures
        manager.exited(ended, wait).contains(name) == manager.contains(name),
        manager.exited(ended, wait).is_live(name) == manager.is_live(name),
{
    let after = manager.exited(ended, wait);
    if manager.contains(ended) {
        assert forall|k: int| 0 <= k < manager.channels.len() implies (
        #[trigger] after.channels[k]).name == manager.channels[k].name by {}
        lemma_same_names(manager, after);
        if manager.contains(name) {
            let p = manager.position(name);
            assert(p != manager.position(ended)) by {
                assert(manager.channels[manager.position(ended)].name == ended);
            }
        }
    }
}

/// Output of a channel changes no channel's state.
pub proof fn lemma_output_keeps_states(
    manager: ManagerView,
    channel: Seq<char>,
    data: Seq<u8>,
    name: Seq<char>,
)
    requires
        manager.wf(),
    ensures
        manager.with_output(channel, data).contains(name) == manager.contains(name),
        manager.with_output(channel, data).is_live(name) == manager.is_live(name),
{
    let after = manager.with_output(channel, data);
    if manager.contains(channel) {
        assert forall|k: int| 0 <= k < manager.channels.len() implies (
        #[trigger] after.channels[k]).name == manager.channels[k].name by {}
        lemma_same_names(manager, after);
    }
}

/// A manager whose channels kept their names, whose active channel is the
/// same, and whose subscription holds no name twice and none that it did
/// not hold, is as well-formed as it was, with every channel where it was.
proof fn lemma_same_names(before: ManagerView, after: ManagerView)
    requires
        before.wf(),
        after.channels.len() == before.channels.len(),
        forall|k: int|
            0 <= k < before.channels.len() ==> (#[trigger] after.channels[k]).name
                == before.channels[k].name,
        after.active == before.active,
        after.subscribed.no_duplicates(),
        forall|n: Seq<char>| #[trigger]
            after.subscribed.contains(n) ==> before.subscribed.contains(n),
    ensures
        after.wf(),
        forall|n: Seq<char>| after.contains(n) == before.contains(n),
        forall|n: Seq<char>| before.contains(n) ==> after.position(n) == before.position(n),
{
    assert forall|n: Seq<char>| after.contains(n) == before.contains(n) by {
        if before.contains(n) {
            let i = before.position(n);
            assert(after.channels[i].name == n);
        }
        if after.contains(n) {
            let i = after.position(n);
            assert(before.channels[i].name == n);
        }
    }
    assert forall|i: int, j: int| 0 <= i < j < after.channels.len() implies (
    #[trigger] after.channels[i]).name != (#[trigger] after.channels[j]).name by {
        assert(before.channels[i].name != before.channels[j].name);
    }
    assert forall|n: Seq<char>| before.contains(n) implies after.position(n) == before.position(
        n,
    ) by {
        let i = before.position(n);
        let j = after.position(n);
        assert(after.channels[i].name == n);
        assert(before.channels[j].name == n);
        if i < j {
            assert(before.channels[i].name != before.channels[j].name);
        }
        if j < i {
            assert(before.channels[j].name != before.channels[i].name);
        }
    }
}

/// Replacing an element that a filter rejects by another that it rejects
/// leaves what the filter keeps.
proof fn lemma_filter_update_rejected<A>(s: Seq<A>, pred: spec_fn(A) -> bool, i: int, x: A)
    requires
        0 <= i < s.len(),
        !pred(s[i]),
        !pred(x),
    ensures
        s.update(i, x).filter(pred) == s.filter(pred),
    decreases s.len(),
{
    reveal(Seq::filter);
    let t = s.update(i, x);
    if i == s.len() - 1 {
        assert(t.drop_last() =~= s.drop_last());
    } else {
        assert(t.drop_last() =~= s.drop_last().update(i, x));
        lemma_filter_update_rejected(s.drop_last(), pred, i, x);
    }
}

} // verus!
