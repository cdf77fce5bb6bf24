//! One pseudo-terminal channel: what is known of its process, and the rules for
//! writing to it, resizing it, killing it and recording what it does.

use super::manager::ChannelManagerEvent;
use super::reader::Happening;
use super::{ChannelConfig, ChannelError, ChannelState};
use vstd::prelude::*;
use vstd::slice::slice_to_vec;
use vstd::string::*;

verus! {

/// Size of a terminal, in character cells and in pixels per cell.
#[derive(Debug, Clone, Copy, PartialEq, Eq, Structural)]
pub struct TerminalSize {
    pub rows: u16,
    pub cols: u16,
    pub pixel_width: u16,
    pub pixel_height: u16,
}

/// `portable_pty::PtySize::default()`: the size a pseudo-terminal gets when none
/// is asked for, which is 24 rows of 80 columns with no pixel dimensions.
#[verifier::external_body]
pub(crate) fn default_pty_size() -> (size: TerminalSize)
    ensures
        size == default_terminal_size(),
{
    let size = portable_pty::PtySize::default();
    TerminalSize {
        rows: size.rows,
        cols: size.cols,
        pixel_width: size.pixel_width,
        pixel_height: size.pixel_height,
    }
}

/// The size used when a configuration names none.
pub open spec fn default_terminal_size() -> TerminalSize {
    TerminalSize { rows: 24, cols: 80, pixel_width: 0, pixel_height: 0 }
}

/// What the environment supplies where a configuration is silent.
#[derive(Debug, Clone)]
pub struct SpawnDefaults {
    /// The user's shell.
    pub shell: String,
    /// The current directory.
    pub working_dir: String,
}

/// Everything needed to start a channel's process.
#[derive(Debug, Clone)]
pub struct LaunchPlan {
    /// Channel name.
    pub name: String,
    /// Command line to run.
    pub command: String,
    /// The words of the command line: the program, then its arguments.
    pub argv: Vec<String>,
    /// Directory to run it in.
    pub working_dir: String,
    /// Variables to set, in order; a later entry for a name replaces an earlier one.
    pub env: Vec<(String, String)>,
    /// Size of the pseudo-terminal.
    pub size: TerminalSize,
}

/// Mathematical value of a [`LaunchPlan`].
pub struct LaunchPlanView {
    pub name: Seq<char>,
    pub command: Seq<char>,
    pub argv: Seq<Seq<char>>,
    pub working_dir: Seq<char>,
    pub env: Seq<(Seq<char>, Seq<char>)>,
    pub size: TerminalSize,
}

impl View for LaunchPlan {
    type V = LaunchPlanView;

    open spec fn view(&self) -> LaunchPlanView {
        LaunchPlanView {
            name: self.name@,
            command: self.command@,
            argv: self.argv.deep_view(),
            working_dir: self.working_dir@,
            env: self.env.deep_view(),
            size: self.size,
        }
    }
}

impl DeepView for LaunchPlan {
    type V = LaunchPlanView;

    open spec fn deep_view(&self) -> LaunchPlanView {
        self@
    }
}

impl LaunchPlan {
    /// A copy with the same value.
    pub fn duplicate(&self) -> (copy: LaunchPlan)
        ensures
            copy@ == self@,
    {
        let mut env: Vec<(String, String)> = Vec::new();
        let mut i: usize = 0;
        while i < self.env.len()
            invariant
                i <= self.env.len(),
                env.len() == i,
                forall|j: int| 0 <= j < i ==> env@[j].deep_view() == self.env@[j].deep_view(),
            decreases self.env.len() - i,
        {
            env.push((self.env[i].0.clone(), self.env[i].1.clone()));
            i += 1;
        }
        assert(env.deep_view() =~= self.env.deep_view());
        LaunchPlan {
            name: self.name.clone(),
            command: self.command.clone(),
            argv: self.argv.clone(),
            working_dir: self.working_dir.clone(),
            env,
            size: self.size,
        }
    }
}

/// Mathematical value of a [`ChannelConfig`].
pub struct ChannelConfigView {
    pub name: Seq<char>,
    pub command: Option<Seq<char>>,
    pub working_dir: Option<Seq<char>>,
    pub env: Option<Seq<(Seq<char>, Seq<char>)>>,
    pub size: Option<(u16, u16)>,
}

impl View for ChannelConfig {
    type V = ChannelConfigView;

    open spec fn view(&self) -> ChannelConfigView {
        ChannelConfigView {
            name: self.name@,
            command: self.command.deep_view(),
            working_dir: self.working_dir.deep_view(),
            env: self.env.deep_view(),
            size: self.size,
        }
    }
}

/// The command line that a configuration asks for: the configured one, or
/// else the shell.
pub open spec fn command_line(config: ChannelConfigView, shell: Seq<char>) -> Seq<char> {
    match config.command {
        Some(c) => c,
        None => shell,
    }
}

/// How the process of a channel is started: the command is the configured
/// one or else the shell, and its words are the program and its arguments;
/// the directory is the configured one or else the current one;
/// `TERM=xterm-256color` is set ahead of the configured variables; and the
/// terminal has the configured size or else the default one.
pub open spec fn launch_plan(
    config: ChannelConfigView,
    shell: Seq<char>,
    current_dir: Seq<char>,
) -> LaunchPlanView {
    LaunchPlanView {
        name: config.name,
        command: command_line(config, shell),
        argv: crate::text::words(command_line(config, shell)),
        working_dir: match config.working_dir {
            Some(d) => d,
            None => current_dir,
        },
        env: launch_env(config.env),
        size: configured_size(config.size),
    }
}

/// Something the owner of the pseudo-terminals must do for a channel.
#[derive(Debug, Clone)]
pub enum PtyRequest {
    /// Write the bytes to the channel's terminal and flush.
    Write { channel: String, data: Vec<u8> },
    /// Set the size of the channel's terminal.
    Resize { channel: String, size: TerminalSize },
    /// Signal the channel's child process through its kill handle.
    Kill { channel: String },
}

/// Mathematical value of a [`PtyRequest`].
pub enum PtyRequestView {
    Write { channel: Seq<char>, data: Seq<u8> },
    Resize { channel: Seq<char>, size: TerminalSize },
    Kill { channel: Seq<char> },
}

impl View for PtyRequest {
    type V = PtyRequestView;

    open spec fn view(&self) -> PtyRequestView {
        match *self {
            PtyRequest::Write { channel, data } => PtyRequestView::Write {
                channel: channel@,
                data: data@,
            },
            PtyRequest::Resize { channel, size } => PtyRequestView::Resize {
                channel: channel@,
                size,
            },
            PtyRequest::Kill { channel } => PtyRequestView::Kill { channel: channel@ },
        }
    }
}

impl DeepView for PtyRequest {
    type V = PtyRequestView;

    open spec fn deep_view(&self) -> PtyRequestView {
        self@
    }
}

impl PtyRequest {
    /// A copy with the same value.
    pub fn duplicate(&self) -> (copy: PtyRequest)
        ensures
            copy@ == self@,
    {
        match self {
            PtyRequest::Write { channel, data } => PtyRequest::Write {
                channel: channel.clone(),
                data: data.clone(),
            },
            PtyRequest::Resize { channel, size } => PtyRequest::Resize {
                channel: channel.clone(),
                size: *size,
            },
            PtyRequest::Kill { channel } => PtyRequest::Kill { channel: channel.clone() },
        }
    }
}

/// The variables a channel's process is started with: `TERM` first, then the
/// configured ones, so that a configured `TERM` takes its place.
pub open spec fn launch_env(configured: Option<Seq<(Seq<char>, Seq<char>)>>) -> Seq<
    (Seq<char>, Seq<char>),
> {
    let term = seq![("TERM"@, "xterm-256color"@)];
    match configured {
        Some(vars) => term + vars,
        None => term,
    }
}

/// The terminal size a configuration asks for.
pub open spec fn configured_size(size: Option<(u16, u16)>) -> TerminalSize {
    match size {
        Some((cols, rows)) => TerminalSize { rows, cols, pixel_width: 0, pixel_height: 0 },
        None => default_terminal_size(),
    }
}

/// Number of line feeds in `data`.
pub open spec fn newline_count(data: Seq<u8>) -> nat
    decreases data.len(),
{
    if data.len() == 0 {
        0
    } else {
        newline_count(data.drop_last()) + if data.last() == 10u8 {
            1nat
        } else {
            0nat
        }
    }
}

/// Mathematical value of a [`PtyChannel`].
pub struct PtyChannelView {
    pub name: Seq<char>,
    pub state: ChannelState,
    pub working_dir: Seq<char>,
    pub command: Seq<char>,
    pub pid: Option<u32>,
    pub created_at: i64,
    pub output_lines: usize,
}

/// What the session knows of one channel. The pseudo-terminal itself is held
/// by whoever performs the [`PtyRequest`]s.
#[derive(Debug)]
pub struct PtyChannel {
    name: String,
    state: ChannelState,
    working_dir: String,
    command: String,
    pid: Option<u32>,
    created_at: i64,
    output_lines: usize,
}

impl View for PtyChannel {
    type V = PtyChannelView;

    closed spec fn view(&self) -> PtyChannelView {
        PtyChannelView {
            name: self.name@,
            state: self.state,
            working_dir: self.working_dir@,
            command: self.command@,
            pid: self.pid,
            created_at: self.created_at,
            output_lines: self.output_lines,
        }
    }
}

impl DeepView for PtyChannel {
    type V = PtyChannelView;

    open spec fn deep_view(&self) -> PtyChannelView {
        self@
    }
}

impl PtyChannelView {
    /// The channel after a kill: a live channel becomes `Killed`, any other stays as it is.
    pub open spec fn killed(self) -> PtyChannelView {
        if self.state.alive() {
            PtyChannelView { state: ChannelState::Killed, ..self }
        } else {
            self
        }
    }

    /// The channel after its process ended: a live channel becomes `Exited`,
    /// any other stays as it is.
    pub open spec fn exited(self, wait: Option<u32>) -> PtyChannelView {
        if self.state.alive() {
            PtyChannelView {
                state: match wait {
                    Some(status) => ChannelState::Exited(Some(status as i32)),
                    None => ChannelState::Exited(None),
                },
                ..self
            }
        } else {
            self
        }
    }

    /// Whether a chunk read from the terminal is published: it is not empty and
    /// the channel has not reached a final state.
    pub open spec fn publishes(self, data: Seq<u8>) -> bool {
        self.state.alive() && data.len() > 0
    }

    /// The channel after a chunk was read from its terminal.
    pub open spec fn with_output(self, data: Seq<u8>) -> PtyChannelView {
        if self.publishes(data) {
            PtyChannelView {
                output_lines: if self.output_lines + newline_count(data) > usize::MAX {
                    usize::MAX
                } else {
                    (self.output_lines + newline_count(data)) as usize
                },
                ..self
            }
        } else {
            self
        }
    }
}

/// The record of a channel whose process was just started from `plan`: it
/// is `Running` and has produced no output.
pub open spec fn spawned(plan: LaunchPlanView, pid: Option<u32>, created_at: i64) -> PtyChannelView {
    PtyChannelView {
        name: plan.name,
        state: ChannelState::Running,
        working_dir: plan.working_dir,
        command: plan.command,
        pid,
        created_at,
        output_lines: 0,
    }
}

/// Number of line feeds in `data`, up to `usize::MAX`.
fn count_newlines(data: &[u8]) -> (count: usize)
    ensures
        count == newline_count(data@),
{
    let mut count: usize = 0;
    let mut i: usize = 0;
    while i < data.len()
        invariant
            i <= data.len(),
            count == newline_count(data@.take(i as int)),
            count <= i,
        decreases data.len() - i,
    {
        assert(data@.take(i + 1).drop_last() =~= data@.take(i as int));
        if data[i] == 10u8 {
            count += 1;
        }
        i += 1;
    }
    assert(data@.take(data.len() as int) =~= data@);
    count
}

impl PtyChannel {
    /// Works out how to start the process of a channel.
    pub fn plan(config: &ChannelConfig, defaults: &SpawnDefaults) -> (plan: LaunchPlan)
        ensures
            plan@ == launch_plan(config@, defaults.shell@, defaults.working_dir@),
    {
        let command = match &config.command {
            Some(c) => c.clone(),
            None => defaults.shell.clone(),
        };
        let working_dir = match &config.working_dir {
            Some(d) => d.clone(),
            None => defaults.working_dir.clone(),
        };
        let mut env: Vec<(String, String)> = Vec::new();
        env.push(("TERM".to_string(), "xterm-256color".to_string()));
        assert(env.deep_view() =~= seq![("TERM"@, "xterm-256color"@)]);
        match &config.env {
            Some(vars) => {
                let mut i: usize = 0;
                while i < vars.len()
                    invariant
                        i <= vars.len(),
                        env.deep_view() == seq![("TERM"@, "xterm-256color"@)]
                            + vars.deep_view().take(i as int),
                    decreases vars.len() - i,
                {
                    let ghost before = env.deep_view();
                    env.push((vars[i].0.clone(), vars[i].1.clone()));
                    assert(env.deep_view() =~= before.push(vars.deep_view()[i as int]));
                    i += 1;
                    assert(vars.deep_view().take(i as int) =~= vars.deep_view().take(i - 1).push(
                        vars.deep_view()[i - 1],
                    ));
                }
                assert(vars.deep_view().take(vars.len() as int) =~= vars.deep_view());
            },
            None => {},
        }
        let size = Self::pty_size_from_config(config);
        let letters = crate::text::chars_of(command.as_str());
        let argv = crate::text::split_words(letters.as_slice(), 0);
        assert(letters@.skip(0) =~= command@);
        LaunchPlan { name: config.name.clone(), command, argv, working_dir, env, size }
    }

    /// The terminal size a configuration asks for: the configured columns and
    /// rows with no pixel dimensions, or the default size.
    pub fn pty_size_from_config(config: &ChannelConfig) -> (size: TerminalSize)
        ensures
            size == configured_size(config.size),
    {
        match config.size {
            Some((cols, rows)) => TerminalSize { rows, cols, pixel_width: 0, pixel_height: 0 },
            None => default_pty_size(),
        }
    }

    /// The record of a channel whose process was just started from `plan`.
    pub fn spawn(plan: &LaunchPlan, pid: Option<u32>, created_at: i64) -> (channel: Self)
        ensures
            channel@ == spawned(plan@, pid, created_at),
    {
        Self {
            name: plan.name.clone(),
            state: ChannelState::Running,
            working_dir: plan.working_dir.clone(),
            command: plan.command.clone(),
            pid,
            created_at,
            output_lines: 0,
        }
    }

    /// Asks for `data` to be written to the terminal. Refused with `NotAlive`
    /// once the channel has reached a final state.
    pub fn write(&self, data: &[u8]) -> (result: Result<PtyRequest, ChannelError>)
        ensures
            self@.state.alive() ==> (result matches Ok(request) && request@ == (
            PtyRequestView::Write { channel: self@.name, data: data@ })),
            !self@.state.alive() ==> (result matches Err(ChannelError::NotAlive { name })
                && name@ == self@.name),
    {
        if !self.state.is_alive() {
            return Err(ChannelError::NotAlive { name: self.name.clone() });
        }
        Ok(PtyRequest::Write { channel: self.name.clone(), data: slice_to_vec(data) })
    }

    /// Asks for the terminal to take a new size. Accepted in every state.
    pub fn resize(&self, cols: u16, rows: u16) -> (request: PtyRequest)
        ensures
            request@ == (PtyRequestView::Resize {
                channel: self@.name,
                size: TerminalSize { rows, cols, pixel_width: 0, pixel_height: 0 },
            }),
    {
        PtyRequest::Resize {
            channel: self.name.clone(),
            size: TerminalSize { rows, cols, pixel_width: 0, pixel_height: 0 },
        }
    }

    /// Kills the channel. The first kill of a live channel makes it `Killed`
    /// and asks for the signal; a kill of a killed channel changes nothing and
    /// asks for nothing; a channel whose process has exited refuses with
    /// `NotAlive`.
    pub fn kill(&mut self) -> (result: Result<Option<PtyRequest>, ChannelError>)
        ensures
            final(self)@ == old(self)@.killed(),
            old(self)@.state.alive() ==> (result matches Ok(Some(request)) && request@ == (
            PtyRequestView::Kill { channel: old(self)@.name })),
            old(self)@.state is Killed ==> result matches Ok(None),
            old(self)@.state is Exited ==> (result matches Err(ChannelError::NotAlive { name })
                && name@ == old(self)@.name),
    {
        match self.state {
            ChannelState::Starting | ChannelState::Running => {
                self.state = ChannelState::Killed;
                Ok(Some(PtyRequest::Kill { channel: self.name.clone() }))
            },
            ChannelState::Killed => Ok(None),
            ChannelState::Exited(_) => Err(ChannelError::NotAlive { name: self.name.clone() }),
        }
    }

    /// Records a chunk read from the terminal. A non-empty chunk of a live
    /// channel is published as an `Output` event and its line feeds are
    /// counted; anything else is dropped.
    pub fn record_output(&mut self, data: &[u8]) -> (event: Option<ChannelManagerEvent>)
        ensures
            final(self)@ == old(self)@.with_output(data@),
            old(self)@.publishes(data@) ==> (event matches Some(
                ChannelManagerEvent::Output { channel_name, data: chunk },
            ) && channel_name@ == old(self)@.name && chunk@ == data@),
            !old(self)@.publishes(data@) ==> event is None,
            final(self)@ == old(self)@.after((Happening::Read { data: data@ })),
            event.deep_view() == old(self)@.output_of((Happening::Read { data: data@ })),
    {
        if !self.state.is_alive() || data.len() == 0 {
            return None;
        }
        let lines = count_newlines(data);
        self.output_lines = if lines > usize::MAX - self.output_lines {
            usize::MAX
        } else {
            self.output_lines + lines
        };
        Some(ChannelManagerEvent::Output { channel_name: self.name.clone(), data: slice_to_vec(data) })
    }

    /// Records that the wait on the child ended, with its exit status or with
    /// `None` where the wait failed. A live channel becomes `Exited` and the
    /// change is published; a channel already in a final state keeps it and
    /// publishes nothing.
    pub fn record_exit(&mut self, wait: Option<u32>) -> (event: Option<ChannelManagerEvent>)
        ensures
            final(self)@ == old(self)@.exited(wait),
            old(self)@.state.alive() ==> (event matches Some(
                ChannelManagerEvent::StateChanged { channel_name, state },
            ) && channel_name@ == old(self)@.name && state == final(self)@.state),
            !old(self)@.state.alive() ==> event is None,
            final(self)@ == old(self)@.after((Happening::Exited { wait })),
    {
        if !self.state.is_alive() {
            return None;
        }
        self.state = ChannelState::exited(wait);
        Some(
            ChannelManagerEvent::StateChanged {
                channel_name: self.name.clone(),
                state: self.state,
            },
        )
    }

    /// Current state.
    pub fn state(&self) -> (state: ChannelState)
        ensures
            state == self@.state,
    {
        self.state
    }

    /// Process id, where the system gave one.
    pub fn pid(&self) -> (pid: Option<u32>)
        ensures
            pid == self@.pid,
    {
        self.pid
    }

    /// Working directory of the process.
    pub fn working_dir(&self) -> (dir: &str)
        ensures
            dir@ == self@.working_dir,
    {
        self.working_dir.as_str()
    }

    /// Command line of the process.
    pub fn command(&self) -> (command: &str)
        ensures
            command@ == self@.command,
    {
        self.command.as_str()
    }

    /// Channel name.
    pub fn name(&self) -> (name: &str)
        ensures
            name@ == self@.name,
    {
        self.name.as_str()
    }

    /// When the channel was created, in milliseconds.
    pub fn created_at(&self) -> (at: i64)
        ensures
            at == self@.created_at,
    {
        self.created_at
    }

    /// Line feeds seen in the channel's output so far, up to `usize::MAX`.
    pub fn output_lines(&self) -> (lines: usize)
        ensures
            lines == self@.output_lines,
    {
        self.output_lines
    }
}

} // verus!
