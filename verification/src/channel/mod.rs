//! Channels: named pseudo-terminal processes, their configuration and lifecycle.

mod manager;
mod pty_handler;
mod reader;

pub use manager::{
    lemma_created_keeps_others, lemma_end_is_recorded_once, lemma_exited_keeps_others,
    lemma_final_state_is_final, lemma_kill_active, lemma_kill_moves_active, lemma_kill_twice,
    lemma_killed_keeps_others, lemma_output_keeps_states, status_of, ChannelManager, ChannelManagerEvent,
    ChannelManagerEventView, ManagerView,
};
pub use pty_handler::{
    command_line, configured_size, default_terminal_size, launch_env, launch_plan, newline_count,
    spawned, ChannelConfigView, LaunchPlan, LaunchPlanView, PtyChannel, PtyChannelView, PtyRequest,
    PtyRequestView, SpawnDefaults, TerminalSize,
};
pub use reader::{
    bytes_read, chunk_read, chunks_of, concatenated, lemma_after_all,
    lemma_published_chunks_are_bounded, lemma_published_is_what_was_read, read_buffer, reads_of,
    Happening, READ_SIZE,
};
use vstd::prelude::*;
use vstd::string::*;

verus! {

/// Configuration for creating a new channel.
#[derive(Debug, Clone)]
pub struct ChannelConfig {
    /// Channel name (must be unique within the session).
    pub name: String,
    /// Command to run (defaults to the user's shell).
    pub command: Option<String>,
    /// Working directory (defaults to the current directory).
    pub working_dir: Option<String>,
    /// Environment variables to set.
    pub env: Option<Vec<(String, String)>>,
    /// Initial terminal size, as (columns, rows).
    pub size: Option<(u16, u16)>,
}

impl ChannelConfig {
    /// A configuration that names the channel and leaves everything else to the defaults.
    pub fn new(name: &str) -> (config: Self)
        ensures
            config.name@ == name@,
            config.command is None,
            config.working_dir is None,
            config.env is None,
            config.size is None,
    {
        Self { name: name.to_owned(), command: None, working_dir: None, env: None, size: None }
    }

    /// The same configuration with the command set.
    pub fn with_command(self, cmd: &str) -> (config: Self)
        ensures
            config.command matches Some(c) && c@ == cmd@,
            config.name == self.name,
            config.working_dir == self.working_dir,
            config.env == self.env,
            config.size == self.size,
    {
        let mut config = self;
        config.command = Some(cmd.to_owned());
        config
    }

    /// The same configuration with the working directory set.
    pub fn with_working_dir(self, dir: &str) -> (config: Self)
        ensures
            config.working_dir matches Some(d) && d@ == dir@,
            config.name == self.name,
            config.command == self.command,
            config.env == self.env,
            config.size == self.size,
    {
        let mut config = self;
        config.working_dir = Some(dir.to_owned());
        config
    }
}

/// Lifecycle state of a channel: `Starting`, then `Running`, then one of the
/// two final states.
#[derive(Debug, Clone, Copy, PartialEq, Eq, Structural)]
pub enum ChannelState {
    /// Channel is starting up.
    Starting,
    /// Channel is running.
    Running,
    /// Channel process exited, with its exit code where one is known.
    Exited(Option<i32>),
    /// Channel was killed.
    Killed,
}

impl ChannelState {
    /// Whether the state is `Starting` or `Running`.
    pub open spec fn alive(&self) -> bool {
        self is Starting || self is Running
    }

    /// Whether the channel's process may still run.
    #[verifier::when_used_as_spec(alive)]
    pub fn is_alive(&self) -> (alive: bool)
        ensures
            alive == self.alive(),
    {
        match self {
            ChannelState::Starting => true,
            ChannelState::Running => true,
            _ => false,
        }
    }

    /// The state a channel takes when the wait on its child ends: `Exited` with
    /// the exit status reinterpreted as a signed 32-bit code, or `Exited(None)`
    /// when the wait itself failed.
    pub fn exited(wait: Option<u32>) -> (state: ChannelState)
        ensures
            state == (match wait {
                Some(status) => ChannelState::Exited(Some(status as i32)),
                None => ChannelState::Exited(None),
            }),
    {
        match wait {
            Some(status) => ChannelState::Exited(Some(status as i32)),
            None => ChannelState::Exited(None),
        }
    }
}

/// Why a channel operation was refused.
#[derive(Debug, Clone)]
pub enum ChannelError {
    /// A channel of that name is already registered.
    AlreadyExists { name: String },
    /// No channel of that name is registered.
    NotFound { name: String },
    /// Input was sent with no active channel selected.
    NoActiveChannel,
    /// The channel's process has ended.
    NotAlive { name: String },
}

/// What a client is told where a channel's name is taken.
pub open spec fn already_exists_text(name: Seq<char>) -> Seq<char> {
    "Channel '"@ + name + "' already exists"@
}

/// What a client is told where no channel has the name.
pub open spec fn not_found_text(name: Seq<char>) -> Seq<char> {
    "Channel '"@ + name + "' not found"@
}

/// What a client is told where input has no channel to go to.
pub open spec fn no_active_text() -> Seq<char> {
    "No active channel"@
}

/// What a client is told where a channel's process has ended.
pub open spec fn not_alive_text(name: Seq<char>) -> Seq<char> {
    "Channel '"@ + name + "' is not running"@
}

impl ChannelError {
    /// The text of the error, as shown to a client.
    pub open spec fn text(self) -> Seq<char> {
        match self {
            ChannelError::AlreadyExists { name } => already_exists_text(name@),
            ChannelError::NotFound { name } => not_found_text(name@),
            ChannelError::NoActiveChannel => no_active_text(),
            ChannelError::NotAlive { name } => not_alive_text(name@),
        }
    }

    /// The text of the error, as shown to a client.
    pub fn to_string(&self) -> (text: String)
        ensures
            text@ == self.text(),
    {
        match self {
            ChannelError::AlreadyExists { name } => {
                let mut text = "Channel '".to_string();
                text.append(name.as_str());
                text.append("' already exists");
                text
            },
            ChannelError::NotFound { name } => {
                let mut text = "Channel '".to_string();
                text.append(name.as_str());
                text.append("' not found");
                text
            },
            ChannelError::NoActiveChannel => "No active channel".to_string(),
            ChannelError::NotAlive { name } => {
                let mut text = "Channel '".to_string();
                text.append(name.as_str());
                text.append("' is not running");
                text
            },
        }
    }
}

} // verus!
