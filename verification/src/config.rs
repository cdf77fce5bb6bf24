//! Configuration of the client and the daemon.

use vstd::prelude::*;
use vstd::string::*;

verus! {

/// Status bar position.
#[derive(Debug, Clone, Copy, PartialEq, Eq, Structural)]
pub enum StatusBarPosition {
    Top,
    Bottom,
}

impl Default for StatusBarPosition {
    fn default() -> (position: Self)
        ensures
            position == StatusBarPosition::Top,
    {
        StatusBarPosition::Top
    }
}

/// General settings.
#[derive(Debug, Clone)]
pub struct GeneralConfig {
    /// Default shell for new channels.
    pub default_shell: String,
    /// Maximum lines to keep in scrollback.
    pub history_limit: usize,
    /// Socket directory.
    pub runtime_dir: Option<String>,
}

impl GeneralConfig {
    /// The general settings where the user's shell is the given one, or
    /// `/bin/sh` where none is known: 10000 lines of scrollback and no
    /// socket directory of its own.
    pub fn with_shell(shell: Option<String>) -> (config: Self)
        ensures
            config.default_shell@ == (match shell {
                Some(s) => s@,
                None => "/bin/sh"@,
            }),
            config.history_limit == 10000,
            config.runtime_dir is None,
    {
        let default_shell = match shell {
            Some(s) => s,
            None => "/bin/sh".to_string(),
        };
        Self { default_shell, history_limit: 10000, runtime_dir: None }
    }
}

impl Default for GeneralConfig {
    fn default() -> (config: Self)
        ensures
            config.default_shell@ == "/bin/sh"@,
            config.history_limit == 10000,
            config.runtime_dir is None,
    {
        Self::with_shell(None)
    }
}

/// Appearance settings.
#[derive(Debug, Clone)]
pub struct AppearanceConfig {
    /// Status bar position.
    pub status_bar_position: StatusBarPosition,
    /// Show timestamps in output.
    pub show_timestamps: bool,
    /// Color-code channels.
    pub channel_colors: bool,
    /// Line wrapping mode: true = wrap long lines, false = truncate with ellipsis.
    pub line_wrap: bool,
    /// Show channel numbers in the status bar.
    pub show_channel_numbers: bool,
}

impl Default for AppearanceConfig {
    fn default() -> (config: Self)
        ensures
            config.status_bar_position == StatusBarPosition::Top,
            !config.show_timestamps,
            config.channel_colors,
            config.line_wrap,
            config.show_channel_numbers,
    {
        Self {
            status_bar_position: StatusBarPosition::Top,
            show_timestamps: false,
            channel_colors: true,
            line_wrap: true,
            show_channel_numbers: true,
        }
    }
}

/// Keybinding configuration.
#[derive(Debug, Clone)]
pub struct KeybindingsConfig {
    pub next_channel: String,
    pub prev_channel: String,
    pub clear_screen: String,
}

impl Default for KeybindingsConfig {
    fn default() -> (config: Self)
        ensures
            config.next_channel@ == "ctrl+n"@,
            config.prev_channel@ == "ctrl+p"@,
            config.clear_screen@ == "ctrl+l"@,
    {
        Self {
            next_channel: "ctrl+n".to_string(),
            prev_channel: "ctrl+p".to_string(),
            clear_screen: "ctrl+l".to_string(),
        }
    }
}

/// Notification settings for background channel activity.
#[derive(Debug, Clone)]
pub struct NotificationsConfig {
    /// Enable terminal bell on new output in background channels.
    pub bell: bool,
    /// Update terminal title with active channel and new output indicators.
    pub title_update: bool,
    /// Minimum seconds between notifications per channel (cooldown).
    pub cooldown_seconds: u64,
}

impl Default for NotificationsConfig {
    fn default() -> (config: Self)
        ensures
            !config.bell,
            config.title_update,
            config.cooldown_seconds == 1,
    {
        Self { bell: false, title_update: true, cooldown_seconds: 1 }
    }
}

/// Main configuration structure.
#[derive(Debug, Clone)]
pub struct Config {
    pub general: GeneralConfig,
    pub appearance: AppearanceConfig,
    pub keybindings: KeybindingsConfig,
    pub notifications: NotificationsConfig,
}

impl Default for Config {
    fn default() -> (config: Self)
        ensures
            config.general.default_shell@ == "/bin/sh"@,
            config.general.history_limit == 10000,
            config.general.runtime_dir is None,
            config.appearance.status_bar_position == StatusBarPosition::Top,
            !config.appearance.show_timestamps,
            config.appearance.channel_colors,
            config.appearance.line_wrap,
            config.appearance.show_channel_numbers,
            config.keybindings.next_channel@ == "ctrl+n"@,
            config.keybindings.prev_channel@ == "ctrl+p"@,
            config.keybindings.clear_screen@ == "ctrl+l"@,
            !config.notifications.bell,
            config.notifications.title_update,
            config.notifications.cooldown_seconds == 1,
    {
        Self {
            general: GeneralConfig::default(),
            appearance: AppearanceConfig::default(),
            keybindings: KeybindingsConfig::default(),
            notifications: NotificationsConfig::default(),
        }
    }
}

/// `std::path::Path::join`: the path made of `base` with `part` adjoined
/// to it by the rules of the platform.
pub uninterp spec fn path_joined(base: Seq<char>, part: Seq<char>) -> Seq<char>;

/// `std::path::Path::join` on two paths given as text. Both are valid
/// UTF-8, so their join is, and nothing is lost in handing it back as text.
#[verifier::external_body]
fn join_path(base: &str, part: &str) -> (joined: String)
    ensures
        joined@ == path_joined(base@, part@),
{
    std::path::Path::new(base).join(part).to_string_lossy().into_owned()
}

/// `dirs::runtime_dir`: the user's runtime directory, where the platform has
/// one and it can be told. It depends on the platform and the environment,
/// so nothing is promised of it.
#[verifier::external_body]
fn system_runtime_dir() -> (dir: Option<String>)
{
    match dirs::runtime_dir() {
        Some(path) => Some(path.to_string_lossy().into_owned()),
        None => None,
    }
}

/// The directory under which the sockets live: the configured one, or else
/// the one of the system, or else the temporary one.
pub open spec fn base_dir(
    configured: Option<Seq<char>>,
    system: Option<Seq<char>>,
    temp_dir: Seq<char>,
) -> Seq<char> {
    match configured {
        Some(dir) => dir,
        None => match system {
            Some(dir) => dir,
            None => temp_dir,
        },
    }
}

/// The name of the socket file of a session.
pub open spec fn socket_file(session_name: Seq<char>) -> Seq<char> {
    session_name + ".sock"@
}

impl Config {
    /// The runtime directory for sockets, given the runtime directory of
    /// the system, if it has one, and the temporary directory: `nexus` under
    /// the configured directory, or else under the system's, or else under
    /// the temporary one.
    pub fn runtime_dir_in(&self, system: Option<&str>, temp_dir: &str) -> (dir: String)
        ensures
            dir@ == path_joined(
                base_dir(self.general.runtime_dir.deep_view(), system.deep_view(), temp_dir@),
                "nexus"@,
            ),
    {
        match &self.general.runtime_dir {
            Some(dir) => join_path(dir.as_str(), "nexus"),
            None => match system {
                Some(dir) => join_path(dir, "nexus"),
                None => join_path(temp_dir, "nexus"),
            },
        }
    }

    /// Get the runtime directory for sockets, given the temporary
    /// directory. Whatever runtime directory the system reports, the result
    /// is what `runtime_dir_in` gives for it.
    pub fn runtime_dir(&self, temp_dir: &str) -> (dir: String)
        ensures
            exists|system: Option<Seq<char>>|
                dir@ == path_joined(
                    #[trigger] base_dir(self.general.runtime_dir.deep_view(), system, temp_dir@),
                    "nexus"@,
                ),
    {
        let system = system_runtime_dir();
        let known = match &system {
            Some(dir) => Some(dir.as_str()),
            None => None,
        };
        let dir = self.runtime_dir_in(known, temp_dir);
        assert(dir@ == path_joined(
            base_dir(self.general.runtime_dir.deep_view(), known.deep_view(), temp_dir@),
            "nexus"@,
        ));
        dir
    }

    /// The socket path of a session under a runtime directory: the file
    /// `<session>.sock` in it.
    pub fn socket_path_in(runtime_dir: &str, session_name: &str) -> (path: String)
        ensures
            path@ == path_joined(runtime_dir@, socket_file(session_name@)),
    {
        let mut file = session_name.to_owned();
        file.append(".sock");
        join_path(runtime_dir, file.as_str())
    }

    /// Get the socket path for a session, given the temporary directory.
    /// Whatever runtime directory the system reports, the result is the
    /// file `<session>.sock` in the runtime directory for sockets.
    pub fn socket_path(&self, session_name: &str, temp_dir: &str) -> (path: String)
        ensures
            exists|system: Option<Seq<char>>|
                path@ == path_joined(
                    path_joined(
                        #[trigger] base_dir(
                            self.general.runtime_dir.deep_view(),
                            system,
                            temp_dir@,
                        ),
                        "nexus"@,
                    ),
                    socket_file(session_name@),
                ),
    {
        let system = system_runtime_dir();
        let known = match &system {
            Some(dir) => Some(dir.as_str()),
            None => None,
        };
        let dir = self.runtime_dir_in(known, temp_dir);
        let path = Self::socket_path_in(dir.as_str(), session_name);
        assert(path@ == path_joined(
            path_joined(
                base_dir(self.general.runtime_dir.deep_view(), known.deep_view(), temp_dir@),
                "nexus"@,
            ),
            socket_file(session_name@),
        ));
        path
    }
}

} // verus!
