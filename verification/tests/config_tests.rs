//! Tests for the configuration.

use nexus::config::{
    AppearanceConfig, Config, GeneralConfig, KeybindingsConfig, NotificationsConfig,
    StatusBarPosition,
};

#[test]
fn defaults() {
    let config = Config::default();
    assert_eq!(config.general.default_shell, "/bin/sh");
    assert_eq!(config.general.history_limit, 10000);
    assert!(config.general.runtime_dir.is_none());
    assert_eq!(config.appearance.status_bar_position, StatusBarPosition::Top);
    assert!(!config.appearance.show_timestamps);
    assert!(config.appearance.channel_colors);
    assert!(config.appearance.line_wrap);
    assert!(config.appearance.show_channel_numbers);
    assert_eq!(config.keybindings.next_channel, "ctrl+n");
    assert_eq!(config.keybindings.prev_channel, "ctrl+p");
    assert_eq!(config.keybindings.clear_screen, "ctrl+l");
    assert!(!config.notifications.bell);
    assert!(config.notifications.title_update);
    assert_eq!(config.notifications.cooldown_seconds, 1);
    assert_eq!(StatusBarPosition::default(), StatusBarPosition::Top);
    assert!(AppearanceConfig::default().line_wrap);
    assert_eq!(KeybindingsConfig::default().next_channel, "ctrl+n");
    assert_eq!(NotificationsConfig::default().cooldown_seconds, 1);
}

#[test]
fn general_config_takes_the_users_shell() {
    assert_eq!(GeneralConfig::with_shell(Some("/bin/fish".to_string())).default_shell, "/bin/fish");
    assert_eq!(GeneralConfig::with_shell(None).default_shell, "/bin/sh");
    assert_eq!(GeneralConfig::default().default_shell, "/bin/sh");
}

#[test]
fn runtime_dir_prefers_the_configured_one() {
    let mut config = Config::default();
    assert_eq!(config.runtime_dir_in(Some("/run/user/1000"), "/tmp"), "/run/user/1000/nexus");
    assert_eq!(config.runtime_dir_in(None, "/tmp"), "/tmp/nexus");
    config.general.runtime_dir = Some("/var/run/mine".to_string());
    assert_eq!(config.runtime_dir_in(Some("/run/user/1000"), "/tmp"), "/var/run/mine/nexus");
    // the system's runtime directory does not matter where one is configured
    assert_eq!(config.runtime_dir("/tmp"), "/var/run/mine/nexus");
    assert_eq!(config.socket_path("default", "/tmp"), "/var/run/mine/nexus/default.sock");
}

#[test]
fn socket_path_is_the_session_file_in_the_runtime_dir() {
    assert_eq!(Config::socket_path_in("/tmp/nexus", "work"), "/tmp/nexus/work.sock");
    // a directory that ends in a separator gets no second one
    assert_eq!(Config::socket_path_in("/tmp/nexus/", "work"), "/tmp/nexus/work.sock");
    let config = Config::default();
    let path = config.socket_path("work", "/tmp");
    assert!(path.ends_with("/nexus/work.sock"));
}
