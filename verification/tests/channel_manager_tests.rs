//! Tests for the channel manager and the channel records.

use nexus::channel::{
    ChannelConfig, ChannelError, ChannelManager, ChannelManagerEvent, ChannelState, LaunchPlan,
    PtyChannel, PtyRequest, SpawnDefaults, TerminalSize,
};

fn defaults() -> SpawnDefaults {
    SpawnDefaults { shell: "/bin/zsh".to_string(), working_dir: "/home/me".to_string() }
}

fn plan(manager: &ChannelManager, name: &str) -> LaunchPlan {
    manager.plan_channel(&ChannelConfig::new(name), &defaults()).expect("name is free")
}

fn create(manager: &mut ChannelManager, name: &str) -> ChannelManagerEvent {
    let plan = plan(manager, name);
    manager.create_channel(&plan, Some(100), 5).expect("created")
}

#[test]
fn config_builders_set_their_fields() {
    let config = ChannelConfig::new("web").with_command("python3 -m http.server").with_working_dir("/srv");
    assert_eq!(config.name, "web");
    assert_eq!(config.command.as_deref(), Some("python3 -m http.server"));
    assert_eq!(config.working_dir.as_deref(), Some("/srv"));
    assert!(config.env.is_none());
    assert!(config.size.is_none());
}

#[test]
fn state_is_alive_only_before_the_end() {
    assert!(ChannelState::Starting.is_alive());
    assert!(ChannelState::Running.is_alive());
    assert!(!ChannelState::Exited(Some(0)).is_alive());
    assert!(!ChannelState::Exited(None).is_alive());
    assert!(!ChannelState::Killed.is_alive());
}

#[test]
fn exit_status_becomes_a_signed_code() {
    assert_eq!(ChannelState::exited(Some(0)), ChannelState::Exited(Some(0)));
    assert_eq!(ChannelState::exited(Some(3)), ChannelState::Exited(Some(3)));
    assert_eq!(ChannelState::exited(Some(u32::MAX)), ChannelState::Exited(Some(-1)));
    assert_eq!(ChannelState::exited(None), ChannelState::Exited(None));
}

#[test]
fn plan_takes_defaults_where_the_configuration_is_silent() {
    let plan = PtyChannel::plan(&ChannelConfig::new("shell"), &defaults());
    assert_eq!(plan.name, "shell");
    assert_eq!(plan.command, "/bin/zsh");
    assert_eq!(plan.argv, vec!["/bin/zsh"]);
    assert_eq!(plan.working_dir, "/home/me");
    assert_eq!(plan.env, vec![("TERM".to_string(), "xterm-256color".to_string())]);
    assert_eq!(
        plan.size,
        TerminalSize { rows: 24, cols: 80, pixel_width: 0, pixel_height: 0 }
    );
}

#[test]
fn plan_takes_what_the_configuration_says() {
    let mut config =
        ChannelConfig::new("build").with_command(" make  -j4\tall ").with_working_dir("/src");
    config.env = Some(vec![
        ("CC".to_string(), "clang".to_string()),
        ("TERM".to_string(), "dumb".to_string()),
    ]);
    config.size = Some((120, 40));
    let plan = PtyChannel::plan(&config, &defaults());
    assert_eq!(plan.command, " make  -j4\tall ");
    assert_eq!(plan.argv, vec!["make", "-j4", "all"]);
    assert_eq!(plan.working_dir, "/src");
    // TERM is set first, so that the configured TERM replaces it
    assert_eq!(
        plan.env,
        vec![
            ("TERM".to_string(), "xterm-256color".to_string()),
            ("CC".to_string(), "clang".to_string()),
            ("TERM".to_string(), "dumb".to_string()),
        ]
    );
    assert_eq!(
        plan.size,
        TerminalSize { rows: 40, cols: 120, pixel_width: 0, pixel_height: 0 }
    );
    assert_eq!(PtyChannel::pty_size_from_config(&config), plan.size);
}

#[test]
fn channel_writes_only_while_alive() {
    let plan = PtyChannel::plan(&ChannelConfig::new("c"), &defaults());
    let mut channel = PtyChannel::spawn(&plan, Some(7), 99);
    assert_eq!(channel.state(), ChannelState::Running);
    assert_eq!(channel.pid(), Some(7));
    assert_eq!(channel.name(), "c");
    assert_eq!(channel.command(), "/bin/zsh");
    assert_eq!(channel.working_dir(), "/home/me");
    assert_eq!(channel.created_at(), 99);
    match channel.write(b"ls\n") {
        Ok(PtyRequest::Write { channel, data }) => {
            assert_eq!(channel, "c");
            assert_eq!(data, b"ls\n");
        }
        other => panic!("unexpected: {:?}", other),
    }
    assert!(channel.record_exit(Some(0)).is_some());
    match channel.write(b"ls\n") {
        Err(ChannelError::NotAlive { name }) => assert_eq!(name, "c"),
        other => panic!("unexpected: {:?}", other),
    }
    // resize is accepted in every state
    match channel.resize(100, 30) {
        PtyRequest::Resize { channel, size } => {
            assert_eq!(channel, "c");
            assert_eq!(size, TerminalSize { rows: 30, cols: 100, pixel_width: 0, pixel_height: 0 });
        }
        other => panic!("unexpected: {:?}", other),
    }
}

#[test]
fn channel_kill_is_idempotent() {
    let plan = PtyChannel::plan(&ChannelConfig::new("c"), &defaults());
    let mut channel = PtyChannel::spawn(&plan, None, 0);
    assert!(matches!(channel.kill(), Ok(Some(PtyRequest::Kill { channel })) if channel == "c"));
    assert_eq!(channel.state(), ChannelState::Killed);
    assert!(matches!(channel.kill(), Ok(None)));
    assert!(matches!(channel.kill(), Ok(None)));
    assert_eq!(channel.state(), ChannelState::Killed);
    // the exit of the killed process is not a second end
    assert!(channel.record_exit(Some(137)).is_none());
    assert_eq!(channel.state(), ChannelState::Killed);
}

#[test]
fn channel_kill_after_exit_is_refused() {
    let plan = PtyChannel::plan(&ChannelConfig::new("c"), &defaults());
    let mut channel = PtyChannel::spawn(&plan, None, 0);
    assert!(channel.record_exit(None).is_some());
    assert_eq!(channel.state(), ChannelState::Exited(None));
    assert!(matches!(channel.kill(), Err(ChannelError::NotAlive { name }) if name == "c"));
    assert_eq!(channel.state(), ChannelState::Exited(None));
}

#[test]
fn channel_output_is_published_until_the_end() {
    let plan = PtyChannel::plan(&ChannelConfig::new("c"), &defaults());
    let mut channel = PtyChannel::spawn(&plan, None, 0);
    match channel.record_output(b"a\nb\n") {
        Some(ChannelManagerEvent::Output { channel_name, data }) => {
            assert_eq!(channel_name, "c");
            assert_eq!(data, b"a\nb\n");
        }
        other => panic!("unexpected: {:?}", other),
    }
    assert_eq!(channel.output_lines(), 2);
    // an empty read is the end of the file, not output
    assert!(channel.record_output(b"").is_none());
    assert!(channel.record_output(b"no newline").is_some());
    assert_eq!(channel.output_lines(), 2);
    match channel.record_exit(Some(2)) {
        Some(ChannelManagerEvent::StateChanged { channel_name, state }) => {
            assert_eq!(channel_name, "c");
            assert_eq!(state, ChannelState::Exited(Some(2)));
        }
        other => panic!("unexpected: {:?}", other),
    }
    assert!(channel.record_output(b"late\n").is_none());
    assert_eq!(channel.output_lines(), 2);
    assert!(channel.record_exit(Some(0)).is_none());
    assert_eq!(channel.state(), ChannelState::Exited(Some(2)));
}

#[test]
fn manager_creates_channels() {
    let mut manager = ChannelManager::new();
    assert!(manager.list_channels().is_empty());
    let event = create(&mut manager, "test1");
    assert!(matches!(
        event,
        ChannelManagerEvent::StateChanged { channel_name, state: ChannelState::Running }
        if channel_name == "test1"
    ));
    assert_eq!(manager.list_channels(), vec!["test1"]);
    create(&mut manager, "build");
    create(&mut manager, "server");
    assert_eq!(manager.list_channels(), vec!["test1", "build", "server"]);
    assert!(manager.contains("build"));
    assert!(!manager.contains("nope"));
}

#[test]
fn manager_refuses_duplicate_names() {
    let mut manager = ChannelManager::new();
    create(&mut manager, "duplicate");
    let err = manager
        .plan_channel(&ChannelConfig::new("duplicate"), &defaults())
        .unwrap_err();
    assert!(err.to_string().contains("already exists"));
    assert_eq!(err.to_string(), "Channel 'duplicate' already exists");
    // registering it anyway is refused too, and nothing changes
    let plan = PtyChannel::plan(&ChannelConfig::new("duplicate"), &defaults());
    let err = manager.create_channel(&plan, Some(1), 0).unwrap_err();
    assert!(matches!(err, ChannelError::AlreadyExists { name } if name == "duplicate"));
    assert_eq!(manager.list_channels(), vec!["duplicate"]);
}

#[test]
fn first_channel_is_active_and_subscribed() {
    let mut manager = ChannelManager::new();
    assert_eq!(manager.active_channel(), None);
    create(&mut manager, "first");
    assert_eq!(manager.active_channel(), Some("first"));
    assert!(manager.is_subscribed("first"));
    create(&mut manager, "second");
    assert_eq!(manager.active_channel(), Some("first"));
    assert!(!manager.is_subscribed("second"));
}

#[test]
fn manager_switches_the_active_channel() {
    let mut manager = ChannelManager::new();
    create(&mut manager, "chan1");
    create(&mut manager, "chan2");
    assert_eq!(manager.active_channel(), Some("chan1"));
    manager.switch_active("chan2").unwrap();
    assert_eq!(manager.active_channel(), Some("chan2"));
    let err = manager.switch_active("nonexistent").unwrap_err();
    assert!(err.to_string().contains("not found"));
    assert_eq!(manager.active_channel(), Some("chan2"));
}

#[test]
fn manager_routes_input() {
    let mut manager = ChannelManager::new();
    assert!(matches!(manager.send_input(b"x"), Err(ChannelError::NoActiveChannel)));
    assert_eq!(ChannelError::NoActiveChannel.to_string(), "No active channel");
    create(&mut manager, "chan1");
    create(&mut manager, "chan2");
    match manager.send_input(b"echo test\n") {
        Ok(PtyRequest::Write { channel, data }) => {
            assert_eq!(channel, "chan1");
            assert_eq!(data, b"echo test\n");
        }
        other => panic!("unexpected: {:?}", other),
    }
    match manager.send_input_to("chan2", b"npm run build\n") {
        Ok(PtyRequest::Write { channel, data }) => {
            assert_eq!(channel, "chan2");
            assert_eq!(data, b"npm run build\n");
        }
        other => panic!("unexpected: {:?}", other),
    }
    let err = manager.send_input_to("nonexistent", b"test\n").unwrap_err();
    assert!(err.to_string().contains("not found"));
    manager.channel_exited("chan2", Some(0));
    let err = manager.send_input_to("chan2", b"test\n").unwrap_err();
    assert_eq!(err.to_string(), "Channel 'chan2' is not running");
}

#[test]
fn manager_kills_a_channel() {
    let mut manager = ChannelManager::new();
    create(&mut manager, "tokill");
    match manager.kill_channel("tokill") {
        Ok(Some((PtyRequest::Kill { channel }, ChannelManagerEvent::StateChanged { channel_name, state }))) => {
            assert_eq!(channel, "tokill");
            assert_eq!(channel_name, "tokill");
            assert_eq!(state, ChannelState::Killed);
        }
        other => panic!("unexpected: {:?}", other),
    }
    // killed channels are not listed, and no longer subscribed or active
    assert!(manager.list_channels().is_empty());
    assert!(manager.list_channels_info().is_empty());
    assert!(!manager.is_subscribed("tokill"));
    assert_eq!(manager.active_channel(), None);
    // a second kill succeeds and does nothing
    assert!(matches!(manager.kill_channel("tokill"), Ok(None)));
    let err = manager.kill_channel("unknown").unwrap_err();
    assert_eq!(err.to_string(), "Channel 'unknown' not found");
}

#[test]
fn killing_the_active_channel_hands_over_to_a_live_one() {
    let mut manager = ChannelManager::new();
    create(&mut manager, "first");
    create(&mut manager, "second");
    create(&mut manager, "third");
    assert_eq!(manager.active_channel(), Some("first"));
    // the second has exited: it cannot take over
    manager.channel_exited("second", Some(1));
    manager.kill_channel("first").unwrap();
    assert_eq!(manager.active_channel(), Some("third"));
    manager.kill_channel("third").unwrap();
    assert_eq!(manager.active_channel(), None);
}

#[test]
fn killing_another_channel_keeps_the_active_one() {
    let mut manager = ChannelManager::new();
    create(&mut manager, "first");
    create(&mut manager, "second");
    manager.kill_channel("second").unwrap();
    assert_eq!(manager.active_channel(), Some("first"));
}

#[test]
fn manager_kill_after_exit_is_refused() {
    let mut manager = ChannelManager::new();
    create(&mut manager, "done");
    assert!(manager.channel_exited("done", Some(0)).is_some());
    let err = manager.kill_channel("done").unwrap_err();
    assert!(matches!(err, ChannelError::NotAlive { .. }));
    // it is still listed, as stopped
    let infos = manager.list_channels_info();
    assert_eq!(infos.len(), 1);
    assert!(!infos[0].running);
}

#[test]
fn manager_subscriptions() {
    let mut manager = ChannelManager::new();
    create(&mut manager, "chan1");
    create(&mut manager, "chan2");
    assert!(manager.is_subscribed("chan1"), "First channel auto-subscribed");
    assert!(!manager.is_subscribed("chan2"));
    manager.subscribe(&["chan2".to_string(), "unknown".to_string(), "chan2".to_string()]);
    assert!(manager.is_subscribed("chan2"));
    assert!(!manager.is_subscribed("unknown"));
    manager.unsubscribe(&["chan1".to_string()]);
    assert!(!manager.is_subscribed("chan1"));
    assert!(manager.is_subscribed("chan2"));
}

#[test]
fn manager_lists_channel_info() {
    let mut manager = ChannelManager::new();
    create(&mut manager, "a");
    create(&mut manager, "b");
    manager.channel_exited("b", Some(0));
    let infos = manager.list_channels_info();
    assert_eq!(infos.len(), 2);
    assert_eq!(infos[0].name, "a");
    assert!(infos[0].running && infos[0].is_active && infos[0].is_subscribed);
    assert_eq!(infos[1].name, "b");
    assert!(!infos[1].running && !infos[1].is_active && !infos[1].is_subscribed);
    assert_eq!(manager.live_channels(), vec!["a"]);
    assert!(manager.is_live("a"));
    assert!(!manager.is_live("b"));
    assert!(!manager.is_live("c"));
}

#[test]
fn manager_reports_status() {
    let mut manager = ChannelManager::new();
    let plan = manager
        .plan_channel(&ChannelConfig::new("web").with_command("serve").with_working_dir("/srv"), &defaults())
        .unwrap();
    manager.create_channel(&plan, Some(4242), 1700).unwrap();
    create(&mut manager, "other");
    manager.channel_output("web", b"one\ntwo\n");
    manager.channel_exited("web", Some(3));
    let all = manager.statuses(None);
    assert_eq!(all.len(), 2);
    let web = &all[0];
    assert_eq!(web.name, "web");
    assert_eq!(web.pid, Some(4242));
    assert!(!web.running);
    assert_eq!(web.exit_code, Some(3));
    assert_eq!(web.working_dir, "/srv");
    assert_eq!(web.command, "serve");
    assert_eq!(web.created_at, 1700);
    assert_eq!(web.output_lines, 2);
    assert!(all[1].running);
    assert_eq!(all[1].exit_code, None);
    let one = manager.statuses(Some("other"));
    assert_eq!(one.len(), 1);
    assert_eq!(one[0].name, "other");
    assert!(manager.statuses(Some("unknown")).is_empty());
}

#[test]
fn manager_resizes_live_channels() {
    let mut manager = ChannelManager::new();
    create(&mut manager, "r1");
    create(&mut manager, "r2");
    create(&mut manager, "r3");
    manager.kill_channel("r2").unwrap();
    let requests = manager.resize_all(120, 40);
    assert_eq!(requests.len(), 2);
    let size = TerminalSize { rows: 40, cols: 120, pixel_width: 0, pixel_height: 0 };
    assert!(matches!(&requests[0], PtyRequest::Resize { channel, size: s } if channel == "r1" && *s == size));
    assert!(matches!(&requests[1], PtyRequest::Resize { channel, size: s } if channel == "r3" && *s == size));
}

#[test]
fn manager_publishes_output_and_one_end() {
    let mut manager = ChannelManager::new();
    create(&mut manager, "exiter");
    assert!(manager.channel_output("unknown", b"x").is_none());
    assert!(matches!(
        manager.channel_output("exiter", b"bye\n"),
        Some(ChannelManagerEvent::Output { channel_name, data }) if channel_name == "exiter" && data == b"bye\n"
    ));
    assert!(matches!(
        manager.channel_exited("exiter", Some(0)),
        Some(ChannelManagerEvent::StateChanged { channel_name, state: ChannelState::Exited(Some(0)) })
        if channel_name == "exiter"
    ));
    // nothing is published for the channel after its end
    assert!(manager.channel_output("exiter", b"late").is_none());
    assert!(manager.channel_exited("exiter", Some(1)).is_none());
    assert!(manager.channel_exited("unknown", Some(1)).is_none());
}

#[test]
fn killing_a_killed_channel_that_is_active_again_hands_over() {
    let mut manager = ChannelManager::new();
    create(&mut manager, "a");
    create(&mut manager, "b");
    assert!(matches!(manager.kill_channel("a"), Ok(Some(_))));
    assert_eq!(manager.active_channel(), Some("b"));
    manager.switch_active("a").unwrap();
    manager.subscribe(&["a".to_string()]);
    assert_eq!(manager.active_channel(), Some("a"));
    // the kill succeeds without a signal or an event, and the active
    // channel is a live one again
    assert!(matches!(manager.kill_channel("a"), Ok(None)));
    assert_eq!(manager.active_channel(), Some("b"));
    assert!(!manager.is_subscribed("a"));
    // with no live channel left, none is active
    manager.kill_channel("b").unwrap();
    assert_eq!(manager.active_channel(), None);
    manager.switch_active("b").unwrap();
    assert!(matches!(manager.kill_channel("b"), Ok(None)));
    assert_eq!(manager.active_channel(), None);
}

#[test]
fn a_refused_kill_leaves_the_active_channel() {
    let mut manager = ChannelManager::new();
    create(&mut manager, "a");
    create(&mut manager, "b");
    manager.channel_exited("a", Some(0));
    assert!(manager.kill_channel("a").is_err());
    assert_eq!(manager.active_channel(), Some("a"));
    assert!(manager.kill_channel("zzz").is_err());
    assert_eq!(manager.active_channel(), Some("a"));
}

#[test]
fn reads_take_at_most_the_read_size() {
    assert_eq!(nexus::channel::READ_SIZE, 4096);
    let buffer = nexus::channel::read_buffer();
    assert_eq!(buffer.len(), 4096);
    assert!(buffer.iter().all(|b| *b == 0));
}

#[test]
fn a_read_gives_the_bytes_it_put_into_the_buffer() {
    let buffer = b"hello world".to_vec();
    assert_eq!(nexus::channel::chunk_read(&buffer, 0), None);
    assert_eq!(nexus::channel::chunk_read(&buffer, 5), Some(b"hello".to_vec()));
    assert_eq!(nexus::channel::chunk_read(&buffer, 11), Some(b"hello world".to_vec()));
    assert_eq!(nexus::channel::chunk_read(&buffer, 500), Some(b"hello world".to_vec()));
    assert_eq!(nexus::channel::chunk_read(&[], 3), None);
    let full = vec![7u8; 4096];
    assert_eq!(nexus::channel::chunk_read(&full, 4096), Some(full.clone()));
}

#[test]
fn published_output_is_what_was_read_up_to_the_end() {
    let mut manager = ChannelManager::new();
    create(&mut manager, "a");
    let reads: Vec<&[u8]> = vec![b"one\n", b"", b"two", b"\nthree\n"];
    let mut published: Vec<u8> = Vec::new();
    for read in &reads {
        match manager.channel_output("a", read) {
            Some(ChannelManagerEvent::Output { channel_name, data }) => {
                assert_eq!(channel_name, "a");
                assert!(!data.is_empty());
                published.extend(data);
            }
            Some(other) => panic!("unexpected: {:?}", other),
            None => assert!(read.is_empty()),
        }
    }
    assert_eq!(published, b"one\ntwo\nthree\n");
    manager.kill_channel("a").unwrap();
    assert!(manager.channel_output("a", b"late").is_none());
    assert!(manager.channel_exited("a", Some(0)).is_none());
}
