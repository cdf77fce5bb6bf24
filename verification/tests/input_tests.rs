//! Tests for the parsing of user input.

use nexus::client::{parse_input, ParsedInput};

#[test]
fn test_parse_regular_text() {
    let result = parse_input("echo hello").unwrap();
    assert!(matches!(result, ParsedInput::Text(s) if s == "echo hello"));
}

#[test]
fn test_parse_switch_channel() {
    let result = parse_input("@build").unwrap();
    assert!(matches!(result, ParsedInput::SwitchChannel(s) if s == "build"));
}

#[test]
fn test_parse_send_to_channel() {
    let result = parse_input("@build: npm run build").unwrap();
    assert!(matches!(
        result,
        ParsedInput::SendToChannel { channel, command }
        if channel == "build" && command == "npm run build"
    ));
}

#[test]
fn test_parse_control_command() {
    let result = parse_input(":new myserver").unwrap();
    assert!(matches!(
        result,
        ParsedInput::ControlCommand { command, args }
        if command == "new" && args == vec!["myserver"]
    ));
}

#[test]
fn test_parse_control_command_no_args() {
    let result = parse_input(":list").unwrap();
    assert!(matches!(
        result,
        ParsedInput::ControlCommand { command, args }
        if command == "list" && args.is_empty()
    ));
}

#[test]
fn parse_trims_the_line() {
    let result = parse_input("  \t echo hi \n").unwrap();
    assert!(matches!(result, ParsedInput::Text(s) if s == "echo hi"));
}

#[test]
fn parse_control_command_splits_arguments_on_any_whitespace() {
    let result = parse_input(":new  web \t python3   -m http.server ").unwrap();
    match result {
        ParsedInput::ControlCommand { command, args } => {
            assert_eq!(command, "new");
            assert_eq!(args, vec!["web", "python3", "-m", "http.server"]);
        }
        other => panic!("unexpected: {:?}", other),
    }
}

#[test]
fn parse_control_command_ends_at_the_first_space_only() {
    // a tab does not end the command name
    let result = parse_input(":new\tx y").unwrap();
    match result {
        ParsedInput::ControlCommand { command, args } => {
            assert_eq!(command, "new\tx");
            assert_eq!(args, vec!["y"]);
        }
        other => panic!("unexpected: {:?}", other),
    }
}

#[test]
fn parse_empty_control_command() {
    let result = parse_input(":").unwrap();
    assert!(matches!(
        result,
        ParsedInput::ControlCommand { command, args } if command.is_empty() && args.is_empty()
    ));
}

#[test]
fn parse_switch_takes_the_first_word() {
    let result = parse_input("@build and more").unwrap();
    assert!(matches!(result, ParsedInput::SwitchChannel(s) if s == "build"));
    let result = parse_input("@").unwrap();
    assert!(matches!(result, ParsedInput::SwitchChannel(s) if s.is_empty()));
}

#[test]
fn parse_send_trims_channel_and_command() {
    let result = parse_input("@ web :  ls -la  ").unwrap();
    assert!(matches!(
        result,
        ParsedInput::SendToChannel { channel, command }
        if channel == "web" && command == "ls -la"
    ));
    // only the first colon separates
    let result = parse_input("@db:select 'a:b'").unwrap();
    assert!(matches!(
        result,
        ParsedInput::SendToChannel { channel, command }
        if channel == "db" && command == "select 'a:b'"
    ));
}

#[test]
fn parse_empty_line_is_empty_text() {
    let result = parse_input("   ").unwrap();
    assert!(matches!(result, ParsedInput::Text(s) if s.is_empty()));
}

#[test]
fn parse_keeps_non_ascii_text() {
    let result = parse_input("\u{a0}gr\u{fc}\u{df}e \u{4e16}\u{754c}\u{3000}").unwrap();
    assert!(matches!(result, ParsedInput::Text(s) if s == "gr\u{fc}\u{df}e \u{4e16}\u{754c}"));
}

#[test]
fn ascii_whitespace_is_the_space_and_tab_to_carriage_return() {
    for code in 0u8..128 {
        let c = code as char;
        let text: Vec<char> = vec![c, 'x', c];
        let trimmed = nexus::text::trim_chars(&text);
        let is_space = c == ' ' || ('\t'..='\r').contains(&c);
        if is_space {
            assert_eq!(trimmed, vec!['x'], "character {}", code);
        } else {
            assert_eq!(trimmed, text, "character {}", code);
        }
    }
}
