use nexus::client::keys::{key_action, Action, Key, Modifiers, PAGE_SIZE};

const PLAIN: Modifiers = Modifiers {
    alt: false,
    control: false,
};
const CONTROL: Modifiers = Modifiers {
    alt: false,
    control: true,
};
const ALT: Modifiers = Modifiers {
    alt: true,
    control: false,
};

#[test]
fn help_takes_the_keys_while_it_is_shown() {
    assert_eq!(key_action(Key::Esc, PLAIN, true, true), Action::CloseHelp);
    assert_eq!(key_action(Key::Char('?'), PLAIN, true, false), Action::CloseHelp);
    assert_eq!(key_action(Key::Char('x'), PLAIN, true, false), Action::Ignore);
    assert_eq!(key_action(Key::PageUp, PLAIN, true, false), Action::HelpUp(PAGE_SIZE));
    assert_eq!(key_action(Key::PageDown, PLAIN, true, true), Action::HelpDown(20));
    assert_eq!(key_action(Key::Home, PLAIN, true, true), Action::HelpStart);
    assert_eq!(key_action(Key::End, PLAIN, true, true), Action::HelpEnd);
    assert_eq!(key_action(Key::Enter, PLAIN, true, true), Action::Ignore);
    assert_eq!(key_action(Key::Tab, PLAIN, true, true), Action::Ignore);
}

#[test]
fn an_empty_line_lets_the_keys_scroll() {
    assert_eq!(key_action(Key::PageUp, PLAIN, false, true), Action::ScrollUp(20));
    assert_eq!(key_action(Key::PageDown, PLAIN, false, true), Action::ScrollDown(20));
    assert_eq!(key_action(Key::Home, PLAIN, false, true), Action::ScrollToTop);
    assert_eq!(key_action(Key::End, PLAIN, false, true), Action::ScrollToBottom);
    assert_eq!(key_action(Key::Tab, PLAIN, false, true), Action::ToggleView);
}

#[test]
fn a_line_with_text_keeps_the_keys_for_editing() {
    assert_eq!(key_action(Key::Tab, PLAIN, false, false), Action::Complete);
    assert_eq!(key_action(Key::PageUp, PLAIN, false, false), Action::Ignore);
    assert_eq!(key_action(Key::Home, PLAIN, false, false), Action::Ignore);
    assert_eq!(key_action(Key::Backspace, PLAIN, false, false), Action::Backspace);
    assert_eq!(key_action(Key::Delete, PLAIN, false, false), Action::Delete);
    assert_eq!(key_action(Key::Left, PLAIN, false, false), Action::MoveLeft);
    assert_eq!(key_action(Key::Right, PLAIN, false, false), Action::MoveRight);
    assert_eq!(key_action(Key::Up, PLAIN, false, false), Action::HistoryUp);
    assert_eq!(key_action(Key::Down, PLAIN, false, true), Action::HistoryDown);
    assert_eq!(key_action(Key::Enter, PLAIN, false, true), Action::Submit);
    assert_eq!(key_action(Key::Esc, PLAIN, false, true), Action::Ignore);
    assert_eq!(key_action(Key::Other, PLAIN, false, true), Action::Ignore);
}

#[test]
fn plain_characters_go_into_the_line() {
    assert_eq!(key_action(Key::Char('a'), PLAIN, false, true), Action::Insert('a'));
    assert_eq!(key_action(Key::Char('?'), PLAIN, false, false), Action::Insert('?'));
    assert_eq!(key_action(Key::Char('5'), PLAIN, false, false), Action::Insert('5'));
    assert_eq!(key_action(Key::Char('é'), PLAIN, false, false), Action::Insert('é'));
}

#[test]
fn alt_and_a_digit_switch_channels() {
    assert_eq!(key_action(Key::Char('1'), ALT, false, true), Action::SwitchTo(0));
    assert_eq!(key_action(Key::Char('9'), ALT, false, false), Action::SwitchTo(8));
    assert_eq!(key_action(Key::Char('0'), ALT, false, true), Action::Ignore);
    assert_eq!(key_action(Key::Char('a'), ALT, false, true), Action::Ignore);
    let both = Modifiers {
        alt: true,
        control: true,
    };
    assert_eq!(key_action(Key::Char('3'), both, false, true), Action::SwitchTo(2));
}

#[test]
fn control_characters() {
    assert_eq!(key_action(Key::Char('c'), CONTROL, false, true), Action::SendInterrupt);
    assert_eq!(key_action(Key::Char('c'), CONTROL, false, false), Action::ClearLine);
    assert_eq!(key_action(Key::Char('\\'), CONTROL, false, false), Action::Exit);
    assert_eq!(key_action(Key::Char('d'), CONTROL, false, true), Action::SendEndOfFile);
    assert_eq!(key_action(Key::Char('d'), CONTROL, false, false), Action::Ignore);
    assert_eq!(key_action(Key::Char('a'), CONTROL, false, false), Action::MoveHome);
    assert_eq!(key_action(Key::Char('e'), CONTROL, false, false), Action::MoveEnd);
    assert_eq!(key_action(Key::Char('w'), CONTROL, false, false), Action::DeleteWordBackward);
    assert_eq!(key_action(Key::Char('k'), CONTROL, false, false), Action::DeleteToEnd);
    assert_eq!(key_action(Key::Char('u'), CONTROL, false, false), Action::DeleteToStart);
    assert_eq!(key_action(Key::Char('u'), CONTROL, false, true), Action::ScrollUp(10));
    assert_eq!(key_action(Key::Char('b'), CONTROL, false, true), Action::ScrollDown(10));
    assert_eq!(key_action(Key::Char('z'), CONTROL, false, true), Action::Ignore);
    assert_eq!(key_action(Key::Left, CONTROL, false, false), Action::PreviousChannel);
    assert_eq!(key_action(Key::Right, CONTROL, false, true), Action::NextChannel);
}
