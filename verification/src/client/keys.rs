//! What the keys do: from a key and what the user interface shows to the
//! action that is taken.

use vstd::prelude::*;

verus! {

/// A key, as far as the user interface tells keys apart.
#[derive(Debug, Clone, Copy, PartialEq, Eq, Structural)]
pub enum Key {
    Char(char),
    Tab,
    Backspace,
    Delete,
    Left,
    Right,
    Up,
    Down,
    Enter,
    PageUp,
    PageDown,
    Home,
    End,
    Esc,
    Other,
}

/// The modifier keys held with a key.
#[derive(Debug, Clone, Copy, PartialEq, Eq, Structural)]
pub struct Modifiers {
    pub alt: bool,
    pub control: bool,
}

/// What a key leads to.
#[derive(Debug, Clone, Copy, PartialEq, Eq, Structural)]
pub enum Action {
    /// Nothing.
    Ignore,
    /// Close the help.
    CloseHelp,
    /// Scroll the help up by a number of lines.
    HelpUp(usize),
    /// Scroll the help down by a number of lines.
    HelpDown(usize),
    /// Show the help from its first line.
    HelpStart,
    /// Show the end of the help.
    HelpEnd,
    /// Scroll the output up by a number of lines.
    ScrollUp(usize),
    /// Scroll the output down by a number of lines.
    ScrollDown(usize),
    /// Scroll the output to its oldest line.
    ScrollToTop,
    /// Scroll the output to its newest line.
    ScrollToBottom,
    /// Change to the other view mode.
    ToggleView,
    /// Complete the line.
    Complete,
    /// Switch to the channel with the given place in the list, counted from 0.
    SwitchTo(usize),
    /// Send the interrupt character to the active channel.
    SendInterrupt,
    /// Send the end-of-file character to the active channel.
    SendEndOfFile,
    /// Empty the line.
    ClearLine,
    /// Leave the client.
    Exit,
    /// Put the character into the line.
    Insert(char),
    /// The editing operation of the same name.
    MoveHome,
    MoveEnd,
    MoveLeft,
    MoveRight,
    Backspace,
    Delete,
    DeleteWordBackward,
    DeleteToEnd,
    DeleteToStart,
    /// Make the previous channel the active one.
    PreviousChannel,
    /// Make the next channel the active one.
    NextChannel,
    /// Recall the older command.
    HistoryUp,
    /// Recall the newer command.
    HistoryDown,
    /// Enter the line.
    Submit,
}

/// The number of lines that the page keys scroll by.
pub const PAGE_SIZE: usize = 20;

/// What a key does while the help is shown: `Esc` and `?` close it, the
/// page keys and `Home` and `End` scroll it.
pub open spec fn help_action(key: Key) -> Action {
    match key {
        Key::Esc => Action::CloseHelp,
        Key::Char(c) => if c == '?' {
            Action::CloseHelp
        } else {
            Action::Ignore
        },
        Key::PageUp => Action::HelpUp(PAGE_SIZE),
        Key::PageDown => Action::HelpDown(PAGE_SIZE),
        Key::Home => Action::HelpStart,
        Key::End => Action::HelpEnd,
        _ => Action::Ignore,
    }
}

/// What a key does to the output while the line is empty, if anything:
/// the page keys and `Home` and `End` scroll it, and `Tab` changes the view mode.
pub open spec fn scroll_action(key: Key) -> Option<Action> {
    match key {
        Key::PageUp => Some(Action::ScrollUp(PAGE_SIZE)),
        Key::PageDown => Some(Action::ScrollDown(PAGE_SIZE)),
        Key::Home => Some(Action::ScrollToTop),
        Key::End => Some(Action::ScrollToBottom),
        Key::Tab => Some(Action::ToggleView),
        _ => None,
    }
}

/// The digit that a character is, if it is one of `1` to `9`.
pub open spec fn digit_of(c: char) -> Option<usize> {
    if '1' <= c && c <= '9' {
        Some((c as u32 - '0' as u32) as usize)
    } else {
        None
    }
}

/// What a character does that is typed with `Control` held.
pub open spec fn control_action(c: char, line_empty: bool) -> Action {
    if c == 'c' {
        if line_empty {
            Action::SendInterrupt
        } else {
            Action::ClearLine
        }
    } else if c == '\\' {
        Action::Exit
    } else if c == 'd' {
        if line_empty {
            Action::SendEndOfFile
        } else {
            Action::Ignore
        }
    } else if c == 'a' {
        Action::MoveHome
    } else if c == 'e' {
        Action::MoveEnd
    } else if c == 'w' {
        Action::DeleteWordBackward
    } else if c == 'k' {
        Action::DeleteToEnd
    } else if c == 'u' {
        if line_empty {
            Action::ScrollUp(10)
        } else {
            Action::DeleteToStart
        }
    } else if c == 'b' {
        Action::ScrollDown(10)
    } else {
        Action::Ignore
    }
}

/// What a key does while the line is edited.
pub open spec fn edit_action(key: Key, modifiers: Modifiers, line_empty: bool) -> Action {
    match key {
        Key::Char(c) => if modifiers.alt {
            match digit_of(c) {
                Some(digit) => Action::SwitchTo((digit - 1) as usize),
                None => Action::Ignore,
            }
        } else if modifiers.control {
            control_action(c, line_empty)
        } else {
            Action::Insert(c)
        },
        Key::Tab => Action::Complete,
        Key::Backspace => Action::Backspace,
        Key::Delete => Action::Delete,
        Key::Left => if modifiers.control {
            Action::PreviousChannel
        } else {
            Action::MoveLeft
        },
        Key::Right => if modifiers.control {
            Action::NextChannel
        } else {
            Action::MoveRight
        },
        Key::Up => Action::HistoryUp,
        Key::Down => Action::HistoryDown,
        Key::Enter => Action::Submit,
        _ => Action::Ignore,
    }
}

/// What a key does. While the help is shown, keys go to the help. While
/// the line is empty, the keys that scroll the output do so. Every other
/// key edits the line.
pub open spec fn action_of(key: Key, modifiers: Modifiers, show_help: bool, line_empty: bool) -> Action {
    if show_help {
        help_action(key)
    } else if line_empty && scroll_action(key) is Some {
        scroll_action(key)->0
    } else {
        edit_action(key, modifiers, line_empty)
    }
}

/// What a character does that is typed with `Control` held.
fn on_control(c: char, line_empty: bool) -> (action: Action)
    ensures
        action == control_action(c, line_empty),
{
    if c == 'c' {
        if line_empty {
            Action::SendInterrupt
        } else {
            Action::ClearLine
        }
    } else if c == '\\' {
        Action::Exit
    } else if c == 'd' {
        if line_empty {
            Action::SendEndOfFile
        } else {
            Action::Ignore
        }
    } else if c == 'a' {
        Action::MoveHome
    } else if c == 'e' {
        Action::MoveEnd
    } else if c == 'w' {
        Action::DeleteWordBackward
    } else if c == 'k' {
        Action::DeleteToEnd
    } else if c == 'u' {
        if line_empty {
            Action::ScrollUp(10)
        } else {
            Action::DeleteToStart
        }
    } else if c == 'b' {
        Action::ScrollDown(10)
    } else {
        Action::Ignore
    }
}

/// What a key does.
pub fn key_action(key: Key, modifiers: Modifiers, show_help: bool, line_empty: bool) -> (action:
    Action)
    ensures
        action == action_of(key, modifiers, show_help, line_empty),
{
    if show_help {
        return match key {
            Key::Esc => Action::CloseHelp,
            Key::Char(c) => if c == '?' {
                Action::CloseHelp
            } else {
                Action::Ignore
            },
            Key::PageUp => Action::HelpUp(PAGE_SIZE),
            Key::PageDown => Action::HelpDown(PAGE_SIZE),
            Key::Home => Action::HelpStart,
            Key::End => Action::HelpEnd,
            _ => Action::Ignore,
        };
    }
    if line_empty {
        match key {
            Key::PageUp => {
                return Action::ScrollUp(PAGE_SIZE);
            },
            Key::PageDown => {
                return Action::ScrollDown(PAGE_SIZE);
            },
            Key::Home => {
                return Action::ScrollToTop;
            },
            Key::End => {
                return Action::ScrollToBottom;
            },
            Key::Tab => {
                return Action::ToggleView;
            },
            _ => {},
        }
    }
    match key {
        Key::Char(c) => {
            if modifiers.alt {
                if c >= '1' && c <= '9' {
                    let digit: u32 = c as u32 - '0' as u32;
                    Action::SwitchTo((digit - 1) as usize)
                } else {
                    Action::Ignore
                }
            } else if modifiers.control {
                on_control(c, line_empty)
            } else {
                Action::Insert(c)
            }
        },
        Key::Tab => Action::Complete,
        Key::Backspace => Action::Backspace,
        Key::Delete => Action::Delete,
        Key::Left => if modifiers.control {
            Action::PreviousChannel
        } else {
            Action::MoveLeft
        },
        Key::Right => if modifiers.control {
            Action::NextChannel
        } else {
            Action::MoveRight
        },
        Key::Up => Action::HistoryUp,
        Key::Down => Action::HistoryDown,
        Key::Enter => Action::Submit,
        _ => Action::Ignore,
    }
}

} // verus!
