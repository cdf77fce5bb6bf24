//! Command handling for client control commands (prefixed with `:`).

use super::app::{App, ViewMode};
use crate::protocol::{ClientMessage, ClientMessageView};
use crate::text::str_eq;
use vstd::prelude::*;
use vstd::string::*;

verus! {

/// Whether the client goes on after a command or ends.
#[derive(Debug, Clone, Copy, PartialEq, Eq, Structural)]
pub enum CommandResult {
    Continue,
    Exit,
}

/// What a control command leads to, besides what it changes in the
/// user interface's state.
#[derive(Debug)]
pub struct CommandOutcome {
    /// Whether the client goes on or ends.
    pub result: CommandResult,
    /// The message to send to the daemon, if any.
    pub message: Option<ClientMessage>,
    /// The lines to show to the user as output of the system, in order.
    pub notices: Vec<String>,
    /// Whether the output buffers and scroll positions are to be emptied.
    pub clear_output: bool,
}

/// Mathematical value of a [`CommandOutcome`].
pub struct CommandOutcomeView {
    pub result: CommandResult,
    pub message: Option<ClientMessageView>,
    pub notices: Seq<Seq<char>>,
    pub clear_output: bool,
}

impl View for CommandOutcome {
    type V = CommandOutcomeView;

    open spec fn view(&self) -> CommandOutcomeView {
        CommandOutcomeView {
            result: self.result,
            message: match self.message {
                Some(m) => Some(m@),
                None => None,
            },
            notices: self.notices.deep_view(),
            clear_output: self.clear_output,
        }
    }
}

/// The parts in order, with the separator between each two of them.
pub open spec fn joined_by(parts: Seq<Seq<char>>, separator: Seq<char>) -> Seq<char>
    decreases parts.len(),
{
    if parts.len() == 0 {
        Seq::empty()
    } else if parts.len() == 1 {
        parts[0]
    } else {
        joined_by(parts.drop_last(), separator) + separator + parts.last()
    }
}

/// The names joined by a comma and a space.
pub open spec fn comma_joined(names: Seq<Seq<char>>) -> Seq<char> {
    joined_by(names, ", "@)
}

/// The line that tells the user the subscriptions.
pub open spec fn subscriptions_line(subscriptions: Seq<Seq<char>>) -> Seq<char> {
    "Current subscriptions: "@ + if subscriptions.len() == 0 {
        "none"@
    } else {
        comma_joined(subscriptions)
    }
}

/// The words joined by single spaces.
pub open spec fn space_joined(parts: Seq<Seq<char>>) -> Seq<char> {
    joined_by(parts, " "@)
}

/// An outcome that only goes on.
pub open spec fn proceed() -> CommandOutcomeView {
    CommandOutcomeView {
        result: CommandResult::Continue,
        message: None,
        notices: Seq::empty(),
        clear_output: false,
    }
}

/// An outcome that goes on and sends a message.
pub open spec fn sending(message: ClientMessageView) -> CommandOutcomeView {
    CommandOutcomeView { message: Some(message), ..proceed() }
}

/// An outcome that goes on and shows lines to the user.
pub open spec fn telling(notices: Seq<Seq<char>>) -> CommandOutcomeView {
    CommandOutcomeView { notices, ..proceed() }
}

/// What the user interface's flags are after a command.
pub struct Flags {
    pub view_mode: ViewMode,
    pub show_timestamps: bool,
    pub show_help: bool,
}

/// The other view mode.
pub open spec fn other_mode(mode: ViewMode) -> ViewMode {
    match mode {
        ViewMode::ActiveChannel => ViewMode::AllChannels,
        ViewMode::AllChannels => ViewMode::ActiveChannel,
    }
}

/// What a control command does: the flags of the user interface after it,
/// and what it leaves to the caller.
pub struct CommandEffect {
    pub flags: Flags,
    pub outcome: CommandOutcomeView,
}

/// What a control command does.
///
/// `new`, `kill`, `list`, `status`, `sub` and `unsub` send the message of
/// their name to the daemon, or show their usage where their arguments do
/// not fit; `subs` shows the subscriptions; `clear` empties the output;
/// `view` without an argument changes to the other view mode and says so,
/// and with one sets the mode that the argument names; `timestamps` turns
/// the timestamps on or off and says so; `help` turns the help on or off;
/// `quit` and `exit` end the client. Any other command is unknown.
pub open spec fn command_effect(
    command: Seq<char>,
    args: Seq<Seq<char>>,
    flags: Flags,
    subscriptions: Seq<Seq<char>>,
) -> CommandEffect {
    if command == "new"@ {
        CommandEffect {
            flags,
            outcome: if args.len() == 0 {
                telling(seq!["Usage: :new <name> [command]"@])
            } else {
                sending(
                    ClientMessageView::CreateChannel {
                        name: args[0],
                        command: if args.len() > 1 {
                            Some(space_joined(args.skip(1)))
                        } else {
                            None
                        },
                        working_dir: None,
                    },
                )
            },
        }
    } else if command == "kill"@ {
        CommandEffect {
            flags,
            outcome: if args.len() != 1 {
                telling(seq!["Usage: :kill <name>"@])
            } else {
                sending(ClientMessageView::KillChannel { name: args[0] })
            },
        }
    } else if command == "list"@ {
        CommandEffect { flags, outcome: sending(ClientMessageView::ListChannels) }
    } else if command == "status"@ {
        CommandEffect {
            flags,
            outcome: sending(
                ClientMessageView::GetStatus {
                    channel: if args.len() > 0 {
                        Some(args[0])
                    } else {
                        None
                    },
                },
            ),
        }
    } else if command == "sub"@ || command == "subscribe"@ {
        CommandEffect {
            flags,
            outcome: if args.len() == 0 {
                telling(
                    seq![
                        "Usage: :sub <channel1> [channel2...] or :sub * for all"@,
                        subscriptions_line(subscriptions),
                    ],
                )
            } else {
                sending(ClientMessageView::Subscribe { channels: args })
            },
        }
    } else if command == "unsub"@ || command == "unsubscribe"@ {
        CommandEffect {
            flags,
            outcome: if args.len() == 0 {
                telling(
                    seq![
                        "Usage: :unsub <channel1> [channel2...]"@,
                        subscriptions_line(subscriptions),
                    ],
                )
            } else {
                sending(ClientMessageView::Unsubscribe { channels: args })
            },
        }
    } else if command == "subs"@ || command == "subscriptions"@ {
        CommandEffect { flags, outcome: telling(seq![subscriptions_line(subscriptions)]) }
    } else if command == "clear"@ {
        CommandEffect { flags, outcome: CommandOutcomeView { clear_output: true, ..proceed() } }
    } else if command == "view"@ {
        if args.len() == 0 {
            CommandEffect {
                flags: Flags { view_mode: other_mode(flags.view_mode), ..flags },
                outcome: telling(
                    seq![
                        "View mode: "@ + (match other_mode(flags.view_mode) {
                            ViewMode::ActiveChannel => "channel (clean output)"@,
                            ViewMode::AllChannels => "all (interleaved with prefixes)"@,
                        }),
                    ],
                ),
            }
        } else if args[0] == "channel"@ || args[0] == "active"@ {
            CommandEffect {
                flags: Flags { view_mode: ViewMode::ActiveChannel, ..flags },
                outcome: proceed(),
            }
        } else if args[0] == "all"@ || args[0] == "interleaved"@ {
            CommandEffect {
                flags: Flags { view_mode: ViewMode::AllChannels, ..flags },
                outcome: proceed(),
            }
        } else {
            CommandEffect { flags, outcome: telling(seq!["Usage: :view [channel|all]"@]) }
        }
    } else if command == "timestamps"@ || command == "ts"@ {
        CommandEffect {
            flags: Flags { show_timestamps: !flags.show_timestamps, ..flags },
            outcome: telling(
                seq![
                    "Timestamps: "@ + if !flags.show_timestamps {
                        "enabled"@
                    } else {
                        "disabled"@
                    },
                ],
            ),
        }
    } else if command == "help"@ || command == "?"@ {
        CommandEffect { flags: Flags { show_help: !flags.show_help, ..flags }, outcome: proceed() }
    } else if command == "quit"@ || command == "exit"@ {
        CommandEffect {
            flags,
            outcome: CommandOutcomeView { result: CommandResult::Exit, ..proceed() },
        }
    } else {
        CommandEffect { flags, outcome: telling(seq!["Unknown command: "@ + command]) }
    }
}

/// The parts from the place `from` on, joined by the separator.
pub(crate) fn join(parts: &[String], from: usize, separator: &str) -> (joined: String)
    requires
        from <= parts.len(),
    ensures
        joined@ == joined_by(parts.deep_view().skip(from as int), separator@),
{
    let ghost all = parts.deep_view().skip(from as int);
    let mut joined = String::new();
    let mut i: usize = from;
    assert(all.take(0) =~= Seq::<Seq<char>>::empty());
    while i < parts.len()
        invariant
            from <= i <= parts.len(),
            all == parts.deep_view().skip(from as int),
            i == from ==> joined@.len() == 0,
            joined@ == joined_by(all.take(i - from), separator@),
        decreases parts.len() - i,
    {
        let ghost before = joined@;
        if i > from {
            joined.append(separator);
        }
        joined.append(parts[i].as_str());
        proof {
            let now = all.take(i - from + 1);
            assert(now.drop_last() =~= all.take(i - from));
            assert(now.last() == parts.deep_view()[i as int]);
            if i == from {
                assert(now.len() == 1);
                assert(before =~= Seq::<char>::empty());
                assert(joined@ =~= now[0]);
            } else {
                assert(now.len() > 1);
            }
        }
        i += 1;
    }
    assert(all.take(parts.len() - from) =~= all);
    joined
}

/// The line that tells the user the subscriptions.
fn subscriptions_notice(subscriptions: &[String]) -> (line: String)
    ensures
        line@ == subscriptions_line(subscriptions.deep_view()),
{
    let mut line = "Current subscriptions: ".to_string();
    if subscriptions.len() == 0 {
        line.append("none");
    } else {
        let names = join(subscriptions, 0, ", ");
        assert(subscriptions.deep_view().skip(0) =~= subscriptions.deep_view());
        line.append(names.as_str());
    }
    line
}

/// An outcome that only goes on.
fn go_on() -> (outcome: CommandOutcome)
    ensures
        outcome@ == proceed(),
{
    let outcome = CommandOutcome {
        result: CommandResult::Continue,
        message: None,
        notices: Vec::new(),
        clear_output: false,
    };
    assert(outcome@.notices =~= Seq::empty());
    outcome
}

/// An outcome that goes on and sends a message.
fn send(message: ClientMessage) -> (outcome: CommandOutcome)
    ensures
        outcome@ == sending(message@),
{
    let mut outcome = go_on();
    outcome.message = Some(message);
    outcome
}

/// An outcome that goes on and shows one line to the user.
fn tell(notice: String) -> (outcome: CommandOutcome)
    ensures
        outcome@ == telling(seq![notice@]),
{
    let mut outcome = go_on();
    outcome.notices.push(notice);
    assert(outcome@.notices =~= seq![notice@]);
    outcome
}

/// An outcome that goes on and shows two lines to the user.
fn tell_both(first: String, second: String) -> (outcome: CommandOutcome)
    ensures
        outcome@ == telling(seq![first@, second@]),
{
    let mut outcome = go_on();
    outcome.notices.push(first);
    assert(outcome@.notices =~= seq![first@]);
    outcome.notices.push(second);
    assert(outcome@.notices =~= seq![first@, second@]);
    outcome
}

/// Handle a parsed control command.
///
/// The flags of the user interface change as `command_effect` says, nothing
/// else of its state changes, and what is left to the caller is returned:
/// whether to go on, the message to send to the daemon, the lines to show
/// to the user, and whether to empty the output.
pub fn handle_control_command(command: &str, args: Vec<String>, app: &mut App) -> (outcome:
    CommandOutcome)
    ensures
        (CommandEffect {
            flags: Flags {
                view_mode: final(app).view_mode,
                show_timestamps: final(app).show_timestamps,
                show_help: final(app).show_help,
            },
            outcome: outcome@,
        }) == command_effect(
            command@,
            args.deep_view(),
            Flags {
                view_mode: old(app).view_mode,
                show_timestamps: old(app).show_timestamps,
                show_help: old(app).show_help,
            },
            old(app).subscriptions.deep_view(),
        ),
        final(app).channels == old(app).channels,
        final(app).active_channel == old(app).active_channel,
        final(app).subscriptions == old(app).subscriptions,
        final(app).line_editor == old(app).line_editor,
        final(app).show_welcome == old(app).show_welcome,
        final(app).show_channel_numbers == old(app).show_channel_numbers,
        final(app).max_buffer_lines == old(app).max_buffer_lines,
        final(app).completions == old(app).completions,
{
    if str_eq(command, "new") {
        if args.len() == 0 {
            return tell("Usage: :new <name> [command]".to_string());
        }
        let name = args[0].clone();
        let run = if args.len() > 1 {
            Some(join(args.as_slice(), 1, " "))
        } else {
            None
        };
        return send(ClientMessage::CreateChannel { name, command: run, working_dir: None });
    }
    if str_eq(command, "kill") {
        if args.len() != 1 {
            return tell("Usage: :kill <name>".to_string());
        }
        return send(ClientMessage::KillChannel { name: args[0].clone() });
    }
    if str_eq(command, "list") {
        return send(ClientMessage::ListChannels);
    }
    if str_eq(command, "status") {
        let channel = if args.len() > 0 {
            Some(args[0].clone())
        } else {
            None
        };
        return send(ClientMessage::GetStatus { channel });
    }
    if str_eq(command, "sub") || str_eq(command, "subscribe") {
        if args.len() == 0 {
            return tell_both(
                "Usage: :sub <channel1> [channel2...] or :sub * for all".to_string(),
                subscriptions_notice(app.subscriptions.as_slice()),
            );
        }
        return send(ClientMessage::Subscribe { channels: args });
    }
    if str_eq(command, "unsub") || str_eq(command, "unsubscribe") {
        if args.len() == 0 {
            return tell_both(
                "Usage: :unsub <channel1> [channel2...]".to_string(),
                subscriptions_notice(app.subscriptions.as_slice()),
            );
        }
        return send(ClientMessage::Unsubscribe { channels: args });
    }
    if str_eq(command, "subs") || str_eq(command, "subscriptions") {
        return tell(subscriptions_notice(app.subscriptions.as_slice()));
    }
    if str_eq(command, "clear") {
        let mut outcome = go_on();
        outcome.clear_output = true;
        return outcome;
    }
    if str_eq(command, "view") {
        if args.len() == 0 {
            app.view_mode = match app.view_mode {
                ViewMode::ActiveChannel => ViewMode::AllChannels,
                ViewMode::AllChannels => ViewMode::ActiveChannel,
            };
            let mut line = "View mode: ".to_string();
            match app.view_mode {
                ViewMode::ActiveChannel => line.append("channel (clean output)"),
                ViewMode::AllChannels => line.append("all (interleaved with prefixes)"),
            }
            return tell(line);
        }
        let wanted = args[0].as_str();
        if str_eq(wanted, "channel") || str_eq(wanted, "active") {
            app.view_mode = ViewMode::ActiveChannel;
            return go_on();
        }
        if str_eq(wanted, "all") || str_eq(wanted, "interleaved") {
            app.view_mode = ViewMode::AllChannels;
            return go_on();
        }
        return tell("Usage: :view [channel|all]".to_string());
    }
    if str_eq(command, "timestamps") || str_eq(command, "ts") {
        app.show_timestamps = !app.show_timestamps;
        let mut line = "Timestamps: ".to_string();
        if app.show_timestamps {
            line.append("enabled");
        } else {
            line.append("disabled");
        }
        return tell(line);
    }
    if str_eq(command, "help") || str_eq(command, "?") {
        app.show_help = !app.show_help;
        return go_on();
    }
    if str_eq(command, "quit") || str_eq(command, "exit") {
        let mut outcome = go_on();
        outcome.result = CommandResult::Exit;
        return outcome;
    }
    let mut line = "Unknown command: ".to_string();
    line.append(command);
    tell(line)
}

} // verus!
