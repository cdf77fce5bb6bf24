//! Input handling: parse user input and commands.

use crate::text::{
    chars_of, find_char, first_index, slice_of, split_words, string_of, substring_of, trim_chars,
    trimmed, words,
};
use vstd::prelude::*;
use vstd::string::*;

verus! {

/// Parsed user input.
#[derive(Debug, Clone)]
pub enum ParsedInput {
    /// Regular input to send to the active channel.
    Text(String),
    /// Switch active channel: `@channelname`.
    SwitchChannel(String),
    /// Send to a specific channel: `@channel: command`.
    SendToChannel { channel: String, command: String },
    /// Control command: `:command args`.
    ControlCommand { command: String, args: Vec<String> },
}

/// Mathematical value of a [`ParsedInput`].
pub enum ParsedInputView {
    Text(Seq<char>),
    SwitchChannel(Seq<char>),
    SendToChannel { channel: Seq<char>, command: Seq<char> },
    ControlCommand { command: Seq<char>, args: Seq<Seq<char>> },
}

impl View for ParsedInput {
    type V = ParsedInputView;

    open spec fn view(&self) -> ParsedInputView {
        match *self {
            ParsedInput::Text(text) => ParsedInputView::Text(text@),
            ParsedInput::SwitchChannel(channel) => ParsedInputView::SwitchChannel(channel@),
            ParsedInput::SendToChannel { channel, command } => ParsedInputView::SendToChannel {
                channel: channel@,
                command: command@,
            },
            ParsedInput::ControlCommand { command, args } => ParsedInputView::ControlCommand {
                command: command@,
                args: args.deep_view(),
            },
        }
    }
}

/// What a line of input means, once the whitespace around it is taken off.
///
/// A line that starts with `:` is a control command: the command is what
/// follows up to the first space, its arguments are the words after that.
/// A line that starts with `@` addresses a channel: with a `:` in it, what
/// stands before the first `:` names the channel and what stands after it is
/// sent to that channel, both without the whitespace around them; without
/// one, the first word after the `@` names the channel to switch to. Every
/// other line is text for the active channel.
pub open spec fn parsed(line: Seq<char>) -> ParsedInputView {
    let line = trimmed(line);
    if line.len() > 0 && line[0] == ':' {
        let rest = line.skip(1);
        let space = first_index(rest, ' ');
        ParsedInputView::ControlCommand {
            command: rest.take(space),
            args: if space < rest.len() {
                words(rest.skip(space + 1))
            } else {
                Seq::empty()
            },
        }
    } else if line.len() > 0 && line[0] == '@' {
        let rest = line.skip(1);
        let colon = first_index(rest, ':');
        if colon < rest.len() {
            ParsedInputView::SendToChannel {
                channel: trimmed(rest.take(colon)),
                command: trimmed(rest.skip(colon + 1)),
            }
        } else if words(rest).len() > 0 {
            ParsedInputView::SwitchChannel(words(rest)[0])
        } else {
            ParsedInputView::SwitchChannel(rest)
        }
    } else {
        ParsedInputView::Text(line)
    }
}

/// Parse a line of user input. Every line has a meaning, so there is no error.
pub fn parse_input(line: &str) -> (result: Result<ParsedInput, std::convert::Infallible>)
    ensures
        result matches Ok(input) && input@ == parsed(line@),
{
    let all = chars_of(line);
    let chars = trim_chars(all.as_slice());
    let n = chars.len();
    if n > 0 && chars[0] == ':' {
        let ghost rest = chars@.skip(1);
        let space = find_char(chars.as_slice(), 1, ' ');
        let command = substring_of(chars.as_slice(), 1, space);
        assert(command@ =~= rest.take(space - 1));
        let args = if space < n {
            let args = split_words(chars.as_slice(), space + 1);
            assert(chars@.skip(space + 1) =~= rest.skip(space - 1 + 1));
            args
        } else {
            let args: Vec<String> = Vec::new();
            assert(args.deep_view() =~= Seq::<Seq<char>>::empty());
            args
        };
        return Ok(ParsedInput::ControlCommand { command, args });
    }
    if n > 0 && chars[0] == '@' {
        let ghost rest = chars@.skip(1);
        let colon = find_char(chars.as_slice(), 1, ':');
        if colon < n {
            let left = slice_of(chars.as_slice(), 1, colon);
            let right = slice_of(chars.as_slice(), colon + 1, n);
            assert(left@ =~= rest.take(colon - 1));
            assert(right@ =~= rest.skip(colon - 1 + 1));
            let channel = string_of(trim_chars(left.as_slice()).as_slice());
            let command = string_of(trim_chars(right.as_slice()).as_slice());
            return Ok(ParsedInput::SendToChannel { channel, command });
        }
        let mut found = split_words(chars.as_slice(), 1);
        if found.len() > 0 {
            let ghost first = found.deep_view()[0];
            let channel = found.swap_remove(0);
            assert(channel@ == first);
            return Ok(ParsedInput::SwitchChannel(channel));
        }
        let channel = substring_of(chars.as_slice(), 1, n);
        assert(channel@ =~= rest);
        return Ok(ParsedInput::SwitchChannel(channel));
    }
    Ok(ParsedInput::Text(string_of(chars.as_slice())))
}

} // verus!
