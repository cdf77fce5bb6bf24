//! Text helpers of the full-screen user interface.

use super::app::{status_mark, ChannelInfo, ChannelInfoView};
use super::renderer::{ansi_stripped, byte_len};
use crate::text::{chars_of, decimal, push_decimal, slice_of, string_of};
use vstd::prelude::*;
use vstd::string::*;

verus! {

/// Strip ANSI escape sequences from a string.
pub fn strip_ansi_codes(s: &str) -> (clean: String)
    ensures
        clean@ == ansi_stripped(s@),
{
    super::renderer::strip_ansi_codes(s)
}

/// How a channel is shown in the status bar.
#[derive(Debug, Clone, Copy, PartialEq, Eq, Structural)]
pub enum StatusTone {
    /// The active channel.
    Active,
    /// A channel with output that was not looked at yet.
    NewOutput,
    /// A stopped channel that ended with success.
    Succeeded,
    /// A stopped channel that ended otherwise.
    Failed,
    /// Any other channel.
    Idle,
}

/// How a channel is shown in the status bar: the active one stands out,
/// then one with new output, then one that has stopped, by how it ended.
pub open spec fn tone_of(channel: ChannelInfoView, active: Option<Seq<char>>) -> StatusTone {
    if active == Some(channel.name) {
        StatusTone::Active
    } else if channel.has_new_output {
        StatusTone::NewOutput
    } else if !channel.running {
        if channel.exit_code == Some(0i32) {
            StatusTone::Succeeded
        } else {
            StatusTone::Failed
        }
    } else {
        StatusTone::Idle
    }
}

/// How a channel is shown in the status bar.
pub fn status_tone(channel: &ChannelInfo, active: Option<&str>) -> (tone: StatusTone)
    ensures
        tone == tone_of(channel@, active.deep_view()),
{
    let is_active = match active {
        Some(name) => crate::text::str_eq(name, channel.name.as_str()),
        None => false,
    };
    if is_active {
        StatusTone::Active
    } else if channel.has_new_output {
        StatusTone::NewOutput
    } else if !channel.running {
        match channel.exit_code {
            Some(code) => if code == 0 {
                StatusTone::Succeeded
            } else {
                StatusTone::Failed
            },
            None => StatusTone::Failed,
        }
    } else {
        StatusTone::Idle
    }
}

/// The label of a channel in the status bar: its name behind `#`, a `+`
/// where it is subscribed, and its mark, in square brackets; with its
/// number before it where numbers are shown and it is one of the first nine.
pub open spec fn label_of(index: nat, channel: ChannelInfoView, show_numbers: bool) -> Seq<char> {
    let body = "#"@ + channel.name + (if channel.is_subscribed {
        "+"@
    } else {
        Seq::empty()
    }) + status_mark(channel.running, channel.has_new_output, channel.exit_code) + "]"@;
    if show_numbers && index < 9 {
        "["@ + decimal(index + 1) + ":"@ + body
    } else {
        "["@ + body
    }
}

/// The label of a channel in the status bar.
pub fn status_label(index: usize, channel: &ChannelInfo, show_numbers: bool) -> (label: String)
    ensures
        label@ == label_of(index as nat, channel@, show_numbers),
{
    let mut label = "[".to_string();
    if show_numbers && index < 9 {
        push_decimal(&mut label, (index + 1) as u64);
        label.append(":");
    }
    label.append("#");
    label.append(channel.name.as_str());
    if channel.is_subscribed {
        label.append("+");
    }
    label.append(channel.status_indicator());
    label.append("]");
    proof {
        let body = "#"@ + channel@.name + (if channel@.is_subscribed {
            "+"@
        } else {
            Seq::empty()
        }) + status_mark(channel@.running, channel@.has_new_output, channel@.exit_code) + "]"@;
        if show_numbers && index < 9 {
            assert(label@ =~= "["@ + decimal((index + 1) as nat) + ":"@ + body);
        } else {
            assert(label@ =~= "["@ + body);
        }
    }
    label
}

/// A line of output as it is shown: with its time in square brackets
/// before it where times are shown.
pub open spec fn shown_line(content: Seq<char>, time: Seq<char>, show_timestamps: bool) -> Seq<
    char,
> {
    if show_timestamps {
        "["@ + time + "] "@ + content
    } else {
        content
    }
}

/// A line of output as it is shown.
pub fn format_line(content: &str, time: &str, show_timestamps: bool) -> (line: String)
    ensures
        line@ == shown_line(content@, time@, show_timestamps),
{
    if show_timestamps {
        let mut line = "[".to_string();
        line.append(time);
        line.append("] ");
        line.append(content);
        line
    } else {
        content.to_owned()
    }
}

/// The text of the input line: the active channel behind `#`, or `none`,
/// then the prompt sign, then what was typed.
pub open spec fn prompt_of(active: Option<Seq<char>>, content: Seq<char>) -> Seq<char> {
    "#"@ + (match active {
        Some(name) => name,
        None => "none"@,
    }) + " \u{276f} "@ + content
}

/// The text of the input line.
pub fn prompt_text(active: Option<&str>, content: &str) -> (text: String)
    ensures
        text@ == prompt_of(active.deep_view(), content@),
{
    let mut text = "#".to_string();
    match active {
        Some(name) => text.append(name),
        None => text.append("none"),
    }
    text.append(" \u{276f} ");
    text.append(content);
    text
}

/// A notice cut to a width: with a space before it, and where that is
/// wider than `max_width` characters, cut to three less and ended by three dots.
pub open spec fn notice_of(message: Seq<char>, max_width: nat) -> Seq<char> {
    let padded = " "@ + message;
    if padded.len() > max_width {
        padded.take(if max_width > 3 {
            max_width - 3
        } else {
            0
        }) + "..."@
    } else {
        padded
    }
}

/// A notice cut to a width.
pub fn notice_text(message: &str, max_width: usize) -> (text: String)
    ensures
        text@ == notice_of(message@, max_width as nat),
{
    let mut padded = " ".to_string();
    padded.append(message);
    let chars = chars_of(padded.as_str());
    if chars.len() > max_width {
        let keep = if max_width > 3 {
            max_width - 3
        } else {
            0
        };
        let mut text = string_of(slice_of(chars.as_slice(), 0, keep).as_slice());
        assert(text@ =~= padded@.take(keep as int));
        text.append("...");
        text
    } else {
        padded
    }
}

} // verus!
