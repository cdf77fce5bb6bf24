//! What the user is told of what the daemon reports.

use super::commands::{comma_joined, join};
use crate::protocol::{ChannelEvent, ChannelEventView, ChannelStatus, ChannelStatusView};
use crate::text::{decimal, push_decimal};
use vstd::prelude::*;
use vstd::string::*;

verus! {

/// A number as it is written: its decimal digits, behind a minus sign
/// where it is negative.
pub open spec fn signed_decimal(n: int) -> Seq<char> {
    if n < 0 {
        "-"@ + decimal((-n) as nat)
    } else {
        decimal(n as nat)
    }
}

/// An exit code as it is shown: `Some(<code>)`, or `None`.
pub open spec fn shown_code(code: Option<i32>) -> Seq<char> {
    match code {
        Some(c) => "Some("@ + signed_decimal(c as int) + ")"@,
        None => "None"@,
    }
}

/// A process id as it is shown: `Some(<pid>)`, or `None`.
pub open spec fn shown_pid(pid: Option<u32>) -> Seq<char> {
    match pid {
        Some(p) => "Some("@ + decimal(p as nat) + ")"@,
        None => "None"@,
    }
}

/// Appends an exit code as it is shown.
fn push_code(text: &mut String, code: Option<i32>)
    ensures
        final(text)@ == old(text)@ + shown_code(code),
{
    match code {
        Some(c) => {
            text.append("Some(");
            if c < 0 {
                text.append("-");
                push_decimal(text, (-(c as i64)) as u64);
            } else {
                push_decimal(text, c as u64);
            }
            text.append(")");
            assert(text@ =~= old(text)@ + shown_code(code));
        },
        None => {
            text.append("None");
        },
    }
}

/// Appends a process id as it is shown.
fn push_pid(text: &mut String, pid: Option<u32>)
    ensures
        final(text)@ == old(text)@ + shown_pid(pid),
{
    match pid {
        Some(p) => {
            text.append("Some(");
            push_decimal(text, p as u64);
            text.append(")");
            assert(text@ =~= old(text)@ + shown_pid(pid));
        },
        None => {
            text.append("None");
        },
    }
}

/// The line that tells the status of a channel.
pub open spec fn status_text(status: ChannelStatusView) -> Seq<char> {
    "#"@ + status.name + " "@ + (if status.running {
        "running"@
    } else {
        "stopped"@
    }) + " pid="@ + shown_pid(status.pid) + " exit="@ + shown_code(status.exit_code) + " cwd="@
        + status.working_dir + " cmd="@ + status.command
}

/// The line that tells the status of a channel.
pub fn status_line(status: &ChannelStatus) -> (line: String)
    ensures
        line@ == status_text(status@),
{
    let mut line = "#".to_string();
    line.append(status.name.as_str());
    line.append(" ");
    if status.running {
        line.append("running");
    } else {
        line.append("stopped");
    }
    line.append(" pid=");
    push_pid(&mut line, status.pid);
    line.append(" exit=");
    push_code(&mut line, status.exit_code);
    line.append(" cwd=");
    line.append(status.working_dir.as_str());
    line.append(" cmd=");
    line.append(status.command.as_str());
    assert(line@ =~= status_text(status@));
    line
}

/// A notice for the user, and the number of seconds for which it shows.
#[derive(Debug, Clone)]
pub struct Notice {
    pub message: String,
    pub seconds: u64,
}

/// What the user is told of a channel event, if anything: that a channel
/// was created, exited or was killed, and that the active channel changed.
pub open spec fn event_text(event: ChannelEventView) -> Option<(Seq<char>, u64)> {
    match event {
        ChannelEventView::Created { name } => Some(("Channel #"@ + name + " created."@, 3u64)),
        ChannelEventView::Exited { name, exit_code } => Some(
            ("Channel #"@ + name + " exited with code "@ + shown_code(exit_code), 3u64),
        ),
        ChannelEventView::Killed { name } => Some(("Channel #"@ + name + " killed."@, 3u64)),
        ChannelEventView::ActiveChanged { name } => Some(("Switched to #"@ + name, 2u64)),
        ChannelEventView::SubscriptionChanged { subscribed } => None,
    }
}

/// What the user is told of a channel event, if anything.
pub fn event_notice(event: &ChannelEvent) -> (notice: Option<Notice>)
    ensures
        match event_text(event@) {
            Some((message, seconds)) => notice matches Some(n) && n.message@ == message
                && n.seconds == seconds,
            None => notice is None,
        },
{
    match event {
        ChannelEvent::Created { name } => {
            let mut message = "Channel #".to_string();
            message.append(name.as_str());
            message.append(" created.");
            Some(Notice { message, seconds: 3 })
        },
        ChannelEvent::Exited { name, exit_code } => {
            let mut message = "Channel #".to_string();
            message.append(name.as_str());
            message.append(" exited with code ");
            push_code(&mut message, *exit_code);
            Some(Notice { message, seconds: 3 })
        },
        ChannelEvent::Killed { name } => {
            let mut message = "Channel #".to_string();
            message.append(name.as_str());
            message.append(" killed.");
            Some(Notice { message, seconds: 3 })
        },
        ChannelEvent::ActiveChanged { name } => {
            let mut message = "Switched to #".to_string();
            message.append(name.as_str());
            Some(Notice { message, seconds: 2 })
        },
        ChannelEvent::SubscriptionChanged { .. } => None,
    }
}

/// The line that tells the user that the subscriptions changed.
pub open spec fn updated_text(subscribed: Seq<Seq<char>>) -> Seq<char> {
    "Subscriptions updated: "@ + if subscribed.len() == 0 {
        "none"@
    } else {
        comma_joined(subscribed)
    }
}

/// The line that tells the user that the subscriptions changed.
pub fn subscriptions_updated(subscribed: &Vec<String>) -> (line: String)
    ensures
        line@ == updated_text(subscribed.deep_view()),
{
    let mut line = "Subscriptions updated: ".to_string();
    if subscribed.len() == 0 {
        line.append("none");
    } else {
        let parts = subscribed.as_slice();
        let names = join(parts, 0, ", ");
        proof {
            reveal_strlit(", ");
            assert(parts.deep_view().skip(0) =~= subscribed.deep_view());
        }
        line.append(names.as_str());
    }
    line
}

/// The notice of output on a channel in the background.
pub fn output_notice(channel: &str) -> (notice: Notice)
    ensures
        notice.message@ == "New output in #"@ + channel@,
        notice.seconds == 3,
{
    let mut message = "New output in #".to_string();
    message.append(channel);
    Notice { message, seconds: 3 }
}

/// The line that tells the user of an error that the daemon reports.
pub fn error_line(message: &str) -> (line: String)
    ensures
        line@ == "Error: "@ + message@,
{
    let mut line = "Error: ".to_string();
    line.append(message);
    line
}

/// Whether output in the background is worth a notice: it is where the
/// channel was not noticed before, or not within the cooldown.
pub fn should_notify(last: Option<i64>, now: i64, cooldown_millis: i64) -> (notify: bool)
    ensures
        notify == (match last {
            Some(at) => now - at >= cooldown_millis,
            None => true,
        }),
{
    match last {
        Some(at) => {
            if at <= now {
                // no overflow: both are on the same side of the difference
                if now >= 0 && at < 0 {
                    if now > i64::MAX + at {
                        // the difference is beyond every cooldown
                        true
                    } else {
                        now - at >= cooldown_millis
                    }
                } else {
                    now - at >= cooldown_millis
                }
            } else {
                if at >= 0 && now < 0 {
                    if now < i64::MIN + at {
                        false
                    } else {
                        now - at >= cooldown_millis
                    }
                } else {
                    now - at >= cooldown_millis
                }
            }
        },
        None => true,
    }
}

} // verus!
