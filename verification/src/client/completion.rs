//! Tab completion for commands and channel names.

use super::app::{App, ChannelInfo, ChannelInfoView};
use crate::text::{
    chars_of, find_char, first_index, has_prefix, lemma_filter_step, lowercased, slice_of,
    split_words, starts_with, str_eq, string_of, trim_chars, trimmed, words,
};
use vstd::prelude::*;
use vstd::string::*;

verus! {

/// The control commands that completion knows, in the order in which they
/// are offered.
pub open spec fn commands() -> Seq<Seq<char>> {
    seq![
        "new"@,
        "kill"@,
        "list"@,
        "status"@,
        "sub"@,
        "unsub"@,
        "subs"@,
        "clear"@,
        "view"@,
        "timestamps"@,
        "help"@,
        "quit"@,
        "exit"@,
    ]
}

/// The control commands that completion knows.
pub fn command_names() -> (names: Vec<&'static str>)
    ensures
        names.deep_view() == commands(),
{
    let names = vec![
        "new",
        "kill",
        "list",
        "status",
        "sub",
        "unsub",
        "subs",
        "clear",
        "view",
        "timestamps",
        "help",
        "quit",
        "exit",
    ];
    assert(names.deep_view() =~= commands());
    names
}

/// The number of characters that two texts have in common at their start.
pub open spec fn common_len(a: Seq<char>, b: Seq<char>) -> nat
    decreases a.len(),
{
    if a.len() > 0 && b.len() > 0 && a[0] == b[0] {
        1 + common_len(a.drop_first(), b.drop_first())
    } else {
        0
    }
}

/// The number of characters at the start of `first` that all of `others` start with too.
pub open spec fn shared_len(first: Seq<char>, others: Seq<Seq<char>>) -> nat
    decreases others.len(),
{
    if others.len() == 0 {
        first.len()
    } else {
        let before = shared_len(first, others.drop_last());
        let here = common_len(first, others.last());
        if here < before {
            here
        } else {
            before
        }
    }
}

/// What all completions start with: nothing to say of no completions, the
/// completion itself where there is one, and else the longest start that
/// they all share, if it is not empty.
pub open spec fn longest_common_prefix(completions: Seq<Seq<char>>) -> Option<Seq<char>> {
    if completions.len() == 0 {
        None
    } else if completions.len() == 1 {
        Some(completions[0])
    } else {
        let shared = shared_len(completions[0], completions.skip(1));
        if shared > 0 {
            Some(completions[0].take(shared as int))
        } else {
            None
        }
    }
}

/// Two texts agree on as many characters as `common_len` says, and on no more.
pub proof fn lemma_common_len(a: Seq<char>, b: Seq<char>)
    ensures
        common_len(a, b) <= a.len(),
        common_len(a, b) <= b.len(),
        a.take(common_len(a, b) as int) == b.take(common_len(a, b) as int),
        common_len(a, b) < a.len() && common_len(a, b) < b.len() ==> a[common_len(a, b) as int]
            != b[common_len(a, b) as int],
    decreases a.len(),
{
    if a.len() > 0 && b.len() > 0 && a[0] == b[0] {
        lemma_common_len(a.drop_first(), b.drop_first());
        let k = common_len(a.drop_first(), b.drop_first());
        assert(a.take(k as int + 1) =~= seq![a[0]] + a.drop_first().take(k as int));
        assert(b.take(k as int + 1) =~= seq![b[0]] + b.drop_first().take(k as int));
        if k < a.len() - 1 && k < b.len() - 1 {
            assert(a.drop_first()[k as int] == a[k as int + 1]);
            assert(b.drop_first()[k as int] == b[k as int + 1]);
        }
    } else {
        assert(a.take(0) =~= b.take(0));
    }
}

/// Every completion starts with the shared start, and no longer start of
/// the first completion is shared by all.
pub proof fn lemma_shared_len(first: Seq<char>, others: Seq<Seq<char>>)
    ensures
        shared_len(first, others) <= first.len(),
        forall|i: int|
            0 <= i < others.len() ==> starts_with(
                #[trigger] others[i],
                first.take(shared_len(first, others) as int),
            ),
        shared_len(first, others) < first.len() ==> exists|i: int|
            0 <= i < others.len() && !starts_with(
                #[trigger] others[i],
                first.take(shared_len(first, others) as int + 1),
            ),
    decreases others.len(),
{
    if others.len() > 0 {
        let head = others.drop_last();
        let last = others.last();
        lemma_shared_len(first, head);
        lemma_common_len(first, last);
        let before = shared_len(first, head);
        let here = common_len(first, last);
        let k = shared_len(first, others);
        assert forall|i: int| 0 <= i < others.len() implies starts_with(
            #[trigger] others[i],
            first.take(k as int),
        ) by {
            if i < head.len() {
                assert(others[i] == head[i]);
                assert(starts_with(head[i], first.take(before as int)));
                assert(others[i].take(k as int) =~= others[i].take(before as int).take(k as int));
                assert(first.take(k as int) =~= first.take(before as int).take(k as int));
            } else {
                assert(others[i] == last);
                assert(last.take(k as int) =~= last.take(here as int).take(k as int));
                assert(first.take(k as int) =~= first.take(here as int).take(k as int));
            }
        }
        if k < first.len() {
            if here < before {
                assert(others[others.len() - 1] == last);
                if here < last.len() {
                    assert(last.take(here as int + 1)[here as int] != first.take(here as int + 1)[here as int]);
                }
                assert(!starts_with(last, first.take(k as int + 1)));
            } else {
                let i = choose|i: int|
                    0 <= i < head.len() && !starts_with(
                        #[trigger] head[i],
                        first.take(before as int + 1),
                    );
                assert(others[i] == head[i]);
            }
        }
    }
}

/// The number of characters that two texts have in common at their start.
fn count_common(a: &[char], b: &[char]) -> (n: usize)
    ensures
        n == common_len(a@, b@),
{
    let mut n: usize = 0;
    assert(a@.skip(0) =~= a@);
    assert(b@.skip(0) =~= b@);
    while n < a.len() && n < b.len() && a[n] == b[n]
        invariant
            n <= a.len(),
            n <= b.len(),
            common_len(a@, b@) == n + common_len(a@.skip(n as int), b@.skip(n as int)),
        decreases a.len() - n,
    {
        assert(a@.skip(n as int).drop_first() =~= a@.skip(n + 1));
        assert(b@.skip(n as int).drop_first() =~= b@.skip(n + 1));
        n += 1;
    }
    n
}

/// Get the common prefix of all completions.
pub fn common_prefix(completions: &[String]) -> (prefix: Option<String>)
    ensures
        prefix.deep_view() == longest_common_prefix(completions.deep_view()),
{
    if completions.len() == 0 {
        return None;
    }
    if completions.len() == 1 {
        return Some(completions[0].clone());
    }
    let first = chars_of(completions[0].as_str());
    let ghost others = completions.deep_view().skip(1);
    let mut shared: usize = first.len();
    let mut i: usize = 1;
    assert(others.take(0) =~= Seq::<Seq<char>>::empty());
    while i < completions.len()
        invariant
            1 <= i <= completions.len(),
            first@ == completions.deep_view()[0],
            others == completions.deep_view().skip(1),
            shared == shared_len(first@, others.take(i - 1)),
        decreases completions.len() - i,
    {
        let other = chars_of(completions[i].as_str());
        let here = count_common(first.as_slice(), other.as_slice());
        assert(others.take(i as int).drop_last() =~= others.take(i - 1));
        assert(others.take(i as int).last() == other@);
        if here < shared {
            shared = here;
        }
        i += 1;
    }
    assert(others.take(completions.len() - 1) =~= others);
    if shared > 0 {
        proof {
            lemma_shared_len(first@, others);
        }
        let prefix = string_of(slice_of(first.as_slice(), 0, shared).as_slice());
        assert(prefix@ =~= first@.take(shared as int));
        Some(prefix)
    } else {
        None
    }
}

/// Whether a command is worth offering: `kill` where a channel runs that
/// is not the active one, `sub` where a channel is not subscribed, `unsub`
/// where a channel is subscribed, and every other command always.
pub open spec fn worth_offering(
    command: Seq<char>,
    channels: Seq<ChannelInfoView>,
    active: Option<Seq<char>>,
) -> bool {
    if command == "kill"@ {
        exists|i: int|
            0 <= i < channels.len() && (#[trigger] channels[i]).running && active != Some(
                channels[i].name,
            )
    } else if command == "sub"@ {
        exists|i: int| 0 <= i < channels.len() && !(#[trigger] channels[i]).is_subscribed
    } else if command == "unsub"@ {
        exists|i: int| 0 <= i < channels.len() && (#[trigger] channels[i]).is_subscribed
    } else {
        true
    }
}

/// Whether a command completes what was typed of it and is worth offering.
pub open spec fn command_fits(
    typed: Seq<char>,
    channels: Seq<ChannelInfoView>,
    active: Option<Seq<char>>,
) -> spec_fn(Seq<char>) -> bool {
    |command: Seq<char>|
        starts_with(command, lowercased(typed)) && worth_offering(command, channels, active)
}

/// The text with the given characters before it.
pub open spec fn prefixed(start: Seq<char>) -> spec_fn(Seq<char>) -> Seq<char> {
    |text: Seq<char>| start + text
}

/// The completions of a command name of which `typed` was typed.
pub open spec fn command_completions(
    typed: Seq<char>,
    channels: Seq<ChannelInfoView>,
    active: Option<Seq<char>>,
) -> Seq<Seq<char>> {
    commands().filter(command_fits(typed, channels, active)).map_values(prefixed(":"@))
}

/// Whether a channel name completes what was typed of it, whatever the case of the letters.
pub open spec fn name_fits(typed: Seq<char>) -> spec_fn(Seq<char>) -> bool {
    |name: Seq<char>| starts_with(lowercased(name), lowercased(typed))
}

/// The completions of a channel name of which `typed` was typed.
pub open spec fn channel_completions(typed: Seq<char>, names: Seq<Seq<char>>) -> Seq<Seq<char>> {
    names.filter(name_fits(typed)).map_values(prefixed("#"@))
}

/// Whether a channel is one that a command can be given: `kill` takes a
/// running channel, `sub` one that is not subscribed, `unsub` one that is.
pub open spec fn takes_channel(command: Seq<char>, channel: ChannelInfoView) -> bool {
    if command == "kill"@ {
        channel.running
    } else if command == "sub"@ {
        !channel.is_subscribed
    } else if command == "unsub"@ {
        channel.is_subscribed
    } else {
        true
    }
}

/// Whether a channel completes the argument of a command.
pub open spec fn argument_fits(command: Seq<char>, typed: Seq<char>) -> spec_fn(
    ChannelInfoView,
) -> bool {
    |channel: ChannelInfoView|
        starts_with(lowercased(channel.name), lowercased(typed)) && takes_channel(
            command,
            channel,
        )
}

/// The name of a channel behind the given characters.
pub open spec fn name_behind(start: Seq<char>) -> spec_fn(ChannelInfoView) -> Seq<char> {
    |channel: ChannelInfoView| start + channel.name
}

/// The completions of the channel argument of a command: the input up to
/// and with its first space, followed by the name of each channel that fits.
pub open spec fn argument_completions(
    start: Seq<char>,
    command: Seq<char>,
    typed: Seq<char>,
    channels: Seq<ChannelInfoView>,
) -> Seq<Seq<char>> {
    channels.filter(argument_fits(command, typed)).map_values(name_behind(start))
}

/// The names of the channels, in order.
pub open spec fn names_of(channels: Seq<ChannelInfoView>) -> Seq<Seq<char>> {
    channels.map_values(|c: ChannelInfoView| c.name)
}

/// The completions of an input, once the whitespace around it is taken off.
///
/// An input that starts with `:` completes to command names as long as it
/// holds no space; behind the first space, the commands `kill`, `sub` and
/// `unsub` complete to channel names and the others to nothing. An input
/// that starts with `#` completes to channel names. Any other input
/// completes to nothing.
pub open spec fn completions(
    input: Seq<char>,
    channels: Seq<ChannelInfoView>,
    active: Option<Seq<char>>,
) -> Seq<Seq<char>> {
    let input = trimmed(input);
    if input.len() > 0 && input[0] == ':' {
        let rest = input.skip(1);
        let space = first_index(rest, ' ');
        if space < rest.len() {
            let command = rest.take(space);
            if command == "kill"@ || command == "sub"@ || command == "unsub"@ {
                argument_completions(
                    input.take(space + 2),
                    command,
                    trimmed(rest.skip(space)),
                    channels,
                )
            } else {
                Seq::empty()
            }
        } else {
            command_completions(rest, channels, active)
        }
    } else if input.len() > 0 && input[0] == '#' {
        channel_completions(input.skip(1), names_of(channels))
    } else {
        Seq::empty()
    }
}

/// The lowercase equivalent of a text, as characters.
fn lower_chars(text: &str) -> (lower: Vec<char>)
    ensures
        lower@ == lowercased(text@),
{
    chars_of(text.to_lowercase().as_str())
}

/// Whether a command is worth offering.
fn is_worth_offering(command: &str, channels: &[ChannelInfo], active: Option<&str>) -> (worth: bool)
    ensures
        worth == worth_offering(command@, channels.deep_view(), active.deep_view()),
{
    let kill = str_eq(command, "kill");
    let sub = str_eq(command, "sub");
    let unsub = str_eq(command, "unsub");
    if !kill && !sub && !unsub {
        return true;
    }
    let ghost views = channels.deep_view();
    let mut i: usize = 0;
    while i < channels.len()
        invariant
            i <= channels.len(),
            views == channels.deep_view(),
            kill == (command@ == "kill"@),
            sub == (command@ == "sub"@),
            unsub == (command@ == "unsub"@),
            kill ==> forall|j: int|
                0 <= j < i ==> !((#[trigger] views[j]).running && active.deep_view() != Some(
                    views[j].name,
                )),
            !kill && sub ==> forall|j: int| 0 <= j < i ==> (#[trigger] views[j]).is_subscribed,
            !kill && !sub ==> forall|j: int| 0 <= j < i ==> !(#[trigger] views[j]).is_subscribed,
        decreases channels.len() - i,
    {
        let channel = &channels[i];
        assert(views[i as int] == channel@);
        if kill {
            let is_active = match active {
                Some(name) => str_eq(name, channel.name.as_str()),
                None => false,
            };
            if channel.running && !is_active {
                return true;
            }
        } else if sub {
            if !channel.is_subscribed {
                return true;
            }
        } else {
            if channel.is_subscribed {
                return true;
            }
        }
        i += 1;
    }
    false
}

/// Complete a command name.
pub fn complete_command(partial: &str, channels: &[ChannelInfo], active: Option<&str>) -> (found:
    Vec<String>)
    ensures
        found.deep_view() == command_completions(
            partial@,
            channels.deep_view(),
            active.deep_view(),
        ),
{
    let typed = lower_chars(partial);
    let names = command_names();
    let ghost fits = command_fits(partial@, channels.deep_view(), active.deep_view());
    let ghost shown = prefixed(":"@);
    let mut found: Vec<String> = Vec::new();
    let mut i: usize = 0;
    assert(found.deep_view() =~= commands().take(0).filter(fits).map_values(shown)) by {
        reveal(Seq::filter);
    }
    while i < names.len()
        invariant
            i <= names.len(),
            names.deep_view() == commands(),
            typed@ == lowercased(partial@),
            fits == command_fits(partial@, channels.deep_view(), active.deep_view()),
            shown == prefixed(":"@),
            found.deep_view() == commands().take(i as int).filter(fits).map_values(shown),
        decreases names.len() - i,
    {
        let ghost before = found.deep_view();
        let ghost name = commands()[i as int];
        assert(names.deep_view()[i as int] == names@[i as int]@);
        proof {
            lemma_filter_step(commands(), fits, i as int);
        }
        let command = chars_of(names[i]);
        if has_prefix(command.as_slice(), typed.as_slice()) && is_worth_offering(
            names[i],
            channels,
            active,
        ) {
            let mut shown_as = ":".to_string();
            shown_as.append(names[i]);
            found.push(shown_as);
            assert(found.deep_view() =~= before.push(shown(name)));
            assert(commands().take(i + 1).filter(fits).map_values(shown) =~= before.push(
                shown(name),
            ));
        }
        i += 1;
    }
    assert(commands().take(names.len() as int) =~= commands());
    found
}

/// Complete a channel name.
pub fn complete_channel(partial: &str, channel_names: &[String]) -> (found: Vec<String>)
    ensures
        found.deep_view() == channel_completions(partial@, channel_names.deep_view()),
{
    let typed = lower_chars(partial);
    let ghost names = channel_names.deep_view();
    let ghost fits = name_fits(partial@);
    let ghost shown = prefixed("#"@);
    let mut found: Vec<String> = Vec::new();
    let mut i: usize = 0;
    assert(found.deep_view() =~= names.take(0).filter(fits).map_values(shown)) by {
        reveal(Seq::filter);
    }
    while i < channel_names.len()
        invariant
            i <= channel_names.len(),
            names == channel_names.deep_view(),
            typed@ == lowercased(partial@),
            fits == name_fits(partial@),
            shown == prefixed("#"@),
            found.deep_view() == names.take(i as int).filter(fits).map_values(shown),
        decreases channel_names.len() - i,
    {
        let ghost before = found.deep_view();
        proof {
            lemma_filter_step(names, fits, i as int);
        }
        let name = lower_chars(channel_names[i].as_str());
        if has_prefix(name.as_slice(), typed.as_slice()) {
            let mut shown_as = "#".to_string();
            shown_as.append(channel_names[i].as_str());
            found.push(shown_as);
            assert(found.deep_view() =~= before.push(shown(names[i as int])));
            assert(names.take(i + 1).filter(fits).map_values(shown) =~= before.push(
                shown(names[i as int]),
            ));
        }
        i += 1;
    }
    assert(names.take(channel_names.len() as int) =~= names);
    found
}

/// Complete a channel argument for a command.
pub fn complete_channel_arg(start: &str, command: &str, partial_arg: &str, channels: &[ChannelInfo]) -> (found:
    Vec<String>)
    ensures
        found.deep_view() == argument_completions(
            start@,
            command@,
            partial_arg@,
            channels.deep_view(),
        ),
{
    let typed = lower_chars(partial_arg);
    let kill = str_eq(command, "kill");
    let sub = str_eq(command, "sub");
    let unsub = str_eq(command, "unsub");
    let ghost views = channels.deep_view();
    let ghost fits = argument_fits(command@, partial_arg@);
    let ghost shown = name_behind(start@);
    let mut found: Vec<String> = Vec::new();
    let mut i: usize = 0;
    assert(found.deep_view() =~= views.take(0).filter(fits).map_values(shown)) by {
        reveal(Seq::filter);
    }
    while i < channels.len()
        invariant
            i <= channels.len(),
            views == channels.deep_view(),
            typed@ == lowercased(partial_arg@),
            kill == (command@ == "kill"@),
            sub == (command@ == "sub"@),
            unsub == (command@ == "unsub"@),
            fits == argument_fits(command@, partial_arg@),
            shown == name_behind(start@),
            found.deep_view() == views.take(i as int).filter(fits).map_values(shown),
        decreases channels.len() - i,
    {
        let ghost before = found.deep_view();
        proof {
            lemma_filter_step(views, fits, i as int);
        }
        let channel = &channels[i];
        assert(views[i as int] == channel@);
        let name = lower_chars(channel.name.as_str());
        let takes = if kill {
            channel.running
        } else if sub {
            !channel.is_subscribed
        } else if unsub {
            channel.is_subscribed
        } else {
            true
        };
        if has_prefix(name.as_slice(), typed.as_slice()) && takes {
            let mut shown_as = start.to_owned();
            shown_as.append(channel.name.as_str());
            found.push(shown_as);
            assert(found.deep_view() =~= before.push(shown(views[i as int])));
            assert(views.take(i + 1).filter(fits).map_values(shown) =~= before.push(
                shown(views[i as int]),
            ));
        }
        i += 1;
    }
    assert(views.take(channels.len() as int) =~= views);
    found
}

/// The names of the channels, in order.
fn channel_names(channels: &[ChannelInfo]) -> (names: Vec<String>)
    ensures
        names.deep_view() == names_of(channels.deep_view()),
{
    let mut names: Vec<String> = Vec::new();
    let mut i: usize = 0;
    while i < channels.len()
        invariant
            i <= channels.len(),
            names.len() == i,
            forall|j: int| 0 <= j < i ==> names@[j]@ == channels@[j]@.name,
        decreases channels.len() - i,
    {
        names.push(channels[i].name.clone());
        i += 1;
    }
    assert(names.deep_view() =~= names_of(channels.deep_view()));
    names
}

/// Complete a partial input string: the list of possible completions.
pub fn complete(input: &str, app: &App) -> (found: Vec<String>)
    ensures
        found.deep_view() == completions(
            input@,
            app.channels.deep_view(),
            app.active_channel.deep_view(),
        ),
{
    let all = chars_of(input);
    let chars = trim_chars(all.as_slice());
    let n = chars.len();
    let active = match &app.active_channel {
        Some(name) => Some(name.as_str()),
        None => None,
    };
    if n > 0 && chars[0] == ':' {
        let ghost rest = chars@.skip(1);
        let space = find_char(chars.as_slice(), 1, ' ');
        if space < n {
            let command = string_of(slice_of(chars.as_slice(), 1, space).as_slice());
            assert(command@ =~= rest.take(space - 1));
            if str_eq(command.as_str(), "kill") || str_eq(command.as_str(), "sub") || str_eq(
                command.as_str(),
                "unsub",
            ) {
                let tail = slice_of(chars.as_slice(), space, n);
                assert(tail@ =~= rest.skip(space - 1));
                let typed = string_of(trim_chars(tail.as_slice()).as_slice());
                let start = string_of(slice_of(chars.as_slice(), 0, space + 1).as_slice());
                assert(start@ =~= chars@.take(space - 1 + 2));
                return complete_channel_arg(
                    start.as_str(),
                    command.as_str(),
                    typed.as_str(),
                    app.channels.as_slice(),
                );
            }
            let none: Vec<String> = Vec::new();
            assert(none.deep_view() =~= Seq::<Seq<char>>::empty());
            return none;
        }
        let typed = string_of(slice_of(chars.as_slice(), 1, n).as_slice());
        assert(typed@ =~= rest);
        return complete_command(typed.as_str(), app.channels.as_slice(), active);
    }
    if n > 0 && chars[0] == '#' {
        let typed = string_of(slice_of(chars.as_slice(), 1, n).as_slice());
        assert(typed@ =~= chars@.skip(1));
        let names = channel_names(app.channels.as_slice());
        return complete_channel(typed.as_str(), names.as_slice());
    }
    let none: Vec<String> = Vec::new();
    assert(none.deep_view() =~= Seq::<Seq<char>>::empty());
    none
}

} // verus!
