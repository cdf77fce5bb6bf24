//! State of the client's user interface: the channels it knows, the line
//! being edited, and what is shown.

use super::store::{keep_newest, lemma_place, lemma_stored, lookup, newest, stored, NameMap};
use crate::text::{
    chars_of, first_name, is_whitespace_char, lemma_boundary_between, lemma_encode_concat,
    split_str, str_eq, substring_of, trim_end_index, trimmed_end,
};
use vstd::prelude::*;
use vstd::string::*;
use vstd::utf8::*;

verus! {

/// What the client knows of a channel.
#[derive(Debug, Clone)]
pub struct ChannelInfo {
    pub name: String,
    pub running: bool,
    pub has_new_output: bool,
    pub exit_code: Option<i32>,
    pub is_subscribed: bool,
}

/// Mathematical value of a [`ChannelInfo`].
pub struct ChannelInfoView {
    pub name: Seq<char>,
    pub running: bool,
    pub has_new_output: bool,
    pub exit_code: Option<i32>,
    pub is_subscribed: bool,
}

impl View for ChannelInfo {
    type V = ChannelInfoView;

    open spec fn view(&self) -> ChannelInfoView {
        ChannelInfoView {
            name: self.name@,
            running: self.running,
            has_new_output: self.has_new_output,
            exit_code: self.exit_code,
            is_subscribed: self.is_subscribed,
        }
    }
}

impl DeepView for ChannelInfo {
    type V = ChannelInfoView;

    open spec fn deep_view(&self) -> ChannelInfoView {
        self@
    }
}

/// The mark shown beside a channel's name: how a stopped channel ended, or
/// that a running channel has output that was not looked at yet.
pub open spec fn status_mark(running: bool, has_new_output: bool, exit_code: Option<i32>) -> Seq<
    char,
> {
    if !running {
        match exit_code {
            Some(code) => if code == 0 {
                ": \u{2713}"@
            } else {
                ": \u{2717}"@
            },
            None => ": stopped"@,
        }
    } else if has_new_output {
        "*"@
    } else {
        ""@
    }
}

impl ChannelInfo {
    /// The mark shown beside the channel's name.
    pub fn status_indicator(&self) -> (mark: &'static str)
        ensures
            mark@ == status_mark(self.running, self.has_new_output, self.exit_code),
    {
        if !self.running {
            if let Some(code) = self.exit_code {
                if code == 0 {
                    return ": \u{2713}";
                } else {
                    return ": \u{2717}";
                }
            }
            return ": stopped";
        }
        if self.has_new_output {
            return "*";
        }
        ""
    }
}

/// What the output area shows.
#[derive(Debug, Clone, Copy, PartialEq, Eq, Structural)]
pub enum ViewMode {
    /// Only the active channel's output.
    ActiveChannel,
    /// The output of all subscribed channels, interleaved.
    AllChannels,
}

/// Mathematical value of a [`LineEditor`]: the text of the line, and the
/// number of characters that stand before the cursor.
pub struct LineView {
    pub text: Seq<char>,
    pub position: nat,
}

/// Where the word starts that ends at the end of `before`: behind the last
/// whitespace character that is followed by something else than whitespace,
/// or at the start.
pub open spec fn word_start(before: Seq<char>) -> nat {
    after_last_whitespace(trimmed_end(before))
}

/// The number of characters up to and with the last whitespace character.
pub open spec fn after_last_whitespace(text: Seq<char>) -> nat
    decreases text.len(),
{
    if text.len() == 0 {
        0
    } else if is_whitespace_char(text.last()) {
        text.len()
    } else {
        after_last_whitespace(text.drop_last())
    }
}

/// Input line editor with cursor position tracking.
#[derive(Debug)]
pub struct LineEditor {
    /// The text of the line.
    buffer: String,
    /// The cursor, as the number of bytes of the text that stand before it.
    cursor: usize,
}

impl View for LineEditor {
    type V = LineView;

    closed spec fn view(&self) -> LineView {
        LineView {
            text: self.buffer@,
            position: decode_utf8(encode_utf8(self.buffer@).subrange(0, self.cursor as int)).len(),
        }
    }
}

impl LineEditor {
    /// The cursor stands between two characters of the text, or at one of its ends.
    pub closed spec fn wf(&self) -> bool {
        is_char_boundary(encode_utf8(self.buffer@), self.cursor as int)
    }

    /// The cursor of a well-formed editor stands within the text.
    proof fn lemma_position_within(&self)
        requires
            self.wf(),
        ensures
            self@.position <= self@.text.len(),
            self.cursor == encode_utf8(self@.text.take(self@.position as int)).len(),
    {
        let bytes = encode_utf8(self.buffer@);
        encode_utf8_valid_utf8(self.buffer@);
        encode_utf8_decode_utf8(self.buffer@);
        decode_utf8_split(bytes, self.cursor as int);
        valid_utf8_split(bytes, self.cursor as int);
        assert(self.cursor <= bytes.len()) by {
            reveal_with_fuel(is_char_boundary, 1);
        }
        let first = bytes.subrange(0, self.cursor as int);
        let x = decode_utf8(first);
        let y = decode_utf8(bytes.subrange(self.cursor as int, bytes.len() as int));
        assert(self.buffer@ =~= x + y);
        assert(self.buffer@.take(x.len() as int) =~= x);
        decode_utf8_encode_utf8(first);
    }

    /// The cursor of a well-formed editor stands within the text: at most
    /// as many characters stand before it as the text has.
    pub proof fn lemma_cursor_within(&self)
        requires
            self.wf(),
        ensures
            self@.position <= self@.text.len(),
    {
        self.lemma_position_within();
    }

    /// The text before the cursor and the text after it.
    fn split(&self) -> (parts: (&str, &str))
        requires
            self.wf(),
        ensures
            parts.0@ == self@.text.take(self@.position as int),
            parts.1@ == self@.text.skip(self@.position as int),
            parts.0@ + parts.1@ == self@.text,
            self@.position <= self@.text.len(),
    {
        let parts = split_str(self.buffer.as_str(), self.cursor);
        proof {
            assert(self.buffer@.take(parts.0@.len() as int) =~= parts.0@);
            assert(self.buffer@.skip(parts.0@.len() as int) =~= parts.1@);
        }
        parts
    }

    /// The editor whose text is `before` followed by `after`, with the
    /// cursor between the two.
    fn assemble(before: String, after: &str) -> (editor: Self)
        ensures
            editor.wf(),
            editor@ == (LineView { text: before@ + after@, position: before@.len() }),
    {
        let cursor = before.as_str().as_bytes().len();
        let ghost x = before@;
        let mut buffer = before;
        buffer.append(after);
        proof {
            lemma_encode_concat(x, after@);
            lemma_boundary_between(x, after@);
            encode_utf8_decode_utf8(x);
            assert(encode_utf8(x + after@).subrange(0, encode_utf8(x).len() as int)
                =~= encode_utf8(x));
        }
        Self { buffer, cursor }
    }

    /// An editor with an empty line.
    pub fn new() -> (editor: Self)
        ensures
            editor.wf(),
            editor@ == (LineView { text: Seq::empty(), position: 0 }),
    {
        let editor = Self::assemble(String::new(), "");
        proof {
            reveal_strlit("");
            assert(Seq::<char>::empty() + ""@ =~= Seq::<char>::empty());
        }
        editor
    }

    /// The text of the line.
    pub fn content(&self) -> (text: &str)
        ensures
            text@ == self@.text,
    {
        self.buffer.as_str()
    }

    /// The cursor, as the number of bytes of the text that stand before it.
    pub fn cursor_position(&self) -> (cursor: usize)
        requires
            self.wf(),
        ensures
            cursor == encode_utf8(self@.text.take(self@.position as int)).len(),
    {
        proof {
            self.lemma_position_within();
        }
        self.cursor
    }

    /// Whether the line is empty.
    pub fn is_empty(&self) -> (empty: bool)
        ensures
            empty == (self@.text.len() == 0),
    {
        self.buffer.as_str().is_empty()
    }

    /// Puts a character in at the cursor, which moves behind it.
    pub fn insert(&mut self, c: char)
        requires
            old(self).wf(),
        ensures
            final(self).wf(),
            final(self)@ == (LineView {
                text: old(self)@.text.insert(old(self)@.position as int, c),
                position: old(self)@.position + 1,
            }),
    {
        let (before, after) = self.split();
        let mut head = before.to_owned();
        head.push(c);
        let tail = after.to_owned();
        assert(head@ + tail@ =~= old(self)@.text.insert(old(self)@.position as int, c));
        *self = Self::assemble(head, tail.as_str());
    }

    /// Takes out the character before the cursor, if there is one, and
    /// says whether there was.
    pub fn backspace(&mut self) -> (changed: bool)
        requires
            old(self).wf(),
        ensures
            final(self).wf(),
            changed == (old(self)@.position > 0),
            changed ==> final(self)@ == (LineView {
                text: old(self)@.text.remove(old(self)@.position - 1),
                position: (old(self)@.position - 1) as nat,
            }),
            !changed ==> final(self)@ == old(self)@,
    {
        let (before, after) = self.split();
        let chars = chars_of(before);
        if chars.len() == 0 {
            return false;
        }
        let head = substring_of(chars.as_slice(), 0, chars.len() - 1);
        let tail = after.to_owned();
        assert(head@ + tail@ =~= old(self)@.text.remove(old(self)@.position - 1));
        *self = Self::assemble(head, tail.as_str());
        true
    }

    /// Takes out the character at the cursor, if there is one, and says
    /// whether there was.
    pub fn delete(&mut self) -> (changed: bool)
        requires
            old(self).wf(),
        ensures
            final(self).wf(),
            changed == (old(self)@.position < old(self)@.text.len()),
            changed ==> final(self)@ == (LineView {
                text: old(self)@.text.remove(old(self)@.position as int),
                position: old(self)@.position,
            }),
            !changed ==> final(self)@ == old(self)@,
    {
        let (before, after) = self.split();
        let chars = chars_of(after);
        if chars.len() == 0 {
            return false;
        }
        let head = before.to_owned();
        let tail = substring_of(chars.as_slice(), 1, chars.len());
        assert(head@ + tail@ =~= old(self)@.text.remove(old(self)@.position as int));
        *self = Self::assemble(head, tail.as_str());
        true
    }

    /// Moves the cursor one character to the left, if it is not at the
    /// start, and says whether it moved.
    pub fn move_left(&mut self) -> (moved: bool)
        requires
            old(self).wf(),
        ensures
            final(self).wf(),
            moved == (old(self)@.position > 0),
            final(self)@.text == old(self)@.text,
            moved ==> final(self)@.position == old(self)@.position - 1,
            !moved ==> final(self)@.position == old(self)@.position,
    {
        let (before, after) = self.split();
        let chars = chars_of(before);
        if chars.len() == 0 {
            return false;
        }
        let head = substring_of(chars.as_slice(), 0, chars.len() - 1);
        let mut tail = substring_of(chars.as_slice(), chars.len() - 1, chars.len());
        tail.append(after);
        assert(head@ + tail@ =~= old(self)@.text);
        *self = Self::assemble(head, tail.as_str());
        true
    }

    /// Moves the cursor one character to the right, if it is not at the
    /// end, and says whether it moved.
    pub fn move_right(&mut self) -> (moved: bool)
        requires
            old(self).wf(),
        ensures
            final(self).wf(),
            moved == (old(self)@.position < old(self)@.text.len()),
            final(self)@.text == old(self)@.text,
            moved ==> final(self)@.position == old(self)@.position + 1,
            !moved ==> final(self)@.position == old(self)@.position,
    {
        let (before, after) = self.split();
        let chars = chars_of(after);
        if chars.len() == 0 {
            return false;
        }
        let mut head = before.to_owned();
        head.push(chars[0]);
        let tail = substring_of(chars.as_slice(), 1, chars.len());
        assert(head@ + tail@ =~= old(self)@.text);
        *self = Self::assemble(head, tail.as_str());
        true
    }

    /// Moves the cursor to the start, and says whether it moved.
    pub fn move_home(&mut self) -> (moved: bool)
        requires
            old(self).wf(),
        ensures
            final(self).wf(),
            moved == (old(self)@.position > 0),
            final(self)@ == (LineView { text: old(self)@.text, position: 0 }),
    {
        let (before, _after) = self.split();
        if before.is_empty() {
            return false;
        }
        let text = self.buffer.clone();
        assert(Seq::<char>::empty() + text@ =~= text@);
        *self = Self::assemble(String::new(), text.as_str());
        true
    }

    /// Moves the cursor to the end, and says whether it moved.
    pub fn move_end(&mut self) -> (moved: bool)
        requires
            old(self).wf(),
        ensures
            final(self).wf(),
            moved == (old(self)@.position < old(self)@.text.len()),
            final(self)@ == (LineView { text: old(self)@.text, position: old(self)@.text.len() }),
    {
        let (_before, after) = self.split();
        if after.is_empty() {
            return false;
        }
        let text = self.buffer.clone();
        proof {
            reveal_strlit("");
            assert(text@ + ""@ =~= text@);
        }
        *self = Self::assemble(text, "");
        true
    }

    /// Takes out the word before the cursor: the whitespace that stands
    /// directly before the cursor, and the characters before that back to
    /// the whitespace before them. Says whether the cursor stood behind
    /// anything.
    pub fn delete_word_backward(&mut self) -> (changed: bool)
        requires
            old(self).wf(),
        ensures
            final(self).wf(),
            changed == (old(self)@.position > 0),
            changed ==> final(self)@ == (LineView {
                text: old(self)@.text.take(
                    word_start(old(self)@.text.take(old(self)@.position as int)) as int,
                ) + old(self)@.text.skip(old(self)@.position as int),
                position: word_start(old(self)@.text.take(old(self)@.position as int)),
            }),
            !changed ==> final(self)@ == old(self)@,
    {
        let (before, after) = self.split();
        let chars = chars_of(before);
        if chars.len() == 0 {
            return false;
        }
        let stop = trim_end_index(chars.as_slice(), 0, chars.len());
        assert(chars@.subrange(0, chars.len() as int) =~= chars@);
        let ghost trimmed = chars@.subrange(0, stop as int);
        let mut start: usize = stop;
        while start > 0 && !chars[start - 1].is_whitespace()
            invariant
                start <= stop <= chars.len(),
                trimmed == chars@.subrange(0, stop as int),
                after_last_whitespace(chars@.subrange(0, start as int)) == after_last_whitespace(
                    trimmed,
                ),
            decreases start,
        {
            assert(chars@.subrange(0, start as int).drop_last() =~= chars@.subrange(0, start - 1));
            start -= 1;
        }
        assert(start == word_start(chars@));
        let head = substring_of(chars.as_slice(), 0, start);
        let tail = after.to_owned();
        assert(head@ =~= old(self)@.text.take(start as int));
        *self = Self::assemble(head, tail.as_str());
        true
    }

    /// Takes out everything from the cursor to the end, and says whether
    /// there was anything.
    pub fn delete_to_end(&mut self) -> (changed: bool)
        requires
            old(self).wf(),
        ensures
            final(self).wf(),
            changed == (old(self)@.position < old(self)@.text.len()),
            final(self)@ == (LineView {
                text: old(self)@.text.take(old(self)@.position as int),
                position: old(self)@.position,
            }),
    {
        let (before, after) = self.split();
        if after.is_empty() {
            proof {
                assert(old(self)@.text.take(old(self)@.position as int) =~= old(self)@.text);
            }
            return false;
        }
        let head = before.to_owned();
        proof {
            reveal_strlit("");
            assert(head@ + ""@ =~= head@);
        }
        *self = Self::assemble(head, "");
        true
    }

    /// Takes out everything from the start to the cursor, which then
    /// stands at the start, and says whether there was anything.
    pub fn delete_to_start(&mut self) -> (changed: bool)
        requires
            old(self).wf(),
        ensures
            final(self).wf(),
            changed == (old(self)@.position > 0),
            final(self)@ == (LineView {
                text: old(self)@.text.skip(old(self)@.position as int),
                position: 0,
            }),
    {
        let (before, after) = self.split();
        if before.is_empty() {
            proof {
                assert(old(self)@.text.skip(0) =~= old(self)@.text);
            }
            return false;
        }
        let tail = after.to_owned();
        assert(Seq::<char>::empty() + tail@ =~= tail@);
        *self = Self::assemble(String::new(), tail.as_str());
        true
    }

    /// Empties the line.
    pub fn clear(&mut self)
        ensures
            final(self).wf(),
            final(self)@ == (LineView { text: Seq::empty(), position: 0 }),
    {
        *self = Self::new();
    }

    /// Replaces the line by `content` and puts the cursor at its end.
    pub fn set(&mut self, content: &str)
        ensures
            final(self).wf(),
            final(self)@ == (LineView { text: content@, position: content@.len() }),
    {
        proof {
            reveal_strlit("");
            assert(content@ + ""@ =~= content@);
        }
        *self = Self::assemble(content.to_owned(), "");
    }

    /// Hands the line out and leaves the editor with an empty one.
    pub fn take(&mut self) -> (content: String)
        ensures
            final(self).wf(),
            content@ == old(self)@.text,
            final(self)@ == (LineView { text: Seq::empty(), position: 0 }),
    {
        let content = self.buffer.clone();
        *self = Self::new();
        content
    }
}

/// One line of channel output with the time at which it arrived, in
/// milliseconds since the Unix epoch.
#[derive(Debug, Clone)]
pub struct BufferedLine {
    pub content: String,
    pub timestamp: i64,
}

/// Mathematical value of a [`BufferedLine`].
pub struct BufferedLineView {
    pub content: Seq<char>,
    pub timestamp: i64,
}

impl View for BufferedLine {
    type V = BufferedLineView;

    open spec fn view(&self) -> BufferedLineView {
        BufferedLineView { content: self.content@, timestamp: self.timestamp }
    }
}

impl DeepView for BufferedLine {
    type V = BufferedLineView;

    open spec fn deep_view(&self) -> BufferedLineView {
        self@
    }
}

/// A line of output that arrived at the given time.
pub open spec fn line_at(content: Seq<char>, timestamp: i64) -> BufferedLineView {
    BufferedLineView { content, timestamp }
}

/// The colours that channels are told apart by.
#[derive(Debug, Clone, Copy, PartialEq, Eq, Structural)]
pub enum ChannelColor {
    Blue,
    Magenta,
    Cyan,
    Yellow,
    Green,
    Red,
}

/// The colours in the order in which they are given out.
pub open spec fn palette() -> Seq<ChannelColor> {
    seq![
        ChannelColor::Blue,
        ChannelColor::Magenta,
        ChannelColor::Cyan,
        ChannelColor::Yellow,
        ChannelColor::Green,
        ChannelColor::Red,
    ]
}

/// Whether a colour is given to some channel.
pub open spec fn color_used(colors: Seq<(Seq<char>, ChannelColor)>, color: ChannelColor) -> bool {
    exists|i: int| 0 <= i < colors.len() && (#[trigger] colors[i]).1 == color
}

/// The first colour of the palette, at or after `from`, that no channel
/// has; the number of colours where every one is taken.
pub open spec fn first_free(colors: Seq<(Seq<char>, ChannelColor)>, from: int) -> int
    decreases palette().len() - from,
{
    if from < 0 || from >= palette().len() {
        palette().len() as int
    } else if !color_used(colors, palette()[from]) {
        from
    } else {
        first_free(colors, from + 1)
    }
}

/// The colour that the next channel gets: the first of the palette that no
/// channel has, and where all are taken, the one at the place that the
/// number of channels with a colour gives, counted round the palette.
pub open spec fn next_color(colors: Seq<(Seq<char>, ChannelColor)>) -> ChannelColor {
    if first_free(colors, 0) < palette().len() {
        palette()[first_free(colors, 0)]
    } else {
        palette()[colors.len() as int % 6]
    }
}

/// The name that follows the active one in the list, going round: the
/// first name where none is active, and the active one itself where it is
/// not in the list.
pub open spec fn name_after(names: Seq<Seq<char>>, active: Option<Seq<char>>) -> Option<Seq<char>> {
    if names.len() == 0 {
        active
    } else {
        match active {
            Some(current) => if crate::text::first_name(names, current) < names.len() {
                if crate::text::first_name(names, current) + 1 == names.len() {
                    Some(names[0])
                } else {
                    Some(names[crate::text::first_name(names, current) + 1])
                }
            } else {
                active
            },
            None => Some(names[0]),
        }
    }
}

/// The name that stands before the active one in the list, going round: the
/// first name where none is active, and the active one itself where it is
/// not in the list.
pub open spec fn name_before(names: Seq<Seq<char>>, active: Option<Seq<char>>) -> Option<
    Seq<char>,
> {
    if names.len() == 0 {
        active
    } else {
        match active {
            Some(current) => if crate::text::first_name(names, current) < names.len() {
                if crate::text::first_name(names, current) == 0 {
                    Some(names[names.len() - 1])
                } else {
                    Some(names[crate::text::first_name(names, current) - 1])
                }
            } else {
                active
            },
            None => Some(names[0]),
        }
    }
}

/// The user interface's state.
#[derive(Debug)]
pub struct App {
    /// The channels that the daemon has told of, in the order of its list.
    pub channels: Vec<ChannelInfo>,
    /// The channel that input goes to.
    pub active_channel: Option<String>,
    /// The channels whose output this client receives.
    pub subscriptions: Vec<String>,
    /// The line being edited.
    pub line_editor: LineEditor,
    /// The lines of output kept for each channel, oldest first.
    pub channel_buffers: NameMap<Vec<BufferedLine>>,
    /// The lines of output of all channels in the order of their arrival,
    /// each with the name of its channel.
    pub interleaved_buffer: Vec<(String, BufferedLine)>,
    /// How many lines each channel's view is scrolled up from the newest.
    pub scroll_offsets: NameMap<usize>,
    /// What the output area shows.
    pub view_mode: ViewMode,
    /// Whether output lines are shown with their time.
    pub show_timestamps: bool,
    /// Whether the welcome tips are shown.
    pub show_welcome: bool,
    /// Whether channels are shown with their number.
    pub show_channel_numbers: bool,
    /// Whether the help is shown.
    pub show_help: bool,
    /// The first line of the help that is shown.
    pub help_scroll: usize,
    /// The most lines kept per channel, and in all.
    pub max_buffer_lines: usize,
    /// The colour of each channel that has one.
    pub channel_colors: NameMap<ChannelColor>,
    /// The completions on offer, if any.
    pub completions: Option<Vec<String>>,
}

/// The names of the channels, in order.
pub open spec fn channel_names(channels: Seq<ChannelInfo>) -> Seq<Seq<char>> {
    channels.map_values(|c: ChannelInfo| c.name@)
}

impl App {
    /// The state with which the user interface starts.
    pub fn new() -> (app: Self)
        ensures
            app.channels@.len() == 0,
            app.active_channel is None,
            app.subscriptions@.len() == 0,
            app.line_editor.wf(),
            app.line_editor@ == (LineView { text: Seq::empty(), position: 0 }),
            app.channel_buffers.entries().len() == 0,
            app.interleaved_buffer@.len() == 0,
            app.scroll_offsets.entries().len() == 0,
            app.view_mode == ViewMode::ActiveChannel,
            !app.show_timestamps,
            app.show_welcome,
            app.show_channel_numbers,
            !app.show_help,
            app.help_scroll == 0,
            app.max_buffer_lines == 10000,
            app.channel_colors.entries().len() == 0,
            app.completions is None,
    {
        Self {
            channels: Vec::new(),
            active_channel: None,
            subscriptions: Vec::new(),
            line_editor: LineEditor::new(),
            channel_buffers: NameMap::new(),
            interleaved_buffer: Vec::new(),
            scroll_offsets: NameMap::new(),
            view_mode: ViewMode::ActiveChannel,
            show_timestamps: false,
            show_welcome: true,
            show_channel_numbers: true,
            show_help: false,
            help_scroll: 0,
            max_buffer_lines: 10000,
            channel_colors: NameMap::new(),
            completions: None,
        }
    }

    /// How far the view of a channel is scrolled up from the newest line.
    pub open spec fn offset_of(&self, channel: Seq<char>) -> nat {
        match lookup(self.scroll_offsets.entries(), channel) {
            Some(offset) => offset as nat,
            None => 0,
        }
    }

    /// The lines kept for a channel, oldest first.
    pub open spec fn lines_of(&self, channel: Seq<char>) -> Seq<BufferedLineView> {
        match lookup(self.channel_buffers.entries(), channel) {
            Some(lines) => lines.deep_view(),
            None => Seq::empty(),
        }
    }

    /// Whether `after` is this state after a line of channel output was
    /// taken in at the given time: the line joined the channel's lines and
    /// the lines of all channels, of each of which the newest
    /// `max_buffer_lines` are kept; the lines of the other channels are as
    /// they were; the welcome tips are off; a view of the channel that was
    /// not scrolled up is at the newest line; and nothing else changed.
    pub open spec fn takes_in(
        &self,
        after: App,
        channel: Seq<char>,
        text: Seq<char>,
        timestamp: i64,
    ) -> bool {
        &&& after.lines_of(channel) == newest(
            self.lines_of(channel).push(line_at(text, timestamp)),
            self.max_buffer_lines as nat,
        )
        &&& forall|other: Seq<char>|
            other != channel ==> lookup(after.channel_buffers.entries(), other) == lookup(
                self.channel_buffers.entries(),
                other,
            )
        &&& after.interleaved_buffer.deep_view() == newest(
            self.interleaved_buffer.deep_view().push((channel, line_at(text, timestamp))),
            self.max_buffer_lines as nat,
        )
        &&& after.scroll_offsets.entries() == (if self.offset_of(channel) > 0 {
            self.scroll_offsets.entries()
        } else {
            stored(self.scroll_offsets.entries(), channel, 0usize)
        })
        &&& after == (App {
            show_welcome: false,
            channel_buffers: after.channel_buffers,
            interleaved_buffer: after.interleaved_buffer,
            scroll_offsets: after.scroll_offsets,
            ..*self
        })
    }

    /// Whether the view of the channel is scrolled up from the newest line.
    pub fn is_scrolled(&self, channel: Option<&str>) -> (scrolled: bool)
        ensures
            scrolled == (channel matches Some(name) && self.offset_of(name@) > 0),
    {
        match channel {
            Some(name) => match self.scroll_offsets.get(name) {
                Some(offset) => *offset > 0,
                None => false,
            },
            None => false,
        }
    }

    /// Puts the view of the channel back at the newest line.
    pub fn scroll_to_bottom(&mut self, channel: Option<&str>)
        ensures
            channel matches Some(name) ==> final(self).scroll_offsets.entries() == stored(
                old(self).scroll_offsets.entries(),
                name@,
                0usize,
            ),
            channel is None ==> final(self).scroll_offsets == old(self).scroll_offsets,
            *final(self) == (App { scroll_offsets: final(self).scroll_offsets, ..*old(self) }),
    {
        if let Some(name) = channel {
            self.scroll_offsets.insert(name, 0);
        }
    }

    /// Scrolls the view of the active channel up by a number of lines, but
    /// not further than to its oldest line. Without an active channel
    /// nothing changes.
    pub fn scroll_up(&mut self, lines: usize)
        ensures
            old(self).active_channel matches Some(name) ==> final(self).scroll_offsets.entries()
                == stored(
                old(self).scroll_offsets.entries(),
                name@,
                final(self).offset_of(name@) as usize,
            ) && final(self).offset_of(name@) == (if old(self).offset_of(name@) + lines < (if old(
                self,
            ).lines_of(name@).len() > 0 {
                old(self).lines_of(name@).len() - 1
            } else {
                0
            }) {
                old(self).offset_of(name@) + lines
            } else if old(self).lines_of(name@).len() > 0 {
                old(self).lines_of(name@).len() - 1
            } else {
                0
            }),
            old(self).active_channel is None ==> final(self).scroll_offsets == old(
                self,
            ).scroll_offsets,
            *final(self) == (App { scroll_offsets: final(self).scroll_offsets, ..*old(self) }),
    {
        let name = match &self.active_channel {
            Some(name) => name.clone(),
            None => {
                return ;
            },
        };
        let buffer_len = match self.channel_buffers.get(name.as_str()) {
            Some(lines) => lines.len(),
            None => 0,
        };
        let offset = match self.scroll_offsets.get(name.as_str()) {
            Some(offset) => *offset,
            None => 0,
        };
        let bound = if buffer_len > 0 {
            buffer_len - 1
        } else {
            0
        };
        let target = if lines > bound || offset > bound - lines {
            bound
        } else {
            offset + lines
        };
        self.scroll_offsets.insert(name.as_str(), target);
        proof {
            lemma_stored(old(self).scroll_offsets.entries(), name@, target, name@);
        }
    }

    /// Scrolls the view of the active channel down by a number of lines,
    /// but not further than to its newest line. Without an active channel
    /// nothing changes.
    pub fn scroll_down(&mut self, lines: usize)
        ensures
            old(self).active_channel matches Some(name) ==> final(self).scroll_offsets.entries()
                == stored(
                old(self).scroll_offsets.entries(),
                name@,
                (if old(self).offset_of(name@) > lines {
                    old(self).offset_of(name@) - lines
                } else {
                    0
                }) as usize,
            ),
            old(self).active_channel is None ==> final(self).scroll_offsets == old(
                self,
            ).scroll_offsets,
            *final(self) == (App { scroll_offsets: final(self).scroll_offsets, ..*old(self) }),
    {
        let name = match &self.active_channel {
            Some(name) => name.clone(),
            None => {
                return ;
            },
        };
        let offset = match self.scroll_offsets.get(name.as_str()) {
            Some(offset) => *offset,
            None => 0,
        };
        let target = if offset > lines {
            offset - lines
        } else {
            0
        };
        self.scroll_offsets.insert(name.as_str(), target);
    }

    /// Takes a line of channel output in at the given time: it joins the
    /// channel's lines and the lines of all channels, of each of which the
    /// newest `max_buffer_lines` are kept; the welcome tips go away; and a
    /// view of the channel that is not scrolled up stays at the newest line.
    pub fn add_output_at(&mut self, channel: String, text: String, timestamp: i64)
        ensures
            old(self).takes_in(*final(self), channel@, text@, timestamp),
    {
        self.show_welcome = false;
        let ghost line = BufferedLineView { content: text@, timestamp };
        let ghost before = self.channel_buffers.entries();
        proof {
            lemma_place(before, channel@);
        }
        let (mut lines, at) = match self.channel_buffers.find(channel.as_str()) {
            Some(i) => (self.channel_buffers.take_at(i), i),
            None => (Vec::new(), self.channel_buffers.len()),
        };
        let ghost held = lines.deep_view();
        assert(held == old(self).lines_of(channel@));
        lines.push(BufferedLine { content: text.clone(), timestamp });
        assert(lines.deep_view() =~= held.push(line));
        let ghost all = lines.deep_view();
        keep_newest(&mut lines, self.max_buffer_lines);
        assert(lines.deep_view() =~= newest(all, self.max_buffer_lines as nat));
        self.channel_buffers.put_at(at, channel.as_str(), lines);
        proof {
            let after = self.channel_buffers.entries();
            assert(after =~= stored(before, channel@, lines));
            lemma_stored(before, channel@, lines, channel@);
            assert forall|other: Seq<char>| other != channel@ implies lookup(after, other) == lookup(
                before,
                other,
            ) by {
                lemma_stored(before, channel@, lines, other);
            }
        }
        let ghost mixed = self.interleaved_buffer.deep_view();
        self.interleaved_buffer.push((channel.clone(), BufferedLine { content: text, timestamp }));
        assert(self.interleaved_buffer.deep_view() =~= mixed.push((channel@, line)));
        let ghost mixed_all = self.interleaved_buffer.deep_view();
        keep_newest(&mut self.interleaved_buffer, self.max_buffer_lines);
        assert(self.interleaved_buffer.deep_view() =~= newest(
            mixed_all,
            self.max_buffer_lines as nat,
        ));
        if !self.is_scrolled(Some(channel.as_str())) {
            self.scroll_to_bottom(Some(channel.as_str()));
        }
    }

    /// Takes a line of channel output in, at the time of the call.
    /// Whatever the time is, the line is taken in as `add_output_at` takes
    /// it in at that time.
    pub fn add_output(&mut self, channel: String, text: String)
        ensures
            exists|timestamp: i64| #[trigger] old(self).takes_in(*final(self), channel@, text@, timestamp),
    {
        let timestamp = crate::server::now_millis();
        self.add_output_at(channel, text, timestamp);
        assert(old(self).takes_in(*self, channel@, text@, timestamp));
    }

    /// Empties the output: the lines of every channel, the lines of all
    /// channels, and the scroll positions.
    pub fn clear_output(&mut self)
        ensures
            final(self).channel_buffers.entries().len() == 0,
            final(self).interleaved_buffer@.len() == 0,
            final(self).scroll_offsets.entries().len() == 0,
            *final(self) == (App {
                channel_buffers: final(self).channel_buffers,
                interleaved_buffer: final(self).interleaved_buffer,
                scroll_offsets: final(self).scroll_offsets,
                ..*old(self)
            }),
    {
        self.channel_buffers.clear();
        self.interleaved_buffer.clear();
        self.scroll_offsets.clear();
    }

    /// The colour of a channel. A channel that has none gets the next one,
    /// and keeps it.
    pub fn get_channel_color(&mut self, channel: &str) -> (color: ChannelColor)
        ensures
            color == (match lookup(old(self).channel_colors.entries(), channel@) {
                Some(c) => c,
                None => next_color(old(self).channel_colors.entries()),
            }),
            final(self).channel_colors.entries() == (match lookup(
                old(self).channel_colors.entries(),
                channel@,
            ) {
                Some(c) => old(self).channel_colors.entries(),
                None => old(self).channel_colors.entries().push((channel@, color)),
            }),
            *final(self) == (App { channel_colors: final(self).channel_colors, ..*old(self) }),
    {
        proof {
            lemma_place(self.channel_colors.entries(), channel@);
        }
        if let Some(color) = self.channel_colors.get(channel) {
            return *color;
        }
        let color = pick_color(&self.channel_colors);
        self.channel_colors.insert(channel, color);
        color
    }

    /// Makes the channel after the active one the active one, going round
    /// the list. Without an active channel the first one becomes active; an
    /// active channel that is not in the list stays.
    pub fn next_channel(&mut self)
        ensures
            final(self).active_channel.deep_view() == name_after(
                channel_names(old(self).channels@),
                old(self).active_channel.deep_view(),
            ),
            *final(self) == (App { active_channel: final(self).active_channel, ..*old(self) }),
    {
        let n = self.channels.len();
        if n == 0 {
            return ;
        }
        let ghost names = channel_names(self.channels@);
        let found = match &self.active_channel {
            Some(current) => Some(position_of(&self.channels, current.as_str())),
            None => None,
        };
        match found {
            Some(index) => {
                if index < n {
                    let next = if index + 1 == n {
                        0
                    } else {
                        index + 1
                    };
                    self.active_channel = Some(self.channels[next].name.clone());
                }
            },
            None => {
                self.active_channel = Some(self.channels[0].name.clone());
            },
        }
    }

    /// Makes the channel before the active one the active one, going
    /// round the list. Without an active channel the first one becomes
    /// active; an active channel that is not in the list stays.
    pub fn prev_channel(&mut self)
        ensures
            final(self).active_channel.deep_view() == name_before(
                channel_names(old(self).channels@),
                old(self).active_channel.deep_view(),
            ),
            *final(self) == (App { active_channel: final(self).active_channel, ..*old(self) }),
    {
        let n = self.channels.len();
        if n == 0 {
            return ;
        }
        let found = match &self.active_channel {
            Some(current) => Some(position_of(&self.channels, current.as_str())),
            None => None,
        };
        match found {
            Some(index) => {
                if index < n {
                    let prev = if index == 0 {
                        n - 1
                    } else {
                        index - 1
                    };
                    self.active_channel = Some(self.channels[prev].name.clone());
                }
            },
            None => {
                self.active_channel = Some(self.channels[0].name.clone());
            },
        }
    }
}

/// The entry of the client's channel list for an entry of the daemon's.
pub open spec fn listed_channel(info: crate::protocol::ChannelInfoView) -> ChannelInfoView {
    ChannelInfoView {
        name: info.name,
        running: info.running,
        has_new_output: false,
        exit_code: None,
        is_subscribed: info.is_subscribed,
    }
}

/// Whether an entry of the daemon's channel list is subscribed.
pub open spec fn subscribed_entry() -> spec_fn(crate::protocol::ChannelInfoView) -> bool {
    |info: crate::protocol::ChannelInfoView| info.is_subscribed
}

/// Whether an entry of the daemon's channel list is the active channel.
pub open spec fn active_entry() -> spec_fn(crate::protocol::ChannelInfoView) -> bool {
    |info: crate::protocol::ChannelInfoView| info.is_active
}

/// The active channel after a channel list came in: the first entry that
/// the list marks as active; where it marks none, the channel that was
/// active, and where none was, the first entry of the list.
pub open spec fn active_after_list(
    list: Seq<crate::protocol::ChannelInfoView>,
    active: Option<Seq<char>>,
) -> Option<Seq<char>> {
    if list.filter(active_entry()).len() > 0 {
        Some(list.filter(active_entry())[0].name)
    } else if active is None && list.len() > 0 {
        Some(list[0].name)
    } else {
        active
    }
}

/// A channel after its process ended.
pub open spec fn ended(channel: ChannelInfoView, exit_code: Option<i32>) -> ChannelInfoView {
    ChannelInfoView { running: false, exit_code, ..channel }
}

/// A channel after its output was looked at.
pub open spec fn seen(channel: ChannelInfoView) -> ChannelInfoView {
    ChannelInfoView { has_new_output: false, ..channel }
}

/// A channel after output of it came in that was not looked at.
pub open spec fn unseen(channel: ChannelInfoView) -> ChannelInfoView {
    ChannelInfoView { has_new_output: true, ..channel }
}

/// Where the first channel of a name stands in the list, or the length of
/// the list where there is none.
pub open spec fn channel_place(channels: Seq<ChannelInfoView>, name: Seq<char>) -> int {
    first_name(channels.map_values(|c: ChannelInfoView| c.name), name)
}

impl App {
    /// Where the first channel of a name stands in the list, if there is one.
    fn find_channel(&self, name: &str) -> (found: Option<usize>)
        ensures
            found matches Some(i) ==> i == channel_place(self.channels.deep_view(), name@) && i
                < self.channels.len(),
            found is None ==> channel_place(self.channels.deep_view(), name@)
                == self.channels.len(),
    {
        let index = position_of(&self.channels, name);
        assert(channel_names(self.channels@) =~= self.channels.deep_view().map_values(
            |c: ChannelInfoView| c.name,
        ));
        if index < self.channels.len() {
            Some(index)
        } else {
            None
        }
    }

    /// Takes the completions of the line in: a single completion replaces
    /// the line, and no completions are on offer; of several, what they all
    /// start with replaces the line where that is longer than the line, and
    /// the completions are on offer; with none, none are on offer.
    pub fn take_completions(&mut self, completions: Vec<String>)
        requires
            old(self).line_editor.wf(),
        ensures
            final(self).line_editor.wf(),
            final(self).line_editor@ == (if completions@.len() == 1 {
                LineView { text: completions@[0]@, position: completions@[0]@.len() }
            } else {
                match super::completion::longest_common_prefix(completions.deep_view()) {
                    Some(prefix) => if completions@.len() > 1 && vstd::utf8::encode_utf8(
                        prefix,
                    ).len() > vstd::utf8::encode_utf8(old(self).line_editor@.text).len() {
                        LineView { text: prefix, position: prefix.len() }
                    } else {
                        old(self).line_editor@
                    },
                    None => old(self).line_editor@,
                }
            }),
            final(self).completions == (if completions@.len() > 1 {
                Some(completions)
            } else {
                None
            }),
            *final(self) == (App {
                line_editor: final(self).line_editor,
                completions: final(self).completions,
                ..*old(self)
            }),
    {
        if completions.len() == 1 {
            self.line_editor.set(completions[0].as_str());
            self.completions = None;
        } else if completions.len() > 1 {
            if let Some(prefix) = super::completion::common_prefix(completions.as_slice()) {
                if prefix.as_str().as_bytes().len() > self.line_editor.content().as_bytes().len() {
                    self.line_editor.set(prefix.as_str());
                }
            }
            self.completions = Some(completions);
        } else {
            self.completions = None;
        }
    }

    /// Takes the daemon's channel list in: the channels are those of the
    /// list, the subscriptions are its subscribed entries, and the active
    /// channel is the one that the list marks, if it marks one.
    pub fn set_channel_list(&mut self, list: &[crate::protocol::ChannelInfo])
        ensures
            final(self).channels.deep_view() == list.deep_view().map_values(
                |info: crate::protocol::ChannelInfoView| listed_channel(info),
            ),
            final(self).subscriptions.deep_view() == list.deep_view().filter(
                subscribed_entry(),
            ).map_values(|info: crate::protocol::ChannelInfoView| info.name),
            final(self).active_channel.deep_view() == active_after_list(
                list.deep_view(),
                old(self).active_channel.deep_view(),
            ),
            *final(self) == (App {
                channels: final(self).channels,
                subscriptions: final(self).subscriptions,
                active_channel: final(self).active_channel,
                ..*old(self)
            }),
    {
        let ghost infos = list.deep_view();
        let ghost subscribed = subscribed_entry();
        let ghost active = active_entry();
        let ghost name_of = |info: crate::protocol::ChannelInfoView| info.name;
        let mut channels: Vec<ChannelInfo> = Vec::new();
        let mut subscriptions: Vec<String> = Vec::new();
        let mut marked: Option<String> = None;
        let mut i: usize = 0;
        proof {
            reveal(Seq::filter);
            assert(subscriptions.deep_view() =~= infos.take(0).filter(subscribed).map_values(
                name_of,
            ));
            assert(infos.take(0).filter(active).len() == 0);
        }
        while i < list.len()
            invariant
                i <= list.len(),
                infos == list.deep_view(),
                subscribed == subscribed_entry(),
                active == active_entry(),
                name_of == (|info: crate::protocol::ChannelInfoView| info.name),
                channels.len() == i,
                forall|j: int| 0 <= j < i ==> channels@[j]@ == listed_channel(infos[j]),
                subscriptions.deep_view() == infos.take(i as int).filter(subscribed).map_values(
                    name_of,
                ),
                marked is None ==> infos.take(i as int).filter(active).len() == 0,
                marked matches Some(name) ==> infos.take(i as int).filter(active).len() > 0
                    && name@ == infos.take(i as int).filter(active)[0].name,
            decreases list.len() - i,
        {
            let ghost before = subscriptions.deep_view();
            proof {
                crate::text::lemma_filter_step(infos, subscribed, i as int);
                crate::text::lemma_filter_step(infos, active, i as int);
            }
            let info = &list[i];
            assert(infos[i as int] == info@);
            channels.push(
                ChannelInfo {
                    name: info.name.clone(),
                    running: info.running,
                    has_new_output: false,
                    exit_code: None,
                    is_subscribed: info.is_subscribed,
                },
            );
            if info.is_subscribed {
                subscriptions.push(info.name.clone());
                assert(subscriptions.deep_view() =~= before.push(info@.name));
                assert(infos.take(i + 1).filter(subscribed).map_values(name_of) =~= before.push(
                    info@.name,
                ));
            }
            if info.is_active && marked.is_none() {
                marked = Some(info.name.clone());
            }
            i += 1;
        }
        assert(infos.take(list.len() as int) =~= infos);
        assert(channels.deep_view() =~= infos.map_values(
            |info: crate::protocol::ChannelInfoView| listed_channel(info),
        ));
        self.channels = channels;
        self.subscriptions = subscriptions;
        match marked {
            Some(name) => {
                self.active_channel = Some(name);
            },
            None => {
                if self.active_channel.is_none() && list.len() > 0 {
                    self.active_channel = Some(list[0].name.clone());
                }
            },
        }
    }

    /// Takes in that a channel was created: it joins the list as a
    /// running channel, and becomes the active one where none is.
    pub fn channel_created(&mut self, name: &str)
        ensures
            final(self).channels.deep_view() == old(self).channels.deep_view().push(
                ChannelInfoView {
                    name: name@,
                    running: true,
                    has_new_output: false,
                    exit_code: None,
                    is_subscribed: false,
                },
            ),
            final(self).active_channel.deep_view() == (match old(self).active_channel.deep_view() {
                Some(active) => Some(active),
                None => Some(name@),
            }),
            *final(self) == (App {
                channels: final(self).channels,
                active_channel: final(self).active_channel,
                ..*old(self)
            }),
    {
        let ghost before = self.channels.deep_view();
        self.channels.push(
            ChannelInfo {
                name: name.to_owned(),
                running: true,
                has_new_output: false,
                exit_code: None,
                is_subscribed: false,
            },
        );
        assert(self.channels.deep_view() =~= before.push(
            ChannelInfoView {
                name: name@,
                running: true,
                has_new_output: false,
                exit_code: None,
                is_subscribed: false,
            },
        ));
        if self.active_channel.is_none() {
            self.active_channel = Some(name.to_owned());
        }
    }

    /// Takes in that a channel's process ended, by exit with the given
    /// code or by kill: the first channel of that name in the list is
    /// marked as stopped. An unknown channel changes nothing.
    pub fn channel_ended(&mut self, name: &str, exit_code: Option<i32>)
        ensures
            final(self).channels.deep_view() == (if channel_place(
                old(self).channels.deep_view(),
                name@,
            ) < old(self).channels.len() {
                old(self).channels.deep_view().update(
                    channel_place(old(self).channels.deep_view(), name@),
                    ended(
                        old(self).channels.deep_view()[channel_place(
                            old(self).channels.deep_view(),
                            name@,
                        )],
                        exit_code,
                    ),
                )
            } else {
                old(self).channels.deep_view()
            }),
            *final(self) == (App { channels: final(self).channels, ..*old(self) }),
    {
        let ghost before = self.channels.deep_view();
        if let Some(i) = self.find_channel(name) {
            self.channels[i].running = false;
            self.channels[i].exit_code = exit_code;
            assert(self.channels.deep_view() =~= before.update(
                i as int,
                ended(before[i as int], exit_code),
            ));
        }
    }

    /// Takes in that the active channel changed: the channel becomes the
    /// active one, its output counts as looked at, and its view goes to the
    /// newest line.
    pub fn active_changed(&mut self, name: &str)
        ensures
            final(self).active_channel.deep_view() == Some(name@),
            final(self).channels.deep_view() == (if channel_place(
                old(self).channels.deep_view(),
                name@,
            ) < old(self).channels.len() {
                old(self).channels.deep_view().update(
                    channel_place(old(self).channels.deep_view(), name@),
                    seen(
                        old(self).channels.deep_view()[channel_place(
                            old(self).channels.deep_view(),
                            name@,
                        )],
                    ),
                )
            } else {
                old(self).channels.deep_view()
            }),
            final(self).scroll_offsets.entries() == stored(
                old(self).scroll_offsets.entries(),
                name@,
                0usize,
            ),
            *final(self) == (App {
                channels: final(self).channels,
                active_channel: final(self).active_channel,
                scroll_offsets: final(self).scroll_offsets,
                ..*old(self)
            }),
    {
        let ghost before = self.channels.deep_view();
        self.active_channel = Some(name.to_owned());
        if let Some(i) = self.find_channel(name) {
            self.channels[i].has_new_output = false;
            assert(self.channels.deep_view() =~= before.update(i as int, seen(before[i as int])));
        }
        self.scroll_to_bottom(Some(name));
    }

    /// Takes in output of a channel, and says whether it came from a
    /// channel of the list that is not the active one: such a channel is
    /// marked as having output that was not looked at.
    pub fn note_output(&mut self, channel: &str) -> (background: bool)
        ensures
            background == (old(self).active_channel.deep_view() != Some(channel@) && channel_place(
                old(self).channels.deep_view(),
                channel@,
            ) < old(self).channels.len()),
            final(self).channels.deep_view() == (if background {
                old(self).channels.deep_view().update(
                    channel_place(old(self).channels.deep_view(), channel@),
                    unseen(
                        old(self).channels.deep_view()[channel_place(
                            old(self).channels.deep_view(),
                            channel@,
                        )],
                    ),
                )
            } else {
                old(self).channels.deep_view()
            }),
            *final(self) == (App { channels: final(self).channels, ..*old(self) }),
    {
        let ghost before = self.channels.deep_view();
        let is_active = match &self.active_channel {
            Some(active) => str_eq(active.as_str(), channel),
            None => false,
        };
        if is_active {
            return false;
        }
        match self.find_channel(channel) {
            Some(i) => {
                self.channels[i].has_new_output = true;
                assert(self.channels.deep_view() =~= before.update(
                    i as int,
                    unseen(before[i as int]),
                ));
                true
            },
            None => false,
        }
    }
}

/// Where the first channel of a name stands in the list, or the length of
/// the list where there is none.
fn position_of(channels: &Vec<ChannelInfo>, name: &str) -> (index: usize)
    ensures
        index == first_name(channel_names(channels@), name@),
        index <= channels.len(),
{
    let ghost names = channel_names(channels@);
    let mut index: usize = 0;
    assert(names.skip(0) =~= names);
    while index < channels.len()
        invariant
            index <= channels.len(),
            names == channel_names(channels@),
            first_name(names, name@) == index + first_name(names.skip(index as int), name@),
        decreases channels.len() - index,
    {
        assert(names.skip(index as int)[0] == channels@[index as int].name@);
        assert(names.skip(index as int).drop_first() =~= names.skip(index + 1));
        if str_eq(channels[index].name.as_str(), name) {
            return index;
        }
        index += 1;
    }
    index
}

/// Whether a colour is given to some channel.
fn is_color_used(colors: &NameMap<ChannelColor>, color: ChannelColor) -> (used: bool)
    ensures
        used == color_used(colors.entries(), color),
{
    let mut i: usize = 0;
    while i < colors.len()
        invariant
            i <= colors.entries().len(),
            forall|j: int| 0 <= j < i ==> (#[trigger] colors.entries()[j]).1 != color,
        decreases colors.entries().len() - i,
    {
        if *colors.value_at(i) == color {
            return true;
        }
        i += 1;
    }
    false
}

/// The colour at a place of the palette.
fn palette_color(index: usize) -> (color: ChannelColor)
    requires
        index < 6,
    ensures
        color == palette()[index as int],
{
    if index == 0 {
        ChannelColor::Blue
    } else if index == 1 {
        ChannelColor::Magenta
    } else if index == 2 {
        ChannelColor::Cyan
    } else if index == 3 {
        ChannelColor::Yellow
    } else if index == 4 {
        ChannelColor::Green
    } else {
        ChannelColor::Red
    }
}

/// The colour that the next channel gets.
pub(crate) fn pick_color(colors: &NameMap<ChannelColor>) -> (color: ChannelColor)
    ensures
        color == next_color(colors.entries()),
{
    let mut i: usize = 0;
    while i < 6
        invariant
            i <= 6,
            first_free(colors.entries(), 0) == first_free(colors.entries(), i as int),
        decreases 6 - i,
    {
        let candidate = palette_color(i);
        if !is_color_used(colors, candidate) {
            return candidate;
        }
        i += 1;
    }
    palette_color(colors.len() % 6)
}

} // verus!
