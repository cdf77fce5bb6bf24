//! Preparing channel output and channel status for display.

use super::app::{next_color, status_mark, ChannelColor};
use super::store::{
    keep_newest, lemma_place, lemma_stored, lookup, newest, stored, without, NameMap,
};
use crate::config::StatusBarPosition;
use crate::text::{chars_of, str_eq, string_of};
use vstd::prelude::*;
use vstd::string::*;
use vstd::utf8::*;

verus! {

/// The pattern of the ANSI escape sequences that are taken out of text:
/// CSI sequences (`ESC [`, parameters, a letter or `~`), OSC sequences
/// (`ESC ]`, text, `BEL` or `ESC \`), and two-character sequences (`ESC`, a
/// letter).
pub const ANSI_ESCAPE_PATTERN: &'static str =
    r"\x1b\[[0-9;?]*[a-zA-Z~]|\x1b\][^\x07]*(?:\x07|\x1b\\)|\x1b[a-zA-Z]";

/// `regex::Regex::new`: whether the pattern is a regular expression that
/// the `regex` crate compiles.
pub uninterp spec fn regex_compiles(pattern: Seq<char>) -> bool;

/// `regex::Regex::replace_all`: the haystack with every non-overlapping
/// match of the compiled pattern, from left to right, replaced by what the
/// replacement expands to for that match.
pub uninterp spec fn regex_replaced(
    pattern: Seq<char>,
    haystack: Seq<char>,
    replacement: Seq<char>,
) -> Seq<char>;

/// `regex::Regex::new` on the pattern and, where that succeeds,
/// `regex::Regex::replace_all` on the haystack with the replacement. The
/// result is `None` exactly where the pattern does not compile; both
/// functions depend on their arguments alone.
#[verifier::external_body]
fn regex_replace_all(pattern: &str, haystack: &str, replacement: &str) -> (result: Option<String>)
    ensures
        result is Some == regex_compiles(pattern@),
        result matches Some(text) ==> text@ == regex_replaced(pattern@, haystack@, replacement@),
{
    match regex::Regex::new(pattern) {
        Ok(re) => Some(re.replace_all(haystack, replacement).into_owned()),
        Err(_) => None,
    }
}

/// The text without its ANSI escape sequences. Where the pattern of those
/// sequences were not to compile, the text would stay as it is.
pub open spec fn ansi_stripped(text: Seq<char>) -> Seq<char> {
    if regex_compiles(ANSI_ESCAPE_PATTERN@) {
        regex_replaced(ANSI_ESCAPE_PATTERN@, text, ""@)
    } else {
        text
    }
}

/// Strip ANSI escape sequences from a string.
pub fn strip_ansi_codes(s: &str) -> (clean: String)
    ensures
        clean@ == ansi_stripped(s@),
{
    match regex_replace_all(ANSI_ESCAPE_PATTERN, s, "") {
        Some(clean) => clean,
        None => s.to_owned(),
    }
}

/// View mode for output display.
#[derive(Debug, Clone, Copy, PartialEq, Eq, Structural)]
pub enum ViewMode {
    /// Show only the active channel's output (clean, no prefix).
    ActiveChannel,
    /// Show all subscribed channels interleaved (with channel prefix).
    AllChannels,
}

impl ViewMode {
    /// The other view mode.
    pub fn toggled(self) -> (other: ViewMode)
        ensures
            other != self,
    {
        match self {
            ViewMode::ActiveChannel => ViewMode::AllChannels,
            ViewMode::AllChannels => ViewMode::ActiveChannel,
        }
    }
}

/// Channel status for status bar display.
#[derive(Debug, Clone)]
pub struct ChannelStatusInfo {
    pub name: String,
    pub running: bool,
    pub has_new_output: bool,
    pub exit_code: Option<i32>,
}

impl ChannelStatusInfo {
    /// The mark shown behind the channel's name in the status bar.
    pub fn status_indicator(&self) -> (mark: &'static str)
        ensures
            mark@ == super::app::status_mark(self.running, self.has_new_output, self.exit_code),
    {
        if !self.running {
            if let Some(code) = self.exit_code {
                if code == 0 {
                    return ": \u{2713}";
                } else {
                    return ": \u{2717}";
                }
            }
            return ": stopped";
        }
        if self.has_new_output {
            return "*";
        }
        ""
    }
}

/// The escape character, which starts an ANSI escape sequence.
pub open spec fn escape() -> char {
    '\u{1b}'
}

/// Whether the character ends an escape sequence: a letter of the ASCII
/// alphabet, or `~`.
pub open spec fn ends_escape(c: char) -> bool {
    ('a' <= c && c <= 'z') || ('A' <= c && c <= 'Z') || c == '~'
}

/// The number of characters of the text up to and with the first one that
/// ends an escape sequence; the whole length where none does.
pub open spec fn escape_len(text: Seq<char>) -> int
    decreases text.len(),
{
    if text.len() == 0 {
        0
    } else if ends_escape(text[0]) {
        1
    } else {
        1 + escape_len(text.drop_first())
    }
}

/// The start of a text that shows at most `room` visible characters: escape
/// sequences are kept whole and do not count, and the text ends before the
/// first visible character for which there is no room.
pub open spec fn visible_start(text: Seq<char>, room: nat) -> Seq<char>
    decreases text.len(),
    via visible_start_decreases
{
    if text.len() == 0 {
        Seq::empty()
    } else if text[0] == escape() {
        let n = escape_len(text.drop_first());
        text.take(1 + n) + visible_start(text.skip(1 + n), room)
    } else if room == 0 {
        Seq::empty()
    } else {
        seq![text[0]] + visible_start(text.drop_first(), (room - 1) as nat)
    }
}

#[via_fn]
proof fn visible_start_decreases(text: Seq<char>, room: nat) {
    if text.len() != 0 && text[0] == escape() {
        lemma_escape_len(text.drop_first());
    }
}

/// An escape sequence is no longer than the text it stands in.
pub proof fn lemma_escape_len(text: Seq<char>)
    ensures
        0 <= escape_len(text) <= text.len(),
    decreases text.len(),
{
    if text.len() > 0 && !ends_escape(text[0]) {
        lemma_escape_len(text.drop_first());
    }
}

/// A text cut to a number of visible characters, with the sequence that
/// resets the colours behind it.
pub open spec fn truncated_with_ansi(text: Seq<char>, max_visible_len: nat) -> Seq<char> {
    visible_start(text, max_visible_len) + "\u{1b}[0m"@
}

/// Where the escape sequence ends whose escape character stands just
/// before `from`.
fn escape_end(chars: &[char], from: usize) -> (end: usize)
    requires
        from <= chars.len(),
    ensures
        from <= end <= chars.len(),
        end == from + escape_len(chars@.skip(from as int)),
{
    let mut end: usize = from;
    loop
        invariant_except_break
            from <= end <= chars.len(),
            from + escape_len(chars@.skip(from as int)) == end + escape_len(
                chars@.skip(end as int),
            ),
        ensures
            from <= end <= chars.len(),
            end == from + escape_len(chars@.skip(from as int)),
        decreases chars.len() - end,
    {
        if end >= chars.len() {
            break;
        }
        let next = chars[end];
        assert(chars@.skip(end as int)[0] == next);
        assert(chars@.skip(end as int).drop_first() =~= chars@.skip(end + 1));
        end += 1;
        if (next >= 'a' && next <= 'z') || (next >= 'A' && next <= 'Z') || next == '~' {
            break;
        }
    }
    end
}

/// Appends the characters from `start` up to `end` to `kept`.
fn keep_range(kept: &mut Vec<char>, chars: &[char], start: usize, end: usize)
    requires
        start <= end <= chars.len(),
    ensures
        final(kept)@ == old(kept)@ + chars@.subrange(start as int, end as int),
{
    let mut i: usize = start;
    assert(kept@ + chars@.subrange(start as int, start as int) =~= kept@);
    while i < end
        invariant
            start <= i <= end,
            end <= chars.len(),
            kept@ == old(kept)@ + chars@.subrange(start as int, i as int),
        decreases end - i,
    {
        kept.push(chars[i]);
        i += 1;
        assert(old(kept)@ + chars@.subrange(start as int, i as int) =~= (old(kept)@
            + chars@.subrange(start as int, i - 1)).push(chars@[i - 1]));
    }
}

/// Truncate a string with ANSI codes to a maximum visible length.
/// Escape sequences are kept and only visible characters are counted; the
/// result ends with the sequence that resets the colours.
pub fn truncate_with_ansi(s: &str, max_visible_len: usize) -> (result: String)
    ensures
        result@ == truncated_with_ansi(s@, max_visible_len as nat),
{
    let chars = chars_of(s);
    let mut kept: Vec<char> = Vec::new();
    let mut visible: usize = 0;
    let mut i: usize = 0;
    assert(chars@.skip(0) =~= chars@);
    assert(kept@ + visible_start(chars@, max_visible_len as nat) =~= visible_start(
        chars@,
        max_visible_len as nat,
    ));
    loop
        invariant_except_break
            i <= chars.len(),
            visible <= max_visible_len,
            kept@ + visible_start(chars@.skip(i as int), (max_visible_len - visible) as nat)
                == visible_start(chars@, max_visible_len as nat),
        ensures
            kept@ == visible_start(chars@, max_visible_len as nat),
        decreases chars.len() - i,
    {
        let ghost rest = chars@.skip(i as int);
        let ghost room = (max_visible_len - visible) as nat;
        let ghost before = kept@;
        if i >= chars.len() {
            assert(before + Seq::<char>::empty() =~= before);
            break;
        }
        let c = chars[i];
        assert(rest[0] == c);
        if c == '\u{1b}' {
            let end = escape_end(chars.as_slice(), i + 1);
            keep_range(&mut kept, chars.as_slice(), i, end);
            proof {
                let body = chars@.skip(i + 1);
                let n = escape_len(body);
                assert(rest.drop_first() =~= body);
                assert(rest.take(1 + n) =~= chars@.subrange(i as int, end as int));
                assert(rest.skip(1 + n) =~= chars@.skip(end as int));
                assert(before + visible_start(rest, room) =~= kept@ + visible_start(
                    chars@.skip(end as int),
                    room,
                ));
            }
            i = end;
        } else {
            if visible >= max_visible_len {
                assert(before + Seq::<char>::empty() =~= before);
                break;
            }
            kept.push(c);
            visible += 1;
            proof {
                assert(rest.drop_first() =~= chars@.skip(i + 1));
                assert(before + visible_start(rest, room) =~= kept@ + visible_start(
                    chars@.skip(i + 1),
                    (room - 1) as nat,
                ));
            }
            i += 1;
        }
    }
    let mut result = string_of(kept.as_slice());
    result.append("\u{1b}[0m");
    result
}

/// A line made ready for a row that shows at most `max_line_len` visible
/// characters: cut to that length where more of it would show and the row
/// has any width at all, and else whole; either way with the sequence that
/// resets the colours behind it.
pub open spec fn fitted(content: Seq<char>, max_line_len: nat) -> Seq<char> {
    if ansi_stripped(content).len() > max_line_len && max_line_len > 0 {
        truncated_with_ansi(content, max_line_len)
    } else {
        content + "\u{1b}[0m"@
    }
}

/// Makes a line ready for a row that shows at most `max_line_len` visible characters.
pub fn fit_line(content: &str, max_line_len: usize) -> (line: String)
    ensures
        line@ == fitted(content@, max_line_len as nat),
{
    if Renderer::visible_len(content) > max_line_len && max_line_len > 0 {
        truncate_with_ansi(content, max_line_len)
    } else {
        let mut line = content.to_owned();
        line.append("\u{1b}[0m");
        line
    }
}

/// The part of a buffer of `len` lines that shows in `height` rows when
/// the view is scrolled up by `scroll_offset` lines: from the first line
/// shown up to the line behind the last one shown.
pub open spec fn window(len: nat, scroll_offset: nat, height: nat) -> (nat, nat) {
    let end = if len > scroll_offset {
        (len - scroll_offset) as nat
    } else {
        0
    };
    let start = if end > height {
        (end - height) as nat
    } else {
        0
    };
    (start, end)
}

/// The part of a buffer that shows.
pub fn visible_window(len: usize, scroll_offset: usize, height: usize) -> (range: (usize, usize))
    ensures
        (range.0 as nat, range.1 as nat) == window(len as nat, scroll_offset as nat, height as nat),
        range.0 <= range.1 <= len,
{
    let end = if len > scroll_offset {
        len - scroll_offset
    } else {
        0
    };
    let start = if end > height {
        end - height
    } else {
        0
    };
    (start, end)
}

/// The colours of the segments of the status bar.
#[derive(Debug, Clone, Copy, PartialEq, Eq, Structural)]
pub enum StatusColor {
    DarkGrey,
    Green,
    Yellow,
    DarkGreen,
    DarkRed,
}

/// Mathematical value of a [`ChannelStatusInfo`].
pub struct ChannelStatusInfoView {
    pub name: Seq<char>,
    pub running: bool,
    pub has_new_output: bool,
    pub exit_code: Option<i32>,
}

impl View for ChannelStatusInfo {
    type V = ChannelStatusInfoView;

    open spec fn view(&self) -> ChannelStatusInfoView {
        ChannelStatusInfoView {
            name: self.name@,
            running: self.running,
            has_new_output: self.has_new_output,
            exit_code: self.exit_code,
        }
    }
}

impl DeepView for ChannelStatusInfo {
    type V = ChannelStatusInfoView;

    open spec fn deep_view(&self) -> ChannelStatusInfoView {
        self@
    }
}

/// The colour of a channel's segment: green for the active channel, yellow
/// for one with output that was not looked at, and for a stopped one dark
/// green after success, dark red after failure; dark grey otherwise.
pub open spec fn segment_color(channel: ChannelStatusInfoView, active: Option<Seq<char>>) -> StatusColor {
    if active == Some(channel.name) {
        StatusColor::Green
    } else if channel.has_new_output {
        StatusColor::Yellow
    } else if !channel.running {
        match channel.exit_code {
            Some(code) => if code == 0 {
                StatusColor::DarkGreen
            } else {
                StatusColor::DarkRed
            },
            None => StatusColor::DarkGrey,
        }
    } else {
        StatusColor::DarkGrey
    }
}

/// The text of a channel's segment.
pub open spec fn segment_text(channel: ChannelStatusInfoView) -> Seq<char> {
    "[#"@ + channel.name + status_mark(channel.running, channel.has_new_output, channel.exit_code)
        + "]"@
}

/// The text that says which view mode is on.
pub open spec fn mode_text(mode: ViewMode) -> Seq<char> {
    match mode {
        ViewMode::ActiveChannel => "[channel]"@,
        ViewMode::AllChannels => "[all]"@,
    }
}

/// The number of bytes that a text takes.
pub open spec fn byte_len(text: Seq<char>) -> nat {
    encode_utf8(text).len()
}

/// The segments for the channels, given the width that the segments
/// before them take: each channel's segment as long as it fits with its
/// separating space into `limit`, and an ellipsis in place of the first
/// one that does not, and of all that follow it.
pub open spec fn channel_segments(
    channels: Seq<ChannelStatusInfoView>,
    active: Option<Seq<char>>,
    used: nat,
    limit: nat,
) -> Seq<(Seq<char>, StatusColor)>
    decreases channels.len(),
{
    if channels.len() == 0 {
        Seq::empty()
    } else if used + byte_len(segment_text(channels[0])) + 1 > limit {
        seq![(" ..."@, StatusColor::DarkGrey)]
    } else {
        seq![(segment_text(channels[0]), segment_color(channels[0], active))] + channel_segments(
            channels.drop_first(),
            active,
            used + 1 + byte_len(segment_text(channels[0])),
            limit,
        )
    }
}

/// The segments of the status bar of a terminal of the given width: the
/// view mode, then the channels as far as they fit with four columns to
/// spare.
pub open spec fn status_bar_segments(
    mode: ViewMode,
    channels: Seq<ChannelStatusInfoView>,
    active: Option<Seq<char>>,
    width: nat,
) -> Seq<(Seq<char>, StatusColor)> {
    seq![(mode_text(mode), StatusColor::DarkGrey)] + channel_segments(
        channels,
        active,
        byte_len(mode_text(mode)) + 1,
        if width > 4 {
            (width - 4) as nat
        } else {
            0
        },
    )
}

/// Mathematical value of the segments of a status bar.
pub open spec fn segments_view(segments: Seq<(String, StatusColor)>) -> Seq<
    (Seq<char>, StatusColor),
> {
    segments.map_values(|s: (String, StatusColor)| (s.0@, s.1))
}

/// Terminal renderer state: the size of the terminal, the lines kept for
/// each channel, how far each view is scrolled, and what is shown.
#[derive(Debug)]
pub struct Renderer {
    /// Terminal size (cols, rows).
    size: (u16, u16),
    /// Status bar height.
    status_bar_height: u16,
    /// Prompt height.
    prompt_height: u16,
    /// Whether to show timestamps.
    show_timestamps: bool,
    /// The colour of each channel that has one.
    channel_colors: NameMap<ChannelColor>,
    /// Status bar position (top or bottom).
    status_bar_position: StatusBarPosition,
    /// Per-channel output buffers.
    channel_buffers: NameMap<Vec<String>>,
    /// Scroll offset per channel (0 = at bottom/most recent).
    scroll_offsets: NameMap<usize>,
    /// Maximum lines to keep in buffer per channel.
    max_buffer_lines: usize,
    /// Whether to show welcome tips (hidden once output appears).
    show_welcome: bool,
    /// Current view mode.
    view_mode: ViewMode,
    /// Buffer for the interleaved view: channel and content of each line.
    interleaved_buffer: Vec<(String, String)>,
}

/// Mathematical value of a [`Renderer`].
pub struct RendererView {
    pub size: (u16, u16),
    pub timestamps: bool,
    pub colors: Seq<(Seq<char>, ChannelColor)>,
    pub position: StatusBarPosition,
    pub buffers: Seq<(Seq<char>, Vec<String>)>,
    pub offsets: Seq<(Seq<char>, usize)>,
    pub max_lines: usize,
    pub welcome: bool,
    pub mode: ViewMode,
    pub interleaved: Seq<(Seq<char>, Seq<char>)>,
}

impl View for Renderer {
    type V = RendererView;

    closed spec fn view(&self) -> RendererView {
        RendererView {
            size: self.size,
            timestamps: self.show_timestamps,
            colors: self.channel_colors.entries(),
            position: self.status_bar_position,
            buffers: self.channel_buffers.entries(),
            offsets: self.scroll_offsets.entries(),
            max_lines: self.max_buffer_lines,
            welcome: self.show_welcome,
            mode: self.view_mode,
            interleaved: self.interleaved_buffer.deep_view(),
        }
    }
}

impl Renderer {
    /// The size of the terminal, as columns and rows.
    pub open spec fn size(&self) -> (u16, u16) {
        self@.size
    }

    /// The view mode.
    pub open spec fn mode(&self) -> ViewMode {
        self@.mode
    }

    /// Where the status bar stands.
    pub open spec fn position(&self) -> StatusBarPosition {
        self@.position
    }

    /// Whether the welcome tips are on.
    pub open spec fn welcome(&self) -> bool {
        self@.welcome
    }

    /// The most lines kept per channel, and in all.
    pub open spec fn max_lines(&self) -> usize {
        self@.max_lines
    }

    /// The scroll offsets, by channel.
    pub open spec fn offsets(&self) -> Seq<(Seq<char>, usize)> {
        self@.offsets
    }

    /// The colours, by channel.
    pub open spec fn colors(&self) -> Seq<(Seq<char>, ChannelColor)> {
        self@.colors
    }

    /// The lines kept, by channel.
    pub open spec fn buffers(&self) -> Seq<(Seq<char>, Vec<String>)> {
        self@.buffers
    }

    /// The lines of all channels, each with the name of its channel.
    pub open spec fn interleaved(&self) -> Seq<(Seq<char>, Seq<char>)> {
        self@.interleaved
    }

    /// The status bar and the prompt take one row each.
    pub closed spec fn wf(&self) -> bool {
        self.status_bar_height == 1 && self.prompt_height == 1
    }

    /// How far the view of a channel is scrolled up from the newest line.
    pub open spec fn offset_of(&self, channel: Seq<char>) -> nat {
        match lookup(self.offsets(), channel) {
            Some(offset) => offset as nat,
            None => 0,
        }
    }

    /// The lines kept for a channel, oldest first.
    pub open spec fn lines_of(&self, channel: Seq<char>) -> Seq<Seq<char>> {
        match lookup(self.buffers(), channel) {
            Some(lines) => lines.deep_view(),
            None => Seq::empty(),
        }
    }

    /// The number of rows in which output shows: all but the status bar,
    /// the prompt and the two separators.
    pub open spec fn visible_rows(&self) -> nat {
        if self.size().1 > 4 {
            (self.size().1 - 4) as nat
        } else {
            0
        }
    }

    /// Create a renderer for a terminal of the given size, with the
    /// status bar at the top.
    pub fn new(cols: u16, rows: u16) -> (renderer: Self)
        ensures
            renderer.wf(),
            renderer.size() == (cols, rows),
            renderer.position() == StatusBarPosition::Top,
            renderer.mode() == ViewMode::ActiveChannel,
            renderer.welcome(),
            renderer.max_lines() == 10000,
            renderer.offsets().len() == 0,
            renderer.colors().len() == 0,
            renderer.buffers().len() == 0,
            renderer.interleaved().len() == 0,
    {
        Self::with_position(StatusBarPosition::Top, cols, rows)
    }

    /// Create a renderer for a terminal of the given size, with the
    /// status bar at the given position.
    pub fn with_position(position: StatusBarPosition, cols: u16, rows: u16) -> (renderer: Self)
        ensures
            renderer.wf(),
            renderer.size() == (cols, rows),
            renderer.position() == position,
            renderer.mode() == ViewMode::ActiveChannel,
            renderer.welcome(),
            renderer.max_lines() == 10000,
            renderer.offsets().len() == 0,
            renderer.colors().len() == 0,
            renderer.buffers().len() == 0,
            renderer.interleaved().len() == 0,
    {
        Self {
            size: (cols, rows),
            status_bar_height: 1,
            prompt_height: 1,
            show_timestamps: false,
            channel_colors: NameMap::new(),
            status_bar_position: position,
            channel_buffers: NameMap::new(),
            scroll_offsets: NameMap::new(),
            max_buffer_lines: 10000,
            show_welcome: true,
            view_mode: ViewMode::ActiveChannel,
            interleaved_buffer: Vec::new(),
        }
    }

    /// Update terminal size.
    pub fn resize(&mut self, cols: u16, rows: u16)
        ensures
            final(self).size() == (cols, rows),
            final(self)@ == (RendererView { size: (cols, rows), ..old(self)@ }),
    {
        self.size = (cols, rows);
    }

    /// Get terminal size.
    pub fn terminal_size(&self) -> (size: (u16, u16))
        ensures
            size == self.size(),
    {
        self.size
    }

    /// Get current view mode.
    pub fn view_mode(&self) -> (mode: ViewMode)
        ensures
            mode == self.mode(),
    {
        self.view_mode
    }

    /// Set view mode.
    pub fn set_view_mode(&mut self, mode: ViewMode)
        ensures
            final(self).mode() == mode,
            final(self)@ == (RendererView { mode, ..old(self)@ }),
    {
        self.view_mode = mode;
    }

    /// Toggle between view modes.
    pub fn toggle_view_mode(&mut self)
        ensures
            final(self).mode() == (match old(self).mode() {
                ViewMode::ActiveChannel => ViewMode::AllChannels,
                ViewMode::AllChannels => ViewMode::ActiveChannel,
            }),
            final(self)@ == (RendererView { mode: final(self).mode(), ..old(self)@ }),
    {
        self.view_mode = match self.view_mode {
            ViewMode::ActiveChannel => ViewMode::AllChannels,
            ViewMode::AllChannels => ViewMode::ActiveChannel,
        };
    }

    /// Get the number of visible output rows.
    pub fn visible_output_rows(&self) -> (rows: usize)
        ensures
            rows == self.visible_rows(),
    {
        if self.size.1 > 4 {
            (self.size.1 - 4) as usize
        } else {
            0
        }
    }

    /// Scroll up in the channel, by a number of lines, but not further
    /// than until its oldest line shows in the first row.
    pub fn scroll_up(&mut self, channel: Option<&str>, lines: usize)
        ensures
            channel matches Some(name) ==> final(self).offsets() == stored(
                old(self).offsets(),
                name@,
                final(self).offset_of(name@) as usize,
            ) && final(self).offset_of(name@) == (if old(self).offset_of(name@) + lines < (if old(self).lines_of(name@).len() > old(self).visible_rows() {
                old(self).lines_of(name@).len() - old(self).visible_rows()
            } else {
                0
            }) {
                old(self).offset_of(name@) + lines
            } else if old(self).lines_of(name@).len() > old(self).visible_rows() {
                old(self).lines_of(name@).len() - old(self).visible_rows()
            } else {
                0
            }),
            channel is None ==> final(self).offsets() == old(self).offsets(),
            final(self)@ == (RendererView { offsets: final(self).offsets(), ..old(self)@ }),
    {
        let name = match channel {
            Some(name) => name,
            None => {
                return ;
            },
        };
        let buffer_len = match self.channel_buffers.get(name) {
            Some(lines) => lines.len(),
            None => 0,
        };
        let visible = self.visible_output_rows();
        let max_scroll = if buffer_len > visible {
            buffer_len - visible
        } else {
            0
        };
        let offset = match self.scroll_offsets.get(name) {
            Some(offset) => *offset,
            None => 0,
        };
        let target = if lines > max_scroll || offset > max_scroll - lines {
            max_scroll
        } else {
            offset + lines
        };
        self.scroll_offsets.insert(name, target);
        proof {
            lemma_stored(old(self).offsets(), name@, target, name@);
        }
    }

    /// Scroll down in the channel, by a number of lines, but not further
    /// than to its newest line.
    pub fn scroll_down(&mut self, channel: Option<&str>, lines: usize)
        ensures
            channel matches Some(name) ==> final(self).offsets() == stored(
                old(self).offsets(),
                name@,
                (if old(self).offset_of(name@) > lines {
                    old(self).offset_of(name@) - lines
                } else {
                    0
                }) as usize,
            ),
            channel is None ==> final(self).offsets() == old(self).offsets(),
            final(self)@ == (RendererView { offsets: final(self).offsets(), ..old(self)@ }),
    {
        let name = match channel {
            Some(name) => name,
            None => {
                return ;
            },
        };
        let offset = match self.scroll_offsets.get(name) {
            Some(offset) => *offset,
            None => 0,
        };
        let target = if offset > lines {
            offset - lines
        } else {
            0
        };
        self.scroll_offsets.insert(name, target);
    }

    /// Scroll to bottom (most recent) in the channel.
    pub fn scroll_to_bottom(&mut self, channel: Option<&str>)
        ensures
            channel matches Some(name) ==> final(self).offsets() == stored(
                old(self).offsets(),
                name@,
                0usize,
            ),
            channel is None ==> final(self).offsets() == old(self).offsets(),
            final(self)@ == (RendererView { offsets: final(self).offsets(), ..old(self)@ }),
    {
        if let Some(name) = channel {
            self.scroll_offsets.insert(name, 0);
        }
    }

    /// Check if scrolled up from bottom.
    pub fn is_scrolled(&self, channel: Option<&str>) -> (scrolled: bool)
        ensures
            scrolled == (channel matches Some(name) && self.offset_of(name@) > 0),
    {
        match channel {
            Some(name) => match self.scroll_offsets.get(name) {
                Some(offset) => *offset > 0,
                None => false,
            },
            None => false,
        }
    }

    /// Height available for output: the rows that the status bar and the
    /// prompt leave.
    pub fn output_height(&self) -> (height: u16)
        requires
            self.wf(),
        ensures
            height == (if self.size().1 > 2 {
                self.size().1 - 2
            } else {
                0
            }),
    {
        let taken = self.status_bar_height + self.prompt_height;
        if self.size.1 > taken {
            self.size.1 - taken
        } else {
            0
        }
    }

    /// The row of the status bar: the first row, or the row above the prompt.
    pub fn status_bar_row(&self) -> (row: u16)
        ensures
            row == (match self.position() {
                StatusBarPosition::Top => 0,
                StatusBarPosition::Bottom => if self.size().1 > 2 {
                    self.size().1 - 2
                } else {
                    0
                },
            }),
    {
        match self.status_bar_position {
            StatusBarPosition::Top => 0,
            StatusBarPosition::Bottom => if self.size.1 > 2 {
                self.size.1 - 2
            } else {
                0
            },
        }
    }

    /// The row of the prompt: the last row.
    pub fn prompt_row(&self) -> (row: u16)
        ensures
            row == (if self.size().1 > 1 {
                self.size().1 - 1
            } else {
                0
            }),
    {
        if self.size.1 > 1 {
            self.size.1 - 1
        } else {
            0
        }
    }

    /// The first row of the output area: behind the status bar and its separator.
    pub fn output_start_row(&self) -> (row: u16)
        ensures
            row == 2,
    {
        2
    }

    /// Build the status bar content with truncation support.
    pub fn build_status_bar_content(
        &self,
        channels: &[ChannelStatusInfo],
        active_channel: Option<&str>,
    ) -> (segments: Vec<(String, StatusColor)>)
        ensures
            segments_view(segments@) == status_bar_segments(
                self.mode(),
                channels.deep_view(),
                active_channel.deep_view(),
                self.size().0 as nat,
            ),
    {
        let width = self.size.0 as usize;
        let limit: usize = if width > 4 {
            width - 4
        } else {
            0
        };
        let mode_indicator = match self.view_mode {
            ViewMode::ActiveChannel => "[channel]",
            ViewMode::AllChannels => "[all]",
        };
        let mut segments: Vec<(String, StatusColor)> = Vec::new();
        segments.push((mode_indicator.to_owned(), StatusColor::DarkGrey));
        let mode_bytes = mode_indicator.as_bytes().len();
        let ghost views = channels.deep_view();
        let ghost active = active_channel.deep_view();
        let ghost first = seq![(mode_text(self.view_mode), StatusColor::DarkGrey)];
        assert(segments_view(segments@) =~= first);
        if mode_bytes >= limit {
            // nothing fits behind the view mode
            if channels.len() > 0 {
                segments.push((" ...".to_owned(), StatusColor::DarkGrey));
                assert(segments_view(segments@) =~= first.push((" ..."@, StatusColor::DarkGrey)));
            } else {
                assert(first + Seq::<(Seq<char>, StatusColor)>::empty() =~= first);
            }
            return segments;
        }
        let mut used: usize = mode_bytes + 1;
        let mut i: usize = 0;
        assert(views.skip(0) =~= views);
        loop
            invariant_except_break
                i <= channels.len(),
                used <= limit,
                views == channels.deep_view(),
                active == active_channel.deep_view(),
                segments_view(segments@) + channel_segments(
                    views.skip(i as int),
                    active,
                    used as nat,
                    limit as nat,
                ) == status_bar_segments(self.mode(), views, active, self.size().0 as nat),
            ensures
                segments_view(segments@) == status_bar_segments(
                    self.mode(),
                    views,
                    active,
                    self.size().0 as nat,
                ),
            decreases channels.len() - i,
        {
            let ghost sofar = segments_view(segments@);
            let ghost rest = views.skip(i as int);
            if i >= channels.len() {
                assert(sofar + Seq::<(Seq<char>, StatusColor)>::empty() =~= sofar);
                break;
            }
            let channel = &channels[i];
            assert(rest[0] == channel@);
            assert(rest.drop_first() =~= views.skip(i + 1));
            let mut segment = "[#".to_string();
            segment.append(channel.name.as_str());
            segment.append(channel.status_indicator());
            segment.append("]");
            assert(segment@ == segment_text(channel@));
            let bytes = segment.as_str().as_bytes().len();
            if bytes >= limit - used {
                segments.push((" ...".to_owned(), StatusColor::DarkGrey));
                assert(segments_view(segments@) =~= sofar.push((" ..."@, StatusColor::DarkGrey)));
                assert(sofar + seq![(" ..."@, StatusColor::DarkGrey)] =~= sofar.push(
                    (" ..."@, StatusColor::DarkGrey),
                ));
                break;
            }
            let is_active = match active_channel {
                Some(name) => str_eq(name, channel.name.as_str()),
                None => false,
            };
            let color = if is_active {
                StatusColor::Green
            } else if channel.has_new_output {
                StatusColor::Yellow
            } else if !channel.running {
                match channel.exit_code {
                    Some(code) => if code == 0 {
                        StatusColor::DarkGreen
                    } else {
                        StatusColor::DarkRed
                    },
                    None => StatusColor::DarkGrey,
                }
            } else {
                StatusColor::DarkGrey
            };
            assert(color == segment_color(channel@, active));
            let ghost entry = (segment@, color);
            segments.push((segment, color));
            assert(segments_view(segments@) =~= sofar.push(entry));
            used = used + 1 + bytes;
            proof {
                assert(sofar + (seq![entry] + channel_segments(
                    views.skip(i + 1),
                    active,
                    used as nat,
                    limit as nat,
                )) =~= sofar.push(entry) + channel_segments(
                    views.skip(i + 1),
                    active,
                    used as nat,
                    limit as nat,
                ));
            }
            i += 1;
        }
        segments
    }

    /// Remove the cached color for a channel so the slot can be reused.
    pub fn clear_channel_color(&mut self, channel_name: &str)
        ensures
            final(self).colors() == without(old(self).colors(), channel_name@),
            final(self)@ == (RendererView { colors: final(self).colors(), ..old(self)@ }),
    {
        self.channel_colors.remove(channel_name);
    }

    /// Get a color for a channel, assigning a new one if necessary.
    pub fn get_channel_color(&mut self, channel_name: &str) -> (color: ChannelColor)
        ensures
            color == (match lookup(old(self).colors(), channel_name@) {
                Some(c) => c,
                None => next_color(old(self).colors()),
            }),
            final(self).colors() == (match lookup(old(self).colors(), channel_name@) {
                Some(c) => old(self).colors(),
                None => old(self).colors().push((channel_name@, color)),
            }),
            final(self)@ == (RendererView { colors: final(self).colors(), ..old(self)@ }),
    {
        proof {
            lemma_place(self.channel_colors.entries(), channel_name@);
        }
        if let Some(color) = self.channel_colors.get(channel_name) {
            return *color;
        }
        let color = super::app::pick_color(&self.channel_colors);
        self.channel_colors.insert(channel_name, color);
        color
    }

    /// Clear the output buffer for a specific channel or all.
    pub fn clear_output_buffer(&mut self, channel: Option<&str>)
        ensures
            channel matches Some(name) ==> final(self).buffers() == without(
                old(self).buffers(),
                name@,
            ) && final(self).offsets() == without(old(self).offsets(), name@) && final(self).interleaved() == old(self).interleaved(),
            channel is None ==> final(self).buffers().len() == 0 && final(self).offsets().len() == 0
                && final(self).interleaved().len() == 0,
            final(self)@ == (RendererView {
                buffers: final(self).buffers(),
                offsets: final(self).offsets(),
                interleaved: final(self).interleaved(),
                ..old(self)@
            }),
    {
        match channel {
            Some(name) => {
                self.channel_buffers.remove(name);
                self.scroll_offsets.remove(name);
            },
            None => {
                self.channel_buffers.clear();
                self.scroll_offsets.clear();
                self.interleaved_buffer.clear();
            },
        }
    }

    /// Takes a line of channel output in: it joins the channel's lines and
    /// the lines of all channels, of each of which the newest
    /// `max_lines` are kept; the welcome tips go away; and a view of the
    /// channel that is not scrolled up stays at the newest line.
    pub fn record_output_line(&mut self, channel_name: &str, line: &str)
        ensures
            !final(self).welcome(),
            final(self).lines_of(channel_name@) == newest(
                old(self).lines_of(channel_name@).push(line@),
                old(self).max_lines() as nat,
            ),
            forall|other: Seq<char>|
                other != channel_name@ ==> lookup(final(self).buffers(), other) == lookup(
                    old(self).buffers(),
                    other,
                ),
            final(self).interleaved() == newest(
                old(self).interleaved().push((channel_name@, line@)),
                old(self).max_lines() as nat,
            ),
            final(self).offsets() == (if old(self).offset_of(channel_name@) > 0 {
                old(self).offsets()
            } else {
                stored(old(self).offsets(), channel_name@, 0usize)
            }),
            final(self)@ == (RendererView {
                welcome: false,
                buffers: final(self).buffers(),
                interleaved: final(self).interleaved(),
                offsets: final(self).offsets(),
                ..old(self)@
            }),
    {
        self.show_welcome = false;
        let ghost before = self.channel_buffers.entries();
        proof {
            lemma_place(before, channel_name@);
        }
        let (mut lines, at) = match self.channel_buffers.find(channel_name) {
            Some(i) => (self.channel_buffers.take_at(i), i),
            None => (Vec::new(), self.channel_buffers.len()),
        };
        let ghost held = lines.deep_view();
        lines.push(line.to_owned());
        assert(lines.deep_view() =~= held.push(line@));
        let ghost all = lines.deep_view();
        keep_newest(&mut lines, self.max_buffer_lines);
        assert(lines.deep_view() =~= newest(all, self.max_buffer_lines as nat));
        self.channel_buffers.put_at(at, channel_name, lines);
        proof {
            let after = self.channel_buffers.entries();
            assert(after =~= stored(before, channel_name@, lines));
            lemma_stored(before, channel_name@, lines, channel_name@);
            assert forall|other: Seq<char>| other != channel_name@ implies lookup(after, other)
                == lookup(before, other) by {
                lemma_stored(before, channel_name@, lines, other);
            }
        }
        let ghost mixed = self.interleaved_buffer.deep_view();
        self.interleaved_buffer.push((channel_name.to_owned(), line.to_owned()));
        assert(self.interleaved_buffer.deep_view() =~= mixed.push((channel_name@, line@)));
        let ghost mixed_all = self.interleaved_buffer.deep_view();
        keep_newest(&mut self.interleaved_buffer, self.max_buffer_lines);
        assert(self.interleaved_buffer.deep_view() =~= newest(
            mixed_all,
            self.max_buffer_lines as nat,
        ));
        if !self.is_scrolled(Some(channel_name)) {
            self.scroll_to_bottom(Some(channel_name));
        }
    }

    /// The lines of a channel that show, oldest first: those that the
    /// window over its buffer holds, given how far its view is scrolled.
    pub fn visible_channel_lines(&self, channel: Option<&str>) -> (lines: Vec<String>)
        ensures
            channel matches Some(name) ==> lines.deep_view() == self.lines_of(name@).subrange(
                window(self.lines_of(name@).len(), self.offset_of(name@), self.visible_rows()).0 as int,
                window(self.lines_of(name@).len(), self.offset_of(name@), self.visible_rows()).1 as int,
            ),
            channel is None ==> lines.deep_view().len() == 0,
    {
        let mut shown: Vec<String> = Vec::new();
        let name = match channel {
            Some(name) => name,
            None => {
                return shown;
            },
        };
        let offset = match self.scroll_offsets.get(name) {
            Some(offset) => *offset,
            None => 0,
        };
        match self.channel_buffers.get(name) {
            Some(buffer) => {
                let (start, end) = visible_window(buffer.len(), offset, self.visible_output_rows());
                let mut i: usize = start;
                assert(shown.deep_view() =~= buffer.deep_view().subrange(start as int, start as int));
                while i < end
                    invariant
                        start <= i <= end <= buffer.len(),
                        shown.deep_view() == buffer.deep_view().subrange(start as int, i as int),
                    decreases end - i,
                {
                    let ghost before = shown.deep_view();
                    shown.push(buffer[i].clone());
                    assert(shown.deep_view() =~= before.push(buffer.deep_view()[i as int]));
                    i += 1;
                    assert(shown.deep_view() =~= buffer.deep_view().subrange(
                        start as int,
                        i as int,
                    ));
                }
            },
            None => {
                assert(shown.deep_view() =~= Seq::<Seq<char>>::empty().subrange(0, 0));
            },
        }
        shown
    }

    /// The lines of all channels that show, oldest first: the newest as
    /// many as there are rows.
    pub fn visible_interleaved_lines(&self) -> (lines: Vec<(String, String)>)
        ensures
            lines.deep_view() == newest(self.interleaved(), self.visible_rows()),
    {
        let visible = self.visible_output_rows();
        let n = self.interleaved_buffer.len();
        let skip = if n > visible {
            n - visible
        } else {
            0
        };
        let mut shown: Vec<(String, String)> = Vec::new();
        let mut i: usize = skip;
        assert(shown.deep_view() =~= self.interleaved().subrange(skip as int, skip as int));
        while i < n
            invariant
                skip <= i <= n,
                n == self.interleaved_buffer.len(),
                shown.deep_view() == self.interleaved().subrange(skip as int, i as int),
            decreases n - i,
        {
            let ghost before = shown.deep_view();
            shown.push((self.interleaved_buffer[i].0.clone(), self.interleaved_buffer[i].1.clone()));
            assert(shown.deep_view() =~= before.push(self.interleaved()[i as int]));
            i += 1;
            assert(shown.deep_view() =~= self.interleaved().subrange(skip as int, i as int));
        }
        assert(self.interleaved().subrange(skip as int, n as int) =~= self.interleaved().skip(
            skip as int,
        ));
        assert(self.interleaved().skip(0) =~= self.interleaved());
        shown
    }

    /// Calculate the visible length of a string (excluding ANSI codes): the
    /// number of characters that are seen once its escape sequences are
    /// taken out.
    pub fn visible_len(s: &str) -> (len: usize)
        ensures
            len == ansi_stripped(s@).len(),
    {
        strip_ansi_codes(s).as_str().unicode_len()
    }

    /// Whether the welcome tips show in place of output: they do while
    /// they are on and no line of output is held.
    pub fn shows_welcome(&self) -> (shows: bool)
        ensures
            shows == (self.welcome() && self.buffers().len() == 0 && self.interleaved().len() == 0),
    {
        self.show_welcome && self.channel_buffers.is_empty() && self.interleaved_buffer.len() == 0
    }
}

} // verus!
