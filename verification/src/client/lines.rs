//! Cutting a channel's output into lines.

use crate::text::{chars_of, find_char, first_index, lemma_first_index, string_of, substring_of};
use vstd::prelude::*;
use vstd::string::*;

verus! {

/// `String::from_utf8_lossy`: the text that the bytes encode, with the
/// replacement character in place of what is not valid UTF-8.
pub uninterp spec fn utf8_lossy(bytes: Seq<u8>) -> Seq<char>;

/// `String::from_utf8_lossy` turns bytes into text; what is not valid
/// UTF-8 becomes the replacement character. It depends on the bytes alone.
#[verifier::external_body]
fn decode_lossy(bytes: &[u8]) -> (text: String)
    ensures
        text@ == utf8_lossy(bytes@),
{
    String::from_utf8_lossy(bytes).into_owned()
}

/// The text without the carriage returns at its end.
pub open spec fn without_returns(line: Seq<char>) -> Seq<char>
    decreases line.len(),
{
    if line.len() > 0 && line.last() == '\r' {
        without_returns(line.drop_last())
    } else {
        line
    }
}

/// The lines that a text holds: what stands before each of its line
/// feeds, without the carriage returns at its end.
pub open spec fn complete_lines(text: Seq<char>) -> Seq<Seq<char>>
    decreases text.len(),
    via complete_lines_decreases
{
    let feed = first_index(text, '\n');
    if feed < text.len() {
        seq![without_returns(text.take(feed))] + complete_lines(text.skip(feed + 1))
    } else {
        Seq::empty()
    }
}

#[via_fn]
proof fn complete_lines_decreases(text: Seq<char>) {
    lemma_first_index(text, '\n');
}

/// What of a text stands behind its last line feed: the start of a line
/// that is not complete yet.
pub open spec fn unfinished_line(text: Seq<char>) -> Seq<char>
    decreases text.len(),
    via unfinished_line_decreases
{
    let feed = first_index(text, '\n');
    if feed < text.len() {
        unfinished_line(text.skip(feed + 1))
    } else {
        text
    }
}

#[via_fn]
proof fn unfinished_line_decreases(text: Seq<char>) {
    lemma_first_index(text, '\n');
}

/// Takes the complete lines out of what is pending of a channel's output
/// together with new text: the lines are returned in order, and what stands
/// behind the last line feed stays pending.
pub fn take_lines(pending: &mut String, text: &str) -> (lines: Vec<String>)
    ensures
        lines.deep_view() == complete_lines(old(pending)@ + text@),
        final(pending)@ == unfinished_line(old(pending)@ + text@),
{
    pending.append(text);
    let ghost all = pending@;
    let chars = chars_of(pending.as_str());
    let mut lines: Vec<String> = Vec::new();
    let mut i: usize = 0;
    assert(chars@.skip(0) =~= chars@);
    assert(lines.deep_view() + complete_lines(chars@) =~= complete_lines(chars@));
    loop
        invariant_except_break
            i <= chars.len(),
            chars@ == all,
            lines.deep_view() + complete_lines(chars@.skip(i as int)) == complete_lines(all),
            unfinished_line(chars@.skip(i as int)) == unfinished_line(all),
        ensures
            i <= chars.len(),
            lines.deep_view() == complete_lines(all),
            chars@.skip(i as int) == unfinished_line(all),
        decreases chars.len() - i,
    {
        let ghost rest = chars@.skip(i as int);
        let ghost sofar = lines.deep_view();
        let feed = find_char(chars.as_slice(), i, '\n');
        if feed >= chars.len() {
            assert(sofar + Seq::<Seq<char>>::empty() =~= sofar);
            break;
        }
        let mut end: usize = feed;
        assert(chars@.subrange(i as int, feed as int) =~= rest.take(feed - i));
        while end > i && chars[end - 1] == '\r'
            invariant
                i <= end <= feed,
                feed < chars.len(),
                without_returns(chars@.subrange(i as int, end as int)) == without_returns(
                    chars@.subrange(i as int, feed as int),
                ),
            decreases end,
        {
            assert(chars@.subrange(i as int, end as int).drop_last() =~= chars@.subrange(
                i as int,
                end - 1,
            ));
            end -= 1;
        }
        let line = substring_of(chars.as_slice(), i, end);
        assert(line@ == without_returns(rest.take(feed - i)));
        lines.push(line);
        assert(lines.deep_view() =~= sofar.push(without_returns(rest.take(feed - i))));
        assert(rest.skip(feed - i + 1) =~= chars@.skip(feed + 1));
        assert(sofar + (seq![without_returns(rest.take(feed - i))] + complete_lines(
            chars@.skip(feed + 1),
        )) =~= lines.deep_view() + complete_lines(chars@.skip(feed + 1)));
        i = feed + 1;
    }
    *pending = substring_of(chars.as_slice(), i, chars.len());
    assert(chars@.subrange(i as int, chars.len() as int) =~= chars@.skip(i as int));
    lines
}

/// Takes the complete lines out of what is pending of a channel's
/// output together with newly read bytes, which are taken as text with
/// the replacement character in place of what is not valid UTF-8.
pub fn take_output_lines(pending: &mut String, data: &[u8]) -> (lines: Vec<String>)
    ensures
        lines.deep_view() == complete_lines(old(pending)@ + utf8_lossy(data@)),
        final(pending)@ == unfinished_line(old(pending)@ + utf8_lossy(data@)),
{
    let text = decode_lossy(data);
    take_lines(pending, text.as_str())
}

} // verus!
