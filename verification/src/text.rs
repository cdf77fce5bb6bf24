//! Small helpers on strings and lists of names.

use vstd::prelude::*;
use vstd::string::*;
use vstd::utf8::*;

verus! {

/// `String::push` appends one character to the end of the string.
pub assume_specification[ String::push ](s: &mut String, c: char)
    ensures
        final(s)@ == old(s)@.push(c),
;

/// `char::is_whitespace` beyond the ASCII characters: whether the
/// character has the Unicode property `White_Space`.
pub uninterp spec fn white_space(c: char) -> bool;

/// Whether a character is whitespace. Of the ASCII characters these are
/// the space and the five controls from the tab to the carriage return;
/// beyond them, the characters with the Unicode property `White_Space`.
pub open spec fn is_whitespace_char(c: char) -> bool {
    if c <= '\x7f' {
        c == ' ' || ('\t' <= c && c <= '\r')
    } else {
        white_space(c)
    }
}

/// `char::is_whitespace` says whether the character has the Unicode
/// property `White_Space`; it depends on the character alone. Among the
/// ASCII characters the property holds of U+0020 and of U+0009 to U+000D.
pub assume_specification[ char::is_whitespace ](c: char) -> (b: bool)
    ensures
        b == (if c <= '\x7f' {
            c == ' ' || ('\t' <= c && c <= '\r')
        } else {
            white_space(c)
        }),
;

/// `str::to_lowercase`: the lowercase equivalent of the text, by the Unicode
/// rules for lowercase.
pub uninterp spec fn lowercased(text: Seq<char>) -> Seq<char>;

/// `str::to_lowercase` returns the lowercase equivalent of the text as a new
/// string; it depends on the text alone.
pub assume_specification[ str::to_lowercase ](s: &str) -> (lower: String)
    ensures
        lower@ == lowercased(s@),
;

/// The encoding of a text in two parts is the encoding of the first part
/// followed by that of the second.
pub proof fn lemma_encode_concat(x: Seq<char>, y: Seq<char>)
    ensures
        encode_utf8(x + y) == encode_utf8(x) + encode_utf8(y),
    decreases x.len(),
{
    if x.len() == 0 {
        assert(x + y =~= y);
        assert(encode_utf8(x) + encode_utf8(y) =~= encode_utf8(y));
    } else {
        lemma_encode_concat(x.drop_first(), y);
        assert((x + y).drop_first() =~= x.drop_first() + y);
        assert((x + y)[0] == x[0]);
        assert(encode_utf8(x + y) =~= encode_utf8(x) + encode_utf8(y));
    }
}

/// In the encoding of a text in two parts, the second part starts on a
/// character boundary.
pub proof fn lemma_boundary_between(x: Seq<char>, y: Seq<char>)
    ensures
        is_char_boundary(encode_utf8(x + y), encode_utf8(x).len() as int),
        encode_utf8(x).len() <= encode_utf8(x + y).len(),
    decreases x.len(),
{
    lemma_encode_concat(x, y);
    encode_utf8_valid_utf8(x + y);
    if x.len() == 0 {
    } else {
        let all = x + y;
        let bytes = encode_utf8(all);
        encode_utf8_first_scalar(all);
        assert(all.drop_first() =~= x.drop_first() + y);
        assert(all[0] == x[0]);
        assert(pop_first_scalar(bytes) =~= encode_utf8(x.drop_first() + y));
        lemma_boundary_between(x.drop_first(), y);
        lemma_encode_concat(x.drop_first(), y);
        assert(encode_utf8(x).len() == encode_scalar(x[0] as u32).len() + encode_utf8(
            x.drop_first(),
        ).len());
        assert(encode_scalar(x[0] as u32).len() >= 1);
        reveal_with_fuel(is_char_boundary, 2);
    }
}

/// Splits a string slice at a byte offset that lies on a character
/// boundary: the two parts together are the text, and the first part is
/// `mid` bytes long.
pub fn split_str(s: &str, mid: usize) -> (parts: (&str, &str))
    requires
        is_char_boundary(s.spec_bytes(), mid as int),
    ensures
        parts.0@ + parts.1@ == s@,
        parts.0@ == decode_utf8(s.spec_bytes().subrange(0, mid as int)),
        parts.1@ == decode_utf8(s.spec_bytes().subrange(mid as int, s.spec_bytes().len() as int)),
        parts.0.spec_bytes().len() == mid,
{
    let parts = s.split_at(mid);
    proof {
        let bytes = s.spec_bytes();
        encode_utf8_valid_utf8(s@);
        encode_utf8_decode_utf8(s@);
        encode_utf8_decode_utf8(parts.0@);
        encode_utf8_decode_utf8(parts.1@);
        decode_utf8_split(bytes, mid as int);
        assert(mid <= bytes.len()) by {
            reveal_with_fuel(is_char_boundary, 1);
        }
    }
    parts
}

/// The text without the whitespace at its start.
pub open spec fn trimmed_start(s: Seq<char>) -> Seq<char>
    decreases s.len(),
{
    if s.len() > 0 && is_whitespace_char(s[0]) {
        trimmed_start(s.drop_first())
    } else {
        s
    }
}

/// The text without the whitespace at its end.
pub open spec fn trimmed_end(s: Seq<char>) -> Seq<char>
    decreases s.len(),
{
    if s.len() > 0 && is_whitespace_char(s.last()) {
        trimmed_end(s.drop_last())
    } else {
        s
    }
}

/// The text without the whitespace at its start and at its end.
pub open spec fn trimmed(s: Seq<char>) -> Seq<char> {
    trimmed_end(trimmed_start(s))
}

/// Where the text starts once the whitespace at its start is passed over.
pub fn trim_start_index(chars: &[char]) -> (start: usize)
    ensures
        start <= chars.len(),
        chars@.skip(start as int) == trimmed_start(chars@),
{
    let mut start: usize = 0;
    assert(chars@.skip(0) =~= chars@);
    while start < chars.len() && chars[start].is_whitespace()
        invariant
            start <= chars.len(),
            trimmed_start(chars@.skip(start as int)) == trimmed_start(chars@),
        decreases chars.len() - start,
    {
        assert(chars@.skip(start as int).drop_first() =~= chars@.skip(start + 1));
        start += 1;
    }
    start
}

/// Where the first `end` characters of the text end once the whitespace at
/// their end is passed over.
pub fn trim_end_index(chars: &[char], start: usize, end: usize) -> (stop: usize)
    requires
        start <= end <= chars.len(),
    ensures
        start <= stop <= end,
        chars@.subrange(start as int, stop as int) == trimmed_end(
            chars@.subrange(start as int, end as int),
        ),
{
    let mut stop: usize = end;
    while stop > start && chars[stop - 1].is_whitespace()
        invariant
            start <= stop <= end,
            end <= chars.len(),
            trimmed_end(chars@.subrange(start as int, stop as int)) == trimmed_end(
                chars@.subrange(start as int, end as int),
            ),
        decreases stop,
    {
        assert(chars@.subrange(start as int, stop as int).drop_last() =~= chars@.subrange(
            start as int,
            stop - 1,
        ));
        stop -= 1;
    }
    stop
}

/// The characters of `chars` from `start` up to `end`, as a string.
pub fn substring_of(chars: &[char], start: usize, end: usize) -> (s: String)
    requires
        start <= end <= chars.len(),
    ensures
        s@ == chars@.subrange(start as int, end as int),
{
    let mut s = String::new();
    let mut i: usize = start;
    assert(chars@.subrange(start as int, start as int) =~= Seq::<char>::empty());
    while i < end
        invariant
            start <= i <= end,
            end <= chars.len(),
            s@ == chars@.subrange(start as int, i as int),
        decreases end - i,
    {
        s.push(chars[i]);
        i += 1;
        assert(chars@.subrange(start as int, i as int) =~= chars@.subrange(
            start as int,
            i - 1,
        ).push(chars@[i - 1]));
    }
    s
}

/// The characters of `chars` from `start` up to `end`.
pub fn slice_of(chars: &[char], start: usize, end: usize) -> (part: Vec<char>)
    requires
        start <= end <= chars.len(),
    ensures
        part@ == chars@.subrange(start as int, end as int),
{
    let mut part: Vec<char> = Vec::new();
    let mut i: usize = start;
    assert(chars@.subrange(start as int, start as int) =~= Seq::<char>::empty());
    while i < end
        invariant
            start <= i <= end,
            end <= chars.len(),
            part@ == chars@.subrange(start as int, i as int),
        decreases end - i,
    {
        part.push(chars[i]);
        i += 1;
        assert(chars@.subrange(start as int, i as int) =~= chars@.subrange(
            start as int,
            i - 1,
        ).push(chars@[i - 1]));
    }
    part
}

/// The characters of a text without the whitespace at its start and at its end.
pub fn trim_chars(chars: &[char]) -> (inner: Vec<char>)
    ensures
        inner@ == trimmed(chars@),
{
    let start = trim_start_index(chars);
    let stop = trim_end_index(chars, start, chars.len());
    assert(chars@.subrange(start as int, chars.len() as int) =~= chars@.skip(start as int));
    slice_of(chars, start, stop)
}

/// Where `c` stands first in the text, or the length of the text where it
/// does not stand in it.
pub open spec fn first_index(s: Seq<char>, c: char) -> int
    decreases s.len(),
{
    if s.len() == 0 {
        0
    } else if s[0] == c {
        0
    } else {
        1 + first_index(s.drop_first(), c)
    }
}

/// `first_index` is the first place at which the character stands.
pub proof fn lemma_first_index(s: Seq<char>, c: char)
    ensures
        0 <= first_index(s, c) <= s.len(),
        first_index(s, c) < s.len() ==> s[first_index(s, c)] == c,
        forall|i: int| 0 <= i < first_index(s, c) ==> s[i] != c,
    decreases s.len(),
{
    if s.len() > 0 && s[0] != c {
        lemma_first_index(s.drop_first(), c);
        assert forall|i: int| 0 <= i < first_index(s, c) implies s[i] != c by {
            if i > 0 {
                assert(s.drop_first()[i - 1] == s[i]);
            }
        }
    }
}

/// Where `c` stands first in the text at or after `from`, or the length of
/// the text where it does not.
pub fn find_char(chars: &[char], from: usize, c: char) -> (at: usize)
    requires
        from <= chars.len(),
    ensures
        from <= at <= chars.len(),
        at == from + first_index(chars@.skip(from as int), c),
{
    let mut at: usize = from;
    while at < chars.len() && chars[at] != c
        invariant
            from <= at <= chars.len(),
            from + first_index(chars@.skip(from as int), c) == at + first_index(
                chars@.skip(at as int),
                c,
            ),
        decreases chars.len() - at,
    {
        assert(chars@.skip(at as int).drop_first() =~= chars@.skip(at + 1));
        at += 1;
    }
    at
}

/// The number of characters at the start of the text that are not whitespace.
pub open spec fn word_len(s: Seq<char>) -> int
    decreases s.len(),
{
    if s.len() > 0 && !is_whitespace_char(s[0]) {
        1 + word_len(s.drop_first())
    } else {
        0
    }
}

/// The words of a text: its runs of characters that are not whitespace, in order.
pub open spec fn words(s: Seq<char>) -> Seq<Seq<char>>
    decreases s.len(),
    via words_decreases
{
    let t = trimmed_start(s);
    if t.len() == 0 {
        Seq::empty()
    } else {
        seq![t.take(word_len(t))] + words(t.skip(word_len(t)))
    }
}

#[via_fn]
proof fn words_decreases(s: Seq<char>) {
    let t = trimmed_start(s);
    lemma_trimmed_start(s);
    if t.len() != 0 {
        lemma_word_len(t);
    }
}

/// Trimming the start leaves a text that is no longer and that does not
/// start with whitespace.
pub proof fn lemma_trimmed_start(s: Seq<char>)
    ensures
        trimmed_start(s).len() <= s.len(),
        trimmed_start(s).len() > 0 ==> !is_whitespace_char(trimmed_start(s)[0]),
    decreases s.len(),
{
    if s.len() > 0 && is_whitespace_char(s[0]) {
        lemma_trimmed_start(s.drop_first());
    }
}

/// A word is no longer than its text, and is not empty where the text
/// starts with something else than whitespace.
pub proof fn lemma_word_len(s: Seq<char>)
    ensures
        0 <= word_len(s) <= s.len(),
        s.len() > 0 && !is_whitespace_char(s[0]) ==> word_len(s) >= 1,
    decreases s.len(),
{
    if s.len() > 0 && !is_whitespace_char(s[0]) {
        lemma_word_len(s.drop_first());
    }
}

/// The words of the text at and after `from`.
pub fn split_words(chars: &[char], from: usize) -> (found: Vec<String>)
    requires
        from <= chars.len(),
    ensures
        found.deep_view() == words(chars@.skip(from as int)),
{
    let mut found: Vec<String> = Vec::new();
    let mut i: usize = from;
    assert(found.deep_view() =~= Seq::<Seq<char>>::empty());
    assert(Seq::<Seq<char>>::empty() + words(chars@.skip(from as int)) =~= words(
        chars@.skip(from as int),
    ));
    loop
        invariant
            from <= i <= chars.len(),
            found.deep_view() + words(chars@.skip(i as int)) == words(chars@.skip(from as int)),
        ensures
            found.deep_view() == words(chars@.skip(from as int)),
        decreases chars.len() - i,
    {
        let ghost rest = chars@.skip(i as int);
        // pass over the whitespace
        let mut start: usize = i;
        assert(chars@.skip(start as int) =~= rest);
        while start < chars.len() && chars[start].is_whitespace()
            invariant
                i <= start <= chars.len(),
                trimmed_start(chars@.skip(start as int)) == trimmed_start(rest),
            decreases chars.len() - start,
        {
            assert(chars@.skip(start as int).drop_first() =~= chars@.skip(start + 1));
            start += 1;
        }
        let ghost t = chars@.skip(start as int);
        assert(t == trimmed_start(rest));
        if start == chars.len() {
            assert(t.len() == 0);
            assert(words(rest) =~= Seq::<Seq<char>>::empty());
            assert(found.deep_view() + Seq::<Seq<char>>::empty() =~= found.deep_view());
            break;
        }
        // take the word
        let mut end: usize = start;
        while end < chars.len() && !chars[end].is_whitespace()
            invariant
                start <= end <= chars.len(),
                t == chars@.skip(start as int),
                word_len(t) == (end - start) + word_len(chars@.skip(end as int)),
            decreases chars.len() - end,
        {
            assert(chars@.skip(end as int).drop_first() =~= chars@.skip(end + 1));
            end += 1;
        }
        assert(word_len(t) == end - start);
        assert(end > start);
        let ghost before = found.deep_view();
        let word = substring_of(chars, start, end);
        assert(word@ =~= t.take(word_len(t)));
        found.push(word);
        assert(found.deep_view() =~= before.push(t.take(word_len(t))));
        assert(t.skip(word_len(t)) =~= chars@.skip(end as int));
        assert(words(rest) == seq![t.take(word_len(t))] + words(t.skip(word_len(t))));
        assert(found.deep_view() + words(chars@.skip(end as int)) =~= before + words(rest));
        i = end;
    }
    found
}

/// Whether the text starts with the given characters.
pub open spec fn starts_with(text: Seq<char>, start: Seq<char>) -> bool {
    start.len() <= text.len() && text.take(start.len() as int) == start
}

/// Whether the text starts with the given characters.
pub fn has_prefix(text: &[char], start: &[char]) -> (r: bool)
    ensures
        r == starts_with(text@, start@),
{
    if start.len() > text.len() {
        return false;
    }
    let mut i: usize = 0;
    while i < start.len()
        invariant
            i <= start.len() <= text.len(),
            forall|j: int| 0 <= j < i ==> text@[j] == start@[j],
        decreases start.len() - i,
    {
        if text[i] != start[i] {
            assert(text@.take(start.len() as int)[i as int] != start@[i as int]);
            return false;
        }
        i += 1;
    }
    assert(text@.take(start.len() as int) =~= start@);
    true
}

/// The character of a decimal digit.
pub open spec fn digit_char(d: nat) -> char
    recommends
        d < 10,
{
    ((48 + d) as u8) as char
}

/// The decimal digits of a number, without leading zeros.
pub open spec fn decimal(n: nat) -> Seq<char>
    decreases n,
{
    if n < 10 {
        seq![digit_char(n)]
    } else {
        decimal(n / 10).push(digit_char(n % 10))
    }
}

/// Appends the decimal digits of `n` to `s`.
pub fn push_decimal(s: &mut String, n: u64)
    ensures
        final(s)@ == old(s)@ + decimal(n as nat),
    decreases n,
{
    if n >= 10 {
        push_decimal(s, n / 10);
    }
    let digit: u8 = 48u8 + (n % 10) as u8;
    s.push(digit as char);
    assert(s@ =~= old(s)@ + decimal(n as nat));
}

/// Whether two string slices hold the same text.
pub fn str_eq(a: &str, b: &str) -> (r: bool)
    ensures
        r == (a@ == b@),
{
    let x = a.as_bytes();
    let y = b.as_bytes();
    proof {
        encode_utf8_decode_utf8(a@);
        encode_utf8_decode_utf8(b@);
    }
    if x.len() != y.len() {
        return false;
    }
    let mut i: usize = 0;
    while i < x.len()
        invariant
            i <= x.len(),
            x.len() == y.len(),
            x@ == a.spec_bytes(),
            y@ == b.spec_bytes(),
            forall|j: int| 0 <= j < i ==> x@[j] == y@[j],
        decreases x.len() - i,
    {
        if x[i] != y[i] {
            return false;
        }
        i += 1;
    }
    assert(x@ =~= y@);
    true
}

/// The characters of a string slice, in order.
pub fn chars_of(s: &str) -> (chars: Vec<char>)
    ensures
        chars@ == s@,
{
    let mut chars: Vec<char> = Vec::new();
    for c in it: s.chars()
        invariant
            chars@ == s@.take(it.index() as int),
            it.seq() == s@,
    {
        chars.push(c);
    }
    chars
}

/// The string made of the given characters, in order.
pub fn string_of(chars: &[char]) -> (s: String)
    ensures
        s@ == chars@,
{
    let mut s = String::new();
    let mut i: usize = 0;
    while i < chars.len()
        invariant
            i <= chars.len(),
            s@ == chars@.take(i as int),
        decreases chars.len() - i,
    {
        s.push(chars[i]);
        i += 1;
        assert(chars@.take(i as int) =~= chars@.take(i - 1).push(chars@[i - 1]));
    }
    assert(chars@.take(chars.len() as int) =~= chars@);
    s
}

/// A set of names after `names` were taken out of it; what stays keeps its order.
pub open spec fn without_names(set: Seq<Seq<char>>, names: Seq<Seq<char>>) -> Seq<Seq<char>> {
    set.filter(|n: Seq<char>| !names.contains(n))
}

/// A set of names after `names` were put into it, one after the other: a name
/// that the set lacks goes to its end, a name that it holds changes nothing.
pub open spec fn with_names(set: Seq<Seq<char>>, names: Seq<Seq<char>>) -> Seq<Seq<char>>
    decreases names.len(),
{
    if names.len() == 0 {
        set
    } else {
        let before = with_names(set, names.drop_last());
        if before.contains(names.last()) {
            before
        } else {
            before.push(names.last())
        }
    }
}

/// The names that `with_names` added to the set, in the order in which it added them.
pub open spec fn newly_added(set: Seq<Seq<char>>, names: Seq<Seq<char>>) -> Seq<Seq<char>>
    decreases names.len(),
{
    if names.len() == 0 {
        Seq::empty()
    } else {
        let added = newly_added(set, names.drop_last());
        if with_names(set, names.drop_last()).contains(names.last()) {
            added
        } else {
            added.push(names.last())
        }
    }
}

/// Putting names into a set keeps it free of duplicates and keeps what it held.
pub proof fn lemma_with_names(set: Seq<Seq<char>>, names: Seq<Seq<char>>)
    ensures
        set.no_duplicates() ==> with_names(set, names).no_duplicates(),
        forall|n: Seq<char>|
            with_names(set, names).contains(n) <==> (set.contains(n) || names.contains(n)),
        with_names(set, names) == set + newly_added(set, names),
        forall|n: Seq<char>| #[trigger]
            newly_added(set, names).contains(n) <==> (!set.contains(n) && names.contains(n)),
        (forall|n: Seq<char>| names.contains(n) ==> set.contains(n)) ==> with_names(set, names)
            == set,
        newly_added(set, names).no_duplicates(),
    decreases names.len(),
{
    if names.len() == 0 {
        assert(set + Seq::<Seq<char>>::empty() =~= set);
    } else {
        let head = names.drop_last();
        let last = names.last();
        lemma_with_names(set, head);
        let before = with_names(set, head);
        assert(names =~= head.push(last));
        assert forall|n: Seq<char>| names.contains(n) <==> (head.contains(n) || n == last) by {
            if names.contains(n) {
                let i = choose|i: int| 0 <= i < names.len() && names[i] == n;
                if i < head.len() {
                    assert(head[i] == n);
                }
            }
            if head.contains(n) {
                let i = choose|i: int| 0 <= i < head.len() && head[i] == n;
                assert(names[i] == n);
            }
            if n == last {
                assert(names[names.len() - 1] == n);
            }
        }
        if before.contains(last) {
        } else {
            let after = before.push(last);
            assert(after =~= set + newly_added(set, head).push(last));
            assert forall|n: Seq<char>| after.contains(n) <==> (before.contains(n) || n == last) by {
                if after.contains(n) {
                    let i = choose|i: int| 0 <= i < after.len() && after[i] == n;
                    if i < before.len() {
                        assert(before[i] == n);
                    }
                }
                if before.contains(n) {
                    let i = choose|i: int| 0 <= i < before.len() && before[i] == n;
                    assert(after[i] == n);
                }
                if n == last {
                    assert(after[after.len() - 1] == n);
                }
            }
            let added = newly_added(set, head);
            let added2 = added.push(last);
            assert(!added.contains(last)) by {
                if added.contains(last) {
                    let i = choose|i: int| 0 <= i < added.len() && added[i] == last;
                    assert(before[set.len() + i] == last);
                }
            }
            assert forall|i: int, j: int|
                0 <= i < added2.len() && 0 <= j < added2.len() && i != j implies added2[i]
                != added2[j] by {
                if i < added.len() && j < added.len() {
                } else if i < added.len() {
                    assert(added.contains(added[i]));
                } else {
                    assert(added.contains(added[j]));
                }
            }
            assert forall|n: Seq<char>| added2.contains(n) <==> (added.contains(n) || n == last) by {
                if added2.contains(n) {
                    let i = choose|i: int| 0 <= i < added2.len() && added2[i] == n;
                    if i < added.len() {
                        assert(added[i] == n);
                    }
                }
                if added.contains(n) {
                    let i = choose|i: int| 0 <= i < added.len() && added[i] == n;
                    assert(added2[i] == n);
                }
                if n == last {
                    assert(added2[added2.len() - 1] == n);
                }
            }
            if set.no_duplicates() {
                assert forall|i: int, j: int|
                    0 <= i < after.len() && 0 <= j < after.len() && i != j implies after[i]
                    != after[j] by {
                    if i < before.len() && j < before.len() {
                    } else if i < before.len() {
                        assert(before.contains(before[i]));
                    } else {
                        assert(before.contains(before[j]));
                    }
                }
            }
        }
        if forall|n: Seq<char>| names.contains(n) ==> set.contains(n) {
            assert(names.contains(last));
            assert(set.contains(last));
            assert(before.contains(last));
            assert forall|n: Seq<char>| head.contains(n) implies set.contains(n) by {
                assert(names.contains(n));
            }
        }
    }
}

/// Taking names out of a set leaves exactly the names that were in the set
/// and are not among those taken out.
pub proof fn lemma_without_names(set: Seq<Seq<char>>, names: Seq<Seq<char>>)
    ensures
        forall|n: Seq<char>| #[trigger]
            without_names(set, names).contains(n) <==> (set.contains(n) && !names.contains(n)),
        set.no_duplicates() ==> without_names(set, names).no_duplicates(),
        (forall|n: Seq<char>| names.contains(n) ==> !set.contains(n)) ==> without_names(
            set,
            names,
        ) == set,
    decreases set.len(),
{
    reveal(Seq::filter);
    let keep = |n: Seq<char>| !names.contains(n);
    if set.len() == 0 {
    } else {
        let head = set.drop_last();
        let last = set.last();
        lemma_without_names(head, names);
        let kept = without_names(head, names);
        assert(set =~= head.push(last));
        assert forall|n: Seq<char>| set.contains(n) <==> (head.contains(n) || n == last) by {
            if set.contains(n) {
                let i = choose|i: int| 0 <= i < set.len() && set[i] == n;
                if i < head.len() {
                    assert(head[i] == n);
                }
            }
            if head.contains(n) {
                let i = choose|i: int| 0 <= i < head.len() && head[i] == n;
                assert(set[i] == n);
            }
            if n == last {
                assert(set[set.len() - 1] == n);
            }
        }
        if keep(last) {
            let all = kept.push(last);
            assert(without_names(set, names) == all);
            assert forall|n: Seq<char>| all.contains(n) <==> (kept.contains(n) || n == last) by {
                if all.contains(n) {
                    let i = choose|i: int| 0 <= i < all.len() && all[i] == n;
                    if i < kept.len() {
                        assert(kept[i] == n);
                    }
                }
                if kept.contains(n) {
                    let i = choose|i: int| 0 <= i < kept.len() && kept[i] == n;
                    assert(all[i] == n);
                }
                if n == last {
                    assert(all[all.len() - 1] == n);
                }
            }
            if set.no_duplicates() {
                assert(head.no_duplicates());
                assert(!head.contains(last)) by {
                    if head.contains(last) {
                        let i = choose|i: int| 0 <= i < head.len() && head[i] == last;
                        assert(set[i] == set[set.len() - 1]);
                    }
                }
                assert forall|i: int, j: int|
                    0 <= i < all.len() && 0 <= j < all.len() && i != j implies all[i]
                    != all[j] by {
                    if i < kept.len() && j < kept.len() {
                    } else if i < kept.len() {
                        assert(kept.contains(kept[i]));
                    } else {
                        assert(kept.contains(kept[j]));
                    }
                }
            }
        } else {
            if set.no_duplicates() {
                assert(head.no_duplicates());
            }
        }
        if forall|n: Seq<char>| names.contains(n) ==> !set.contains(n) {
            assert(!names.contains(last)) by {
                assert(set.contains(last));
            }
            assert forall|n: Seq<char>| names.contains(n) implies !head.contains(n) by {
                if head.contains(n) {
                    assert(set.contains(n));
                }
            }
        }
    }
}

/// One step of a filter that walks a sequence from the front.
pub proof fn lemma_filter_step<A>(s: Seq<A>, pred: spec_fn(A) -> bool, i: int)
    requires
        0 <= i < s.len(),
    ensures
        s.take(i + 1).filter(pred) == if pred(s[i]) {
            s.take(i).filter(pred).push(s[i])
        } else {
            s.take(i).filter(pred)
        },
{
    reveal(Seq::filter);
    assert(s.take(i + 1).drop_last() =~= s.take(i));
}

/// A filter keeps nothing of a sequence in which nothing passes.
pub proof fn lemma_filter_none<A>(s: Seq<A>, pred: spec_fn(A) -> bool)
    requires
        forall|j: int| 0 <= j < s.len() ==> !pred(#[trigger] s[j]),
    ensures
        s.filter(pred).len() == 0,
    decreases s.len(),
{
    reveal(Seq::filter);
    if s.len() > 0 {
        lemma_filter_none(s.drop_last(), pred);
    }
}

/// The first element that a filter keeps is the first that passes.
pub proof fn lemma_filter_first<A>(s: Seq<A>, pred: spec_fn(A) -> bool, i: int)
    requires
        0 <= i < s.len(),
        pred(s[i]),
        forall|j: int| 0 <= j < i ==> !pred(#[trigger] s[j]),
    ensures
        s.filter(pred).len() > 0,
        s.filter(pred)[0] == s[i],
    decreases s.len(),
{
    reveal(Seq::filter);
    if i == s.len() - 1 {
        lemma_filter_none(s.drop_last(), pred);
    } else {
        lemma_filter_first(s.drop_last(), pred, i);
    }
}

/// Filtering by a property of what a function gives, and then applying the
/// function, is applying it first and filtering then.
pub proof fn lemma_filter_map<A, B>(
    s: Seq<A>,
    f: spec_fn(A) -> B,
    p: spec_fn(B) -> bool,
    q: spec_fn(A) -> bool,
)
    requires
        forall|a: A| #[trigger] q(a) == p(f(a)),
    ensures
        s.filter(q).map_values(f) == s.map_values(f).filter(p),
    decreases s.len(),
{
    reveal(Seq::filter);
    if s.len() == 0 {
        assert(s.filter(q).map_values(f) =~= s.map_values(f).filter(p));
    } else {
        lemma_filter_map(s.drop_last(), f, p, q);
        assert(s.map_values(f).drop_last() =~= s.drop_last().map_values(f));
        assert(s.map_values(f).last() == f(s.last()));
        assert(s.filter(q).map_values(f) =~= s.map_values(f).filter(p));
    }
}

/// A filter keeps apart what a function already kept apart.
pub proof fn lemma_filter_distinct<A, B>(s: Seq<A>, f: spec_fn(A) -> B, q: spec_fn(A) -> bool)
    requires
        forall|i: int, j: int| 0 <= i < j < s.len() ==> f(#[trigger] s[i]) != f(#[trigger] s[j]),
    ensures
        forall|i: int, j: int|
            0 <= i < j < s.filter(q).len() ==> f(#[trigger] s.filter(q)[i]) != f(
                #[trigger] s.filter(q)[j],
            ),
        forall|i: int| 0 <= i < s.filter(q).len() ==> s.contains(#[trigger] s.filter(q)[i]),
    decreases s.len(),
{
    reveal(Seq::filter);
    if s.len() > 0 {
        let head = s.drop_last();
        lemma_filter_distinct(head, f, q);
        let t = head.filter(q);
        assert forall|i: int| 0 <= i < t.len() implies s.contains(#[trigger] t[i]) by {
            assert(head.contains(t[i]));
            let k = choose|k: int| 0 <= k < head.len() && head[k] == t[i];
            assert(s[k] == t[i]);
        }
        if q(s.last()) {
            let u = s.filter(q);
            assert(u =~= t.push(s.last()));
            assert(s[s.len() - 1] == s.last());
            assert forall|i: int, j: int| 0 <= i < j < u.len() implies f(#[trigger] u[i]) != f(
                #[trigger] u[j],
            ) by {
                if j == t.len() {
                    assert(head.contains(t[i]));
                    let k = choose|k: int| 0 <= k < head.len() && head[k] == t[i];
                    assert(f(s[k]) != f(s[s.len() - 1]));
                } else {
                    assert(f(t[i]) != f(t[j]));
                }
            }
        }
    }
}

/// A filter keeps the whole of a sequence in which everything passes.
pub proof fn lemma_filter_all<A>(s: Seq<A>, q: spec_fn(A) -> bool)
    requires
        forall|j: int| 0 <= j < s.len() ==> q(#[trigger] s[j]),
    ensures
        s.filter(q) == s,
    decreases s.len(),
{
    reveal(Seq::filter);
    if s.len() > 0 {
        lemma_filter_all(s.drop_last(), q);
        assert(s.drop_last().push(s.last()) =~= s);
    }
}

/// A filter that only one element fails removes that element.
pub proof fn lemma_filter_remove<A>(s: Seq<A>, q: spec_fn(A) -> bool, i: int)
    requires
        0 <= i < s.len(),
        !q(s[i]),
        forall|j: int| 0 <= j < s.len() && j != i ==> q(#[trigger] s[j]),
    ensures
        s.filter(q) == s.remove(i),
    decreases s.len(),
{
    reveal(Seq::filter);
    if i == s.len() - 1 {
        lemma_filter_all(s.drop_last(), q);
        assert(s.remove(i) =~= s.drop_last());
    } else {
        lemma_filter_remove(s.drop_last(), q, i);
        assert(s.drop_last().remove(i).push(s.last()) =~= s.remove(i));
    }
}

/// Where a name stands first in a list of names, or the length of the
/// list where it does not stand in it.
pub open spec fn first_name(names: Seq<Seq<char>>, name: Seq<char>) -> int
    decreases names.len(),
{
    if names.len() == 0 {
        0
    } else if names[0] == name {
        0
    } else {
        1 + first_name(names.drop_first(), name)
    }
}

/// Whether `names` holds `name`.
pub fn contains_name(names: &[String], name: &str) -> (r: bool)
    ensures
        r == names.deep_view().contains(name@),
{
    let mut i: usize = 0;
    while i < names.len()
        invariant
            i <= names.len(),
            forall|j: int| 0 <= j < i ==> names.deep_view()[j] != name@,
        decreases names.len() - i,
    {
        if str_eq(names[i].as_str(), name) {
            assert(names.deep_view()[i as int] == name@);
            return true;
        }
        i += 1;
    }
    false
}

/// Takes every name of `names` out of `set`; what stays keeps its order.
pub fn remove_names(set: &mut Vec<String>, names: &[String])
    ensures
        final(set).deep_view() == without_names(old(set).deep_view(), names.deep_view()),
{
    let ghost keep = |n: Seq<char>| !names.deep_view().contains(n);
    let mut kept: Vec<String> = Vec::new();
    let mut i: usize = 0;
    while i < set.len()
        invariant
            i <= set.len(),
            keep == (|n: Seq<char>| !names.deep_view().contains(n)),
            kept.deep_view() == set.deep_view().take(i as int).filter(keep),
        decreases set.len() - i,
    {
        let ghost before = kept.deep_view();
        proof {
            reveal(Seq::filter);
        }
        assert(set.deep_view().take(i + 1).drop_last() =~= set.deep_view().take(i as int));
        if !contains_name(names, set[i].as_str()) {
            kept.push(set[i].clone());
            assert(kept.deep_view() =~= before.push(set.deep_view()[i as int]));
        }
        i += 1;
    }
    assert(set.deep_view().take(set.len() as int) =~= set.deep_view());
    *set = kept;
}

/// Puts every name of `names` into `set`, one after the other, and returns the
/// names that the set did not hold before, in the order in which they went in.
pub fn add_names(set: &mut Vec<String>, names: &[String]) -> (added: Vec<String>)
    ensures
        final(set).deep_view() == with_names(old(set).deep_view(), names.deep_view()),
        added.deep_view() == newly_added(old(set).deep_view(), names.deep_view()),
{
    let mut added: Vec<String> = Vec::new();
    let mut i: usize = 0;
    while i < names.len()
        invariant
            i <= names.len(),
            set.deep_view() == with_names(old(set).deep_view(), names.deep_view().take(i as int)),
            added.deep_view() == newly_added(old(set).deep_view(), names.deep_view().take(i as int)),
        decreases names.len() - i,
    {
        let ghost set_before = set.deep_view();
        let ghost added_before = added.deep_view();
        assert(names.deep_view().take(i + 1).drop_last() =~= names.deep_view().take(i as int));
        if !contains_name(set.as_slice(), names[i].as_str()) {
            set.push(names[i].clone());
            added.push(names[i].clone());
            assert(set.deep_view() =~= set_before.push(names.deep_view()[i as int]));
            assert(added.deep_view() =~= added_before.push(names.deep_view()[i as int]));
        }
        i += 1;
    }
    assert(names.deep_view().take(names.len() as int) =~= names.deep_view());
    added
}

} // verus!
