//! Small helpers on text, seen as a sequence of characters.

use vstd::prelude::*;
use vstd::string::*;

verus! {

/// A character's code point is at most `0x10FFFF`, and fits a `u32`.
pub proof fn lemma_char_code(c: char)
    ensures
        c as nat <= 0x10FFFF,
        c as u32 as nat == c as nat,
{
}

/// `width` spaces.
pub open spec fn spaces(width: nat) -> Seq<char> {
    Seq::new(width, |i: int| ' ')
}

/// `s` at exactly `width` characters: cut after `width`, or filled on the
/// right with spaces.
pub open spec fn fit_to(s: Seq<char>, width: nat) -> Seq<char> {
    if s.len() >= width {
        s.take(width as int)
    } else {
        s + spaces((width - s.len()) as nat)
    }
}

/// The length of `s` without its trailing run of `c`.
pub open spec fn trimmed_len(s: Seq<char>, c: char) -> nat
    decreases s.len(),
{
    if s.len() > 0 && s.last() == c {
        trimmed_len(s.drop_last(), c)
    } else {
        s.len()
    }
}

/// `s` without its trailing run of `c`.
pub open spec fn trim_end(s: Seq<char>, c: char) -> Seq<char> {
    s.take(trimmed_len(s, c) as int)
}

/// The characters of `s`, in order.
pub fn to_chars(s: &str) -> (chars: Vec<char>)
    ensures
        chars@ == s@,
{
    let mut chars: Vec<char> = Vec::new();
    for c in it: s.chars()
        invariant
            it.seq() == s@,
            chars@ == it.seq().take(it.index() as int),
    {
        chars.push(c);
    }
    chars
}

/// `text` at exactly `width` characters: cut after `width`, or filled on the
/// right with spaces.
pub fn fit(text: &str, width: usize) -> (out: String)
    ensures
        out@ == fit_to(text@, width as nat),
{
    let len: usize = text.unicode_len();
    if len >= width {
        let cut: &str = text.substring_char(0, width);
        return cut.to_owned();
    }
    let mut out: String = text.to_owned();
    let mut filled: usize = len;
    while filled < width
        invariant
            len <= filled <= width,
            len == text@.len(),
            out@ == text@ + spaces((filled - len) as nat),
        decreases width - filled,
    {
        proof {
            reveal_strlit(" ");
            assert(text@ + spaces((filled - len) as nat) + seq![' '] =~= text@ + spaces(
                (filled + 1 - len) as nat,
            ));
        }
        out.append(" ");
        filled = filled + 1;
    }
    out
}

/// Where `chars[from..to]` ends once its trailing run of `c` is left out.
pub fn trimmed_end(chars: &Vec<char>, from: usize, to: usize, c: char) -> (end: usize)
    requires
        from <= to <= chars.len(),
    ensures
        from <= end <= to,
        end - from == trimmed_len(chars@.subrange(from as int, to as int), c),
        chars@.subrange(from as int, end as int) == trim_end(
            chars@.subrange(from as int, to as int),
            c,
        ),
{
    let mut end: usize = to;
    while end > from && chars[end - 1] == c
        invariant
            from <= end <= to <= chars.len(),
            trimmed_len(chars@.subrange(from as int, end as int), c) == trimmed_len(
                chars@.subrange(from as int, to as int),
                c,
            ),
        decreases end - from,
    {
        proof {
            let cur = chars@.subrange(from as int, end as int);
            assert(cur.drop_last() =~= chars@.subrange(from as int, end - 1));
        }
        end = end - 1;
    }
    end
}

/// The views of a run of strings.
pub open spec fn string_views(strings: Seq<String>) -> Seq<Seq<char>> {
    Seq::new(strings.len(), |i: int| strings[i]@)
}

/// The position of the first `c` in `s` at or after `from`, or the length
/// of `s` when there is none.
pub open spec fn next_index_of(s: Seq<char>, c: char, from: int) -> int
    decreases s.len() - from,
{
    if from >= s.len() {
        s.len() as int
    } else if s[from] == c {
        from
    } else {
        next_index_of(s, c, from + 1)
    }
}

/// The first `c` at or after `from` lies between `from` and the end, no
/// `c` comes before it, and it is a `c` unless it is the end.
pub proof fn lemma_next_index_of(s: Seq<char>, c: char, from: int)
    requires
        from <= s.len(),
    ensures
        from <= next_index_of(s, c, from) <= s.len(),
        forall|i: int| from <= i < next_index_of(s, c, from) ==> s[i] != c,
        next_index_of(s, c, from) < s.len() ==> s[next_index_of(s, c, from)] == c,
    decreases s.len() - from,
{
    if from < s.len() && s[from] != c {
        lemma_next_index_of(s, c, from + 1);
    }
}

/// `piece` without one carriage return at its end.
pub open spec fn without_return(piece: Seq<char>) -> Seq<char> {
    if piece.len() > 0 && piece.last() == '\r' {
        piece.drop_last()
    } else {
        piece
    }
}

/// The lines of `text` from position `from` on.
pub open spec fn lines_from(text: Seq<char>, from: int) -> Seq<Seq<char>>
    decreases text.len() - from,
{
    if from >= text.len() {
        Seq::empty()
    } else {
        let end = next_index_of(text, '\n', from);
        if end >= text.len() {
            seq![text.subrange(from, text.len() as int)]
        } else {
            proof {
                lemma_next_index_of(text, '\n', from);
            }
            seq![without_return(text.subrange(from, end))] + lines_from(text, end + 1)
        }
    }
}

/// The lines of `text`. A line ends at a line feed, which is not part of
/// it, nor is a carriage return just before the line feed. Text after the
/// last line feed is a line of its own.
pub open spec fn lines_of(text: Seq<char>) -> Seq<Seq<char>> {
    lines_from(text, 0)
}

/// The texts of `lines`, with a line feed between each two.
pub open spec fn joined(lines: Seq<Seq<char>>) -> Seq<char>
    decreases lines.len(),
{
    if lines.len() == 0 {
        Seq::empty()
    } else if lines.len() == 1 {
        lines[0]
    } else {
        joined(lines.drop_last()) + seq!['\n'] + lines.last()
    }
}

/// No character of `line` is a line feed.
pub open spec fn is_one_line(line: Seq<char>) -> bool {
    forall|i: int| 0 <= i < line.len() ==> line[i] != '\n'
}

/// Where `r` is the first `c` at or after `from`, or the end when there is
/// none, it is what [`next_index_of`] gives.
pub proof fn lemma_next_index_is(s: Seq<char>, c: char, from: int, r: int)
    requires
        0 <= from <= r <= s.len(),
        forall|i: int| from <= i < r ==> s[i] != c,
        r < s.len() ==> s[r] == c,
    ensures
        next_index_of(s, c, from) == r,
    decreases r - from,
{
    if from < r {
        lemma_next_index_is(s, c, from + 1, r);
    }
}

/// The lines from position `from` on are the lines of the text that
/// starts there.
pub proof fn lemma_lines_from_skip(text: Seq<char>, from: int)
    requires
        0 <= from <= text.len(),
    ensures
        lines_from(text, from) == lines_of(text.skip(from)),
    decreases text.len() - from,
{
    let rest = text.skip(from);
    if from < text.len() {
        let end = next_index_of(text, '\n', from);
        lemma_next_index_of(text, '\n', from);
        lemma_next_index_is(rest, '\n', 0, end - from);
        if end >= text.len() {
            assert(text.subrange(from, text.len() as int) =~= rest.subrange(0, rest.len() as int));
        } else {
            assert(text.subrange(from, end) =~= rest.subrange(0, end - from));
            lemma_lines_from_skip(text, end + 1);
            lemma_lines_from_skip(rest, end - from + 1);
            assert(rest.skip(end - from + 1) =~= text.skip(end + 1));
        }
    }
}

/// Joined lines begin with the first line and a line feed, and go on with
/// the other lines, joined.
pub proof fn lemma_joined_front(lines: Seq<Seq<char>>)
    requires
        lines.len() >= 2,
    ensures
        joined(lines) == lines[0] + seq!['\n'] + joined(lines.drop_first()),
    decreases lines.len(),
{
    let tail = lines.drop_first();
    if lines.len() == 2 {
        assert(lines.drop_last().len() == 1);
        assert(joined(lines.drop_last()) == lines[0]);
        assert(joined(tail) == lines[1]);
    } else {
        lemma_joined_front(lines.drop_last());
        assert(lines.drop_last().drop_first() =~= tail.drop_last());
        assert(joined(lines) =~= lines[0] + seq!['\n'] + joined(tail));
    }
}

/// Joining lines and splitting the text again gives the lines back, as
/// long as the text keeps them apart: there is at least one line, no line
/// holds a line feed, none but the last ends in a carriage return, and
/// the last is not empty.
pub proof fn lemma_joined_lines_split_back(lines: Seq<Seq<char>>)
    requires
        lines.len() > 0,
        forall|i: int| 0 <= i < lines.len() ==> is_one_line(#[trigger] lines[i]),
        forall|i: int|
            0 <= i < lines.len() - 1 ==> without_return(#[trigger] lines[i]) == lines[i],
        lines.last().len() > 0,
    ensures
        lines_of(joined(lines)) == lines,
    decreases lines.len(),
{
    let text = joined(lines);
    let first = lines[0];
    if lines.len() == 1 {
        lemma_next_index_is(first, '\n', 0, first.len() as int);
        assert(first.subrange(0, first.len() as int) =~= first);
        assert(lines_of(text) =~= lines);
    } else {
        let tail = lines.drop_first();
        lemma_joined_front(lines);
        let end = first.len() as int;
        assert(text[end] == '\n');
        assert forall|i: int| 0 <= i < end implies text[i] != '\n' by {
            assert(text[i] == first[i]);
        }
        lemma_next_index_is(text, '\n', 0, end);
        assert(text.subrange(0, end) =~= first);
        lemma_lines_from_skip(text, end + 1);
        assert(text.skip(end + 1) =~= joined(tail));
        assert forall|i: int| 0 <= i < tail.len() implies is_one_line(#[trigger] tail[i]) by {
            assert(tail[i] == lines[i + 1]);
        }
        assert forall|i: int| 0 <= i < tail.len() - 1 implies without_return(#[trigger] tail[i])
            == tail[i] by {
            assert(tail[i] == lines[i + 1]);
        }
        assert(tail.last() == lines.last());
        lemma_joined_lines_split_back(tail);
        assert(lines_of(text) =~= seq![first] + tail);
        assert(seq![first] + tail =~= lines);
    }
}

/// Appends one character to a string.
///
/// This is `String::push`, which appends the given character to the end
/// of the string.
#[verifier::external_body]
fn push_char(text: &mut String, c: char)
    ensures
        final(text)@ == old(text)@.push(c),
{
    text.push(c)
}

/// The text `chars[from..to]`.
pub fn text_of(chars: &Vec<char>, from: usize, to: usize) -> (text: String)
    requires
        from <= to <= chars.len(),
    ensures
        text@ == chars@.subrange(from as int, to as int),
{
    let mut text: String = String::new();
    let mut i: usize = from;
    while i < to
        invariant
            from <= i <= to <= chars.len(),
            text@ == chars@.subrange(from as int, i as int),
        decreases to - i,
    {
        proof {
            assert(chars@.subrange(from as int, i as int).push(chars@[i as int])
                =~= chars@.subrange(from as int, i as int + 1));
        }
        push_char(&mut text, chars[i]);
        i = i + 1;
    }
    text
}

/// The position of the first `c` in `chars` at or after `from`, or the
/// length of `chars` when there is none.
pub fn find_char(chars: &Vec<char>, c: char, from: usize) -> (index: usize)
    requires
        from <= chars.len(),
    ensures
        index == next_index_of(chars@, c, from as int),
        from <= index <= chars.len(),
{
    let mut i: usize = from;
    while i < chars.len() && chars[i] != c
        invariant
            from <= i <= chars.len(),
            next_index_of(chars@, c, i as int) == next_index_of(chars@, c, from as int),
        decreases chars.len() - i,
    {
        i = i + 1;
    }
    i
}

/// The lines of `text`, in order.
///
/// A line ends at a line feed, which is not part of it, nor is a carriage
/// return just before the line feed. Text after the last line feed is a
/// line of its own; empty text has no lines.
pub fn split_lines(text: &str) -> (lines: Vec<String>)
    ensures
        string_views(lines@) == lines_of(text@),
{
    let chars: Vec<char> = to_chars(text);
    let len: usize = chars.len();
    let mut lines: Vec<String> = Vec::new();
    let mut from: usize = 0;
    while from < len
        invariant
            0 <= from <= len,
            len == chars.len(),
            string_views(lines@) + lines_from(chars@, from as int) == lines_of(chars@),
        decreases len - from,
    {
        let end: usize = find_char(&chars, '\n', from);
        let ghost before = lines@;
        if end >= len {
            lines.push(text_of(&chars, from, len));
            proof {
                assert(string_views(lines@) + lines_from(chars@, len as int) =~= lines_of(
                    chars@,
                ));
            }
            from = len;
        } else {
            let stop: usize = if end > from && chars[end - 1] == '\r' {
                end - 1
            } else {
                end
            };
            lines.push(text_of(&chars, from, stop));
            proof {
                let piece = chars@.subrange(from as int, end as int);
                assert(chars@.subrange(from as int, stop as int) =~= without_return(piece));
                assert(lines_from(chars@, from as int) == seq![without_return(piece)]
                    + lines_from(chars@, end + 1));
                assert(string_views(lines@) =~= string_views(before) + seq![
                    without_return(piece),
                ]);
                assert(string_views(lines@) + lines_from(chars@, end + 1) =~= string_views(
                    before,
                ) + lines_from(chars@, from as int));
            }
            from = end + 1;
        }
    }
    lines
}

} // verus!
