//! Classification of a log line into its positional fields, and the styled
//! text that is drawn for it.
//!
//! A structured line has the shape
//! `MM-DD HH:MM:SS.mmm  PID  TID L TAG: message`: a date of five characters,
//! then fields separated by runs of spaces. Any other line is shown as it is.

use vstd::prelude::*;
use vstd::string::*;
use std::ops::Range;
use crate::color::{
    fallback_color, field_color, field_color_of, get_color_from_string, level_color,
    level_field_color, plain_color, tag_color_of, Color, FieldKind,
};
use crate::log::{field_text, segment_views, span, FormatedItem, RawLog, Segment, SegmentView};
use crate::text::{fit, fit_to, to_chars, trim_end, trimmed_end};

verus! {

/// The shortest line that can be structured.
pub const MIN_STRUCTURED_LEN: usize = 18;

/// The number of characters of the date.
pub const DATE_LEN: usize = 5;

/// Where the fields after the date begin.
pub const FIELDS_START: usize = 6;

/// The number of boundaries that delimit the fields after the date.
pub const BOUNDARY_COUNT: usize = 11;

/// The width at which process and thread ids are shown.
pub const ID_WIDTH: usize = 5;

/// The width at which a tag is shown.
pub const TAG_WIDTH: usize = 20;

/// A decimal digit.
pub open spec fn is_digit(c: char) -> bool {
    '0' <= c && c <= '9'
}

/// A line long enough to be structured that starts with a digit.
pub open spec fn has_structured_start(line: Seq<char>) -> bool {
    line.len() >= MIN_STRUCTURED_LEN && is_digit(line[0])
}

/// Position `i` begins a run of spaces or a run of other characters. The
/// text before the first field counts as spaces.
pub open spec fn is_boundary(line: Seq<char>, i: int) -> bool {
    (line[i] == ' ') != (i == FIELDS_START || line[i - 1] == ' ')
}

/// The boundaries of `line` from the start of the fields up to `end`, in
/// increasing order.
pub open spec fn boundaries(line: Seq<char>, end: int) -> Seq<int>
    decreases end,
{
    if end <= FIELDS_START {
        Seq::empty()
    } else if is_boundary(line, end - 1) {
        boundaries(line, end - 1).push(end - 1)
    } else {
        boundaries(line, end - 1)
    }
}

/// The fields that the boundaries `b` delimit in a line of `len` characters.
pub open spec fn fields_at(b: Seq<int>, len: nat) -> FormatedItem {
    FormatedItem {
        date: span(0, DATE_LEN as int),
        time: span(b[0], b[1]),
        pid: span(b[2], b[3]),
        tid: span(b[4], b[5]),
        level: span(b[6], b[7]),
        tag: span(b[8], b[9]),
        message: span(b[10], len as int),
    }
}

/// The fields of `line`: present when the line starts as a structured line
/// does and has all the boundaries, absent otherwise.
pub open spec fn parse(line: Seq<char>) -> Option<FormatedItem> {
    let b = boundaries(line, line.len() as int);
    if has_structured_start(line) && b.len() >= BOUNDARY_COUNT {
        Some(fields_at(b, line.len()))
    } else {
        None
    }
}

/// Text in the fixed-width font.
pub open spec fn mono(text: Seq<char>, color: Color) -> SegmentView {
    SegmentView { text, color, italics: false, monospace: true }
}

/// The gap drawn between two fields.
pub open spec fn gap() -> SegmentView {
    SegmentView { text: seq![' ', ' '], color: plain_color(), italics: false, monospace: false }
}

/// The tag as it is shown: without its trailing colons, at a fixed width.
pub open spec fn shown_tag(tag: Seq<char>) -> Seq<char> {
    fit_to(trim_end(tag, ':'), TAG_WIDTH as nat)
}

/// What is drawn for a structured line with the fields `item`.
pub open spec fn styled_fields(line: Seq<char>, item: FormatedItem) -> Seq<SegmentView> {
    let tag = shown_tag(field_text(line, item.tag));
    seq![
        mono(field_text(line, item.date), field_color_of(FieldKind::Date)),
        gap(),
        mono(field_text(line, item.time), field_color_of(FieldKind::Time)),
        gap(),
        mono(fit_to(field_text(line, item.pid), ID_WIDTH as nat), field_color_of(FieldKind::Pid)),
        gap(),
        mono(fit_to(field_text(line, item.tid), ID_WIDTH as nat), field_color_of(FieldKind::Tid)),
        gap(),
        SegmentView { text: tag, color: tag_color_of(tag), italics: true, monospace: true },
        gap(),
        mono(field_text(line, item.message), level_field_color(field_text(line, item.level))),
    ]
}

/// What is drawn for an unstructured line: its text, unchanged, in the
/// plain colour.
pub open spec fn styled_plain(line: Seq<char>) -> Seq<SegmentView> {
    seq![mono(line, plain_color())]
}

/// What is drawn for `line`.
pub open spec fn styled(line: Seq<char>) -> Seq<SegmentView> {
    match parse(line) {
        Some(item) => styled_fields(line, item),
        None => styled_plain(line),
    }
}

/// Boundaries lie between the start of the fields and `end`, and increase.
pub proof fn lemma_boundaries_increase(line: Seq<char>, end: int)
    ensures
        forall|k: int|
            0 <= k < boundaries(line, end).len() ==> FIELDS_START <= #[trigger] boundaries(
                line,
                end,
            )[k] < end,
        forall|j: int, k: int|
            0 <= j < k < boundaries(line, end).len() ==> boundaries(line, end)[j] < boundaries(
                line,
                end,
            )[k],
    decreases end,
{
    if end > FIELDS_START {
        lemma_boundaries_increase(line, end - 1);
        let before = boundaries(line, end - 1);
        let all = boundaries(line, end);
        assert(all == before || all == before.push(end - 1));
    }
}

/// The boundaries up to `mid` are the first of the boundaries up to `end`.
pub proof fn lemma_boundaries_prefix(line: Seq<char>, mid: int, end: int)
    requires
        mid <= end,
    ensures
        boundaries(line, mid).len() <= boundaries(line, end).len(),
        forall|k: int|
            0 <= k < boundaries(line, mid).len() ==> boundaries(line, mid)[k] == boundaries(
                line,
                end,
            )[k],
    decreases end - mid,
{
    if mid < end {
        lemma_boundaries_prefix(line, mid, end - 1);
    }
}

/// The fields of a structured line lie in order inside the line: the date
/// is its first five characters and the message runs to its end.
pub proof fn lemma_parsed_fields_fit(line: Seq<char>)
    requires
        line.len() <= usize::MAX,
    ensures
        parse(line) matches Some(item) ==> {
            &&& item.fits(line.len())
            &&& item.date == span(0, DATE_LEN as int)
            &&& item.message.end == line.len()
            &&& item.level.start < item.level.end
        },
{
    if parse(line) is Some {
        lemma_boundaries_increase(line, line.len() as int);
    }
}

/// A line that is too short, or does not start with a digit, has no fields
/// and is drawn as it is.
pub proof fn lemma_malformed_is_plain(line: Seq<char>)
    requires
        line.len() < MIN_STRUCTURED_LEN || !is_digit(line[0]),
    ensures
        parse(line) is None,
        styled(line) == styled_plain(line),
        styled(line).len() == 1,
        styled(line)[0].text == line,
{
}

/// Whether `c` is a decimal digit.
pub fn is_decimal_digit(c: char) -> (digit: bool)
    ensures
        digit == is_digit(c),
{
    '0' <= c && c <= '9'
}

/// The first boundaries of `chars`, up to the number that a structured line
/// needs.
fn scan_boundaries(chars: &Vec<char>) -> (found: Vec<usize>)
    requires
        chars.len() >= FIELDS_START,
    ensures
        found.len() <= BOUNDARY_COUNT,
        found.len() <= boundaries(chars@, chars.len() as int).len(),
        found.len() < BOUNDARY_COUNT ==> found.len() == boundaries(
            chars@,
            chars.len() as int,
        ).len(),
        forall|k: int|
            0 <= k < found.len() ==> found[k] as int == boundaries(chars@, chars.len() as int)[k],
{
    let mut found: Vec<usize> = Vec::new();
    let mut last_is_space: bool = true;
    let mut i: usize = FIELDS_START;
    while i < chars.len() && found.len() < BOUNDARY_COUNT
        invariant
            FIELDS_START <= i <= chars.len(),
            found.len() <= BOUNDARY_COUNT,
            found.len() == boundaries(chars@, i as int).len(),
            forall|k: int| 0 <= k < found.len() ==> found[k] as int == boundaries(chars@, i as int)[k],
            last_is_space == (i == FIELDS_START || chars@[i - 1] == ' '),
        decreases chars.len() - i,
    {
        let is_space: bool = chars[i] == ' ';
        if is_space != last_is_space {
            found.push(i);
        }
        last_is_space = is_space;
        i = i + 1;
    }
    proof {
        lemma_boundaries_prefix(chars@, i as int, chars.len() as int);
    }
    found
}

/// The fields of `chars`, when it is a structured line.
fn parse_chars(chars: &Vec<char>) -> (info: Option<FormatedItem>)
    ensures
        info == parse(chars@),
        info matches Some(item) ==> item.fits(chars@.len()) && item.level.start < item.level.end,
{
    let len: usize = chars.len();
    if len < MIN_STRUCTURED_LEN || !is_decimal_digit(chars[0]) {
        return None;
    }
    let found: Vec<usize> = scan_boundaries(chars);
    if found.len() < BOUNDARY_COUNT {
        return None;
    }
    proof {
        lemma_parsed_fields_fit(chars@);
    }
    Some(
        FormatedItem {
            date: Range { start: 0, end: DATE_LEN },
            time: Range { start: found[0], end: found[1] },
            pid: Range { start: found[2], end: found[3] },
            tid: Range { start: found[4], end: found[5] },
            level: Range { start: found[6], end: found[7] },
            tag: Range { start: found[8], end: found[9] },
            message: Range { start: found[10], end: len },
        },
    )
}

/// The fields of a line, when it is structured: at least eighteen
/// characters, a digit first, and all the boundaries that delimit the
/// fields. Any other line has none.
pub fn parse_line(string: &str) -> (info: Option<FormatedItem>)
    ensures
        info == parse(string@),
        info matches Some(item) ==> item.fits(string@.len()),
        (string@.len() < MIN_STRUCTURED_LEN || !is_digit(string@[0])) ==> info is None,
{
    let chars: Vec<char> = to_chars(string);
    parse_chars(&chars)
}

/// A segment in the fixed-width font.
fn mono_segment(text: String, color: Color) -> (segment: Segment)
    ensures
        segment@ == mono(text@, color),
{
    Segment { text, color, italics: false, monospace: true }
}

/// The gap between two fields.
fn gap_segment() -> (segment: Segment)
    ensures
        segment@ == gap(),
{
    let blank: &str = "  ";
    proof {
        reveal_strlit("  ");
        assert(blank@ =~= seq![' ', ' ']);
    }
    Segment {
        text: blank.to_owned(),
        color: fallback_color(),
        italics: false,
        monospace: false,
    }
}

/// The text of `string` that `range` covers.
fn field_of<'a>(string: &'a str, range: &Range<usize>) -> (text: &'a str)
    requires
        range.start <= range.end <= string@.len(),
    ensures
        text@ == field_text(string@, *range),
{
    string.substring_char(range.start, range.end)
}

/// The segments of a structured line.
fn style_fields(string: &str, chars: &Vec<char>, item: &FormatedItem) -> (segments: Vec<Segment>)
    requires
        chars@ == string@,
        item.fits(string@.len()),
        item.level.start < item.level.end,
    ensures
        segment_views(segments@) == styled_fields(string@, *item),
{
    let tag_end: usize = trimmed_end(chars, item.tag.start, item.tag.end, ':');
    let tag: String = fit(
        string.substring_char(item.tag.start, tag_end),
        TAG_WIDTH,
    );
    let tag_color: Color = get_color_from_string(tag.as_str());
    let message_color: Color = level_color(chars[item.level.start]);
    let mut segments: Vec<Segment> = Vec::new();
    segments.push(mono_segment(field_of(string, &item.date).to_owned(), field_color(FieldKind::Date)));
    segments.push(gap_segment());
    segments.push(mono_segment(field_of(string, &item.time).to_owned(), field_color(FieldKind::Time)));
    segments.push(gap_segment());
    segments.push(
        mono_segment(
            fit(field_of(string, &item.pid), ID_WIDTH),
            field_color(FieldKind::Pid),
        ),
    );
    segments.push(gap_segment());
    segments.push(
        mono_segment(
            fit(field_of(string, &item.tid), ID_WIDTH),
            field_color(FieldKind::Tid),
        ),
    );
    segments.push(gap_segment());
    segments.push(Segment { text: tag, color: tag_color, italics: true, monospace: true });
    segments.push(gap_segment());
    segments.push(mono_segment(field_of(string, &item.message).to_owned(), message_color));
    segments
}

/// Turns lines of the log into styled text.
#[derive(Debug)]
pub struct MyHighlighter {}

impl MyHighlighter {
    /// A highlighter. It keeps no state.
    pub fn new() -> (highlighter: MyHighlighter)
        ensures
            highlighter == (MyHighlighter {  }),
    {
        MyHighlighter {  }
    }

    /// Classifies one line and styles it.
    ///
    /// The record keeps the line as it is, with its fields when it is
    /// structured. A structured line is drawn field by field, each in its
    /// colour, the tag in the colour derived from its text and the message
    /// in the colour of its level. Any other line is drawn unchanged in the
    /// plain colour.
    pub fn highlighter(&mut self, string: &str) -> (out: (Vec<Segment>, RawLog))
        ensures
            *final(self) == *old(self),
            out.1.origin@ == string@,
            out.1.info == parse(string@),
            segment_views(out.0@) == styled(string@),
            (string@.len() < MIN_STRUCTURED_LEN || !is_digit(string@[0])) ==> out.1.info is None,
            out.1.info is None ==> out.0@.len() == 1 && out.0@[0]@ == mono(string@, plain_color()),
            out.1.info matches Some(item) ==> {
                &&& item.fits(string@.len())
                &&& item.date == span(0, DATE_LEN as int)
                &&& item.message.end == string@.len()
                &&& out.0@.len() == 11
            },
    {
        let chars: Vec<char> = to_chars(string);
        let info: Option<FormatedItem> = parse_chars(&chars);
        let segments: Vec<Segment> = match &info {
            Some(item) => style_fields(string, &chars, item),
            None => {
                let mut plain: Vec<Segment> = Vec::new();
                plain.push(mono_segment(string.to_owned(), fallback_color()));
                plain
            },
        };
        proof {
            assert(segment_views(segments@).len() == segments@.len());
        }
        (segments, RawLog { origin: string.to_owned(), info })
    }
}

} // verus!
