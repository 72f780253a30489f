//! The records kept for each line of the log.

use vstd::prelude::*;
use std::ops::Range;
use crate::color::Color;

verus! {

/// Where the seven positional fields of a structured line lie in its text,
/// as half-open ranges of character positions.
#[derive(Debug)]
pub struct FormatedItem {
    pub date: Range<usize>,
    pub time: Range<usize>,
    pub pid: Range<usize>,
    pub tid: Range<usize>,
    pub level: Range<usize>,
    pub tag: Range<usize>,
    pub message: Range<usize>,
}

/// One line as it arrived, with its fields when it is structured.
#[derive(Debug)]
pub struct RawLog {
    pub origin: String,
    pub info: Option<FormatedItem>,
}

/// A run of text drawn in one style.
#[derive(Debug)]
pub struct Segment {
    pub text: String,
    pub color: Color,
    pub italics: bool,
    pub monospace: bool,
}

/// What a [`Segment`] holds, with its text as a sequence of characters.
pub struct SegmentView {
    pub text: Seq<char>,
    pub color: Color,
    pub italics: bool,
    pub monospace: bool,
}

impl View for Segment {
    type V = SegmentView;

    open spec fn view(&self) -> SegmentView {
        SegmentView {
            text: self.text@,
            color: self.color,
            italics: self.italics,
            monospace: self.monospace,
        }
    }
}

/// The views of a run of segments.
pub open spec fn segment_views(segments: Seq<Segment>) -> Seq<SegmentView> {
    Seq::new(segments.len(), |i: int| segments[i]@)
}

/// The half-open range from `start` to `end`.
pub open spec fn span(start: int, end: int) -> Range<usize> {
    Range { start: start as usize, end: end as usize }
}

/// The part of `line` that `range` covers.
pub open spec fn field_text(line: Seq<char>, range: Range<usize>) -> Seq<char> {
    line.subrange(range.start as int, range.end as int)
}

impl FormatedItem {
    /// The fields lie in order, without overlap, inside a line of `len`
    /// characters: the date comes first and the message runs to the end.
    pub open spec fn fits(&self, len: nat) -> bool {
        &&& self.date.start == 0
        &&& self.date.start <= self.date.end <= self.time.start
        &&& self.time.start <= self.time.end <= self.pid.start
        &&& self.pid.start <= self.pid.end <= self.tid.start
        &&& self.tid.start <= self.tid.end <= self.level.start
        &&& self.level.start <= self.level.end <= self.tag.start
        &&& self.tag.start <= self.tag.end <= self.message.start
        &&& self.message.start <= self.message.end == len
    }
}

/// A line of the log, styled and measured, with the height of the column
/// down to its lower edge.
#[derive(Debug)]
pub struct ColorLog {
    pub raw: RawLog,
    pub gallery: Vec<Segment>,
    pub height: u32,
    pub spacing: u32,
    pub bottom: u128,
}

} // verus!
