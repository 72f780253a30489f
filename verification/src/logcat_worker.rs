//! The lines of one log stream: an append-only column of styled lines,
//! each with the height of the column down to its lower edge, and the
//! filter that picks the lines on show.

use vstd::prelude::*;
use vstd::string::*;
use crate::highlighter::{parse, styled, MyHighlighter};
use crate::log::{segment_views, ColorLog};
use crate::window::{bottoms, is_window, non_decreasing, visible_range, Window};

verus! {

/// The most that one line adds to the height of the column.
pub open spec fn max_step() -> nat {
    2 * 0xFFFF_FFFF
}

/// `text` holds `pattern` as a run of consecutive characters.
pub open spec fn has_substring(text: Seq<char>, pattern: Seq<char>) -> bool {
    exists|i: int|
        0 <= i <= text.len() - pattern.len() && #[trigger] text.subrange(i, i + pattern.len())
            == pattern
}

/// The lower edge of the line before position `i`, or the top of the
/// column for the first line.
pub open spec fn edge_above(lines: Seq<ColorLog>, i: int) -> int {
    if i == 0 {
        0
    } else {
        lines[i - 1].bottom as int
    }
}

/// Each line ends its own height and spacing below the line before it.
pub open spec fn stacked(lines: Seq<ColorLog>) -> bool {
    forall|i: int|
        0 <= i < lines.len() ==> (#[trigger] lines[i]).bottom == edge_above(lines, i)
            + lines[i].height + lines[i].spacing
}

/// Each line carries the fields and the styled text of its own text.
pub open spec fn highlighted(lines: Seq<ColorLog>) -> bool {
    forall|i: int|
        0 <= i < lines.len() ==> {
            &&& (#[trigger] lines[i]).raw.info == parse(lines[i].raw.origin@)
            &&& segment_views(lines[i].gallery@) == styled(lines[i].raw.origin@)
        }
}

/// A line is on show when there is no filter, or its text holds the filter.
pub open spec fn passes(filter: Option<Seq<char>>, line: ColorLog) -> bool {
    match filter {
        Some(pattern) => has_substring(line.raw.origin@, pattern),
        None => true,
    }
}

/// The lines on show under `filter`: those that pass, in their order.
pub open spec fn visible(lines: Seq<ColorLog>, filter: Option<Seq<char>>) -> Seq<ColorLog> {
    lines.filter(|line: ColorLog| passes(filter, line))
}

/// The lines that `refs` point to.
pub open spec fn pointed(refs: Seq<&ColorLog>) -> Seq<ColorLog> {
    Seq::new(refs.len(), |i: int| *refs[i])
}

/// The lower edges of `lines`, in order.
pub open spec fn edges(lines: Seq<ColorLog>) -> Seq<u128> {
    Seq::new(lines.len(), |i: int| lines[i].bottom)
}

/// The lower edge of line `i` of a stacked column is at most `i + 1` of
/// the largest steps down.
pub proof fn lemma_stacked_bound(lines: Seq<ColorLog>, i: int)
    requires
        stacked(lines),
        0 <= i < lines.len(),
    ensures
        lines[i].bottom <= (i + 1) * max_step(),
    decreases i,
{
    if i > 0 {
        lemma_stacked_bound(lines, i - 1);
    }
    assert(i * max_step() + max_step() == (i + 1) * max_step()) by (nonlinear_arith);
}

/// In a stacked column the lower edges never go up: each lies its line's
/// height and spacing below the one before, and strictly below every
/// earlier one when that step is not zero.
pub proof fn lemma_heights_accumulate(lines: Seq<ColorLog>)
    requires
        stacked(lines),
    ensures
        non_decreasing(edges(lines)),
        forall|i: int|
            0 < i < lines.len() ==> (#[trigger] lines[i]).bottom - lines[i - 1].bottom
                == lines[i].height + lines[i].spacing,
        forall|i: int, j: int|
            0 <= i < j < lines.len() && lines[j].height + lines[j].spacing > 0 ==> lines[i].bottom
                < lines[j].bottom,
{
    assert forall|i: int, j: int| 0 <= i <= j < lines.len() implies lines[i].bottom
        <= lines[j].bottom by {
        lemma_stacked_ordered(lines, i, j);
    }
    assert forall|i: int, j: int|
        0 <= i < j < lines.len() && lines[j].height + lines[j].spacing > 0 implies lines[i].bottom
        < lines[j].bottom by {
        lemma_stacked_ordered(lines, i, j - 1);
    }
}

/// In a stacked column a later line does not end above an earlier one.
pub proof fn lemma_stacked_ordered(lines: Seq<ColorLog>, i: int, j: int)
    requires
        stacked(lines),
        0 <= i <= j < lines.len(),
    ensures
        lines[i].bottom <= lines[j].bottom,
    decreases j - i,
{
    if i < j {
        lemma_stacked_ordered(lines, i, j - 1);
    }
}

/// Without a filter every line is on show, at its own position.
pub proof fn lemma_no_filter_shows_all(lines: Seq<ColorLog>)
    ensures
        visible(lines, None) == lines,
    decreases lines.len(),
{
    reveal(Seq::filter);
    if lines.len() > 0 {
        lemma_no_filter_shows_all(lines.drop_last());
    }
}

/// `shown` holds the lines of `lines` that pass `filter`, each once and in
/// the order of the column: `source` names, for each line of `shown`, its
/// position in `lines`; the positions increase, and the position of every
/// line that passes is among them.
pub open spec fn picks(
    lines: Seq<ColorLog>,
    filter: Option<Seq<char>>,
    shown: Seq<ColorLog>,
    source: Seq<int>,
) -> bool {
    &&& source.len() == shown.len()
    &&& forall|k: int|
        0 <= k < source.len() ==> 0 <= #[trigger] source[k] < lines.len() && shown[k]
            == lines[source[k]]
    &&& forall|j: int, k: int| 0 <= j < k < source.len() ==> source[j] < source[k]
    &&& forall|i: int|
        0 <= i < lines.len() ==> (passes(filter, #[trigger] lines[i]) <==> exists|k: int|
            0 <= k < source.len() && #[trigger] source[k] == i)
}

/// The lines on show are exactly the lines that pass the filter, in the
/// order of the column. The result names the position of each in the
/// column.
pub proof fn lemma_visible_is_ordered_subset(
    lines: Seq<ColorLog>,
    filter: Option<Seq<char>>,
) -> (source: Seq<int>)
    ensures
        picks(lines, filter, visible(lines, filter), source),
    decreases lines.len(),
{
    reveal(Seq::filter);
    if lines.len() == 0 {
        Seq::empty()
    } else {
        let front = lines.drop_last();
        let front_source = lemma_visible_is_ordered_subset(front, filter);
        let last = lines.len() - 1;
        let source = if passes(filter, lines.last()) {
            front_source.push(last)
        } else {
            front_source
        };
        assert forall|i: int| 0 <= i < lines.len() implies (passes(filter, #[trigger] lines[i])
            <==> exists|k: int| 0 <= k < source.len() && #[trigger] source[k] == i) by {
            if i < last {
                assert(front[i] == lines[i]);
                if passes(filter, lines[i]) {
                    let k = choose|k: int|
                        0 <= k < front_source.len() && #[trigger] front_source[k] == i;
                    assert(source[k] == i);
                }
            } else if passes(filter, lines[i]) {
                assert(source[source.len() - 1] == i);
            }
        }
        source
    }
}

/// The lines on show of a stacked column keep the order of their lower
/// edges.
pub proof fn lemma_visible_non_decreasing(lines: Seq<ColorLog>, filter: Option<Seq<char>>)
    requires
        stacked(lines),
    ensures
        non_decreasing(edges(visible(lines, filter))),
{
    let source = lemma_visible_is_ordered_subset(lines, filter);
    let shown = visible(lines, filter);
    assert forall|j: int, k: int| 0 <= j <= k < shown.len() implies edges(shown)[j] <= edges(
        shown,
    )[k] by {
        lemma_stacked_ordered(lines, source[j], source[k]);
    }
}

/// The filter that the text of the filter box stands for: none when the
/// box is empty, else its text.
pub fn filter_from(text: &str) -> (filter: Option<String>)
    ensures
        text@.len() == 0 ==> filter is None,
        text@.len() > 0 ==> filter is Some && filter->Some_0@ == text@,
{
    if text.is_empty() {
        None
    } else {
        Some(text.to_owned())
    }
}

/// Whether `text` holds `pattern`.
///
/// This is `str::contains` with a string as the pattern: true exactly when
/// the pattern matches a part of the text.
#[verifier::external_body]
fn contains_text(text: &str, pattern: &str) -> (found: bool)
    ensures
        found == has_substring(text@, pattern@),
{
    text.contains(pattern)
}

/// The lines of one log stream and the filter on them.
#[derive(Debug)]
pub struct LogcatWorker {
    device_name: String,
    highlighter: MyHighlighter,
    filter: Option<String>,
    logs: Vec<ColorLog>,
}

impl LogcatWorker {
    /// All lines, in the order in which they arrived.
    pub closed spec fn lines(&self) -> Seq<ColorLog> {
        self.logs@
    }

    /// The filter, when one is set.
    pub closed spec fn filter_text(&self) -> Option<Seq<char>> {
        match self.filter {
            Some(pattern) => Some(pattern@),
            None => None,
        }
    }

    /// The name of the device that the stream comes from.
    pub closed spec fn device(&self) -> Seq<char> {
        self.device_name@
    }

    /// The lines are stacked, and each carries the fields and the styled
    /// text of its own text.
    pub open spec fn wf(&self) -> bool {
        &&& stacked(self.lines())
        &&& highlighted(self.lines())
    }

    /// The height of the whole column.
    pub open spec fn total_height(&self) -> int {
        edge_above(self.lines(), self.lines().len() as int)
    }

    /// The lines on show under the filter.
    pub open spec fn shown(&self) -> Seq<ColorLog> {
        visible(self.lines(), self.filter_text())
    }

    /// A worker for the named device, with no lines and no filter.
    pub fn new(device_name: &str) -> (worker: LogcatWorker)
        ensures
            worker.wf(),
            worker.device() == device_name@,
            worker.lines() == Seq::<ColorLog>::empty(),
            worker.filter_text() is None,
    {
        LogcatWorker {
            device_name: device_name.to_owned(),
            highlighter: MyHighlighter::new(),
            filter: None,
            logs: Vec::new(),
        }
    }

    /// The name of the device that the stream comes from.
    pub fn device_name(&self) -> (name: &str)
        ensures
            name@ == self.device(),
    {
        self.device_name.as_str()
    }

    /// Drops every line, so that the column starts at height zero again.
    /// The filter stays.
    pub fn clear(&mut self)
        ensures
            final(self).wf(),
            final(self).lines() == Seq::<ColorLog>::empty(),
            final(self).total_height() == 0,
            final(self).filter_text() == old(self).filter_text(),
            final(self).device() == old(self).device(),
    {
        self.logs.clear();
    }

    /// Sets the filter, or removes it. The lines stay as they are.
    pub fn set_fliter(&mut self, filter: Option<String>)
        ensures
            final(self).lines() == old(self).lines(),
            final(self).device() == old(self).device(),
            final(self).filter_text() == match filter {
                Some(pattern) => Some(pattern@),
                None => None,
            },
    {
        self.filter = filter;
    }

    /// The number of lines, shown or not.
    pub fn len(&self) -> (count: usize)
        ensures
            count == self.lines().len(),
    {
        self.logs.len()
    }

    /// The line at position `index` of the column, if there is one. A
    /// line keeps its position for as long as the column is not cleared.
    pub fn line(&self, index: usize) -> (line: Option<&ColorLog>)
        ensures
            index < self.lines().len() ==> line is Some && *line->Some_0 == self.lines()[
                index as int
            ],
            index >= self.lines().len() ==> line is None,
    {
        if index < self.logs.len() {
            Some(&self.logs[index])
        } else {
            None
        }
    }

    /// Appends one line that was measured at `height`, with `spacing`
    /// below it.
    ///
    /// The line is classified and styled as the highlighter does, and ends
    /// `height + spacing` below the line before it. The lines before it
    /// stay where they are.
    pub fn update(&mut self, line: &str, height: u32, spacing: u32)
        requires
            old(self).wf(),
        ensures
            final(self).wf(),
            final(self).filter_text() == old(self).filter_text(),
            final(self).device() == old(self).device(),
            final(self).lines().len() == old(self).lines().len() + 1,
            final(self).lines().drop_last() == old(self).lines(),
            final(self).lines().last().raw.origin@ == line@,
            final(self).lines().last().raw.info == parse(line@),
            segment_views(final(self).lines().last().gallery@) == styled(line@),
            final(self).lines().last().height == height,
            final(self).lines().last().spacing == spacing,
            final(self).lines().last().bottom == old(self).total_height() + height + spacing,
            final(self).total_height() == old(self).total_height() + height + spacing,
    {
        let count: usize = self.logs.len();
        let above: u128 = if count == 0 {
            0
        } else {
            self.logs[count - 1].bottom
        };
        proof {
            if count > 0 {
                lemma_stacked_bound(self.logs@, count - 1);
                assert(count * max_step() <= usize::MAX * max_step()) by (nonlinear_arith)
                    requires
                        count <= usize::MAX,
                ;
            }
        }
        let (gallery, raw) = self.highlighter.highlighter(line);
        let bottom: u128 = above + height as u128 + spacing as u128;
        self.logs.push(ColorLog { raw, gallery, height, spacing, bottom });
        proof {
            assert(stacked(self.logs@));
            assert(highlighted(self.logs@));
        }
    }

    /// The lines on show: every line when there is no filter, else the
    /// lines whose text holds the filter, in the order of the column.
    pub fn get_logs(&self) -> (shown: Vec<&ColorLog>)
        requires
            self.wf(),
        ensures
            pointed(shown@) == self.shown(),
            non_decreasing(bottoms(shown@)),
    {
        let ghost lines = self.logs@;
        let ghost filter = self.filter_text();
        let mut shown: Vec<&ColorLog> = Vec::new();
        let mut i: usize = 0;
        proof {
            reveal(Seq::filter);
        }
        while i < self.logs.len()
            invariant
                0 <= i <= self.logs.len(),
                lines == self.logs@,
                filter == self.filter_text(),
                stacked(lines),
                pointed(shown@) == visible(lines.take(i as int), filter),
                non_decreasing(bottoms(shown@)),
                forall|k: int, j: int|
                    0 <= k < shown@.len() && i <= j < lines.len() ==> shown@[k].bottom
                        <= lines[j].bottom,
            decreases self.logs.len() - i,
        {
            let log: &ColorLog = &self.logs[i];
            let keep: bool = match &self.filter {
                Some(pattern) => contains_text(log.raw.origin.as_str(), pattern.as_str()),
                None => true,
            };
            let ghost before = shown@;
            proof {
                reveal(Seq::filter);
                let next = lines.take(i as int + 1);
                assert(next.drop_last() =~= lines.take(i as int));
                assert forall|j: int| i <= j < lines.len() implies lines[i as int].bottom
                    <= lines[j].bottom by {
                    lemma_stacked_ordered(lines, i as int, j);
                }
            }
            if keep {
                shown.push(log);
                proof {
                    assert forall|a: int, b: int| 0 <= a <= b < shown@.len() implies bottoms(
                        shown@,
                    )[a] <= bottoms(shown@)[b] by {
                        if b < before.len() {
                            assert(bottoms(before)[a] <= bottoms(before)[b]);
                        }
                    }
                }
            }
            i = i + 1;
        }
        proof {
            assert(lines.take(i as int) =~= lines);
        }
        shown
    }

    /// The window of the viewport from `top` to `bottom` over the lines on
    /// show, or nothing when no line is on show.
    pub fn visible_range(&self, top: u128, bottom: u128) -> (window: Option<Window>)
        requires
            self.wf(),
        ensures
            self.shown().len() == 0 ==> window is None,
            self.shown().len() > 0 ==> window is Some && is_window(
                edges(self.shown()),
                top,
                bottom,
                window->Some_0,
            ),
    {
        let shown: Vec<&ColorLog> = self.get_logs();
        proof {
            assert(bottoms(shown@) =~= edges(pointed(shown@)));
        }
        visible_range(&shown, top, bottom)
    }
}

} // verus!
