//! The window of lines that a viewport shows, found by binary search over
//! the cumulative heights of the visible lines.

use vstd::prelude::*;
use crate::log::ColorLog;

verus! {

/// The lines that must be drawn for a viewport, by their first and last
/// position among the visible lines, with the height of the lines left out
/// above and below.
#[derive(Clone, Copy, Debug, PartialEq, Eq, Structural)]
pub struct Window {
    pub from: usize,
    pub to: usize,
    pub blank_before: u128,
    pub blank_after: u128,
}

/// The lower edges of `logs`, in order.
pub open spec fn bottoms(logs: Seq<&ColorLog>) -> Seq<u128> {
    Seq::new(logs.len(), |i: int| logs[i].bottom)
}

/// No edge lies above an earlier one.
pub open spec fn non_decreasing(edges: Seq<u128>) -> bool {
    forall|i: int, j: int| 0 <= i <= j < edges.len() ==> edges[i] <= edges[j]
}

/// `index` is the first position whose edge reaches `level`, or the length
/// of `edges` when none does.
pub open spec fn is_first_reaching(edges: Seq<u128>, level: u128, index: int) -> bool {
    &&& 0 <= index <= edges.len()
    &&& forall|i: int| 0 <= i < index ==> edges[i] < level
    &&& index < edges.len() ==> edges[index] >= level
}

/// `index` is the first position whose edge reaches `level`, or the last
/// position when none does.
pub open spec fn is_window_edge(edges: Seq<u128>, level: u128, index: int) -> bool {
    &&& 0 <= index < edges.len()
    &&& forall|i: int| 0 <= i < index ==> edges[i] < level
    &&& edges[index] >= level || index == edges.len() - 1
}

/// `window` is the window of the viewport from `top` to `bottom` over lines
/// with the lower edges `edges`.
pub open spec fn is_window(edges: Seq<u128>, top: u128, bottom: u128, window: Window) -> bool {
    &&& is_window_edge(edges, top, window.from as int)
    &&& is_window_edge(edges, bottom, window.to as int)
    &&& window.blank_before == if window.from == 0 {
        0
    } else {
        edges[window.from - 1] as int
    }
    &&& window.blank_after == edges.last() - edges[window.to as int]
}

/// A viewport has one window: whoever computes it again, over the same
/// lines, finds the same lines and the same blank heights.
pub proof fn lemma_window_unique(
    edges: Seq<u128>,
    top: u128,
    bottom: u128,
    first: Window,
    second: Window,
)
    requires
        is_window(edges, top, bottom, first),
        is_window(edges, top, bottom, second),
    ensures
        first == second,
{
}

/// The window of a viewport holds every line whose lower edge lies inside
/// the viewport. Of the lines it holds, all but the last end above the
/// viewport's bottom, and none ends above its top unless every line does.
pub proof fn lemma_window_covers(edges: Seq<u128>, top: u128, bottom: u128, window: Window)
    requires
        non_decreasing(edges),
        top <= bottom,
        is_window(edges, top, bottom, window),
    ensures
        window.from <= window.to < edges.len(),
        forall|i: int|
            0 <= i < edges.len() && top <= #[trigger] edges[i] < bottom ==> window.from <= i
                <= window.to,
        forall|i: int| window.from <= i < window.to ==> #[trigger] edges[i] < bottom,
        edges.last() >= top ==> forall|i: int|
            window.from <= i <= window.to ==> #[trigger] edges[i] >= top,
{
}

/// The first position in `logs` whose lower edge reaches `level`, or the
/// number of lines when none does.
pub fn first_reaching(logs: &Vec<&ColorLog>, level: u128) -> (index: usize)
    requires
        non_decreasing(bottoms(logs@)),
    ensures
        is_first_reaching(bottoms(logs@), level, index as int),
{
    let ghost edges = bottoms(logs@);
    let mut low: usize = 0;
    let mut high: usize = logs.len();
    while low < high
        invariant
            0 <= low <= high <= logs.len(),
            edges == bottoms(logs@),
            non_decreasing(edges),
            forall|i: int| 0 <= i < low ==> edges[i] < level,
            forall|i: int| high <= i < edges.len() ==> edges[i] >= level,
        decreases high - low,
    {
        let mid: usize = low + (high - low) / 2;
        proof {
            assert(edges[mid as int] == logs@[mid as int].bottom);
        }
        if logs[mid].bottom < level {
            low = mid + 1;
        } else {
            high = mid;
        }
    }
    low
}

/// The window of the viewport from `top` to `bottom` over the visible
/// lines `logs`, or nothing when there are no lines.
///
/// The window starts at the first line whose lower edge reaches `top` and
/// ends at the first whose lower edge reaches `bottom`; where no line
/// reaches that far, it is the last line. The lines before the window are
/// stood for by their height, and so are those after it.
pub fn visible_range(logs: &Vec<&ColorLog>, top: u128, bottom: u128) -> (window: Option<Window>)
    requires
        non_decreasing(bottoms(logs@)),
    ensures
        logs@.len() == 0 ==> window is None,
        logs@.len() > 0 ==> window is Some && is_window(
            bottoms(logs@),
            top,
            bottom,
            window->Some_0,
        ),
{
    let len: usize = logs.len();
    if len == 0 {
        return None;
    }
    let ghost edges = bottoms(logs@);
    let start: usize = first_reaching(logs, top);
    let end: usize = first_reaching(logs, bottom);
    let from: usize = if start < len {
        start
    } else {
        len - 1
    };
    let to: usize = if end < len {
        end
    } else {
        len - 1
    };
    let blank_before: u128 = if from == 0 {
        0
    } else {
        logs[from - 1].bottom
    };
    proof {
        assert(edges[to as int] <= edges[len - 1]);
    }
    let blank_after: u128 = logs[len - 1].bottom - logs[to].bottom;
    Some(Window { from, to, blank_before, blank_after })
}

} // verus!
