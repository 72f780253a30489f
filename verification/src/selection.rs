//! Selection of lines by dragging the pointer over them.
//!
//! The selection is a run of positions among the visible lines that moves
//! in one direction: dragging on extends it, dragging back takes its last
//! lines off again.

use vstd::prelude::*;
use vstd::string::*;
use crate::log::ColorLog;
use crate::text::joined;

verus! {

/// Where the tracker stands between two gestures.
#[derive(Clone, Copy, Debug, PartialEq, Eq, Structural)]
pub enum DragState {
    /// No drag is under way and none has just ended.
    Idle,
    /// The pointer is being dragged over the lines.
    Dragging,
    /// A drag has ended; the next movement starts afresh.
    JustReleased,
}

/// Each position lies below the one before it.
pub open spec fn increasing(indices: Seq<usize>) -> bool {
    forall|i: int, j: int| 0 <= i < j < indices.len() ==> indices[i] < indices[j]
}

/// Each position lies above the one before it.
pub open spec fn decreasing(indices: Seq<usize>) -> bool {
    forall|i: int, j: int| 0 <= i < j < indices.len() ==> indices[i] > indices[j]
}

/// The positions run in one direction, so none occurs twice.
pub open spec fn one_way(indices: Seq<usize>) -> bool {
    increasing(indices) || decreasing(indices)
}

/// The selection after the pointer is dragged over the line at `index`.
///
/// The first line starts the selection and the second gives it its
/// direction. After that a line further on in that direction is added, and
/// a line in the other direction takes the last one off. Staying on the
/// last line changes nothing.
pub open spec fn dragged(indices: Seq<usize>, index: usize) -> Seq<usize> {
    if indices.len() == 0 {
        seq![index]
    } else if indices.last() == index {
        indices
    } else if indices.len() == 1 || (indices[0] < indices[1]) == (indices.last() < index) {
        indices.push(index)
    } else {
        indices.drop_last()
    }
}

/// The selection after the pointer is dragged over the lines at `targets`,
/// one after the other.
pub open spec fn dragged_along(indices: Seq<usize>, targets: Seq<usize>) -> Seq<usize>
    decreases targets.len(),
{
    if targets.len() == 0 {
        indices
    } else {
        dragged(dragged_along(indices, targets.drop_last()), targets.last())
    }
}

/// The texts of the lines of `logs` at the positions `indices`, in the
/// order of `indices`.
pub open spec fn texts_at(indices: Seq<usize>, logs: Seq<&ColorLog>) -> Seq<Seq<char>> {
    Seq::new(indices.len(), |k: int| logs[indices[k] as int].raw.origin@)
}

/// Every position lies among `count` lines.
pub open spec fn all_below(indices: Seq<usize>, count: nat) -> bool {
    forall|k: int| 0 <= k < indices.len() ==> indices[k] < count
}

/// Positions that run in one direction are all different.
pub proof fn lemma_one_way_distinct(indices: Seq<usize>)
    requires
        one_way(indices),
    ensures
        forall|i: int, j: int|
            0 <= i < indices.len() && 0 <= j < indices.len() && i != j ==> indices[i]
                != indices[j],
{
}

/// One step of a drag keeps the selection running in one direction.
pub proof fn lemma_dragged_one_way(indices: Seq<usize>, index: usize)
    requires
        one_way(indices),
    ensures
        one_way(dragged(indices, index)),
{
    let next = dragged(indices, index);
    let extends = (indices[0] < indices[1]) == (indices.last() < index);
    if indices.len() >= 2 && indices.last() != index && extends {
        if indices[0] < indices[1] {
            assert(increasing(next));
        } else {
            assert(decreasing(next));
        }
    }
}

/// After any run of drag steps from an empty selection, the selection runs
/// in one direction.
pub proof fn lemma_dragged_along_one_way(targets: Seq<usize>)
    ensures
        one_way(dragged_along(Seq::empty(), targets)),
    decreases targets.len(),
{
    if targets.len() > 0 {
        lemma_dragged_along_one_way(targets.drop_last());
        lemma_dragged_one_way(dragged_along(Seq::empty(), targets.drop_last()), targets.last());
    }
}

/// A selection that runs in one direction lies among `count` lines when
/// its two ends do.
pub proof fn lemma_ends_bound_all(indices: Seq<usize>, count: nat)
    requires
        one_way(indices),
        indices.len() > 0,
        indices[0] < count,
        indices.last() < count,
    ensures
        all_below(indices, count),
{
}

/// Follows the pointer and keeps the selected lines.
#[derive(Debug)]
pub struct SelectionTracker {
    state: DragState,
    selected: Vec<usize>,
}

impl SelectionTracker {
    /// The selected positions, in the order in which they were selected.
    pub closed spec fn indices(&self) -> Seq<usize> {
        self.selected@
    }

    /// Where the tracker stands.
    pub closed spec fn phase(&self) -> DragState {
        self.state
    }

    /// The selection runs in one direction.
    pub open spec fn wf(&self) -> bool {
        one_way(self.indices())
    }

    /// A tracker with nothing selected.
    pub fn new() -> (tracker: SelectionTracker)
        ensures
            tracker.wf(),
            tracker.indices() == Seq::<usize>::empty(),
            tracker.phase() == DragState::Idle,
    {
        let tracker = SelectionTracker { state: DragState::Idle, selected: Vec::new() };
        tracker
    }

    /// Where the tracker stands.
    pub fn state(&self) -> (state: DragState)
        ensures
            state == self.phase(),
    {
        self.state
    }

    /// The selected positions, in the order in which they were selected.
    pub fn selected(&self) -> (indices: &Vec<usize>)
        ensures
            indices@ == self.indices(),
    {
        &self.selected
    }

    /// A plain click: nothing stays selected.
    pub fn click(&mut self)
        ensures
            final(self).wf(),
            final(self).indices() == Seq::<usize>::empty(),
            final(self).phase() == DragState::Idle,
    {
        self.selected.clear();
        self.state = DragState::Idle;
    }

    /// The end of a drag: the selection stays, and the next movement will
    /// start afresh.
    pub fn release(&mut self)
        ensures
            final(self).indices() == old(self).indices(),
            final(self).phase() == DragState::JustReleased,
    {
        self.state = DragState::JustReleased;
    }

    /// A movement of the pointer off the lines. Right after a drag has
    /// ended it drops the selection; otherwise nothing changes.
    pub fn moved(&mut self)
        ensures
            old(self).phase() == DragState::JustReleased ==> final(self).indices() == Seq::<
                usize,
            >::empty() && final(self).phase() == DragState::Idle,
            old(self).phase() != DragState::JustReleased ==> final(self).indices() == old(
                self,
            ).indices() && final(self).phase() == old(self).phase(),
            old(self).wf() ==> final(self).wf(),
    {
        if self.state == DragState::JustReleased {
            self.selected.clear();
            self.state = DragState::Idle;
        }
    }

    /// A drag of the pointer over the line at `index`.
    ///
    /// Right after a drag has ended, the old selection is dropped first.
    /// Then the line starts the selection, extends it, or takes its last
    /// line off, as [`dragged`] says.
    pub fn drag_over(&mut self, index: usize)
        requires
            old(self).wf(),
        ensures
            final(self).wf(),
            final(self).phase() == DragState::Dragging,
            final(self).indices() == dragged(
                if old(self).phase() == DragState::JustReleased {
                    Seq::empty()
                } else {
                    old(self).indices()
                },
                index,
            ),
    {
        if self.state == DragState::JustReleased {
            self.selected.clear();
        }
        self.state = DragState::Dragging;
        let ghost before = self.selected@;
        proof {
            lemma_dragged_one_way(before, index);
        }
        let count: usize = self.selected.len();
        if count == 0 {
            self.selected.push(index);
            return;
        }
        let last: usize = self.selected[count - 1];
        if last == index {
            return;
        }
        let extend: bool = count <= 1 || (self.selected[0] < self.selected[1]) == (last < index);
        if extend {
            self.selected.push(index);
        } else {
            self.selected.pop();
        }
    }

    /// Whether every selected position lies among `count` lines.
    pub fn within(&self, count: usize) -> (ok: bool)
        requires
            self.wf(),
        ensures
            ok == all_below(self.indices(), count as nat),
    {
        let len: usize = self.selected.len();
        if len == 0 {
            return true;
        }
        let ok: bool = self.selected[0] < count && self.selected[len - 1] < count;
        proof {
            if ok {
                lemma_ends_bound_all(self.selected@, count as nat);
            }
        }
        ok
    }

    /// The text of the selected lines of `logs`, in the order in which
    /// they were selected, with a line feed between each two.
    pub fn selected_text(&self, logs: &Vec<&ColorLog>) -> (text: String)
        requires
            all_below(self.indices(), logs@.len()),
        ensures
            text@ == joined(texts_at(self.indices(), logs@)),
    {
        let ghost lines = texts_at(self.selected@, logs@);
        let mut text: String = String::new();
        let mut k: usize = 0;
        while k < self.selected.len()
            invariant
                0 <= k <= self.selected.len(),
                lines == texts_at(self.selected@, logs@),
                all_below(self.selected@, logs@.len()),
                text@ == joined(lines.take(k as int)),
            decreases self.selected.len() - k,
        {
            let ghost so_far = lines.take(k as int);
            let ghost next = lines.take(k as int + 1);
            proof {
                assert(next.drop_last() =~= so_far);
                reveal_strlit("\n");
            }
            if k > 0 {
                text.append("\n");
            }
            let index: usize = self.selected[k];
            text.append(logs[index].raw.origin.as_str());
            k = k + 1;
        }
        proof {
            assert(lines.take(k as int) =~= lines);
        }
        text
    }
}

} // verus!
