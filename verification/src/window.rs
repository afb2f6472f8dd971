//! The window: the size of the viewport, the offset of the line at its top
//! and the offsets that it was at before.

use crate::event_source::Direction;
use vstd::prelude::*;

verus! {

/// The offsets that the window was set to, with a cursor on the current one.
#[derive(Debug)]
pub struct OffsetHistory {
    pub offsets: Vec<usize>,
    pub current_index: usize,
}

impl OffsetHistory {
    /// The invariant of the history: the cursor stands on an offset.
    pub open spec fn wf(&self) -> bool {
        self.current_index < self.offsets@.len()
    }

    /// The offset under the cursor.
    pub open spec fn current(&self) -> usize {
        self.offsets@[self.current_index as int]
    }

    /// True when `holds` holds of every offset in the history.
    pub open spec fn all(&self, holds: spec_fn(usize) -> bool) -> bool {
        forall|i: int| 0 <= i < self.offsets@.len() ==> holds(#[trigger] self.offsets@[i])
    }

    pub fn new() -> (history: Self)
        ensures
            history.wf(),
            history.offsets@ == seq![0usize],
            history.current_index == 0,
    {
        let mut offsets: Vec<usize> = Vec::new();
        offsets.push(0);
        Self { offsets, current_index: 0 }
    }

    /// Puts `offset` after the offset under the cursor, in place of all that
    /// came after it, and the cursor on it.
    pub fn push(&mut self, offset: usize)
        requires
            old(self).wf(),
        ensures
            final(self).wf(),
            final(self).offsets@ == old(self).offsets@.take(old(self).current_index + 1).push(
                offset,
            ),
            final(self).current_index == old(self).current_index + 1,
            final(self).current() == offset,
    {
        let length = self.offsets.len();
        self.offsets.truncate(self.current_index + 1);
        self.offsets.push(offset);
        self.current_index = self.offsets.len() - 1;
    }

    /// Moves the cursor one offset back, if there is one, and returns the
    /// offset under it.
    pub fn previous_one(&mut self) -> (offset: usize)
        requires
            old(self).wf(),
        ensures
            final(self).wf(),
            final(self).offsets == old(self).offsets,
            final(self).current_index == if old(self).current_index == 0 {
                0
            } else {
                old(self).current_index - 1
            },
            offset == final(self).current(),
    {
        self.current_index = self.current_index.saturating_sub(1);
        self.offsets[self.current_index]
    }

    /// Moves the cursor one offset forward, if there is one, and returns the
    /// offset under it.
    pub fn next_one(&mut self) -> (offset: usize)
        requires
            old(self).wf(),
        ensures
            final(self).wf(),
            final(self).offsets == old(self).offsets,
            final(self).current_index == if old(self).current_index + 1 < old(self).offsets@.len() {
                old(self).current_index + 1
            } else {
                old(self).current_index as int
            },
            offset == final(self).current(),
    {
        let length = self.offsets.len();
        if self.current_index < length - 1 {
            self.current_index = self.current_index + 1;
        }
        self.offsets[self.current_index]
    }
}

/// The viewport.
#[derive(Debug)]
pub struct Window {
    pub width: usize,
    pub height: usize,
    /// The offset of the start of the first line shown.
    pub offset: usize,
    pub horizontal_shift: usize,
    pub offset_history: OffsetHistory,
}

impl Window {
    /// The invariant of the window: its offset is the one under the cursor
    /// of its history.
    pub open spec fn wf(&self) -> bool {
        &&& self.offset_history.wf()
        &&& self.offset == self.offset_history.current()
    }

    /// True when `holds` holds of the offset of the window and of every
    /// offset that it can go back or forward to.
    pub open spec fn all_offsets(&self, holds: spec_fn(usize) -> bool) -> bool {
        self.offset_history.all(holds)
    }

    /// The window for a terminal of `width` columns and `height` rows, of
    /// which the last row is kept for the status bar.
    pub fn new(width: usize, height: usize) -> (window: Self)
        requires
            height >= 1,
        ensures
            window.wf(),
            window.width == width,
            window.height == height - 1,
            window.offset == 0,
            window.horizontal_shift == 0,
            window.offset_history.offsets@ == seq![0usize],
    {
        Self {
            width,
            height: height - 1,
            offset: 0,
            horizontal_shift: 0,
            offset_history: OffsetHistory::new(),
        }
    }

    /// Moves the offset by `distance` bytes: up, but not past the start of
    /// the file, or down.
    pub fn move_offset_by(&mut self, distance: usize, direction: Direction)
        requires
            old(self).wf(),
            direction == Direction::Up || direction == Direction::Down,
            direction == Direction::Down ==> old(self).offset + distance <= usize::MAX,
        ensures
            final(self).wf(),
            final(self).offset == if direction == Direction::Up {
                if old(self).offset >= distance {
                    old(self).offset - distance
                } else {
                    0
                }
            } else {
                old(self).offset + distance
            },
            old(self).moved_to(final(self), final(self).offset),
    {
        if direction == Direction::Up {
            self.set_offset(self.offset.saturating_sub(distance));
        } else {
            self.set_offset(self.offset + distance);
        }
    }

    /// True when `after` is this window in a terminal of `width` columns
    /// and `height` rows.
    pub open spec fn resized(&self, after: &Window, width: usize, height: usize) -> bool {
        &&& after.width == width
        &&& after.height == height - 1
        &&& after.offset == self.offset
        &&& after.horizontal_shift == self.horizontal_shift
        &&& after.offset_history == self.offset_history
    }

    /// Takes the new size of the terminal.
    pub fn resize(&mut self, width: usize, height: usize)
        requires
            height >= 1,
        ensures
            old(self).resized(final(self), width, height),
    {
        self.width = width;
        self.height = height - 1;
    }

    pub fn offset(&self) -> (offset: usize)
        ensures
            offset == self.offset,
    {
        self.offset
    }

    /// True when `after` is this window moved to `offset`: the offset is
    /// recorded after the current one, and what could be gone forward to is
    /// forgotten.
    pub open spec fn moved_to(&self, after: &Window, offset: usize) -> bool {
        &&& after.offset == offset
        &&& after.width == self.width
        &&& after.height == self.height
        &&& after.horizontal_shift == self.horizontal_shift
        &&& after.offset_history.offsets@ == self.offset_history.offsets@.take(
            self.offset_history.current_index + 1,
        ).push(offset)
        &&& after.offset_history.current_index == self.offset_history.current_index + 1
    }

    pub fn set_offset(&mut self, offset: usize)
        requires
            old(self).wf(),
        ensures
            final(self).wf(),
            old(self).moved_to(final(self), offset),
    {
        self.offset = offset;
        self.offset_history.push(offset);
    }

    /// True when `after` is this window gone back to the offset before the
    /// current one, if there is one.
    pub open spec fn gone_back(&self, after: &Window) -> bool {
        &&& after.offset_history.offsets == self.offset_history.offsets
        &&& after.offset_history.current_index == if self.offset_history.current_index == 0 {
            0
        } else {
            self.offset_history.current_index - 1
        }
        &&& after.offset == after.offset_history.current()
        &&& after.width == self.width
        &&& after.height == self.height
        &&& after.horizontal_shift == self.horizontal_shift
    }

    /// Goes back to the offset before the current one, if there is one.
    pub fn goto_previous_offset(&mut self)
        requires
            old(self).wf(),
        ensures
            final(self).wf(),
            old(self).gone_back(final(self)),
    {
        self.offset = self.offset_history.previous_one();
    }

    /// True when `after` is this window gone forward to the offset after
    /// the current one, if there is one.
    pub open spec fn gone_forward(&self, after: &Window) -> bool {
        &&& after.offset_history.offsets == self.offset_history.offsets
        &&& after.offset_history.current_index == if self.offset_history.current_index + 1
            < self.offset_history.offsets@.len() {
            self.offset_history.current_index + 1
        } else {
            self.offset_history.current_index as int
        }
        &&& after.offset == after.offset_history.current()
        &&& after.width == self.width
        &&& after.height == self.height
        &&& after.horizontal_shift == self.horizontal_shift
    }

    /// Goes forward to the offset after the current one, if there is one.
    pub fn goto_next_offset(&mut self)
        requires
            old(self).wf(),
        ensures
            final(self).wf(),
            old(self).gone_forward(final(self)),
    {
        self.offset = self.offset_history.next_one();
    }

    /// Whatever holds of every offset that a window was at and of the
    /// offset that it moves to holds of every offset of the window after the
    /// move.
    pub proof fn lemma_move_keeps(&self, after: &Window, offset: usize, holds: spec_fn(usize) -> bool)
        requires
            self.wf(),
            self.moved_to(after, offset),
            self.all_offsets(holds),
            holds(offset),
        ensures
            after.all_offsets(holds),
            holds(after.offset),
    {
    }

    /// Whatever holds of every offset in the history of a well-formed window
    /// holds of its offset, wherever the cursor stands.
    pub proof fn lemma_offset_holds(&self, holds: spec_fn(usize) -> bool)
        requires
            self.wf(),
            self.all_offsets(holds),
        ensures
            holds(self.offset),
    {
    }

    /// A window that has moved stands at the offset that it moved to.
    pub proof fn lemma_move_reaches(&self, before: &Window)
        requires
            exists|offset: usize| before.moved_to(self, offset),
        ensures
            before.moved_to(self, self.offset),
    {
    }
}

} // verus!
