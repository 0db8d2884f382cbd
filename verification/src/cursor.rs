//! Character cursors and selections.
//!
//! A cursor is a position counted in characters (Unicode scalar values, not
//! bytes), together with a hint used when the same character index sits at
//! the border of a wrapped row. A selection is an ordered pair of cursors.

use vstd::prelude::*;

verus! {

/// A position in text, counted in characters.
#[derive(Clone, Copy, Debug, PartialEq, Eq, Structural)]
pub struct CCursor {
    /// Character offset into the text, not a byte offset.
    pub index: usize,
    /// When the index is visually ambiguous (the border of a wrapped row),
    /// whether the next row is preferred.
    pub prefer_next_row: bool,
}

impl CCursor {
    pub fn new(index: usize) -> (c: CCursor)
        ensures
            c.index == index,
            !c.prefer_next_row,
    {
        CCursor { index, prefer_next_row: false }
    }
}

/// A pair of cursors delimiting a range of text to act upon; the two ends
/// may come in either order.
#[derive(Clone, Copy, Debug, PartialEq, Eq, Structural)]
pub struct CCursorRange {
    pub primary: CCursor,
    pub secondary: CCursor,
}

impl CCursorRange {
    pub fn two(primary: CCursor, secondary: CCursor) -> (r: CCursorRange)
        ensures
            r.primary == primary,
            r.secondary == secondary,
    {
        CCursorRange { primary, secondary }
    }

    /// The lower of the two ends, by character index.
    pub open spec fn min_spec(&self) -> CCursor {
        if self.secondary.index < self.primary.index {
            self.secondary
        } else {
            self.primary
        }
    }

    /// The higher of the two ends, by character index.
    pub open spec fn max_spec(&self) -> CCursor {
        if self.secondary.index < self.primary.index {
            self.primary
        } else {
            self.secondary
        }
    }

    /// The two ends in ascending order of character index.
    pub fn sorted_cursors(&self) -> (r: (CCursor, CCursor))
        ensures
            r.0 == self.min_spec(),
            r.1 == self.max_spec(),
            r.0.index <= r.1.index,
    {
        if self.secondary.index < self.primary.index {
            (self.secondary, self.primary)
        } else {
            (self.primary, self.secondary)
        }
    }
}

} // verus!
