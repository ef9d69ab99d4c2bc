use vstd::prelude::*;
use crate::BYTES_PER_LINE;

verus! {

/// The height of the terminal and how many of its rows are taken by other
/// things than the hex view (the status line).
#[derive(Clone, Copy, PartialEq, Eq, Structural, Debug)]
pub struct WindowSize {
    pub rows: usize,
    pub covered_rows: usize,
}

impl WindowSize {
    /// The rows left over for hex lines.
    pub open spec fn spec_hex_rows(self) -> int {
        self.rows - self.covered_rows
    }

    /// The number of bytes the hex view shows at once.
    pub open spec fn spec_visible_byte_count(self) -> int {
        self.spec_hex_rows() * BYTES_PER_LINE
    }

    /// The window can be drawn: at least as many rows as are covered, and
    /// not so many that the visible byte count overflows.
    pub open spec fn fits(self) -> bool {
        &&& self.covered_rows <= self.rows
        &&& self.spec_visible_byte_count() <= usize::MAX
    }

    pub fn visible_byte_count(&self) -> (count: usize)
        requires
            self.fits(),
        ensures
            count == self.spec_visible_byte_count(),
    {
        self.hex_rows() * BYTES_PER_LINE
    }

    pub fn hex_rows(&self) -> (rows: usize)
        requires
            self.covered_rows <= self.rows,
        ensures
            rows == self.spec_hex_rows(),
    {
        self.rows - self.covered_rows
    }
}

} // verus!
