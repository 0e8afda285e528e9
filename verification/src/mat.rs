//! A row-major rectangular grid.
//!
//! Element `(x, y)` of the grid lives at index `y * rlen + x` of the
//! backing vector, row by row from the top.

use vstd::prelude::*;

verus! {

/// A matrix with `rlen` elements per row and `clen` rows.
#[derive(Debug)]
pub struct Matrix<T> {
    pub mat: Vec<T>,
    pub rlen: usize,
    pub clen: usize,
}

impl<T> Matrix<T> {
    /// The backing vector holds exactly one element per grid cell.
    pub open spec fn wf(self) -> bool {
        self.mat@.len() == self.rlen * self.clen
    }
}

} // verus!
