//! The ways in which the engine rejects a call.

use vstd::prelude::*;

verus! {

/// Why a query or a move was rejected. A rejected call changes nothing.
#[derive(Clone, Copy, Debug, PartialEq, Eq, Structural)]
pub enum Error {
    /// A cell query named a row or a column outside the grid.
    OutOfBounds,
    /// A column query or a move named a column outside the grid.
    InvalidColumn,
    /// A move named a column that has no empty cell left.
    ColumnFull,
}

} // verus!
