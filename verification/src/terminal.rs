//! Terminal dimensions.
use vstd::prelude::*;

verus! {

/// Represents the dimensions of the terminal.
#[derive(Debug, Clone, Copy, PartialEq, Eq, Structural)]
pub struct Size {
    /// Number of rows (lines) in the terminal.
    pub rows: u16,
    /// Number of columns (characters per line) in the terminal.
    pub cols: u16,
}

} // verus!
