use vstd::prelude::*;

verus! {

/// What the hidden board holds at one position.
#[derive(Clone, Copy, PartialEq, Eq, Structural, Debug)]
pub enum Cell {
    /// A mine lies here.
    HasMine,
    /// No mine, and the flood fill has not opened this cell as a zero cell.
    Empty,
    /// No mine, no mine around it, and the flood fill has already opened it.
    EmptyAndChecked,
}

} // verus!
