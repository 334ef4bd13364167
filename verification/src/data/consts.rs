use vstd::prelude::*;

verus! {

/// The table has `CELL_N` rows and `CELL_N` columns.
pub const CELL_N: usize = 10;

} // verus!
