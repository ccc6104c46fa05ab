//! Which of the four directed sectors an angular constraint measures.
use vstd::prelude::*;

verus! {

pub const PARALLEL_COUNTERCLOCKWISE: u8 = 0;
pub const ANTIPARALLEL_CLOCKWISE: u8 = 1;
pub const PARALLEL_CLOCKWISE: u8 = 2;
pub const ANTIPARALLEL_COUNTERCLOCKWISE: u8 = 3;

} // verus!
