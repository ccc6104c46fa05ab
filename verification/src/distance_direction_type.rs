//! How a distance constraint's direction is chosen.
use vstd::prelude::*;

verus! {

pub const UNDIRECTED: u8 = 0;
pub const FIXED: u8 = 1;
pub const PARALLEL_TO_LINE: u8 = 2;
pub const PERPENDICULAR_TO_LINE: u8 = 3;

} // verus!
