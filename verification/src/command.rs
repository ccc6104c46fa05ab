//! What an interactive command answers to user input.
use vstd::prelude::*;

verus! {

/// The answer of an interactive command to one input, over points of type
/// `P`.
#[derive(Debug, Clone, Copy, PartialEq)]
pub enum CmdResult<P> {
    /// The command waits for another point.
    NeedPoint,
    /// The command ends without effect.
    Cancel,
    /// Add a coincident constraint between the entity points nearest to the
    /// two picked points.
    AddCoincidentConstraint { point_a: P, point_b: P, label: &'static str },
}

} // verus!
