//! CCONSTRAINT: manual Coincident constraint input.
//!
//! Unlike the plain select-and-click constraints, Coincident addresses a
//! point on an entity (an endpoint, a circle's or arc's center), not the
//! whole entity, so it needs two point picks instead of a selection. The
//! command has no document access: it only accumulates the two raw points
//! and hands them back as `CmdResult::AddCoincidentConstraint`; the host
//! resolves each point to a `ParametricRef` and adds the constraint.
use vstd::prelude::*;

use crate::command::CmdResult;

pub mod coincident_tool;

verus! {

/// The command name.
pub open spec fn command_name() -> Seq<char> {
    "CCONSTRAINT"@
}

/// The prompt before the first pick.
pub open spec fn first_prompt() -> Seq<char> {
    "COINCIDENT  Specify first point:"@
}

/// The prompt before the second pick.
pub open spec fn second_prompt() -> Seq<char> {
    "COINCIDENT  Specify second point:"@
}

/// The label of the constraint the command asks for.
pub open spec fn constraint_label() -> Seq<char> {
    "Coincident constraint"@
}

/// The Coincident constraint command, over picked points of type `P`.
pub struct CoincidentConstraintCommand<P> {
    first: Option<P>,
}

impl<P> View for CoincidentConstraintCommand<P> {
    type V = Option<P>;

    /// The first picked point, once there is one.
    closed spec fn view(&self) -> Option<P> {
        self.first
    }
}

impl<P> Default for CoincidentConstraintCommand<P> {
    /// A command that has no point yet.
    fn default() -> (c: Self)
        ensures
            c@ is None,
    {
        CoincidentConstraintCommand { first: None }
    }
}

impl<P: Copy> CoincidentConstraintCommand<P> {
    /// A command that has no point yet.
    pub fn new() -> (c: Self)
        ensures
            c@ is None,
    {
        CoincidentConstraintCommand { first: None }
    }

    /// The command name, CCONSTRAINT.
    pub fn name(&self) -> (n: &'static str)
        ensures
            n@ == command_name(),
    {
        "CCONSTRAINT"
    }

    /// What the command asks for next.
    pub fn prompt(&self) -> (p: String)
        ensures
            p@ == if self@ is None {
                first_prompt()
            } else {
                second_prompt()
            },
    {
        if self.first.is_none() {
            String::from_str("COINCIDENT  Specify first point:")
        } else {
            String::from_str("COINCIDENT  Specify second point:")
        }
    }

    /// Takes a picked point: the first one is kept and another is asked
    /// for; each later one yields the constraint between the first point
    /// and it.
    pub fn on_point(&mut self, pt: P) -> (r: CmdResult<P>)
        ensures
            match old(self)@ {
                None => r == CmdResult::<P>::NeedPoint && final(self)@ == Some(pt),
                Some(first) => final(self)@ == old(self)@ && match r {
                    CmdResult::AddCoincidentConstraint { point_a, point_b, label } => point_a == first
                        && point_b == pt && label@ == constraint_label(),
                    _ => false,
                },
            },
    {
        match self.first {
            None => {
                self.first = Some(pt);
                CmdResult::NeedPoint
            },
            Some(first) => CmdResult::AddCoincidentConstraint {
                point_a: first,
                point_b: pt,
                label: "Coincident constraint",
            },
        }
    }

    /// Enter ends the command.
    pub fn on_enter(&mut self) -> (r: CmdResult<P>)
        ensures
            r == CmdResult::<P>::Cancel,
            final(self)@ == old(self)@,
    {
        CmdResult::Cancel
    }

    /// Escape ends the command.
    pub fn on_escape(&mut self) -> (r: CmdResult<P>)
        ensures
            r == CmdResult::<P>::Cancel,
            final(self)@ == old(self)@,
    {
        CmdResult::Cancel
    }
}

} // verus!
