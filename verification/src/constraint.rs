use vstd::prelude::*;

use crate::handle::Handle;
use crate::parametric_ref::ParametricRef;

verus! {

/// The user-facing constraint types: the "what button did they click"
/// vocabulary, one layer above the solver primitives each maps onto.
#[derive(Debug, Clone, Copy, PartialEq, Eq, Structural)]
pub enum ConstraintKind {
    Coincident,
    Horizontal,
    Vertical,
    Parallel,
    Perpendicular,
    Equal,
    /// Distance between two points, or a single line's length, or a
    /// circle's or arc's diameter; which reading applies depends on the
    /// shape of `refs`.
    Distance,
    Angle,
    /// Angle defined by two rays sharing the middle point.
    Angle3Point,
    Radius,
    Tangent,
    /// An open spline endpoint remains curvature-continuous with another
    /// bounded curve endpoint.
    Smooth,
    /// Two circles/arcs share a center; `refs`: `[center(a), center(b)]`.
    Concentric,
    /// A point sits at a circle's or arc's center; `refs`: `[point, center(circle)]`.
    CenterPoint,
    /// Two lines share the same infinite line; `refs`: `[whole(a), whole(b)]`.
    Colinear,
    /// A point sits at another line's midpoint; `refs`: `[point, whole(line)]`.
    Midpoint,
    /// Locks a whole entity at its current position; `refs`: `[whole(entity)]`.
    Fixed,
    /// A point lies anywhere along a line's or circle's curve; `refs`:
    /// `[point, whole(entity)]`.
    PointOnCurve,
    /// The distance between one point pair equals the distance between
    /// another; `refs`: `[p1, p2, p3, p4]`.
    EqualDistance,
    /// Two circles/arcs are mirror images of each other across a line;
    /// `refs`: `[center(a), center(b), whole(mirror_line)]`.
    Symmetric,
    /// A circle's or arc's diameter (twice `Radius`'s target); `refs`:
    /// `[whole(circle_or_arc)]`.
    Diameter,
    /// The X-only component of the distance between two points.
    DistanceX,
    /// The Y-only component of the distance between two points.
    DistanceY,
    /// Signed point-to-point distance along an arbitrary fixed direction,
    /// or along a direction derived from a third line reference.
    DistanceDirected,
    /// A line perpendicular to a circle's or arc's tangent at their point
    /// of contact; `refs`: `[whole(a), whole(b)]`, either order.
    Normal,
    /// A rigid geometry container: its referenced points keep their
    /// original relative distances while the whole set may translate or
    /// rotate.
    RigidSet,
}

/// Identifier of a constraint, unique within its constraint set.
pub type ConstraintId = u32;

/// The value driving a dimensional constraint.
#[derive(Debug, Clone)]
pub enum DrivingValue {
    /// A literal number, held as the bit pattern of its IEEE-754 binary64
    /// encoding.
    Literal(u64),
    /// A reference to a named parameter, resolved at solve time.
    Named(String),
}

/// The binary64 value with bit pattern `bits` is a NaN: all exponent bits
/// set and a non-zero fraction.
pub open spec fn is_nan_bits(bits: u64) -> bool {
    (bits & 0x7FF0_0000_0000_0000) == 0x7FF0_0000_0000_0000 && (bits & 0x000F_FFFF_FFFF_FFFF) != 0
}

/// The binary64 value with bit pattern `bits` is +0.0 or -0.0.
pub open spec fn is_zero_bits(bits: u64) -> bool {
    (bits & 0x7FFF_FFFF_FFFF_FFFF) == 0
}

/// IEEE-754 equality of the binary64 values with bit patterns `a` and `b`:
/// a NaN equals nothing, the two zeros are equal, and other values are
/// equal exactly when their encodings are.
pub open spec fn literal_values_equal(a: u64, b: u64) -> bool {
    !is_nan_bits(a) && !is_nan_bits(b) && (a == b || (is_zero_bits(a) && is_zero_bits(b)))
}

/// Compares two literal values as binary64 numbers compare.
fn literal_bits_equal(a: u64, b: u64) -> (r: bool)
    ensures
        r == literal_values_equal(a, b),
{
    let a_nan = (a & 0x7FF0_0000_0000_0000) == 0x7FF0_0000_0000_0000 && (a & 0x000F_FFFF_FFFF_FFFF) != 0;
    let b_nan = (b & 0x7FF0_0000_0000_0000) == 0x7FF0_0000_0000_0000 && (b & 0x000F_FFFF_FFFF_FFFF) != 0;
    let both_zero = (a & 0x7FFF_FFFF_FFFF_FFFF) == 0 && (b & 0x7FFF_FFFF_FFFF_FFFF) == 0;
    !a_nan && !b_nan && (a == b || both_zero)
}

impl PartialEq for DrivingValue {
    fn eq(&self, other: &Self) -> (r: bool) {
        match (self, other) {
            (DrivingValue::Literal(a), DrivingValue::Literal(b)) => literal_bits_equal(*a, *b),
            (DrivingValue::Named(a), DrivingValue::Named(b)) => (*a).eq(b),
            _ => false,
        }
    }
}

impl vstd::std_specs::cmp::PartialEqSpecImpl for DrivingValue {
    open spec fn obeys_eq_spec() -> bool {
        true
    }

    /// Literal values compare as binary64 numbers; names compare as text.
    open spec fn eq_spec(&self, other: &DrivingValue) -> bool {
        match (self, other) {
            (DrivingValue::Literal(a), DrivingValue::Literal(b)) => literal_values_equal(*a, *b),
            (DrivingValue::Named(a), DrivingValue::Named(b)) => a@ == b@,
            _ => false,
        }
    }
}

/// Where a constraint read from a stored associative graph came from.
#[derive(Debug, Clone, Copy, PartialEq, Eq, Structural)]
pub struct NativeConstraintOrigin {
    pub group: Handle,
    pub node: i32,
}

/// How the last resolve classified a constraint that does not reduce the
/// degrees of freedom.
#[derive(Debug, Clone, Copy, PartialEq, Eq, Structural)]
pub enum RedundancyKind {
    /// Implied by the other constraints.
    Redundant,
    /// Contradicts the other constraints.
    Conflicting,
}

/// One runtime constraint: a [`ConstraintKind`], the entities/points it
/// relates, and, for a dimensional kind, the value driving it.
#[derive(Debug, Clone, PartialEq)]
pub struct ParametricConstraint {
    pub id: ConstraintId,
    pub kind: ConstraintKind,
    pub refs: Vec<ParametricRef>,
    /// The target of a dimensional constraint (a distance, an angle, a
    /// radius); `None` for every purely geometric kind.
    pub driving_param: Option<DrivingValue>,
    /// A disabled constraint is kept but skipped by every re-solve.
    pub enabled: bool,
    /// Stored graph node retained in place because its group also holds
    /// graph features that cannot be rebuilt independently.
    pub native_origin: Option<NativeConstraintOrigin>,
    /// Original point positions of a rigid set, each coordinate held as the
    /// bit pattern of its binary64 encoding.
    pub rigid_points: Vec<(ParametricRef, [u64; 3])>,
    /// Distance direction mode (see `distance_direction_type`).
    pub distance_direction_type: u8,
    /// Direction vector of a fixed-direction distance, as coordinate bit
    /// patterns.
    pub distance_direction: Option<[u64; 3]>,
    /// Which of the four directed sectors an angular constraint measures.
    pub angle_sector: u8,
}

/// `c` references `entity` through at least one of its refs, whatever the
/// marker.
pub open spec fn touches(c: ParametricConstraint, entity: Handle) -> bool {
    exists|i: int| 0 <= i < c.refs@.len() && (#[trigger] c.refs@[i]).entity == entity
}

/// The glyph symbol of each constraint kind.
pub open spec fn glyph_text(kind: ConstraintKind) -> Seq<char> {
    match kind {
        ConstraintKind::Coincident => "≡"@,
        ConstraintKind::Horizontal => "—"@,
        ConstraintKind::Vertical => "│"@,
        ConstraintKind::Parallel => "∥"@,
        ConstraintKind::Perpendicular => "⊥"@,
        ConstraintKind::Equal => "="@,
        ConstraintKind::Distance => "↔"@,
        ConstraintKind::Angle => "∠"@,
        ConstraintKind::Angle3Point => "∠₃"@,
        ConstraintKind::Radius => "R"@,
        ConstraintKind::Tangent => "T"@,
        ConstraintKind::Smooth => "G²"@,
        ConstraintKind::Concentric => "◎"@,
        ConstraintKind::CenterPoint => "⊕"@,
        ConstraintKind::Colinear => "L"@,
        ConstraintKind::Midpoint => "M"@,
        ConstraintKind::Fixed => "F"@,
        ConstraintKind::PointOnCurve => "∈"@,
        ConstraintKind::EqualDistance => "≐"@,
        ConstraintKind::Symmetric => "S"@,
        ConstraintKind::Diameter => "⌀"@,
        ConstraintKind::DistanceX => "↔ₓ"@,
        ConstraintKind::DistanceY => "↔ᵧ"@,
        ConstraintKind::DistanceDirected => "↗"@,
        ConstraintKind::Normal => "⊾"@,
        ConstraintKind::RigidSet => "▣"@,
    }
}

impl ConstraintKind {
    /// The short symbol a constraint glyph shows; the same symbol the
    /// ribbon button of that kind carries.
    pub fn glyph_symbol(&self) -> (s: &'static str)
        ensures
            s@ == glyph_text(*self),
    {
        match self {
            ConstraintKind::Coincident => "≡",
            ConstraintKind::Horizontal => "—",
            ConstraintKind::Vertical => "│",
            ConstraintKind::Parallel => "∥",
            ConstraintKind::Perpendicular => "⊥",
            ConstraintKind::Equal => "=",
            ConstraintKind::Distance => "↔",
            ConstraintKind::Angle => "∠",
            ConstraintKind::Angle3Point => "∠₃",
            ConstraintKind::Radius => "R",
            ConstraintKind::Tangent => "T",
            ConstraintKind::Smooth => "G²",
            ConstraintKind::Concentric => "◎",
            ConstraintKind::CenterPoint => "⊕",
            ConstraintKind::Colinear => "L",
            ConstraintKind::Midpoint => "M",
            ConstraintKind::Fixed => "F",
            ConstraintKind::PointOnCurve => "∈",
            ConstraintKind::EqualDistance => "≐",
            ConstraintKind::Symmetric => "S",
            ConstraintKind::Diameter => "⌀",
            ConstraintKind::DistanceX => "↔ₓ",
            ConstraintKind::DistanceY => "↔ᵧ",
            ConstraintKind::DistanceDirected => "↗",
            ConstraintKind::Normal => "⊾",
            ConstraintKind::RigidSet => "▣",
        }
    }
}

/// How a glyph shows the literal value driving a constraint.
#[derive(Debug, Clone, Copy, PartialEq, Eq, Structural)]
pub enum LiteralStyle {
    /// One decimal, then a degree sign.
    Degrees,
    /// Two decimals.
    Plain,
}

impl ConstraintKind {
    /// How a glyph of this kind shows a literal driving value: an angle in
    /// degrees with one decimal, anything else with two decimals.
    pub fn literal_style(&self) -> (style: LiteralStyle)
        ensures
            style == (if *self == ConstraintKind::Angle {
                LiteralStyle::Degrees
            } else {
                LiteralStyle::Plain
            }),
    {
        match self {
            ConstraintKind::Angle => LiteralStyle::Degrees,
            _ => LiteralStyle::Plain,
        }
    }
}

/// The text of a glyph: the kind's symbol, then, for a driven constraint,
/// a space and the driving value, a literal one as `literal_text` renders it.
pub open spec fn glyph_label_text(c: ParametricConstraint, literal_text: Seq<char>) -> Seq<char> {
    match c.driving_param {
        Some(DrivingValue::Literal(_)) => glyph_text(c.kind) + " "@ + literal_text,
        Some(DrivingValue::Named(name)) => glyph_text(c.kind) + " "@ + name@,
        None => glyph_text(c.kind),
    }
}

/// The full glyph text for one constraint: its symbol, plus the driving
/// value for a dimensional kind. A literal value is shown as
/// `literal_text`, its rendering in the kind's [`LiteralStyle`]; a named
/// parameter by its name.
pub fn glyph_label(constraint: &ParametricConstraint, literal_text: &str) -> (label: String)
    ensures
        label@ == glyph_label_text(*constraint, literal_text@),
{
    let symbol = constraint.kind.glyph_symbol();
    match &constraint.driving_param {
        Some(DrivingValue::Literal(_)) => {
            let mut label = String::from_str(symbol);
            label.append(" ");
            label.append(literal_text);
            label
        },
        Some(DrivingValue::Named(name)) => {
            let mut label = String::from_str(symbol);
            label.append(" ");
            label.append(name.as_str());
            label
        },
        None => String::from_str(symbol),
    }
}

} // verus!
