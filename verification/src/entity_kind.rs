//! The kinds of entity that constraint geometry distinguishes, and the
//! case choices made on them before any coordinate is read.
use vstd::prelude::*;

use crate::parametric_ref::CENTER_MARKER;

verus! {

/// The kind of a document entity, as far as constraint geometry cares.
#[derive(Debug, Clone, Copy, PartialEq, Eq, Structural)]
pub enum EntityKind {
    Line,
    Circle,
    Arc,
    Spline { closed: bool, periodic: bool },
    /// Any other entity.
    Other,
}

/// Where a constraint glyph sits, by the kind of the entity its first
/// reference names and that reference's marker.
#[derive(Debug, Clone, Copy, PartialEq, Eq, Structural)]
pub enum GlyphAnchor {
    /// At a line's midpoint, pointing along the line's normal.
    LineMidpoint,
    /// On a circle's rim at angle zero, pointing away from the center.
    CircleRim,
    /// At an arc's midpoint, pointing away from the center.
    ArcMidpoint,
    /// At the resolved point of a line, pointing away from the line's
    /// midpoint (or along its normal where they coincide).
    LinePoint(i32),
    /// At the resolved point of an arc, pointing away from its center (or
    /// up where they coincide).
    ArcPoint(i32),
    /// At the resolved point of another entity, pointing up.
    OtherPoint(i32),
    /// No glyph.
    Nowhere,
}

/// The glyph anchor for an entity of kind `kind` referenced with `marker`.
pub open spec fn glyph_anchor_of(kind: EntityKind, marker: Option<i32>) -> GlyphAnchor {
    match (kind, marker) {
        (EntityKind::Line, None) => GlyphAnchor::LineMidpoint,
        (EntityKind::Circle, None) => GlyphAnchor::CircleRim,
        (EntityKind::Circle, Some(m)) => if m == CENTER_MARKER {
            GlyphAnchor::CircleRim
        } else {
            GlyphAnchor::OtherPoint(m)
        },
        (EntityKind::Arc, None) => GlyphAnchor::ArcMidpoint,
        (EntityKind::Arc, Some(m)) => if m == CENTER_MARKER {
            GlyphAnchor::ArcMidpoint
        } else {
            GlyphAnchor::ArcPoint(m)
        },
        (EntityKind::Line, Some(m)) => GlyphAnchor::LinePoint(m),
        (_, Some(m)) => GlyphAnchor::OtherPoint(m),
        (_, None) => GlyphAnchor::Nowhere,
    }
}

/// Chooses where a constraint glyph sits: a whole line at its midpoint, a
/// whole circle or its center on the rim, a whole arc or its center at the
/// arc's midpoint, any other point at that point, and nothing for another
/// whole entity.
pub fn glyph_anchor(kind: EntityKind, marker: Option<i32>) -> (a: GlyphAnchor)
    ensures
        a == glyph_anchor_of(kind, marker),
        kind == EntityKind::Line && marker is None ==> a == GlyphAnchor::LineMidpoint,
        kind == EntityKind::Circle && (marker is None || marker == Some(CENTER_MARKER)) ==> a == GlyphAnchor::CircleRim,
        kind == EntityKind::Arc && (marker is None || marker == Some(CENTER_MARKER)) ==> a == GlyphAnchor::ArcMidpoint,
        a == GlyphAnchor::Nowhere <==> marker is None && !is_primitive(kind),
{
    match (kind, marker) {
        (EntityKind::Line, None) => GlyphAnchor::LineMidpoint,
        (EntityKind::Circle, None) => GlyphAnchor::CircleRim,
        (EntityKind::Circle, Some(m)) => if m == CENTER_MARKER {
            GlyphAnchor::CircleRim
        } else {
            GlyphAnchor::OtherPoint(m)
        },
        (EntityKind::Arc, None) => GlyphAnchor::ArcMidpoint,
        (EntityKind::Arc, Some(m)) => if m == CENTER_MARKER {
            GlyphAnchor::ArcMidpoint
        } else {
            GlyphAnchor::ArcPoint(m)
        },
        (EntityKind::Line, Some(m)) => GlyphAnchor::LinePoint(m),
        (_, Some(m)) => GlyphAnchor::OtherPoint(m),
        (_, None) => GlyphAnchor::Nowhere,
    }
}

/// Which of two selected entities is the spline of a Smooth constraint.
#[derive(Debug, Clone, Copy, PartialEq, Eq, Structural)]
pub enum SplineSide {
    First,
    Second,
}

/// The side of the spline for a Smooth constraint between entities of kinds
/// `first` and `second`: the first when it is a spline, else the second when
/// it is one; none when neither is, or when the chosen spline is closed or
/// periodic.
pub open spec fn spline_side_of(first: EntityKind, second: EntityKind) -> Option<SplineSide> {
    match first {
        EntityKind::Spline { closed, periodic } => if closed || periodic {
            None
        } else {
            Some(SplineSide::First)
        },
        _ => match second {
            EntityKind::Spline { closed, periodic } => if closed || periodic {
                None
            } else {
                Some(SplineSide::Second)
            },
            _ => None,
        },
    }
}

/// Picks the open spline of a Smooth constraint between two entities.
pub fn smooth_spline_side(first: EntityKind, second: EntityKind) -> (side: Option<SplineSide>)
    ensures
        side == spline_side_of(first, second),
        side == Some(SplineSide::First) ==> first == (EntityKind::Spline { closed: false, periodic: false }),
        side == Some(SplineSide::Second) ==> second == (EntityKind::Spline { closed: false, periodic: false })
            && !(first is Spline),
        first == (EntityKind::Spline { closed: false, periodic: false }) ==> side == Some(SplineSide::First),
        !(first is Spline) && second == (EntityKind::Spline { closed: false, periodic: false }) ==> side == Some(
            SplineSide::Second,
        ),
{
    let (side, closed, periodic) = match (first, second) {
        (EntityKind::Spline { closed, periodic }, _) => (SplineSide::First, closed, periodic),
        (_, EntityKind::Spline { closed, periodic }) => (SplineSide::Second, closed, periodic),
        _ => return None,
    };
    if closed || periodic {
        None
    } else {
        Some(side)
    }
}

/// The entity takes part in relation detection: lines, circles and arcs.
pub open spec fn is_primitive(kind: EntityKind) -> bool {
    kind == EntityKind::Line || kind == EntityKind::Circle || kind == EntityKind::Arc
}

/// Every whole line, circle or arc gets a glyph, an arc's or circle's
/// center reference is placed like the whole entity, and only a whole
/// entity of another kind gets none.
pub proof fn lemma_glyph_anchor_cases(kind: EntityKind, marker: Option<i32>)
    ensures
        is_primitive(kind) ==> glyph_anchor_of(kind, None) != GlyphAnchor::Nowhere,
        glyph_anchor_of(EntityKind::Arc, None) == glyph_anchor_of(EntityKind::Arc, Some(CENTER_MARKER)),
        glyph_anchor_of(EntityKind::Circle, None) == glyph_anchor_of(EntityKind::Circle, Some(CENTER_MARKER)),
        glyph_anchor_of(kind, marker) == GlyphAnchor::Nowhere <==> marker is None && !is_primitive(kind),
        marker is Some && marker->0 != CENTER_MARKER ==> match glyph_anchor_of(kind, marker) {
            GlyphAnchor::LinePoint(p) => p == marker->0 && kind == EntityKind::Line,
            GlyphAnchor::ArcPoint(p) => p == marker->0 && kind == EntityKind::Arc,
            GlyphAnchor::OtherPoint(p) => p == marker->0 && kind != EntityKind::Line && kind != EntityKind::Arc,
            _ => false,
        },
{
}

/// The spline a Smooth constraint is put on is always open and not
/// periodic, the first selected entity is preferred when both are splines,
/// and an open spline is never passed over.
pub proof fn lemma_smooth_spline_is_open(first: EntityKind, second: EntityKind)
    ensures
        spline_side_of(first, second) == Some(SplineSide::First) ==> first == (EntityKind::Spline {
            closed: false,
            periodic: false,
        }),
        spline_side_of(first, second) == Some(SplineSide::Second) ==> second == (EntityKind::Spline {
            closed: false,
            periodic: false,
        }) && !(first is Spline),
        first == (EntityKind::Spline { closed: false, periodic: false }) ==> spline_side_of(first, second) == Some(
            SplineSide::First,
        ),
        !(first is Spline) && second == (EntityKind::Spline { closed: false, periodic: false }) ==> spline_side_of(
            first,
            second,
        ) == Some(SplineSide::Second),
        !(first is Spline) && !(second is Spline) ==> spline_side_of(first, second) is None,
{
}

} // verus!
