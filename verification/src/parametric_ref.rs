use vstd::prelude::*;

use crate::handle::Handle;

verus! {

/// Marker of a circle's or arc's center.
pub const CENTER_MARKER: i32 = -3;

/// Markers at or below this value (and above the midpoint range) address a
/// straight polyline segment: marker `SEGMENT_MARKER_BASE - index`.
pub const POLYLINE_SEGMENT_MARKER_BASE: i32 = -1_000_000;

/// Markers at or below this value address the midpoint of a straight
/// polyline segment: marker `POLYLINE_SEGMENT_MIDPOINT_MARKER_BASE - index`.
pub const POLYLINE_SEGMENT_MIDPOINT_MARKER_BASE: i32 = -2_000_000;

/// One endpoint a constraint attaches to: an entity plus which sub-element
/// of it.
///
/// A non-negative `marker` indexes the entity's ordered list of source
/// points (0/1 = a line's start/end, ...); a negative one names a special
/// case (-3 = a circle's or arc's center; -2 = a bounded curve's midpoint).
/// Polyline segment and segment-midpoint references use their own negative
/// ranges so they stay distinct from vertex markers. `None` addresses the
/// entity as a whole.
#[derive(Debug, Clone, Copy, PartialEq, Eq, Structural, Hash)]
pub struct ParametricRef {
    pub entity: Handle,
    pub marker: Option<i32>,
}

/// The marker that addresses segment `index` of a polyline.
pub open spec fn segment_marker(index: usize) -> int {
    POLYLINE_SEGMENT_MARKER_BASE - (index as i32)
}

/// The marker that addresses the midpoint of segment `index` of a polyline.
pub open spec fn segment_midpoint_marker(index: usize) -> int {
    POLYLINE_SEGMENT_MIDPOINT_MARKER_BASE - (index as i32)
}

/// The polyline segment that `marker` addresses, if it addresses one.
pub open spec fn segment_index_of(marker: Option<i32>) -> Option<int> {
    match marker {
        Some(m) => if POLYLINE_SEGMENT_MIDPOINT_MARKER_BASE < m <= POLYLINE_SEGMENT_MARKER_BASE {
            Some(POLYLINE_SEGMENT_MARKER_BASE - m)
        } else {
            None
        },
        None => None,
    }
}

/// The polyline segment whose midpoint `marker` addresses, if it addresses one.
pub open spec fn segment_midpoint_index_of(marker: Option<i32>) -> Option<int> {
    match marker {
        Some(m) => if m <= POLYLINE_SEGMENT_MIDPOINT_MARKER_BASE {
            Some(POLYLINE_SEGMENT_MIDPOINT_MARKER_BASE - m)
        } else {
            None
        },
        None => None,
    }
}

impl ParametricRef {
    /// Addresses `entity` as a whole.
    pub fn whole(entity: Handle) -> (r: Self)
        ensures
            r == (ParametricRef { entity, marker: None }),
    {
        ParametricRef { entity, marker: None }
    }

    /// Addresses the point `marker` of `entity`.
    pub fn point(entity: Handle, marker: i32) -> (r: Self)
        ensures
            r == (ParametricRef { entity, marker: Some(marker) }),
    {
        ParametricRef { entity, marker: Some(marker) }
    }

    /// Addresses the center of a circle or arc (marker -3).
    pub fn center(entity: Handle) -> (r: Self)
        ensures
            r == (ParametricRef { entity, marker: Some(CENTER_MARKER) }),
    {
        ParametricRef { entity, marker: Some(CENTER_MARKER) }
    }

    /// Selects one straight segment of a polyline.
    pub fn segment(entity: Handle, index: usize) -> (r: Self)
        requires
            (index as i32) <= POLYLINE_SEGMENT_MARKER_BASE - i32::MIN,
        ensures
            r.entity == entity,
            r.marker == Some(segment_marker(index) as i32),
    {
        let offset = index as i32;
        ParametricRef { entity, marker: Some(POLYLINE_SEGMENT_MARKER_BASE - offset) }
    }

    /// The polyline segment this reference selects, if it selects one.
    pub fn segment_index(self) -> (r: Option<usize>)
        ensures
            r matches Some(i) <==> segment_index_of(self.marker) is Some,
            r matches Some(i) ==> i == segment_index_of(self.marker)->0,
    {
        match self.marker {
            Some(marker) => {
                if marker <= POLYLINE_SEGMENT_MARKER_BASE && marker > POLYLINE_SEGMENT_MIDPOINT_MARKER_BASE {
                    Some((POLYLINE_SEGMENT_MARKER_BASE - marker) as usize)
                } else {
                    None
                }
            },
            None => None,
        }
    }

    /// Selects the midpoint of one straight polyline segment.
    pub fn segment_midpoint(entity: Handle, index: usize) -> (r: Self)
        requires
            (index as i32) <= POLYLINE_SEGMENT_MIDPOINT_MARKER_BASE - i32::MIN,
        ensures
            r.entity == entity,
            r.marker == Some(segment_midpoint_marker(index) as i32),
    {
        let offset = index as i32;
        ParametricRef { entity, marker: Some(POLYLINE_SEGMENT_MIDPOINT_MARKER_BASE - offset) }
    }

    /// The polyline segment whose midpoint this reference selects, if any.
    pub fn segment_midpoint_index(self) -> (r: Option<usize>)
        ensures
            r matches Some(i) <==> segment_midpoint_index_of(self.marker) is Some,
            r matches Some(i) ==> i == segment_midpoint_index_of(self.marker)->0,
    {
        match self.marker {
            Some(marker) => {
                if marker <= POLYLINE_SEGMENT_MIDPOINT_MARKER_BASE {
                    Some((POLYLINE_SEGMENT_MIDPOINT_MARKER_BASE - marker) as usize)
                } else {
                    None
                }
            },
            None => None,
        }
    }
}

/// Marker of a bounded curve's midpoint.
pub const CURVE_MIDPOINT_MARKER: i32 = -2;

/// What point of an entity a marker addresses, when the point is resolved
/// against the entity's live geometry.
#[derive(Debug, Clone, Copy, PartialEq, Eq, Structural)]
pub enum MarkerTarget {
    /// A circle's or arc's center.
    Center,
    /// The midpoint of a bounded open curve.
    CurveMidpoint,
    /// The midpoint of a polyline segment.
    SegmentMidpoint(usize),
    /// The entity's source point with this index.
    Vertex(usize),
    /// No single point (a whole-segment marker, or another negative one).
    Unresolvable,
}

/// The point `marker` addresses.
pub open spec fn marker_target(marker: i32) -> MarkerTarget {
    if marker == CENTER_MARKER {
        MarkerTarget::Center
    } else if marker == CURVE_MIDPOINT_MARKER {
        MarkerTarget::CurveMidpoint
    } else if marker <= POLYLINE_SEGMENT_MIDPOINT_MARKER_BASE {
        MarkerTarget::SegmentMidpoint((POLYLINE_SEGMENT_MIDPOINT_MARKER_BASE - marker) as usize)
    } else if marker < 0 {
        MarkerTarget::Unresolvable
    } else {
        MarkerTarget::Vertex(marker as usize)
    }
}

/// Classifies a marker by the point it addresses: the center case (-3),
/// a curve midpoint (-2), a segment midpoint, an ordinary source-point
/// index, or nothing resolvable.
pub fn classify_marker(marker: i32) -> (t: MarkerTarget)
    ensures
        t == marker_target(marker),
{
    if marker == CENTER_MARKER {
        return MarkerTarget::Center;
    }
    if marker == CURVE_MIDPOINT_MARKER {
        return MarkerTarget::CurveMidpoint;
    }
    match (ParametricRef { entity: Handle(0), marker: Some(marker) }).segment_midpoint_index() {
        Some(segment) => MarkerTarget::SegmentMidpoint(segment),
        None => {
            if marker < 0 {
                MarkerTarget::Unresolvable
            } else {
                MarkerTarget::Vertex(marker as usize)
            }
        },
    }
}

/// The indices, among a polyline's `point_count` vertices, of the two
/// ends of segment `segment`: the vertex and the next one, or, for the
/// last segment of a closed polyline, the first vertex; `None` when there
/// is no such segment.
pub open spec fn segment_ends(segment: usize, point_count: usize, closed: bool) -> Option<(usize, usize)> {
    if segment < point_count {
        if segment + 1 < point_count {
            Some((segment, (segment + 1) as usize))
        } else if closed {
            Some((segment, 0))
        } else {
            None
        }
    } else {
        None
    }
}

/// The vertex indices of the two ends of segment `segment` of a polyline
/// with `point_count` vertices.
pub fn segment_midpoint_endpoints(segment: usize, point_count: usize, closed: bool) -> (r: Option<(usize, usize)>)
    ensures
        r == segment_ends(segment, point_count, closed),
{
    if segment >= point_count {
        None
    } else if segment + 1 < point_count {
        Some((segment, segment + 1))
    } else if closed {
        Some((segment, 0))
    } else {
        None
    }
}

/// A segment reference gives back its segment index, and is no segment
/// midpoint, for every index below the size of the segment range.
pub proof fn lemma_segment_round_trip(index: usize)
    requires
        index < 1_000_000,
    ensures
        segment_index_of(Some(segment_marker(index) as i32)) == Some(index as int),
        segment_midpoint_index_of(Some(segment_marker(index) as i32)) is None,
{
}

/// A segment-midpoint reference gives back its segment index, and is no
/// segment reference, for every index it can be built from.
pub proof fn lemma_segment_midpoint_round_trip(index: usize)
    requires
        index <= POLYLINE_SEGMENT_MIDPOINT_MARKER_BASE - i32::MIN,
    ensures
        segment_midpoint_index_of(Some(segment_midpoint_marker(index) as i32)) == Some(index as int),
        segment_index_of(Some(segment_midpoint_marker(index) as i32)) is None,
{
}

/// Whole-entity, center and vertex references address no polyline segment
/// and no segment midpoint.
pub proof fn lemma_plain_refs_have_no_segment(vertex: i32)
    requires
        vertex >= 0,
    ensures
        segment_index_of(None) is None,
        segment_midpoint_index_of(None) is None,
        segment_index_of(Some(CENTER_MARKER)) is None,
        segment_midpoint_index_of(Some(CENTER_MARKER)) is None,
        segment_index_of(Some(vertex)) is None,
        segment_midpoint_index_of(Some(vertex)) is None,
{
}

} // verus!
