//! Relations detected between drawn primitives, and the constraints they
//! stand for.
use vstd::prelude::*;

use crate::seq_util::lemma_filter_take_step;

use crate::constraint::ConstraintKind;
use crate::entity_kind::{is_primitive, EntityKind};
use crate::handle::Handle;
use crate::parametric_ref::{ParametricRef, CENTER_MARKER};

verus! {

/// Which end of a bounded curve a detected coincidence joins.
#[derive(Debug, Clone, Copy, PartialEq, Eq, Structural)]
pub enum ConstraintEndpoint {
    Start,
    End,
}

/// A relation already present between primitives, each named by its
/// position in the list of primitives that were examined.
#[derive(Debug, Clone, Copy, PartialEq, Eq, Structural)]
pub enum InferredRelation {
    Coincident {
        first: usize,
        first_endpoint: ConstraintEndpoint,
        second: usize,
        second_endpoint: ConstraintEndpoint,
    },
    Collinear { first: usize, second: usize },
    Concentric { first: usize, second: usize },
    Parallel { first: usize, second: usize },
    Perpendicular { first: usize, second: usize },
    Horizontal { entity: usize },
    Vertical { entity: usize },
    Tangent { first: usize, second: usize },
}

/// The source-point marker of an endpoint: 0 for the start, 1 for the end.
pub open spec fn endpoint_marker(e: ConstraintEndpoint) -> i32 {
    match e {
        ConstraintEndpoint::Start => 0,
        ConstraintEndpoint::End => 1,
    }
}

/// Every primitive position that `rel` names is below `n`.
pub open spec fn relation_in_bounds(rel: InferredRelation, n: nat) -> bool {
    match rel {
        InferredRelation::Coincident { first, second, .. } => first < n && second < n,
        InferredRelation::Collinear { first, second } => first < n && second < n,
        InferredRelation::Concentric { first, second } => first < n && second < n,
        InferredRelation::Parallel { first, second } => first < n && second < n,
        InferredRelation::Perpendicular { first, second } => first < n && second < n,
        InferredRelation::Horizontal { entity } => entity < n,
        InferredRelation::Vertical { entity } => entity < n,
        InferredRelation::Tangent { first, second } => first < n && second < n,
    }
}

/// The whole-entity references of the primitives at `a` and `b`.
pub open spec fn whole_pair(sources: Seq<Handle>, a: usize, b: usize) -> Seq<ParametricRef> {
    seq![
        ParametricRef { entity: sources[a as int], marker: None },
        ParametricRef { entity: sources[b as int], marker: None },
    ]
}

/// The constraint kind and references that `rel` stands for, over the
/// entity handles `sources` of the examined primitives.
pub open spec fn relation_constraint(rel: InferredRelation, sources: Seq<Handle>) -> (ConstraintKind, Seq<ParametricRef>) {
    match rel {
        InferredRelation::Coincident { first, first_endpoint, second, second_endpoint } => (
            ConstraintKind::Coincident,
            seq![
                ParametricRef { entity: sources[first as int], marker: Some(endpoint_marker(first_endpoint)) },
                ParametricRef { entity: sources[second as int], marker: Some(endpoint_marker(second_endpoint)) },
            ],
        ),
        InferredRelation::Collinear { first, second } => (ConstraintKind::Colinear, whole_pair(sources, first, second)),
        InferredRelation::Concentric { first, second } => (
            ConstraintKind::Concentric,
            seq![
                ParametricRef { entity: sources[first as int], marker: Some(CENTER_MARKER) },
                ParametricRef { entity: sources[second as int], marker: Some(CENTER_MARKER) },
            ],
        ),
        InferredRelation::Parallel { first, second } => (ConstraintKind::Parallel, whole_pair(sources, first, second)),
        InferredRelation::Perpendicular { first, second } => (
            ConstraintKind::Perpendicular,
            whole_pair(sources, first, second),
        ),
        InferredRelation::Horizontal { entity } => (
            ConstraintKind::Horizontal,
            seq![ParametricRef { entity: sources[entity as int], marker: None }],
        ),
        InferredRelation::Vertical { entity } => (
            ConstraintKind::Vertical,
            seq![ParametricRef { entity: sources[entity as int], marker: None }],
        ),
        InferredRelation::Tangent { first, second } => (ConstraintKind::Tangent, whole_pair(sources, first, second)),
    }
}

fn endpoint_to_marker(e: ConstraintEndpoint) -> (m: i32)
    ensures
        m == endpoint_marker(e),
{
    match e {
        ConstraintEndpoint::Start => 0,
        ConstraintEndpoint::End => 1,
    }
}

fn pair(a: ParametricRef, b: ParametricRef) -> (v: Vec<ParametricRef>)
    ensures
        v@ == seq![a, b],
{
    let mut v: Vec<ParametricRef> = Vec::new();
    v.push(a);
    v.push(b);
    v
}

fn single(a: ParametricRef) -> (v: Vec<ParametricRef>)
    ensures
        v@ == seq![a],
{
    let mut v: Vec<ParametricRef> = Vec::new();
    v.push(a);
    v
}

/// The constraint kind and references that `rel` stands for.
pub fn relation_to_constraint(rel: &InferredRelation, sources: &[Handle]) -> (r: (ConstraintKind, Vec<ParametricRef>))
    requires
        relation_in_bounds(*rel, sources@.len()),
    ensures
        r.0 == relation_constraint(*rel, sources@).0,
        r.1@ == relation_constraint(*rel, sources@).1,
{
    match *rel {
        InferredRelation::Coincident { first, first_endpoint, second, second_endpoint } => (
            ConstraintKind::Coincident,
            pair(
                ParametricRef::point(sources[first], endpoint_to_marker(first_endpoint)),
                ParametricRef::point(sources[second], endpoint_to_marker(second_endpoint)),
            ),
        ),
        InferredRelation::Collinear { first, second } => (
            ConstraintKind::Colinear,
            pair(ParametricRef::whole(sources[first]), ParametricRef::whole(sources[second])),
        ),
        InferredRelation::Concentric { first, second } => (
            ConstraintKind::Concentric,
            pair(ParametricRef::center(sources[first]), ParametricRef::center(sources[second])),
        ),
        InferredRelation::Parallel { first, second } => (
            ConstraintKind::Parallel,
            pair(ParametricRef::whole(sources[first]), ParametricRef::whole(sources[second])),
        ),
        InferredRelation::Perpendicular { first, second } => (
            ConstraintKind::Perpendicular,
            pair(ParametricRef::whole(sources[first]), ParametricRef::whole(sources[second])),
        ),
        InferredRelation::Horizontal { entity } => (
            ConstraintKind::Horizontal,
            single(ParametricRef::whole(sources[entity])),
        ),
        InferredRelation::Vertical { entity } => (
            ConstraintKind::Vertical,
            single(ParametricRef::whole(sources[entity])),
        ),
        InferredRelation::Tangent { first, second } => (
            ConstraintKind::Tangent,
            pair(ParametricRef::whole(sources[first]), ParametricRef::whole(sources[second])),
        ),
    }
}

/// The entity is a primitive that relation detection examines.
pub open spec fn examined() -> spec_fn((Handle, EntityKind)) -> bool {
    |e: (Handle, EntityKind)| is_primitive(e.1)
}

/// The handles of the selected entities that relation detection examines
/// (lines, circles and arcs), in selection order: the sources the detected
/// relations index.
pub fn inference_sources(selected: &[(Handle, EntityKind)]) -> (sources: Vec<Handle>)
    ensures
        sources@ == selected@.filter(examined()).map_values(|e: (Handle, EntityKind)| e.0),
{
    let mut out: Vec<Handle> = Vec::new();
    let mut i: usize = 0;
    while i < selected.len()
        invariant
            0 <= i <= selected@.len(),
            out@ == selected@.take(i as int).filter(examined()).map_values(|e: (Handle, EntityKind)| e.0),
        decreases selected.len() - i,
    {
        proof {
            lemma_filter_take_step(selected@, examined(), i as int);
        }
        let (handle, kind) = selected[i];
        match kind {
            EntityKind::Line | EntityKind::Circle | EntityKind::Arc => {
                out.push(handle);
            },
            _ => {},
        }
        assert(out@ =~= selected@.take(i + 1).filter(examined()).map_values(|e: (Handle, EntityKind)| e.0));
        i = i + 1;
    }
    assert(selected@.take(selected@.len() as int) =~= selected@);
    out
}

} // verus!
