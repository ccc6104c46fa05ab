//! Runtime parametric-constraint data and scope management.
use rustc_hash::FxHashMap;
use vstd::prelude::*;

use crate::angle_sector;
use crate::constraint::{
    touches, ConstraintId, ConstraintKind, DrivingValue, ParametricConstraint, RedundancyKind,
};
use crate::distance_direction_type;
use crate::inference::{relation_constraint, relation_in_bounds, relation_to_constraint, InferredRelation};
use crate::handle::{insert_sorted_unique, sorted_listing_of, strictly_increasing, Handle};
use crate::parametric_ref::ParametricRef;
use crate::seq_util::{keys_distinct, lemma_filter_all_pass, lemma_filter_elements, lemma_filter_keys_distinct, lemma_filter_take_step};

verus! {

/// A constraint scope: model space or one block definition.
#[derive(Debug, Clone, Copy, PartialEq, Eq, Structural, Hash)]
pub enum ParametricScope {
    ModelSpace,
    /// A block definition, by the handle of its block record.
    Block(Handle),
}

impl ParametricScope {
    /// The owner handle under which this scope is persisted, given the
    /// handle of the document's model-space block record.
    pub fn owner_handle(&self, model_space_block_handle: Handle) -> (h: Handle)
        ensures
            h == match *self {
                ParametricScope::ModelSpace => model_space_block_handle,
                ParametricScope::Block(block) => block,
            },
    {
        match self {
            ParametricScope::ModelSpace => model_space_block_handle,
            ParametricScope::Block(handle) => *handle,
        }
    }
}

/// Every constraint of one scope. Solver state is rebuilt on demand and is
/// not stored here.
#[derive(Debug, Clone)]
pub struct ParametricConstraintSet {
    pub scope: ParametricScope,
    pub constraints: Vec<ParametricConstraint>,
    next_id: ConstraintId,
    pub retained_standard_groups: Vec<Handle>,
    /// Total remaining degrees of freedom found by the last resolve of this
    /// scope; `None` until the first resolve. A derived cache.
    pub dof: Option<usize>,
    /// Redundant or conflicting constraints found by the last resolve.
    /// A derived cache.
    pub conflicts: Vec<(ConstraintId, RedundancyKind)>,
}

/// The abstract state of a [`ParametricConstraintSet`].
pub struct ConstraintSetView {
    pub scope: ParametricScope,
    pub constraints: Seq<ParametricConstraint>,
    /// The id the next added constraint receives.
    pub next_id: nat,
    pub retained_standard_groups: Seq<Handle>,
    pub dof: Option<usize>,
    pub conflicts: Seq<(ConstraintId, RedundancyKind)>,
}

impl View for ParametricConstraintSet {
    type V = ConstraintSetView;

    closed spec fn view(&self) -> ConstraintSetView {
        ConstraintSetView {
            scope: self.scope,
            constraints: self.constraints@,
            next_id: self.next_id as nat,
            retained_standard_groups: self.retained_standard_groups@,
            dof: self.dof,
            conflicts: self.conflicts@,
        }
    }
}

impl ConstraintSetView {
    /// Every constraint id is below the next id, and no two constraints
    /// share an id.
    pub open spec fn wf(self) -> bool {
        &&& forall|i: int| 0 <= i < self.constraints.len() ==> (#[trigger] self.constraints[i]).id < self.next_id
        &&& forall|i: int, j: int|
            0 <= i < j < self.constraints.len() ==> #[trigger] self.constraints[i].id != #[trigger] self.constraints[j].id
    }

    /// Some constraint of the set has id `id`.
    pub open spec fn has_id(self, id: ConstraintId) -> bool {
        exists|i: int| 0 <= i < self.constraints.len() && (#[trigger] self.constraints[i]).id == id
    }

    /// The empty set of `scope`, as `new` makes it.
    pub open spec fn is_empty_for(self, scope: ParametricScope) -> bool {
        &&& self.scope == scope
        &&& self.constraints.len() == 0
        &&& self.next_id == 0
        &&& self.retained_standard_groups.len() == 0
        &&& self.dof is None
        &&& self.conflicts.len() == 0
    }

    /// Everything but the constraints and the next id is as in `other`.
    pub open spec fn same_caches(self, other: ConstraintSetView) -> bool {
        &&& self.scope == other.scope
        &&& self.retained_standard_groups == other.retained_standard_groups
        &&& self.dof == other.dof
        &&& self.conflicts == other.conflicts
    }
}

/// `c` is the constraint `add` builds: enabled, with no stored origin, no
/// rigid points, an undirected distance and the default angle sector.
pub open spec fn is_fresh_constraint(
    c: ParametricConstraint,
    id: ConstraintId,
    kind: ConstraintKind,
    refs: Seq<ParametricRef>,
    driving_param: Option<DrivingValue>,
) -> bool {
    &&& c.id == id
    &&& c.kind == kind
    &&& c.refs@ == refs
    &&& c.driving_param == driving_param
    &&& c.enabled
    &&& c.native_origin is None
    &&& c.rigid_points@.len() == 0
    &&& c.distance_direction_type == distance_direction_type::UNDIRECTED
    &&& c.distance_direction is None
    &&& c.angle_sector == angle_sector::PARALLEL_COUNTERCLOCKWISE
}

/// `i` is the position of the first constraint in `cs` with id `id`.
pub open spec fn is_first_with_id(cs: Seq<ParametricConstraint>, id: ConstraintId, i: int) -> bool {
    &&& 0 <= i < cs.len()
    &&& cs[i].id == id
    &&& forall|j: int| 0 <= j < i ==> (#[trigger] cs[j]).id != id
}

/// The constraint does not carry id `id`.
pub open spec fn id_differs(id: ConstraintId) -> spec_fn(ParametricConstraint) -> bool {
    |c: ParametricConstraint| c.id != id
}

/// The constraint is enabled and references `entity`.
pub open spec fn enabled_touching(entity: Handle) -> spec_fn(ParametricConstraint) -> bool {
    |c: ParametricConstraint| c.enabled && touches(c, entity)
}

/// The constraint references `entity`.
pub open spec fn touching(entity: Handle) -> spec_fn(ParametricConstraint) -> bool {
    |c: ParametricConstraint| touches(c, entity)
}

/// The constraint does not reference `entity`.
pub open spec fn not_touching(entity: Handle) -> spec_fn(ParametricConstraint) -> bool {
    |c: ParametricConstraint| !touches(c, entity)
}

/// Filtering the constraints of a well-formed set keeps it well-formed.
proof fn lemma_filter_wf(cs: Seq<ParametricConstraint>, p: spec_fn(ParametricConstraint) -> bool, next_id: nat)
    requires
        forall|i: int| 0 <= i < cs.len() ==> (#[trigger] cs[i]).id < next_id,
        forall|i: int, j: int| 0 <= i < j < cs.len() ==> #[trigger] cs[i].id != #[trigger] cs[j].id,
    ensures
        forall|i: int| 0 <= i < cs.filter(p).len() ==> (#[trigger] cs.filter(p)[i]).id < next_id,
        forall|i: int, j: int|
            0 <= i < j < cs.filter(p).len() ==> #[trigger] cs.filter(p)[i].id != #[trigger] cs.filter(p)[j].id,
{
    let key = |c: ParametricConstraint| c.id;
    assert(keys_distinct(cs, key));
    lemma_filter_keys_distinct(cs, p, key);
    lemma_filter_elements(cs, p);
    let f = cs.filter(p);
    assert forall|i: int| 0 <= i < f.len() implies (#[trigger] f[i]).id < next_id by {
        assert(cs.contains(f[i]));
    }
    assert forall|i: int, j: int| 0 <= i < j < f.len() implies #[trigger] f[i].id != #[trigger] f[j].id by {
        assert(key(f[i]) != key(f[j]));
    }
}

/// Whether one of `refs` references `entity`.
fn refs_touch(refs: &Vec<ParametricRef>, entity: Handle) -> (r: bool)
    ensures
        r == exists|i: int| 0 <= i < refs@.len() && (#[trigger] refs@[i]).entity == entity,
{
    let mut i: usize = 0;
    while i < refs.len()
        invariant
            0 <= i <= refs.len(),
            forall|k: int| 0 <= k < i ==> (#[trigger] refs@[k]).entity != entity,
        decreases refs.len() - i,
    {
        if refs[i].entity == entity {
            return true;
        }
        i = i + 1;
    }
    false
}

impl ParametricConstraintSet {
    /// An empty constraint set for `scope`.
    pub fn new(scope: ParametricScope) -> (s: Self)
        ensures
            s@.is_empty_for(scope),
            s@.wf(),
    {
        ParametricConstraintSet {
            scope,
            constraints: Vec::new(),
            next_id: 0,
            retained_standard_groups: Vec::new(),
            dof: None,
            conflicts: Vec::new(),
        }
    }

    /// Appends a constraint, assigning it a fresh id unique within this set.
    pub fn add(
        &mut self,
        kind: ConstraintKind,
        refs: Vec<ParametricRef>,
        driving_param: Option<DrivingValue>,
    ) -> (id: ConstraintId)
        requires
            old(self)@.next_id < u32::MAX,
        ensures
            id == old(self)@.next_id,
            final(self)@.next_id == old(self)@.next_id + 1,
            final(self)@.constraints.len() == old(self)@.constraints.len() + 1,
            final(self)@.constraints.drop_last() == old(self)@.constraints,
            is_fresh_constraint(final(self)@.constraints.last(), id, kind, refs@, driving_param),
            final(self)@.same_caches(old(self)@),
            old(self)@.wf() ==> !old(self)@.has_id(id) && final(self)@.wf(),
    {
        let id = self.next_id;
        self.next_id = self.next_id + 1;
        let ghost before = self.constraints@;
        self.constraints.push(ParametricConstraint {
            id,
            kind,
            refs,
            driving_param,
            enabled: true,
            native_origin: None,
            rigid_points: Vec::new(),
            distance_direction_type: distance_direction_type::UNDIRECTED,
            distance_direction: None,
            angle_sector: angle_sector::PARALLEL_COUNTERCLOCKWISE,
        });
        assert(self.constraints@.drop_last() =~= before);
        id
    }

    /// Removes the constraints with id `id`. Returns whether one was
    /// actually removed.
    pub fn remove(&mut self, id: ConstraintId) -> (removed: bool)
        ensures
            removed == old(self)@.has_id(id),
            final(self)@.constraints == old(self)@.constraints.filter(id_differs(id)),
            final(self)@.next_id == old(self)@.next_id,
            final(self)@.same_caches(old(self)@),
            old(self)@.wf() ==> final(self)@.wf(),
    {
        let ghost cs = self.constraints@;
        let ghost was_wf = self@.wf();
        let mut rest: Vec<ParametricConstraint> = Vec::new();
        std::mem::swap(&mut rest, &mut self.constraints);
        let mut kept: Vec<ParametricConstraint> = Vec::new();
        let mut removed = false;
        let n = rest.len();
        let mut i: usize = 0;
        while i < n
            invariant
                n == cs.len(),
                0 <= i <= n,
                rest@ == cs.skip(i as int),
                kept@ == cs.take(i as int).filter(id_differs(id)),
                removed == exists|k: int| 0 <= k < i && (#[trigger] cs[k]).id == id,
            decreases n - i,
        {
            proof {
                lemma_filter_take_step(cs, id_differs(id), i as int);
            }
            let c = rest.remove(0);
            assert(c == cs[i as int]);
            assert(rest@ =~= cs.skip(i + 1));
            if c.id != id {
                kept.push(c);
            } else {
                removed = true;
            }
            i = i + 1;
        }
        assert(cs.take(n as int) =~= cs);
        self.constraints = kept;
        proof {
            if was_wf {
                lemma_filter_wf(cs, id_differs(id), self.next_id as nat);
            }
        }
        removed
    }

    /// Appends, for every enabled constraint all of whose entities `map`
    /// duplicates, a copy over the duplicates, and adds the entities those
    /// copies reference to `touched`.
    fn duplicate_for(&mut self, map: &FxHashMap<Handle, Handle>, touched: &mut Vec<Handle>)
        requires
            old(self)@.next_id + duplicated_constraints(old(self)@.constraints, map@).len() <= u32::MAX,
            strictly_increasing(old(touched)@),
        ensures
            duplicated_into(old(self)@, final(self)@, map@),
            strictly_increasing(final(touched)@),
            final(touched)@.to_set() == old(touched)@.to_set().union(
                remapped_entities(duplicated_constraints(old(self)@.constraints, map@), map@),
            ),
            old(self)@.wf() ==> final(self)@.wf(),
    {
        let ghost before = self@;
        let ghost f = follows_duplication(map@);
        let ghost q = duplicated_constraints(before.constraints, map@);
        let ghost base = touched@.to_set();
        let mut to_add: Vec<(ConstraintKind, Vec<ParametricRef>, Option<DrivingValue>)> = Vec::new();
        let mut i: usize = 0;
        while i < self.constraints.len()
            invariant
                f == follows_duplication(map@),
                self@ == before,
                0 <= i <= self.constraints.len(),
                to_add@.len() == before.constraints.take(i as int).filter(f).len(),
                forall|k: int| 0 <= k < to_add@.len() ==> {
                    let c = before.constraints.take(i as int).filter(f)[k];
                    &&& (#[trigger] to_add@[k]).0 == c.kind
                    &&& to_add@[k].1@ == remap_refs(c.refs@, map@)
                    &&& to_add@[k].2 == c.driving_param
                },
            decreases self.constraints.len() - i,
        {
            proof {
                lemma_filter_take_step(before.constraints, f, i as int);
            }
            let c = &self.constraints[i];
            assert(*c == before.constraints[i as int]);
            if c.enabled {
                match remap_through(&c.refs, map) {
                    Some(new_refs) => {
                        to_add.push((c.kind, new_refs, clone_driving_param(&c.driving_param)));
                    },
                    None => {},
                }
            }
            i = i + 1;
        }
        assert(before.constraints.take(before.constraints.len() as int) =~= before.constraints);
        let ghost adds = to_add@;
        let n = to_add.len();
        let mut k: usize = 0;
        assert(remapped_entities(q.take(0), map@) =~= Set::<Handle>::empty());
        assert(base.union(Set::<Handle>::empty()) =~= base);
        assert(self@.constraints.take(before.constraints.len() as int) =~= before.constraints);
        while k < n
            invariant
                n == q.len(),
                adds.len() == n,
                forall|k2: int| 0 <= k2 < n ==> {
                    &&& (#[trigger] adds[k2]).0 == q[k2].kind
                    &&& adds[k2].1@ == remap_refs(q[k2].refs@, map@)
                    &&& adds[k2].2 == q[k2].driving_param
                },
                0 <= k <= n,
                to_add@ == adds.skip(k as int),
                before.next_id + n <= u32::MAX,
                self@.same_caches(before),
                self@.next_id == before.next_id + k,
                self@.constraints.len() == before.constraints.len() + k,
                self@.constraints.take(before.constraints.len() as int) == before.constraints,
                forall|k2: int|
                    0 <= k2 < k ==> is_fresh_constraint(
                        #[trigger] self@.constraints[before.constraints.len() + k2],
                        (before.next_id + k2) as u32,
                        q[k2].kind,
                        remap_refs(q[k2].refs@, map@),
                        q[k2].driving_param,
                    ),
                strictly_increasing(touched@),
                touched@.to_set() == base.union(remapped_entities(q.take(k as int), map@)),
                before.wf() ==> self@.wf(),
            decreases n - k,
        {
            let ghost prev = self@;
            let (kind, refs, driving_param) = to_add.remove(0);
            assert(adds[k as int] == (kind, refs, driving_param));
            assert(to_add@ =~= adds.skip(k + 1));
            insert_entities(touched, &refs);
            self.add(kind, refs, driving_param);
            proof {
                assert(q.take(k + 1).drop_last() =~= q.take(k as int));
                assert(q.take(k + 1).last() == q[k as int]);
                assert(touched@.to_set() =~= base.union(remapped_entities(q.take(k + 1), map@)));
                assert forall|k2: int| 0 <= k2 < k + 1 implies is_fresh_constraint(
                    #[trigger] self@.constraints[before.constraints.len() + k2],
                    (before.next_id + k2) as u32,
                    q[k2].kind,
                    remap_refs(q[k2].refs@, map@),
                    q[k2].driving_param,
                ) by {
                    if k2 < k {
                        assert(self@.constraints[before.constraints.len() + k2] == prev.constraints[before.constraints.len() + k2]);
                    }
                }
                assert(self@.constraints.take(before.constraints.len() as int) =~= before.constraints) by {
                    assert forall|j: int| 0 <= j < before.constraints.len() implies self@.constraints[j] == before.constraints[j] by {
                        assert(self@.constraints[j] == prev.constraints[j]);
                        assert(prev.constraints.take(before.constraints.len() as int)[j] == prev.constraints[j]);
                    }
                }
            }
            k = k + 1;
        }
        assert(q.take(n as int) =~= q);
    }

    /// The constraints, in order.
    pub fn constraints(&self) -> (cs: &Vec<ParametricConstraint>)
        ensures
            cs@ == self@.constraints,
    {
        &self.constraints
    }

    /// The id the next added constraint receives.
    pub fn next_constraint_id(&self) -> (id: ConstraintId)
        ensures
            id == self@.next_id,
    {
        self.next_id
    }

    /// Enables or disables the first constraint with id `id`. Returns
    /// whether there is one.
    pub fn set_enabled(&mut self, id: ConstraintId, enabled: bool) -> (found: bool)
        ensures
            found == old(self)@.has_id(id),
            final(self)@.next_id == old(self)@.next_id,
            final(self)@.same_caches(old(self)@),
            final(self)@.constraints.len() == old(self)@.constraints.len(),
            !found ==> final(self)@.constraints == old(self)@.constraints,
            found ==> exists|i: int|
                is_first_with_id(old(self)@.constraints, id, i) && final(self)@.constraints == old(
                    self,
                )@.constraints.update(i, ParametricConstraint { enabled, ..#[trigger] old(self)@.constraints[i] }),
            old(self)@.wf() ==> final(self)@.wf(),
    {
        let mut i: usize = 0;
        while i < self.constraints.len()
            invariant
                self@ == old(self)@,
                0 <= i <= self.constraints.len(),
                forall|k: int| 0 <= k < i ==> (#[trigger] self.constraints@[k]).id != id,
            decreases self.constraints.len() - i,
        {
            if self.constraints[i].id == id {
                let ghost before = self.constraints@;
                let mut c = self.constraints.remove(i);
                c.enabled = enabled;
                self.constraints.insert(i, c);
                assert(self.constraints@ =~= before.update(i as int, c));
                assert(is_first_with_id(before, id, i as int));
                proof {
                    if old(self)@.wf() {
                        assert forall|a: int, b: int| 0 <= a < b < self.constraints@.len() implies #[trigger] self.constraints@[a].id != #[trigger] self.constraints@[b].id by {
                            assert(self.constraints@[a].id == before[a].id);
                            assert(self.constraints@[b].id == before[b].id);
                        }
                        assert forall|a: int| 0 <= a < self.constraints@.len() implies (#[trigger] self.constraints@[a]).id < self.next_id by {
                            assert(self.constraints@[a].id == before[a].id);
                        }
                    }
                }
                return true;
            }
            i = i + 1;
        }
        false
    }

    /// The first constraint with id `id`, if any.
    pub fn get(&self, id: ConstraintId) -> (r: Option<&ParametricConstraint>)
        ensures
            r is None <==> !self@.has_id(id),
            r matches Some(c) ==> exists|i: int|
                is_first_with_id(self@.constraints, id, i) && *c == #[trigger] self@.constraints[i],
    {
        let mut i: usize = 0;
        while i < self.constraints.len()
            invariant
                0 <= i <= self.constraints.len(),
                forall|k: int| 0 <= k < i ==> (#[trigger] self.constraints@[k]).id != id,
            decreases self.constraints.len() - i,
        {
            if self.constraints[i].id == id {
                return Some(&self.constraints[i]);
            }
            i = i + 1;
        }
        None
    }

    /// Every enabled constraint referencing `entity`, in order.
    pub fn constraints_touching(&self, entity: Handle) -> (r: Vec<&ParametricConstraint>)
        ensures
            r@.len() == self@.constraints.filter(enabled_touching(entity)).len(),
            forall|k: int| 0 <= k < r@.len() ==> *r@[k] == #[trigger] self@.constraints.filter(enabled_touching(entity))[k],
    {
        let ghost cs = self.constraints@;
        let mut out: Vec<&ParametricConstraint> = Vec::new();
        let mut i: usize = 0;
        while i < self.constraints.len()
            invariant
                cs == self.constraints@,
                0 <= i <= cs.len(),
                out@.len() == cs.take(i as int).filter(enabled_touching(entity)).len(),
                forall|k: int| 0 <= k < out@.len() ==> *out@[k] == #[trigger] cs.take(i as int).filter(enabled_touching(entity))[k],
            decreases cs.len() - i,
        {
            proof {
                lemma_filter_take_step(cs, enabled_touching(entity), i as int);
            }
            let c = &self.constraints[i];
            if c.enabled && refs_touch(&c.refs, entity) {
                out.push(c);
            }
            i = i + 1;
        }
        assert(cs.take(cs.len() as int) =~= cs);
        out
    }

    /// Drops every constraint that references `entity` and returns the ids
    /// of the removed constraints, in order.
    pub fn remove_all_touching(&mut self, entity: Handle) -> (removed: Vec<ConstraintId>)
        ensures
            final(self)@.constraints == old(self)@.constraints.filter(not_touching(entity)),
            removed@ == old(self)@.constraints.filter(touching(entity)).map_values(|c: ParametricConstraint| c.id),
            final(self)@.next_id == old(self)@.next_id,
            final(self)@.same_caches(old(self)@),
            old(self)@.wf() ==> final(self)@.wf(),
    {
        let ghost cs = self.constraints@;
        let ghost was_wf = self@.wf();
        let mut rest: Vec<ParametricConstraint> = Vec::new();
        std::mem::swap(&mut rest, &mut self.constraints);
        let mut kept: Vec<ParametricConstraint> = Vec::new();
        let mut removed: Vec<ConstraintId> = Vec::new();
        let n = rest.len();
        let mut i: usize = 0;
        while i < n
            invariant
                n == cs.len(),
                0 <= i <= n,
                rest@ == cs.skip(i as int),
                kept@ == cs.take(i as int).filter(not_touching(entity)),
                removed@ == cs.take(i as int).filter(touching(entity)).map_values(|c: ParametricConstraint| c.id),
            decreases n - i,
        {
            proof {
                lemma_filter_take_step(cs, not_touching(entity), i as int);
                lemma_filter_take_step(cs, touching(entity), i as int);
            }
            let c = rest.remove(0);
            assert(c == cs[i as int]);
            assert(rest@ =~= cs.skip(i + 1));
            if refs_touch(&c.refs, entity) {
                removed.push(c.id);
                assert(removed@ =~= cs.take(i + 1).filter(touching(entity)).map_values(|c: ParametricConstraint| c.id));
            } else {
                kept.push(c);
            }
            i = i + 1;
        }
        assert(cs.take(n as int) =~= cs);
        self.constraints = kept;
        proof {
            if was_wf {
                lemma_filter_wf(cs, not_touching(entity), self.next_id as nat);
            }
        }
        removed
    }
}

/// The parametric-constraint state of a scene: one constraint set per
/// scope, and which constraints are hidden from display.
pub struct Scene {
    parametric_constraints: Vec<ParametricConstraintSet>,
    hidden_parametric_constraints: Vec<(ParametricScope, ConstraintId)>,
}

/// The abstract state of a [`Scene`].
pub struct SceneView {
    /// The constraint sets, in the order they were created.
    pub sets: Seq<ConstraintSetView>,
    /// The (scope, id) pairs of the hidden constraints.
    pub hidden: Set<(ParametricScope, ConstraintId)>,
}

impl View for Scene {
    type V = SceneView;

    closed spec fn view(&self) -> SceneView {
        SceneView {
            sets: self.parametric_constraints@.map_values(|s: ParametricConstraintSet| s@),
            hidden: self.hidden_parametric_constraints@.to_set(),
        }
    }
}

impl SceneView {
    /// At most one set per scope, and every set well-formed.
    pub open spec fn wf(self) -> bool {
        &&& forall|i: int, j: int|
            0 <= i < j < self.sets.len() ==> #[trigger] self.sets[i].scope != #[trigger] self.sets[j].scope
        &&& forall|i: int| 0 <= i < self.sets.len() ==> (#[trigger] self.sets[i]).wf()
    }

    /// Some set has scope `scope`.
    pub open spec fn has_scope(self, scope: ParametricScope) -> bool {
        exists|i: int| 0 <= i < self.sets.len() && (#[trigger] self.sets[i]).scope == scope
    }

    /// `i` is the position of the first set with scope `scope`.
    pub open spec fn is_first_with_scope(self, scope: ParametricScope, i: int) -> bool {
        &&& 0 <= i < self.sets.len()
        &&& self.sets[i].scope == scope
        &&& forall|j: int| 0 <= j < i ==> (#[trigger] self.sets[j]).scope != scope
    }

    /// The position of the first set with scope `scope`, if there is one.
    pub open spec fn scope_index(self, scope: ParametricScope) -> int {
        choose|i: int| self.is_first_with_scope(scope, i)
    }

    /// The (scope, id) pair is hidden.
    pub open spec fn is_hidden(self, scope: ParametricScope, id: ConstraintId) -> bool {
        self.hidden.contains((scope, id))
    }
}

/// A scope with some set has a first one.
proof fn lemma_scope_index(v: SceneView, scope: ParametricScope)
    requires
        v.has_scope(scope),
    ensures
        v.is_first_with_scope(scope, v.scope_index(scope)),
{
    let i = choose|i: int| 0 <= i < v.sets.len() && (#[trigger] v.sets[i]).scope == scope;
    assert(exists|m: int| v.is_first_with_scope(scope, m)) by {
        first_with_scope_exists(v, scope, i);
    }
}

/// The first position with a scope is unique.
proof fn lemma_first_scope_unique(v: SceneView, scope: ParametricScope, i: int, j: int)
    requires
        v.is_first_with_scope(scope, i),
        v.is_first_with_scope(scope, j),
    ensures
        i == j,
{
    if i < j {
        assert(v.sets[i].scope == scope);
    } else if j < i {
        assert(v.sets[j].scope == scope);
    }
}

/// Some position is the first with `scope` when position `i` has it.
proof fn first_with_scope_exists(v: SceneView, scope: ParametricScope, i: int)
    requires
        0 <= i < v.sets.len(),
        v.sets[i].scope == scope,
    ensures
        exists|m: int| v.is_first_with_scope(scope, m),
    decreases i,
{
    if forall|j: int| 0 <= j < i ==> (#[trigger] v.sets[j]).scope != scope {
        assert(v.is_first_with_scope(scope, i));
    } else {
        let j = choose|j: int| 0 <= j < i && (#[trigger] v.sets[j]).scope == scope;
        first_with_scope_exists(v, scope, j);
    }
}

/// The handles of an optional slice, as a sequence.
pub open spec fn handles_view(handles: Option<&[Handle]>) -> Option<Seq<Handle>> {
    match handles {
        Some(hs) => Some(hs@),
        None => None,
    }
}

/// A visibility change covers the constraint: it is dimensional exactly
/// when `dimensional` says so, and, when `handles` is given, it references
/// one of them.
pub open spec fn visibility_selects(
    handles: Option<Seq<Handle>>,
    dimensional: bool,
) -> spec_fn(ParametricConstraint) -> bool {
    |c: ParametricConstraint|
        (c.driving_param is Some) == dimensional && match handles {
            Some(hs) => exists|i: int| 0 <= i < c.refs@.len() && hs.contains(#[trigger] c.refs@[i].entity),
            None => true,
        }
}

/// The ids, in order, of the constraints of `scope` that a visibility change
/// covers; empty when the scene has no set for `scope`.
pub open spec fn visibility_targets(
    v: SceneView,
    scope: ParametricScope,
    handles: Option<Seq<Handle>>,
    dimensional: bool,
) -> Seq<ConstraintId> {
    if v.has_scope(scope) {
        v.sets[v.scope_index(scope)].constraints.filter(visibility_selects(handles, dimensional)).map_values(
            |c: ParametricConstraint| c.id,
        )
    } else {
        Seq::empty()
    }
}

/// A constraint of the scope's set is covered by a visibility change exactly
/// when its dimensional class matches and, if handles are given, one of its
/// references (any of them) names one of the handles.
pub proof fn lemma_covered_constraint_is_target(
    v: SceneView,
    scope: ParametricScope,
    handles: Option<Seq<Handle>>,
    dimensional: bool,
    p: int,
    i: int,
)
    requires
        v.is_first_with_scope(scope, p),
        0 <= i < v.sets[p].constraints.len(),
        (v.sets[p].constraints[i].driving_param is Some) == dimensional,
        handles is None || exists|j: int|
            0 <= j < v.sets[p].constraints[i].refs@.len() && handles->0.contains(
                #[trigger] v.sets[p].constraints[i].refs@[j].entity,
            ),
    ensures
        visibility_targets(v, scope, handles, dimensional).contains(v.sets[p].constraints[i].id),
{
    lemma_scope_index(v, scope);
    lemma_first_scope_unique(v, scope, p, v.scope_index(scope));
    let cs = v.sets[p].constraints;
    let sel = visibility_selects(handles, dimensional);
    assert(cs[i] == v.sets[p].constraints[i]);
    assert(sel(cs[i]));
    lemma_filter_elements(cs, sel);
    let f = cs.filter(sel);
    assert(f.contains(cs[i]));
    let m = choose|m: int| 0 <= m < f.len() && f[m] == cs[i];
    let ids = f.map_values(|c: ParametricConstraint| c.id);
    assert(ids[m] == cs[i].id);
    assert(visibility_targets(v, scope, handles, dimensional) == ids);
}

/// Whether `hs` holds `h`.
fn slice_holds(hs: &[Handle], h: Handle) -> (r: bool)
    ensures
        r == hs@.contains(h),
{
    let mut i: usize = 0;
    while i < hs.len()
        invariant
            0 <= i <= hs.len(),
            forall|k: int| 0 <= k < i ==> hs@[k] != h,
        decreases hs.len() - i,
    {
        if hs[i] == h {
            assert(hs@[i as int] == h);
            return true;
        }
        i = i + 1;
    }
    false
}

/// Whether one of `refs` references one of `hs`.
fn refs_touch_any(refs: &Vec<ParametricRef>, hs: &[Handle]) -> (r: bool)
    ensures
        r == exists|i: int| 0 <= i < refs@.len() && hs@.contains(#[trigger] refs@[i].entity),
{
    let mut i: usize = 0;
    while i < refs.len()
        invariant
            0 <= i <= refs.len(),
            forall|k: int| 0 <= k < i ==> !hs@.contains(#[trigger] refs@[k].entity),
        decreases refs.len() - i,
    {
        if slice_holds(hs, refs[i].entity) {
            return true;
        }
        i = i + 1;
    }
    false
}

/// One constraint driven by a named parameter: what
/// [`Scene::parameter_usage`] reports of it.
#[derive(Debug, Clone)]
pub struct ParameterUsage {
    pub scope: ParametricScope,
    pub constraint_id: ConstraintId,
    pub kind: ConstraintKind,
    /// The constraint's referenced entities, each once, in increasing
    /// handle order.
    pub entities: Vec<Handle>,
}

/// The constraint is driven by the named parameter `name`.
pub open spec fn driven_by(name: Seq<char>) -> spec_fn(ParametricConstraint) -> bool {
    |c: ParametricConstraint|
        match c.driving_param {
            Some(DrivingValue::Named(n)) => n@ == name,
            _ => false,
        }
}

/// Every constraint driven by `name`, with its scope, set by set and in
/// order within each set.
pub open spec fn driven_constraints(sets: Seq<ConstraintSetView>, name: Seq<char>) -> Seq<(ParametricScope, ParametricConstraint)>
    decreases sets.len(),
{
    if sets.len() == 0 {
        Seq::empty()
    } else {
        driven_constraints(sets.drop_last(), name) + sets.last().constraints.filter(driven_by(name)).map_values(
            |c: ParametricConstraint| (sets.last().scope, c),
        )
    }
}

/// Every constraint driven by `name`, in any set, is among the driven
/// constraints reported, with its set's scope.
pub proof fn lemma_driven_constraints_complete(sets: Seq<ConstraintSetView>, name: Seq<char>, t: int, i: int)
    requires
        0 <= t < sets.len(),
        0 <= i < sets[t].constraints.len(),
        sets[t].constraints[i].driving_param is Some,
        sets[t].constraints[i].driving_param->0 is Named,
        sets[t].constraints[i].driving_param->0->Named_0@ == name,
    ensures
        exists|k: int|
            0 <= k < driven_constraints(sets, name).len() && #[trigger] driven_constraints(sets, name)[k] == (
                sets[t].scope,
                sets[t].constraints[i],
            ),
    decreases sets.len(),
{
    let prefix = driven_constraints(sets.drop_last(), name);
    let last = sets.last();
    let added = last.constraints.filter(driven_by(name)).map_values(|c: ParametricConstraint| (last.scope, c));
    assert(driven_constraints(sets, name) == prefix + added);
    if t == sets.len() - 1 {
        let c = sets[t].constraints[i];
        assert(driven_by(name)(c));
        lemma_filter_elements(last.constraints, driven_by(name));
        assert(last.constraints[i] == c);
        assert(last.constraints.filter(driven_by(name)).contains(c));
        let m = choose|m: int| 0 <= m < last.constraints.filter(driven_by(name)).len() && last.constraints.filter(driven_by(name))[m] == c;
        assert((prefix + added)[prefix.len() + m] == added[m]);
        assert(driven_constraints(sets, name)[prefix.len() + m] == (sets[t].scope, c));
    } else {
        assert(sets.drop_last()[t] == sets[t]);
        lemma_driven_constraints_complete(sets.drop_last(), name, t, i);
        let k = choose|k: int| 0 <= k < prefix.len() && #[trigger] prefix[k] == (sets[t].scope, sets[t].constraints[i]);
        assert((prefix + added)[k] == prefix[k]);
        assert(driven_constraints(sets, name)[k] == (sets[t].scope, sets[t].constraints[i]));
    }
}

/// Every reported driven constraint is a constraint of some set, driven by
/// `name`, with that set's scope.
pub proof fn lemma_driven_constraints_sound(sets: Seq<ConstraintSetView>, name: Seq<char>, k: int)
    requires
        0 <= k < driven_constraints(sets, name).len(),
    ensures
        exists|t: int, i: int|
            0 <= t < sets.len() && 0 <= i < sets[t].constraints.len() && #[trigger] sets[t].constraints[i]
                == driven_constraints(sets, name)[k].1 && sets[t].scope == driven_constraints(sets, name)[k].0,
        driven_constraints(sets, name)[k].1.driving_param is Some,
        driven_constraints(sets, name)[k].1.driving_param->0 is Named,
        driven_constraints(sets, name)[k].1.driving_param->0->Named_0@ == name,
    decreases sets.len(),
{
    let prefix = driven_constraints(sets.drop_last(), name);
    let last = sets.last();
    let f = last.constraints.filter(driven_by(name));
    let added = f.map_values(|c: ParametricConstraint| (last.scope, c));
    assert(driven_constraints(sets, name) == prefix + added);
    if k < prefix.len() {
        assert((prefix + added)[k] == prefix[k]);
        lemma_driven_constraints_sound(sets.drop_last(), name, k);
        let (t, i) = choose|t: int, i: int|
            0 <= t < sets.drop_last().len() && 0 <= i < sets.drop_last()[t].constraints.len() && #[trigger] sets.drop_last()[t].constraints[i]
                == prefix[k].1 && sets.drop_last()[t].scope == prefix[k].0;
        assert(sets.drop_last()[t] == sets[t]);
        assert(sets[t].constraints[i] == driven_constraints(sets, name)[k].1);
    } else {
        let m = k - prefix.len();
        assert((prefix + added)[k] == added[m]);
        lemma_filter_elements(last.constraints, driven_by(name));
        assert(driven_by(name)(f[m]));
        assert(last.constraints.contains(f[m]));
        let i = choose|i: int| 0 <= i < last.constraints.len() && last.constraints[i] == f[m];
        let t = sets.len() - 1;
        assert(sets[t].constraints[i] == driven_constraints(sets, name)[k].1);
    }
}

/// The entities that `refs` reference.
pub open spec fn ref_entities(refs: Seq<ParametricRef>) -> Set<Handle> {
    refs.map_values(|r: ParametricRef| r.entity).to_set()
}

/// `u` reports the constraint `c` of `scope`.
pub open spec fn reports(u: ParameterUsage, scope: ParametricScope, c: ParametricConstraint) -> bool {
    &&& u.scope == scope
    &&& u.constraint_id == c.id
    &&& u.kind == c.kind
    &&& sorted_listing_of(u.entities@, ref_entities(c.refs@))
}

/// Adds the entities that `refs` reference to the strictly increasing list
/// `ents`, each once.
fn insert_entities(ents: &mut Vec<Handle>, refs: &Vec<ParametricRef>)
    requires
        strictly_increasing(old(ents)@),
    ensures
        strictly_increasing(final(ents)@),
        final(ents)@.to_set() == old(ents)@.to_set().union(ref_entities(refs@)),
{
    let ghost base = ents@.to_set();
    let mut j: usize = 0;
    assert(ref_entities(refs@.take(0)) =~= Set::<Handle>::empty());
    assert(base.union(Set::<Handle>::empty()) =~= base);
    while j < refs.len()
        invariant
            0 <= j <= refs.len(),
            strictly_increasing(ents@),
            ents@.to_set() == base.union(ref_entities(refs@.take(j as int))),
        decreases refs.len() - j,
    {
        insert_sorted_unique(ents, refs[j].entity);
        assert(refs@.take(j + 1).map_values(|r: ParametricRef| r.entity) =~= refs@.take(j as int).map_values(
            |r: ParametricRef| r.entity,
        ).push(refs@[j as int].entity));
        assert(ref_entities(refs@.take(j + 1)) =~= ref_entities(refs@.take(j as int)).insert(refs@[j as int].entity)) by {
            let a = refs@.take(j as int).map_values(|r: ParametricRef| r.entity);
            let b = a.push(refs@[j as int].entity);
            assert forall|x: Handle| b.to_set().contains(x) implies a.to_set().insert(refs@[j as int].entity).contains(x) by {
                let m = choose|m: int| 0 <= m < b.len() && b[m] == x;
                if m < a.len() {
                    assert(a[m] == x);
                }
            }
            assert forall|x: Handle| a.to_set().insert(refs@[j as int].entity).contains(x) implies b.to_set().contains(x) by {
                if x == refs@[j as int].entity {
                    assert(b[a.len() as int] == x);
                } else {
                    let m = choose|m: int| 0 <= m < a.len() && a[m] == x;
                    assert(b[m] == x);
                }
            }
        }
        assert(ents@.to_set() =~= base.union(ref_entities(refs@.take(j + 1))));
        j = j + 1;
    }
    assert(refs@.take(refs.len() as int) =~= refs@);
}

/// The referenced entities of `refs`, each once, in increasing order.
fn sorted_entities(refs: &Vec<ParametricRef>) -> (ents: Vec<Handle>)
    ensures
        sorted_listing_of(ents@, ref_entities(refs@)),
{
    let mut ents: Vec<Handle> = Vec::new();
    insert_entities(&mut ents, refs);
    assert(ents@.to_set() =~= ref_entities(refs@));
    ents
}

/// The constraint follows a duplication of entities: it is enabled and
/// every entity it references was duplicated.
pub open spec fn follows_duplication(m: Map<Handle, Handle>) -> spec_fn(ParametricConstraint) -> bool {
    |c: ParametricConstraint|
        c.enabled && forall|i: int| 0 <= i < c.refs@.len() ==> m.contains_key(#[trigger] c.refs@[i].entity)
}

/// `refs` with every entity replaced by its duplicate, markers kept.
pub open spec fn remap_refs(refs: Seq<ParametricRef>, m: Map<Handle, Handle>) -> Seq<ParametricRef> {
    refs.map_values(|r: ParametricRef| ParametricRef { entity: m[r.entity], marker: r.marker })
}

/// The constraints of `cs` that follow a duplication by `m`.
pub open spec fn duplicated_constraints(cs: Seq<ParametricConstraint>, m: Map<Handle, Handle>) -> Seq<ParametricConstraint> {
    cs.filter(follows_duplication(m))
}

/// The entities referenced by any of `q`'s constraints once remapped by `m`.
pub open spec fn remapped_entities(q: Seq<ParametricConstraint>, m: Map<Handle, Handle>) -> Set<Handle>
    decreases q.len(),
{
    if q.len() == 0 {
        Set::empty()
    } else {
        remapped_entities(q.drop_last(), m).union(ref_entities(remap_refs(q.last().refs@, m)))
    }
}

/// The entities the copies of the constraints of `sets` reference.
pub open spec fn duplicated_entities(sets: Seq<ConstraintSetView>, m: Map<Handle, Handle>) -> Set<Handle>
    decreases sets.len(),
{
    if sets.len() == 0 {
        Set::empty()
    } else {
        duplicated_entities(sets.drop_last(), m).union(
            remapped_entities(duplicated_constraints(sets.last().constraints, m), m),
        )
    }
}

/// `after` is `before` with a copy, over the duplicated entities, of each
/// constraint that follows the duplication appended in order under fresh ids.
pub open spec fn duplicated_into(before: ConstraintSetView, after: ConstraintSetView, m: Map<Handle, Handle>) -> bool {
    let q = duplicated_constraints(before.constraints, m);
    &&& after.same_caches(before)
    &&& after.next_id == before.next_id + q.len()
    &&& after.constraints.len() == before.constraints.len() + q.len()
    &&& after.constraints.take(before.constraints.len() as int) == before.constraints
    &&& forall|k: int|
        0 <= k < q.len() ==> is_fresh_constraint(
            #[trigger] after.constraints[before.constraints.len() + k],
            (before.next_id + k) as u32,
            q[k].kind,
            remap_refs(q[k].refs@, m),
            q[k].driving_param,
        )
}

/// The Fx hasher builder of `rustc_hash`, which `FxHashMap` hashes its keys with.
#[verifier::external_type_specification]
#[verifier::external_body]
pub struct ExFxBuildHasher(rustc_hash::FxBuildHasher);

/// `HashMap::get` on a map from entities to their duplicates, copying the
/// value out.
///
/// `FxHashMap` is std's `HashMap` with the Fx hasher, a deterministic hash
/// of the key; this states that a lookup answers from the map's contents.
#[verifier::external_body]
fn handle_map_get(map: &FxHashMap<Handle, Handle>, key: &Handle) -> (r: Option<Handle>)
    ensures
        match r {
            Some(v) => map@.contains_key(*key) && map@[*key] == v,
            None => !map@.contains_key(*key),
        },
{
    map.get(key).copied()
}

/// A copy of an optional driving value.
fn clone_driving_param(p: &Option<DrivingValue>) -> (r: Option<DrivingValue>)
    ensures
        r == *p,
{
    match p {
        Some(DrivingValue::Literal(bits)) => Some(DrivingValue::Literal(*bits)),
        Some(DrivingValue::Named(name)) => Some(DrivingValue::Named(name.clone())),
        None => None,
    }
}

/// `refs` remapped through `map`, or `None` when one of its entities has no
/// duplicate.
fn remap_through(refs: &Vec<ParametricRef>, map: &FxHashMap<Handle, Handle>) -> (r: Option<Vec<ParametricRef>>)
    ensures
        r is Some <==> forall|i: int| 0 <= i < refs@.len() ==> map@.contains_key(#[trigger] refs@[i].entity),
        r matches Some(v) ==> v@ == remap_refs(refs@, map@),
{
    let mut out: Vec<ParametricRef> = Vec::new();
    let mut i: usize = 0;
    while i < refs.len()
        invariant
            0 <= i <= refs.len(),
            forall|k: int| 0 <= k < i ==> map@.contains_key(#[trigger] refs@[k].entity),
            out@ == remap_refs(refs@.take(i as int), map@),
        decreases refs.len() - i,
    {
        let r = refs[i];
        match handle_map_get(map, &r.entity) {
            Some(dup) => {
                out.push(ParametricRef { entity: dup, marker: r.marker });
                assert(out@ =~= remap_refs(refs@.take(i + 1), map@));
            },
            None => {
                return None;
            },
        }
        i = i + 1;
    }
    assert(refs@.take(refs.len() as int) =~= refs@);
    Some(out)
}

/// `c` already states the relation (`kind`, `refs`): same kind, and the
/// same references, or the same two references in swapped order.
pub open spec fn states_relation(c: ParametricConstraint, kind: ConstraintKind, refs: Seq<ParametricRef>) -> bool {
    &&& c.kind == kind
    &&& (c.refs@ == refs || (c.refs@.len() == 2 && refs.len() == 2 && c.refs@[0] == refs[1] && c.refs@[1] == refs[0]))
}

/// Some constraint of `cs` already states the relation (`kind`, `refs`).
pub open spec fn already_stated(cs: Seq<ParametricConstraint>, kind: ConstraintKind, refs: Seq<ParametricRef>) -> bool {
    exists|i: int| 0 <= i < cs.len() && states_relation(#[trigger] cs[i], kind, refs)
}

/// The constraints that `relations` stand for, in order.
pub open spec fn inferred_candidates(relations: Seq<InferredRelation>, sources: Seq<Handle>) -> Seq<(ConstraintKind, Seq<ParametricRef>)> {
    relations.map_values(|r: InferredRelation| relation_constraint(r, sources))
}

/// The relation is not yet stated by a constraint of `scope` in `v`.
pub open spec fn not_yet_stated(v: SceneView, scope: ParametricScope) -> spec_fn((ConstraintKind, Seq<ParametricRef>)) -> bool {
    |p: (ConstraintKind, Seq<ParametricRef>)|
        !(v.has_scope(scope) && already_stated(v.sets[v.scope_index(scope)].constraints, p.0, p.1))
}

/// The elements of `s` whose flag in `picked` is set, in order.
pub open spec fn picked_from<A>(s: Seq<A>, picked: Seq<bool>) -> Seq<A>
    decreases s.len(),
{
    if s.len() == 0 || picked.len() == 0 {
        Seq::empty()
    } else {
        let rest = picked_from(s.drop_last(), picked.drop_last());
        if picked.last() {
            rest.push(s.last())
        } else {
            rest
        }
    }
}

/// `verdict` is an answer `is_valid` can give about the relation `item`.
pub open spec fn is_answer<F: Fn(ConstraintKind, &Vec<ParametricRef>) -> bool>(
    is_valid: F,
    item: (ConstraintKind, Seq<ParametricRef>),
    verdict: bool,
) -> bool {
    exists|v: Vec<ParametricRef>| v@ == item.1 && #[trigger] call_ensures(is_valid, (item.0, &v), verdict)
}

/// `verdicts` holds, for each relation of `kept`, an answer `is_valid` can
/// give about it.
pub open spec fn are_verdicts_of<F: Fn(ConstraintKind, &Vec<ParametricRef>) -> bool>(
    is_valid: F,
    kept: Seq<(ConstraintKind, Seq<ParametricRef>)>,
    verdicts: Seq<bool>,
) -> bool {
    &&& verdicts.len() == kept.len()
    &&& forall|j: int| 0 <= j < kept.len() ==> #[trigger] is_answer(is_valid, kept[j], verdicts[j])
}

/// One more answer of `is_valid`, about one more relation, extends the
/// verdicts.
proof fn lemma_verdicts_push<F: Fn(ConstraintKind, &Vec<ParametricRef>) -> bool>(
    is_valid: F,
    kept: Seq<(ConstraintKind, Seq<ParametricRef>)>,
    verdicts: Seq<bool>,
    item: (ConstraintKind, Seq<ParametricRef>),
    refs: Vec<ParametricRef>,
    valid: bool,
)
    requires
        are_verdicts_of(is_valid, kept, verdicts),
        refs@ == item.1,
        call_ensures(is_valid, (item.0, &refs), valid),
    ensures
        are_verdicts_of(is_valid, kept.push(item), verdicts.push(valid)),
{
    let next = kept.push(item);
    let vs = verdicts.push(valid);
    assert(is_answer(is_valid, item, valid));
    assert forall|j: int| 0 <= j < next.len() implies #[trigger] is_answer(is_valid, next[j], vs[j]) by {
        if j < kept.len() {
            assert(next[j] == kept[j] && vs[j] == verdicts[j]);
        }
    }
}

/// A relation counts as already stated only through a constraint of its
/// own kind: a constraint of another kind over the same references never
/// suppresses it.
pub proof fn lemma_stated_needs_same_kind(cs: Seq<ParametricConstraint>, kind: ConstraintKind, refs: Seq<ParametricRef>)
    ensures
        already_stated(cs, kind, refs) ==> exists|i: int| 0 <= i < cs.len() && (#[trigger] cs[i]).kind == kind,
        (forall|i: int| 0 <= i < cs.len() ==> (#[trigger] cs[i]).kind != kind) ==> !already_stated(cs, kind, refs),
{
}

/// No constraint of `scope` in `v` has kind `kind`.
pub open spec fn scope_lacks_kind(v: SceneView, scope: ParametricScope, kind: ConstraintKind) -> bool {
    forall|p: int, i: int|
        v.is_first_with_scope(scope, p) && 0 <= i < v.sets[p].constraints.len() ==> (#[trigger] v.sets[p].constraints[i]).kind
            != kind
}

/// Every detected relation of a kind that no constraint of the scope has
/// reaches validation: it is among the relations handed to the validator.
pub proof fn lemma_new_kinds_reach_validation(
    v: SceneView,
    scope: ParametricScope,
    relations: Seq<InferredRelation>,
    sources: Seq<Handle>,
)
    ensures
        forall|j: int|
            0 <= j < relations.len() && scope_lacks_kind(v, scope, #[trigger] inferred_candidates(relations, sources)[j].0)
                ==> inferred_candidates(relations, sources).filter(not_yet_stated(v, scope)).contains(
                inferred_candidates(relations, sources)[j],
            ),
{
    let cands = inferred_candidates(relations, sources);
    let keep = not_yet_stated(v, scope);
    lemma_filter_elements(cands, keep);
    assert forall|j: int|
        0 <= j < relations.len() && scope_lacks_kind(v, scope, #[trigger] cands[j].0) implies cands.filter(keep).contains(
        cands[j],
    ) by {
        if v.has_scope(scope) {
            lemma_scope_index(v, scope);
            let p = v.scope_index(scope);
            let cs = v.sets[p].constraints;
            assert forall|i: int| 0 <= i < cs.len() implies (#[trigger] cs[i]).kind != cands[j].0 by {
                assert(v.sets[p].constraints[i] == cs[i]);
            }
            lemma_stated_needs_same_kind(cs, cands[j].0, cands[j].1);
        }
        assert(keep(cands[j]));
    }
}

/// Every element picked from a sequence is an element of that sequence.
pub proof fn lemma_picked_from_subset<A>(s: Seq<A>, picked: Seq<bool>)
    ensures
        forall|k: int| 0 <= k < picked_from(s, picked).len() ==> s.contains(#[trigger] picked_from(s, picked)[k]),
    decreases s.len(),
{
    if s.len() > 0 && picked.len() > 0 {
        lemma_picked_from_subset(s.drop_last(), picked.drop_last());
        let rest = picked_from(s.drop_last(), picked.drop_last());
        let out = picked_from(s, picked);
        assert forall|k: int| 0 <= k < out.len() implies s.contains(#[trigger] out[k]) by {
            if k < rest.len() {
                assert(out[k] == rest[k]);
                let j = choose|j: int| 0 <= j < s.drop_last().len() && s.drop_last()[j] == rest[k];
                assert(s[j] == out[k]);
            } else {
                assert(s[s.len() - 1] == out[k]);
            }
        }
    }
}

/// The detected constraints with their reference lists as sequences.
pub open spec fn pairs_view(out: Seq<(ConstraintKind, Vec<ParametricRef>)>) -> Seq<(ConstraintKind, Seq<ParametricRef>)> {
    out.map_values(|p: (ConstraintKind, Vec<ParametricRef>)| (p.0, p.1@))
}

/// Whether two reference lists are equal.
fn same_refs(a: &Vec<ParametricRef>, b: &Vec<ParametricRef>) -> (r: bool)
    ensures
        r == (a@ == b@),
{
    if a.len() != b.len() {
        return false;
    }
    let mut i: usize = 0;
    while i < a.len()
        invariant
            a@.len() == b@.len(),
            0 <= i <= a.len(),
            forall|k: int| 0 <= k < i ==> a@[k] == b@[k],
        decreases a.len() - i,
    {
        if a[i] != b[i] {
            return false;
        }
        i = i + 1;
    }
    assert(a@ =~= b@);
    true
}

/// Whether some constraint of `cs` already states (`kind`, `refs`).
fn is_already_stated(cs: &Vec<ParametricConstraint>, kind: ConstraintKind, refs: &Vec<ParametricRef>) -> (r: bool)
    ensures
        r == already_stated(cs@, kind, refs@),
{
    let mut i: usize = 0;
    while i < cs.len()
        invariant
            0 <= i <= cs.len(),
            forall|k: int| 0 <= k < i ==> !states_relation(#[trigger] cs@[k], kind, refs@),
        decreases cs.len() - i,
    {
        let c = &cs[i];
        if c.kind == kind {
            let swapped = c.refs.len() == 2 && refs.len() == 2 && c.refs[0] == refs[1] && c.refs[1] == refs[0];
            if same_refs(&c.refs, refs) || swapped {
                assert(states_relation(cs@[i as int], kind, refs@));
                return true;
            }
        }
        i = i + 1;
    }
    false
}

/// In a well-formed set, the constraint `add` appends carries an id no
/// other constraint carries, so looking that id up finds it.
pub proof fn lemma_added_constraint_is_found(
    before: ConstraintSetView,
    after: ConstraintSetView,
    id: ConstraintId,
    kind: ConstraintKind,
    refs: Seq<ParametricRef>,
    driving_param: Option<DrivingValue>,
)
    requires
        before.wf(),
        id == before.next_id,
        after.constraints.len() == before.constraints.len() + 1,
        after.constraints.drop_last() == before.constraints,
        is_fresh_constraint(after.constraints.last(), id, kind, refs, driving_param),
    ensures
        is_first_with_id(after.constraints, id, before.constraints.len() as int),
{
    assert forall|j: int| 0 <= j < before.constraints.len() implies (#[trigger] after.constraints[j]).id != id by {
        assert(after.constraints[j] == after.constraints.drop_last()[j]);
        assert(before.constraints[j].id < before.next_id);
    }
}

/// The id counter of a set fits in a `u32`.
pub proof fn lemma_next_id_fits(set: ParametricConstraintSet)
    ensures
        set@.next_id <= u32::MAX,
{
}

/// A step of a set's history: `add` moves the id counter up by one; every
/// other operation keeps it.
pub open spec fn counter_step(before: ConstraintSetView, after: ConstraintSetView) -> bool {
    after.next_id == before.next_id || after.next_id == before.next_id + 1
}

/// Over any history of operations on a set, the id counter never goes
/// down, and an id `add` handed out is below the counter ever after, so it
/// is below every id a later `add` hands out: ids strictly increase, and a
/// removed id is never handed out again.
pub proof fn lemma_ids_strictly_increase(history: Seq<ConstraintSetView>)
    requires
        forall|k: int| 0 <= k < history.len() - 1 ==> #[trigger] counter_step(history[k], history[k + 1]),
    ensures
        forall|i: int, j: int| 0 <= i <= j < history.len() ==> #[trigger] history[i].next_id <= #[trigger] history[j].next_id,
        forall|i: int, j: int|
            0 <= i < j < history.len() && history[i + 1].next_id == history[i].next_id + 1 ==> #[trigger] history[i].next_id
                < #[trigger] history[j].next_id,
{
    assert forall|i: int, j: int| 0 <= i <= j < history.len() implies #[trigger] history[i].next_id <= #[trigger] history[j].next_id by {
        lemma_counter_monotone(history, i, j);
    }
    assert forall|i: int, j: int|
        0 <= i < j < history.len() && history[i + 1].next_id == history[i].next_id + 1 implies #[trigger] history[i].next_id
            < #[trigger] history[j].next_id by {
        lemma_counter_monotone(history, i + 1, j);
    }
}

/// The id counter at a later state of a history is at least the counter
/// at an earlier one.
proof fn lemma_counter_monotone(history: Seq<ConstraintSetView>, i: int, j: int)
    requires
        forall|k: int| 0 <= k < history.len() - 1 ==> #[trigger] counter_step(history[k], history[k + 1]),
        0 <= i <= j < history.len(),
    ensures
        history[i].next_id <= history[j].next_id,
    decreases j - i,
{
    if i < j {
        lemma_counter_monotone(history, i, j - 1);
        assert(counter_step(history[j - 1], history[(j - 1) + 1]));
    }
}

/// In a well-formed set, removing the id that `add` just returned gives
/// back the constraints as they were before the `add`.
pub proof fn lemma_remove_undoes_add(
    before: ConstraintSetView,
    after: ConstraintSetView,
    id: ConstraintId,
)
    requires
        before.wf(),
        id == before.next_id,
        after.constraints.len() == before.constraints.len() + 1,
        after.constraints.drop_last() == before.constraints,
        after.constraints.last().id == id,
    ensures
        after.constraints.filter(id_differs(id)) == before.constraints,
{
    reveal(Seq::filter);
    assert(after.constraints.drop_last() == before.constraints);
    assert forall|i: int| 0 <= i < before.constraints.len() implies id_differs(id)(#[trigger] before.constraints[i]) by {
        assert(before.constraints[i].id < before.next_id);
    }
    lemma_filter_all_pass(before.constraints, id_differs(id));
    assert(!id_differs(id)(after.constraints.last()));
}

/// After removing an id, no constraint carries it (so removing it again
/// reports nothing removed), and every constraint with another id is kept.
pub proof fn lemma_remove_drops_only_that_id(cs: Seq<ParametricConstraint>, id: ConstraintId)
    ensures
        forall|i: int| 0 <= i < cs.filter(id_differs(id)).len() ==> (#[trigger] cs.filter(id_differs(id))[i]).id != id,
        forall|i: int| 0 <= i < cs.len() && (#[trigger] cs[i]).id != id ==> cs.filter(id_differs(id)).contains(cs[i]),
{
    lemma_filter_elements(cs, id_differs(id));
    let f = cs.filter(id_differs(id));
    assert forall|i: int| 0 <= i < f.len() implies (#[trigger] f[i]).id != id by {
        assert(id_differs(id)(f[i]));
    }
    assert forall|i: int| 0 <= i < cs.len() && (#[trigger] cs[i]).id != id implies f.contains(cs[i]) by {
        assert(id_differs(id)(cs[i]));
    }
}

/// Removing the constraints touching an entity leaves none that touches it,
/// keeps every other one, and reports exactly the ids of the touching ones.
pub proof fn lemma_remove_all_touching_partitions(cs: Seq<ParametricConstraint>, entity: Handle)
    ensures
        forall|i: int| 0 <= i < cs.filter(not_touching(entity)).len() ==> !touches(#[trigger] cs.filter(not_touching(entity))[i], entity),
        forall|i: int| 0 <= i < cs.len() && !touches(#[trigger] cs[i], entity) ==> cs.filter(not_touching(entity)).contains(cs[i]),
        forall|i: int| 0 <= i < cs.filter(touching(entity)).len() ==> touches(#[trigger] cs.filter(touching(entity))[i], entity),
        forall|i: int| 0 <= i < cs.len() && touches(#[trigger] cs[i], entity) ==> cs.filter(touching(entity)).contains(cs[i]),
{
    lemma_filter_elements(cs, not_touching(entity));
    lemma_filter_elements(cs, touching(entity));
    let kept = cs.filter(not_touching(entity));
    let gone = cs.filter(touching(entity));
    assert forall|i: int| 0 <= i < kept.len() implies !touches(#[trigger] kept[i], entity) by {
        assert(not_touching(entity)(kept[i]));
    }
    assert forall|i: int| 0 <= i < cs.len() && !touches(#[trigger] cs[i], entity) implies kept.contains(cs[i]) by {
        assert(not_touching(entity)(cs[i]));
    }
    assert forall|i: int| 0 <= i < gone.len() implies touches(#[trigger] gone[i], entity) by {
        assert(touching(entity)(gone[i]));
    }
    assert forall|i: int| 0 <= i < cs.len() && touches(#[trigger] cs[i], entity) implies gone.contains(cs[i]) by {
        assert(touching(entity)(cs[i]));
    }
}

/// The constraints touching an entity are exactly the enabled ones that
/// reference it, whatever the marker; a disabled one is never among them.
pub proof fn lemma_touching_query_is_exact(cs: Seq<ParametricConstraint>, entity: Handle)
    ensures
        forall|i: int| 0 <= i < cs.filter(enabled_touching(entity)).len() ==> {
            let c = #[trigger] cs.filter(enabled_touching(entity))[i];
            c.enabled && touches(c, entity)
        },
        forall|i: int| 0 <= i < cs.len() && (#[trigger] cs[i]).enabled && touches(cs[i], entity) ==> cs.filter(
            enabled_touching(entity),
        ).contains(cs[i]),
{
    lemma_filter_elements(cs, enabled_touching(entity));
    let f = cs.filter(enabled_touching(entity));
    assert forall|i: int| 0 <= i < f.len() implies (#[trigger] f[i]).enabled && touches(f[i], entity) by {
        assert(enabled_touching(entity)(f[i]));
    }
    assert forall|i: int| 0 <= i < cs.len() && (#[trigger] cs[i]).enabled && touches(cs[i], entity) implies f.contains(cs[i]) by {
        assert(enabled_touching(entity)(cs[i]));
    }
}

/// Inference never proposes a relation that a constraint of the scope
/// already states, and proposes every other detected relation.
pub proof fn lemma_inferred_are_new(
    v: SceneView,
    scope: ParametricScope,
    relations: Seq<InferredRelation>,
    sources: Seq<Handle>,
)
    ensures
        forall|k: int| 0 <= k < inferred_candidates(relations, sources).filter(not_yet_stated(v, scope)).len() ==> {
            let p = #[trigger] inferred_candidates(relations, sources).filter(not_yet_stated(v, scope))[k];
            !(v.has_scope(scope) && already_stated(v.sets[v.scope_index(scope)].constraints, p.0, p.1))
        },
        forall|k: int| 0 <= k < relations.len() && !(v.has_scope(scope) && already_stated(
            v.sets[v.scope_index(scope)].constraints,
            (#[trigger] inferred_candidates(relations, sources)[k]).0,
            inferred_candidates(relations, sources)[k].1,
        )) ==> inferred_candidates(relations, sources).filter(not_yet_stated(v, scope)).contains(
            inferred_candidates(relations, sources)[k],
        ),
{
    let cands = inferred_candidates(relations, sources);
    let keep = not_yet_stated(v, scope);
    lemma_filter_elements(cands, keep);
    let f = cands.filter(keep);
    assert forall|k: int| 0 <= k < f.len() implies {
        let p = #[trigger] f[k];
        !(v.has_scope(scope) && already_stated(v.sets[v.scope_index(scope)].constraints, p.0, p.1))
    } by {
        assert(keep(f[k]));
    }
    assert forall|k: int| 0 <= k < relations.len() && !(v.has_scope(scope) && already_stated(
        v.sets[v.scope_index(scope)].constraints,
        (#[trigger] cands[k]).0,
        cands[k].1,
    )) implies f.contains(cands[k]) by {
        assert(keep(cands[k]));
    }
}

/// Replacing a set by a well-formed one of the same scope keeps a scene
/// well-formed: editing the set that `parametric_constraint_set_mut`
/// returned, without changing its scope, leaves one set per scope.
pub proof fn lemma_replace_keeps_wf(v: SceneView, i: int, ns: ConstraintSetView)
    requires
        v.wf(),
        0 <= i < v.sets.len(),
        ns.wf(),
        ns.scope == v.sets[i].scope,
    ensures
        (SceneView { sets: v.sets.update(i, ns), hidden: v.hidden }).wf(),
{
    let w = SceneView { sets: v.sets.update(i, ns), hidden: v.hidden };
    assert forall|a: int, b: int| 0 <= a < b < w.sets.len() implies #[trigger] w.sets[a].scope != #[trigger] w.sets[b].scope by {
        assert(w.sets[a].scope == v.sets[a].scope);
        assert(w.sets[b].scope == v.sets[b].scope);
    }
}

/// Appending a well-formed set of a scope not yet present keeps a scene
/// well-formed: the set `parametric_constraint_set_mut` creates for a new
/// scope, edited without changing its scope, leaves one set per scope.
pub proof fn lemma_push_keeps_wf(v: SceneView, ns: ConstraintSetView)
    requires
        v.wf(),
        !v.has_scope(ns.scope),
        ns.wf(),
    ensures
        (SceneView { sets: v.sets.push(ns), hidden: v.hidden }).wf(),
{
    let w = SceneView { sets: v.sets.push(ns), hidden: v.hidden };
    assert forall|a: int, b: int| 0 <= a < b < w.sets.len() implies #[trigger] w.sets[a].scope != #[trigger] w.sets[b].scope by {
        if b == v.sets.len() {
            assert(w.sets[a] == v.sets[a]);
        } else {
            assert(w.sets[a] == v.sets[a] && w.sets[b] == v.sets[b]);
        }
    }
    assert forall|a: int| 0 <= a < w.sets.len() implies (#[trigger] w.sets[a]).wf() by {
        if a < v.sets.len() {
            assert(w.sets[a] == v.sets[a]);
        }
    }
}

impl Scene {
    /// A scene with no constraint set and nothing hidden.
    pub fn new() -> (s: Self)
        ensures
            s@.sets.len() == 0,
            s@.hidden == Set::<(ParametricScope, ConstraintId)>::empty(),
            s@.wf(),
    {
        let s = Scene { parametric_constraints: Vec::new(), hidden_parametric_constraints: Vec::new() };
        assert(s@.hidden =~= Set::<(ParametricScope, ConstraintId)>::empty());
        s
    }

    /// The constraint sets, in the order they were created.
    pub fn constraint_sets(&self) -> (sets: &Vec<ParametricConstraintSet>)
        ensures
            sets@.map_values(|s: ParametricConstraintSet| s@) == self@.sets,
    {
        &self.parametric_constraints
    }

    /// Whether the constraint `id` of `scope` is shown.
    pub fn is_parametric_constraint_visible(&self, scope: ParametricScope, id: ConstraintId) -> (visible: bool)
        ensures
            visible == !self@.is_hidden(scope, id),
    {
        let mut i: usize = 0;
        while i < self.hidden_parametric_constraints.len()
            invariant
                0 <= i <= self.hidden_parametric_constraints.len(),
                forall|k: int| 0 <= k < i ==> #[trigger] self.hidden_parametric_constraints@[k] != (scope, id),
            decreases self.hidden_parametric_constraints.len() - i,
        {
            let entry = self.hidden_parametric_constraints[i];
            if entry.0 == scope && entry.1 == id {
                assert(self.hidden_parametric_constraints@.to_set().contains((scope, id))) by {
                    assert(self.hidden_parametric_constraints@[i as int] == (scope, id));
                }
                return false;
            }
            i = i + 1;
        }
        true
    }

    /// Position of the first set with scope `scope`, if there is one.
    fn scope_position(&self, scope: ParametricScope) -> (r: Option<usize>)
        ensures
            r is None <==> !self@.has_scope(scope),
            r matches Some(i) ==> self@.is_first_with_scope(scope, i as int),
    {
        let mut i: usize = 0;
        while i < self.parametric_constraints.len()
            invariant
                0 <= i <= self.parametric_constraints.len(),
                self@.sets.len() == self.parametric_constraints@.len(),
                forall|k: int| 0 <= k < i ==> (#[trigger] self@.sets[k]).scope != scope,
            decreases self.parametric_constraints.len() - i,
        {
            assert(self@.sets[i as int] == self.parametric_constraints@[i as int]@);
            if self.parametric_constraints[i].scope == scope {
                return Some(i);
            }
            i = i + 1;
        }
        None
    }

    /// The constraint set for `scope`, if one has been created.
    pub fn parametric_constraint_set(&self, scope: ParametricScope) -> (r: Option<&ParametricConstraintSet>)
        ensures
            r is None <==> !self@.has_scope(scope),
            r matches Some(set) ==> exists|i: int|
                self@.is_first_with_scope(scope, i) && set@ == #[trigger] self@.sets[i],
    {
        match self.scope_position(scope) {
            Some(i) => Some(&self.parametric_constraints[i]),
            None => None,
        }
    }

    /// The constraint set for `scope`, creating an empty one on first use.
    /// This is the one way to reach a scope's set for both reading and
    /// mutating, so that no scene ends up with two sets for one scope.
    pub fn parametric_constraint_set_mut(&mut self, scope: ParametricScope) -> (set: &mut ParametricConstraintSet)
        ensures
            old(self)@.has_scope(scope) ==> exists|i: int|
                old(self)@.is_first_with_scope(scope, i)
                && (*set)@ == #[trigger] old(self)@.sets[i]
                && final(self)@.sets == old(self)@.sets.update(i, final(set)@),
            !old(self)@.has_scope(scope) ==> (*set)@.is_empty_for(scope)
                && final(self)@.sets == old(self)@.sets.push(final(set)@),
            final(self)@.hidden == old(self)@.hidden,
    {
        match self.scope_position(scope) {
            Some(i) => {
                &mut self.parametric_constraints[i]
            },
            None => {
                self.parametric_constraints.push(ParametricConstraintSet::new(scope));
                let last = self.parametric_constraints.len() - 1;
                &mut self.parametric_constraints[last]
            },
        }
    }

    /// Hides the (scope, id) pair.
    fn hide_pair(&mut self, scope: ParametricScope, id: ConstraintId)
        ensures
            final(self)@.hidden == old(self)@.hidden.insert((scope, id)),
            final(self)@.sets == old(self)@.sets,
    {
        if self.is_parametric_constraint_visible(scope, id) {
            let ghost before = self.hidden_parametric_constraints@;
            self.hidden_parametric_constraints.push((scope, id));
            assert(self.hidden_parametric_constraints@.to_set() =~= before.to_set().insert((scope, id))) by {
                assert(self.hidden_parametric_constraints@ == before.push((scope, id)));
                assert forall|x| self.hidden_parametric_constraints@.to_set().contains(x) implies before.to_set().insert((scope, id)).contains(x) by {
                    let k = choose|k: int| 0 <= k < self.hidden_parametric_constraints@.len() && self.hidden_parametric_constraints@[k] == x;
                    if k < before.len() {
                        assert(before[k] == x);
                    }
                }
                assert forall|x| before.to_set().insert((scope, id)).contains(x) implies self.hidden_parametric_constraints@.to_set().contains(x) by {
                    if x == (scope, id) {
                        assert(self.hidden_parametric_constraints@[before.len() as int] == x);
                    } else {
                        let k = choose|k: int| 0 <= k < before.len() && before[k] == x;
                        assert(self.hidden_parametric_constraints@[k] == x);
                    }
                }
            }
        } else {
            assert(self@.hidden.insert((scope, id)) =~= self@.hidden);
        }
    }

    /// Shows the (scope, id) pair.
    fn show_pair(&mut self, scope: ParametricScope, id: ConstraintId)
        ensures
            final(self)@.hidden == old(self)@.hidden.remove((scope, id)),
            final(self)@.sets == old(self)@.sets,
    {
        let ghost before = self.hidden_parametric_constraints@;
        let mut kept: Vec<(ParametricScope, ConstraintId)> = Vec::new();
        let mut i: usize = 0;
        while i < self.hidden_parametric_constraints.len()
            invariant
                before == self.hidden_parametric_constraints@,
                0 <= i <= before.len(),
                forall|x| kept@.to_set().contains(x) <==> (x != (scope, id) && exists|k: int| 0 <= k < i && before[k] == x),
            decreases before.len() - i,
        {
            let entry = self.hidden_parametric_constraints[i];
            let ghost prev = kept@;
            if !(entry.0 == scope && entry.1 == id) {
                kept.push(entry);
                assert forall|x| kept@.to_set().contains(x) <==> (x != (scope, id) && exists|k: int| 0 <= k < i + 1 && before[k] == x) by {
                    if kept@.to_set().contains(x) {
                        let m = choose|m: int| 0 <= m < kept@.len() && kept@[m] == x;
                        if m < prev.len() {
                            assert(prev[m] == x);
                            assert(prev.to_set().contains(x));
                        } else {
                            assert(before[i as int] == x);
                        }
                    }
                    if x != (scope, id) && exists|k: int| 0 <= k < i + 1 && before[k] == x {
                        let k = choose|k: int| 0 <= k < i + 1 && before[k] == x;
                        if k < i {
                            assert(prev.to_set().contains(x));
                            let m = choose|m: int| 0 <= m < prev.len() && prev[m] == x;
                            assert(kept@[m] == x);
                        } else {
                            assert(kept@[prev.len() as int] == x);
                        }
                    }
                }
            } else {
                assert forall|x| kept@.to_set().contains(x) <==> (x != (scope, id) && exists|k: int| 0 <= k < i + 1 && before[k] == x) by {
                    if x != (scope, id) && exists|k: int| 0 <= k < i + 1 && before[k] == x {
                        let k = choose|k: int| 0 <= k < i + 1 && before[k] == x;
                        assert(k < i);
                    }
                }
            }
            i = i + 1;
        }
        self.hidden_parametric_constraints = kept;
        assert(self@.hidden =~= before.to_set().remove((scope, id)));
    }

    /// Shows or hides the geometric (`dimensional == false`) or dimensional
    /// constraints of `scope`, all of them or, when `handles` is given, those
    /// referencing one of `handles`. Returns how many constraints it covered.
    pub fn set_parametric_constraint_visibility(
        &mut self,
        scope: ParametricScope,
        handles: Option<&[Handle]>,
        dimensional: bool,
        visible: bool,
    ) -> (count: usize)
        ensures
            count == visibility_targets(old(self)@, scope, handles_view(handles), dimensional).len(),
            final(self)@.sets == old(self)@.sets,
            forall|p: int, i: int|
                old(self)@.is_first_with_scope(scope, p) && 0 <= i < old(self)@.sets[p].constraints.len() && ((
                #[trigger] old(self)@.sets[p].constraints[i]).driving_param is Some) == dimensional && (handles is None
                    || exists|j: int|
                    0 <= j < old(self)@.sets[p].constraints[i].refs@.len() && handles->0@.contains(
                        #[trigger] old(self)@.sets[p].constraints[i].refs@[j].entity,
                    )) ==> final(self)@.is_hidden(scope, old(self)@.sets[p].constraints[i].id) == !visible,
            forall|sc: ParametricScope, id: ConstraintId|
                #[trigger] final(self)@.is_hidden(sc, id) == if sc == scope && visibility_targets(
                    old(self)@,
                    scope,
                    handles_view(handles),
                    dimensional,
                ).contains(id) {
                    !visible
                } else {
                    old(self)@.is_hidden(sc, id)
                },
    {
        let ghost sel = visibility_selects(handles_view(handles), dimensional);
        let ghost targets = visibility_targets(self@, scope, handles_view(handles), dimensional);
        let ghost old_view = self@;
        let mut ids: Vec<ConstraintId> = Vec::new();
        match self.scope_position(scope) {
            Some(p) => {
                proof {
                    lemma_scope_index(self@, scope);
                    lemma_first_scope_unique(self@, scope, p as int, self@.scope_index(scope));
                }
                let constraints = &self.parametric_constraints[p].constraints;
                let ghost cs = constraints@;
                assert(cs == self@.sets[p as int].constraints);
                let mut i: usize = 0;
                while i < constraints.len()
                    invariant
                        sel == visibility_selects(handles_view(handles), dimensional),
                        cs == constraints@,
                        0 <= i <= cs.len(),
                        ids@ == cs.take(i as int).filter(sel).map_values(|c: ParametricConstraint| c.id),
                    decreases cs.len() - i,
                {
                    proof {
                        lemma_filter_take_step(cs, sel, i as int);
                    }
                    let c = &constraints[i];
                    let dimensional_match = c.driving_param.is_some() == dimensional;
                    let covered = match handles {
                        Some(hs) => dimensional_match && refs_touch_any(&c.refs, hs),
                        None => dimensional_match,
                    };
                    assert(sel(cs[i as int]) == covered) by {
                        match handles {
                            Some(hs) => {
                                assert(handles_view(handles) == Some(hs@));
                            },
                            None => {},
                        }
                    }
                    if covered {
                        ids.push(c.id);
                    }
                    assert(ids@ =~= cs.take(i + 1).filter(sel).map_values(|c: ParametricConstraint| c.id));
                    i = i + 1;
                }
                assert(cs.take(cs.len() as int) =~= cs);
            },
            None => {},
        }
        assert(ids@ =~= targets);
        let mut k: usize = 0;
        while k < ids.len()
            invariant
                ids@ == targets,
                0 <= k <= ids.len(),
                self@.sets == old_view.sets,
                forall|sc: ParametricScope, id: ConstraintId|
                    #[trigger] self@.is_hidden(sc, id) == if sc == scope && ids@.take(k as int).contains(id) {
                        !visible
                    } else {
                        old_view.is_hidden(sc, id)
                    },
            decreases ids.len() - k,
        {
            let id = ids[k];
            let ghost prev = self@;
            if visible {
                self.show_pair(scope, id);
            } else {
                self.hide_pair(scope, id);
            }
            assert forall|sc: ParametricScope, i2: ConstraintId|
                #[trigger] self@.is_hidden(sc, i2) == if sc == scope && ids@.take(k + 1).contains(i2) {
                    !visible
                } else {
                    old_view.is_hidden(sc, i2)
                } by {
                assert(prev.is_hidden(sc, i2) == if sc == scope && ids@.take(k as int).contains(i2) {
                    !visible
                } else {
                    old_view.is_hidden(sc, i2)
                });
                assert(ids@.take(k + 1) =~= ids@.take(k as int).push(id));
                if sc == scope && i2 == id {
                    assert(ids@.take(k + 1)[k as int] == id);
                }
            }
            k = k + 1;
        }
        assert(ids@.take(ids.len() as int) =~= ids@);
        proof {
            assert forall|p: int, i: int|
                old_view.is_first_with_scope(scope, p) && 0 <= i < old_view.sets[p].constraints.len() && ((
                #[trigger] old_view.sets[p].constraints[i]).driving_param is Some) == dimensional && (handles is None
                    || exists|j: int|
                    0 <= j < old_view.sets[p].constraints[i].refs@.len() && handles->0@.contains(
                        #[trigger] old_view.sets[p].constraints[i].refs@[j].entity,
                    )) implies self@.is_hidden(scope, old_view.sets[p].constraints[i].id) == !visible by {
                lemma_covered_constraint_is_target(old_view, scope, handles_view(handles), dimensional, p, i);
            }
        }
        ids.len()
    }

    /// Every constraint, in any scope, currently driven by the named
    /// parameter `name`: set by set, in order within each set. Each report
    /// lists the constraint's referenced entities once each.
    pub fn parameter_usage(&self, name: &str) -> (usage: Vec<ParameterUsage>)
        ensures
            forall|t: int, i: int|
                0 <= t < self@.sets.len() && 0 <= i < self@.sets[t].constraints.len()
                    && (#[trigger] self@.sets[t].constraints[i]).driving_param is Some
                    && self@.sets[t].constraints[i].driving_param->0 is Named
                    && self@.sets[t].constraints[i].driving_param->0->Named_0@ == name@ ==> exists|k: int|
                    0 <= k < usage@.len() && (#[trigger] usage@[k]).scope == self@.sets[t].scope && usage@[k].constraint_id
                        == self@.sets[t].constraints[i].id && usage@[k].kind == self@.sets[t].constraints[i].kind,
            forall|k: int| 0 <= k < usage@.len() ==> exists|t: int, i: int|
                0 <= t < self@.sets.len() && 0 <= i < self@.sets[t].constraints.len() && (#[trigger] usage@[k]).scope
                    == self@.sets[t].scope && usage@[k].constraint_id == (#[trigger] self@.sets[t].constraints[i]).id
                    && self@.sets[t].constraints[i].driving_param is Some
                    && self@.sets[t].constraints[i].driving_param->0 is Named
                    && self@.sets[t].constraints[i].driving_param->0->Named_0@ == name@,
            usage@.len() == driven_constraints(self@.sets, name@).len(),
            forall|k: int| 0 <= k < usage@.len() ==> reports(
                #[trigger] usage@[k],
                driven_constraints(self@.sets, name@)[k].0,
                driven_constraints(self@.sets, name@)[k].1,
            ),
    {
        let wanted = name.to_owned();
        let ghost sets = self@.sets;
        let mut out: Vec<ParameterUsage> = Vec::new();
        let mut s: usize = 0;
        while s < self.parametric_constraints.len()
            invariant
                sets == self@.sets,
                wanted@ == name@,
                0 <= s <= sets.len(),
                out@.len() == driven_constraints(sets.take(s as int), name@).len(),
                forall|k: int| 0 <= k < out@.len() ==> reports(
                    #[trigger] out@[k],
                    driven_constraints(sets.take(s as int), name@)[k].0,
                    driven_constraints(sets.take(s as int), name@)[k].1,
                ),
            decreases sets.len() - s,
        {
            let set = &self.parametric_constraints[s];
            let ghost cs = set.constraints@;
            let ghost prefix = driven_constraints(sets.take(s as int), name@);
            let ghost pred = driven_by(name@);
            assert(sets[s as int] == set@);
            assert(sets.take(s + 1).drop_last() =~= sets.take(s as int));
            assert(sets.take(s + 1).last() == sets[s as int]);
            let mut i: usize = 0;
            while i < set.constraints.len()
                invariant
                    pred == driven_by(name@),
                    cs == set.constraints@,
                    wanted@ == name@,
                    0 <= i <= cs.len(),
                    out@.len() == prefix.len() + cs.take(i as int).filter(pred).len(),
                    forall|k: int| 0 <= k < prefix.len() ==> reports(#[trigger] out@[k], prefix[k].0, prefix[k].1),
                    forall|k: int| 0 <= k < cs.take(i as int).filter(pred).len() ==> reports(
                        #[trigger] out@[prefix.len() + k],
                        set.scope,
                        cs.take(i as int).filter(pred)[k],
                    ),
                decreases cs.len() - i,
            {
                proof {
                    lemma_filter_take_step(cs, pred, i as int);
                }
                let c = &set.constraints[i];
                let matches_name = match &c.driving_param {
                    Some(DrivingValue::Named(n)) => *n == wanted,
                    _ => false,
                };
                assert(matches_name == pred(cs[i as int]));
                if matches_name {
                    let entities = sorted_entities(&c.refs);
                    out.push(ParameterUsage { scope: set.scope, constraint_id: c.id, kind: c.kind, entities });
                }
                i = i + 1;
            }
            assert(cs.take(cs.len() as int) =~= cs);
            let ghost added = cs.filter(pred).map_values(|c: ParametricConstraint| (set.scope, c));
            assert(driven_constraints(sets.take(s + 1), name@) == prefix + added);
            assert forall|k: int| 0 <= k < out@.len() implies reports(
                #[trigger] out@[k],
                driven_constraints(sets.take(s + 1), name@)[k].0,
                driven_constraints(sets.take(s + 1), name@)[k].1,
            ) by {
                if k >= prefix.len() {
                    let k2 = k - prefix.len();
                    assert(out@[prefix.len() + k2] == out@[k]);
                    assert(reports(out@[prefix.len() + k2], set.scope, cs.take(cs.len() as int).filter(pred)[k2]));
                    assert((prefix + added)[k] == added[k2]);
                } else {
                    assert((prefix + added)[k] == prefix[k]);
                }
            }
            s = s + 1;
        }
        assert(sets.take(sets.len() as int) =~= sets);
        proof {
            let d = driven_constraints(sets, name@);
            assert forall|t: int, i: int|
                0 <= t < sets.len() && 0 <= i < sets[t].constraints.len()
                    && (#[trigger] sets[t].constraints[i]).driving_param is Some
                    && sets[t].constraints[i].driving_param->0 is Named
                    && sets[t].constraints[i].driving_param->0->Named_0@ == name@ implies exists|k: int|
                    0 <= k < out@.len() && (#[trigger] out@[k]).scope == sets[t].scope && out@[k].constraint_id
                        == sets[t].constraints[i].id && out@[k].kind == sets[t].constraints[i].kind by {
                lemma_driven_constraints_complete(sets, name@, t, i);
                let k = choose|k: int| 0 <= k < d.len() && #[trigger] d[k] == (sets[t].scope, sets[t].constraints[i]);
                assert(reports(out@[k], d[k].0, d[k].1));
            }
            assert forall|k: int| 0 <= k < out@.len() implies exists|t: int, i: int|
                0 <= t < sets.len() && 0 <= i < sets[t].constraints.len() && (#[trigger] out@[k]).scope
                    == sets[t].scope && out@[k].constraint_id == (#[trigger] sets[t].constraints[i]).id
                    && sets[t].constraints[i].driving_param is Some
                    && sets[t].constraints[i].driving_param->0 is Named
                    && sets[t].constraints[i].driving_param->0->Named_0@ == name@ by {
                lemma_driven_constraints_sound(sets, name@, k);
                assert(reports(out@[k], d[k].0, d[k].1));
                let (t, i) = choose|t: int, i: int|
                    0 <= t < sets.len() && 0 <= i < sets[t].constraints.len() && #[trigger] sets[t].constraints[i]
                        == d[k].1 && sets[t].scope == d[k].0;
                assert(sets[t].constraints[i] == d[k].1);
            }
        }
        out
    }

    /// For every enabled constraint whose every referenced entity was
    /// duplicated (`handle_map` maps each original to its copy), adds an
    /// equivalent constraint over the copies to the same scope. A constraint
    /// straddling a duplicated and a non-duplicated entity is not copied.
    /// Returns, each once and in increasing order, the entities the new
    /// constraints reference: the geometry to re-solve. Nothing happens when
    /// `handle_map` is empty.
    pub fn duplicate_parametric_constraints_for(&mut self, handle_map: &FxHashMap<Handle, Handle>) -> (touched: Vec<Handle>)
        requires
            !handle_map@.is_empty() ==> forall|t: int|
                0 <= t < old(self)@.sets.len() ==> (#[trigger] old(self)@.sets[t]).next_id + duplicated_constraints(
                    old(self)@.sets[t].constraints,
                    handle_map@,
                ).len() <= u32::MAX,
        ensures
            final(self)@.hidden == old(self)@.hidden,
            handle_map@.is_empty() ==> final(self)@.sets == old(self)@.sets && touched@.len() == 0,
            !handle_map@.is_empty() ==> {
                &&& final(self)@.sets.len() == old(self)@.sets.len()
                &&& forall|t: int|
                    0 <= t < old(self)@.sets.len() ==> duplicated_into(
                        #[trigger] old(self)@.sets[t],
                        final(self)@.sets[t],
                        handle_map@,
                    )
                &&& sorted_listing_of(touched@, duplicated_entities(old(self)@.sets, handle_map@))
            },
            old(self)@.wf() ==> final(self)@.wf(),
    {
        let mut touched: Vec<Handle> = Vec::new();
        if handle_map.is_empty() {
            return touched;
        }
        let ghost before = self@;
        let ghost m = handle_map@;
        let n = self.parametric_constraints.len();
        let mut s: usize = 0;
        assert(duplicated_entities(before.sets.take(0), m) =~= Set::<Handle>::empty());
        assert(touched@.to_set() =~= Set::<Handle>::empty());
        while s < n
            invariant
                m == handle_map@,
                n == before.sets.len(),
                forall|t: int|
                    0 <= t < before.sets.len() ==> (#[trigger] before.sets[t]).next_id + duplicated_constraints(
                        before.sets[t].constraints,
                        m,
                    ).len() <= u32::MAX,
                0 <= s <= n,
                self@.sets.len() == n,
                self@.hidden == before.hidden,
                forall|t: int| 0 <= t < s ==> duplicated_into(#[trigger] before.sets[t], self@.sets[t], m),
                forall|t: int| s <= t < n ==> #[trigger] self@.sets[t] == before.sets[t],
                forall|t: int| 0 <= t < n && before.sets[t].wf() ==> (#[trigger] self@.sets[t]).wf(),
                strictly_increasing(touched@),
                touched@.to_set() == duplicated_entities(before.sets.take(s as int), m),
            decreases n - s,
        {
            let ghost prev = self@;
            assert(self@.sets[s as int] == self.parametric_constraints@[s as int]@);
            assert(self.parametric_constraints@[s as int]@ == before.sets[s as int]);
            self.parametric_constraints[s].duplicate_for(handle_map, &mut touched);
            proof {
                assert forall|t: int| 0 <= t < n implies #[trigger] self@.sets[t] == (if t == s {
                    self.parametric_constraints@[s as int]@
                } else {
                    prev.sets[t]
                }) by {
                    if t != s {
                        assert(self@.sets[t] == self.parametric_constraints@[t]@);
                        assert(prev.sets[t] == self@.sets[t]);
                    }
                }
                assert(before.sets.take(s + 1).drop_last() =~= before.sets.take(s as int));
                assert(before.sets.take(s + 1).last() == before.sets[s as int]);
                assert(touched@.to_set() =~= duplicated_entities(before.sets.take(s + 1), m));
            }
            s = s + 1;
        }
        assert(before.sets.take(n as int) =~= before.sets);
        proof {
            if before.wf() {
                assert forall|a: int, b: int| 0 <= a < b < self@.sets.len() implies #[trigger] self@.sets[a].scope != #[trigger] self@.sets[b].scope by {
                    assert(duplicated_into(before.sets[a], self@.sets[a], m));
                    assert(duplicated_into(before.sets[b], self@.sets[b], m));
                }
            }
        }
        touched
    }

    /// The constraints standing for `relations`, relations detected between
    /// the examined primitives whose entity handles are `sources`, without
    /// those a constraint of `scope` already states (same kind, and the same
    /// references or the same two references swapped), and without those
    /// `is_valid` rejects. `is_valid` is asked once about each relation not
    /// already stated, in order.
    pub fn inferred_parametric_constraints<F: Fn(ConstraintKind, &Vec<ParametricRef>) -> bool>(
        &self,
        scope: ParametricScope,
        sources: &[Handle],
        relations: &[InferredRelation],
        is_valid: F,
    ) -> (inferred: Vec<(ConstraintKind, Vec<ParametricRef>)>)
        requires
            forall|i: int| 0 <= i < relations@.len() ==> relation_in_bounds(#[trigger] relations@[i], sources@.len()),
            forall|kind: ConstraintKind, refs: &Vec<ParametricRef>| call_requires(is_valid, (kind, refs)),
        ensures
            exists|verdicts: Seq<bool>|
                #[trigger] are_verdicts_of(
                    is_valid,
                    inferred_candidates(relations@, sources@).filter(not_yet_stated(self@, scope)),
                    verdicts,
                ) && pairs_view(inferred@) == picked_from(
                    inferred_candidates(relations@, sources@).filter(not_yet_stated(self@, scope)),
                    verdicts,
                ),
            forall|j: int|
                0 <= j < relations@.len() && scope_lacks_kind(
                    self@,
                    scope,
                    #[trigger] inferred_candidates(relations@, sources@)[j].0,
                ) ==> inferred_candidates(relations@, sources@).filter(not_yet_stated(self@, scope)).contains(
                    inferred_candidates(relations@, sources@)[j],
                ),
    {
        let ghost cands = inferred_candidates(relations@, sources@);
        let ghost keep = not_yet_stated(self@, scope);
        let position = self.scope_position(scope);
        proof {
            if self@.has_scope(scope) {
                lemma_scope_index(self@, scope);
                lemma_first_scope_unique(self@, scope, position->0 as int, self@.scope_index(scope));
            }
        }
        let mut out: Vec<(ConstraintKind, Vec<ParametricRef>)> = Vec::new();
        let ghost mut verdicts: Seq<bool> = Seq::empty();
        let mut i: usize = 0;
        while i < relations.len()
            invariant
                cands == inferred_candidates(relations@, sources@),
                keep == not_yet_stated(self@, scope),
                forall|j: int| 0 <= j < relations@.len() ==> relation_in_bounds(#[trigger] relations@[j], sources@.len()),
                forall|kind: ConstraintKind, refs: &Vec<ParametricRef>| call_requires(is_valid, (kind, refs)),
                position is None <==> !self@.has_scope(scope),
                position matches Some(p) ==> p == self@.scope_index(scope) && p < self.parametric_constraints@.len(),
                0 <= i <= relations.len(),
                are_verdicts_of(is_valid, cands.take(i as int).filter(keep), verdicts),
                pairs_view(out@) == picked_from(cands.take(i as int).filter(keep), verdicts),
            decreases relations.len() - i,
        {
            proof {
                lemma_filter_take_step(cands, keep, i as int);
            }
            let (kind, refs) = relation_to_constraint(&relations[i], sources);
            assert(cands[i as int] == (kind, refs@));
            let stated = match position {
                Some(p) => {
                    assert(self@.sets[p as int] == self.parametric_constraints@[p as int]@);
                    is_already_stated(&self.parametric_constraints[p].constraints, kind, &refs)
                },
                None => false,
            };
            assert(keep(cands[i as int]) == !stated);
            if stated {
                assert(cands.take(i + 1).filter(keep) == cands.take(i as int).filter(keep));
            }
            if !stated {
                let ghost prev = cands.take(i as int).filter(keep);
                let ghost prev_out = out@;
                let valid = is_valid(kind, &refs);
                proof {
                    lemma_verdicts_push(is_valid, prev, verdicts, (kind, refs@), refs, valid);
                    let vs = verdicts.push(valid);
                    assert(prev.push((kind, refs@)).drop_last() =~= prev);
                    assert(vs.drop_last() =~= verdicts);
                    assert(prev.push((kind, refs@)) == cands.take(i + 1).filter(keep));
                    verdicts = vs;
                }
                if valid {
                    out.push((kind, refs));
                    assert(pairs_view(out@) =~= pairs_view(prev_out).push((kind, refs@)));
                } else {
                    assert(pairs_view(out@) =~= pairs_view(prev_out));
                }
            }
            i = i + 1;
        }
        assert(cands.take(cands.len() as int) =~= cands);
        proof {
            lemma_new_kinds_reach_validation(self@, scope, relations@, sources@);
        }
        out
    }
}

} // verus!
