use std::cell::RefCell;
use parametric_constraints::coincident_tool::tool;
use parametric_constraints::{
    glyph_label, CmdResult, CoincidentConstraintCommand, ConstraintEndpoint, ConstraintKind,
    DrivingValue, Handle, IconKind, InferredRelation, LiteralStyle, ModuleEvent,
    ParametricConstraintSet, ParametricRef, ParametricScope, Scene,
};
use parametric_constraints::parametric_ref::{classify_marker, segment_midpoint_endpoints, MarkerTarget};
use parametric_constraints::entity_kind::{glyph_anchor, smooth_spline_side};
use parametric_constraints::inference::inference_sources;
use parametric_constraints::{EntityKind, GlyphAnchor, SplineSide};
use rustc_hash::FxHashMap;

fn h(v: u64) -> Handle {
    Handle::new(v)
}

#[test]
fn handle_keeps_its_value() {
    assert_eq!(h(17).value(), 17);
}

#[test]
fn segment_reference_round_trips_below_the_range_size() {
    for index in [0usize, 5, 999_999] {
        let r = ParametricRef::segment(h(1), index);
        assert_eq!(r.entity, h(1));
        assert_eq!(r.segment_index(), Some(index));
        assert_eq!(r.segment_midpoint_index(), None);
    }
    assert_eq!(ParametricRef::segment(h(1), 3).marker, Some(-1_000_003));
}

#[test]
fn segment_reference_at_the_range_size_reads_as_a_midpoint() {
    let r = ParametricRef::segment(h(1), 1_000_000);
    assert_eq!(r.marker, Some(-2_000_000));
    assert_eq!(r.segment_index(), None);
    assert_eq!(r.segment_midpoint_index(), Some(0));
}

#[test]
fn segment_midpoint_reference_round_trips() {
    for index in [0usize, 7, 1_000_000, 2_145_483_648] {
        let r = ParametricRef::segment_midpoint(h(2), index);
        assert_eq!(r.entity, h(2));
        assert_eq!(r.segment_midpoint_index(), Some(index));
        assert_eq!(r.segment_index(), None);
    }
    assert_eq!(ParametricRef::segment_midpoint(h(2), 3).marker, Some(-2_000_003));
}

#[test]
fn plain_references_address_no_segment() {
    for r in [
        ParametricRef::whole(h(3)),
        ParametricRef::center(h(3)),
        ParametricRef::point(h(3), 0),
        ParametricRef::point(h(3), 1),
    ] {
        assert_eq!(r.segment_index(), None);
        assert_eq!(r.segment_midpoint_index(), None);
    }
    assert_eq!(ParametricRef::whole(h(3)).marker, None);
    assert_eq!(ParametricRef::point(h(3), 4).marker, Some(4));
}

#[test]
fn owner_handle_of_model_space_is_the_model_space_block() {
    assert_eq!(ParametricScope::ModelSpace.owner_handle(h(31)), h(31));
}

#[test]
fn glyph_symbols_match_the_ribbon() {
    assert_eq!(ConstraintKind::Coincident.glyph_symbol(), "≡");
    assert_eq!(ConstraintKind::Angle3Point.glyph_symbol(), "∠₃");
    assert_eq!(ConstraintKind::DistanceY.glyph_symbol(), "↔ᵧ");
    assert_eq!(ConstraintKind::RigidSet.glyph_symbol(), "▣");
    assert_eq!(ConstraintKind::Angle.literal_style(), LiteralStyle::Degrees);
    assert_eq!(ConstraintKind::Distance.literal_style(), LiteralStyle::Plain);
}

#[test]
fn glyph_label_shows_symbol_and_driving_value() {
    let mut set = ParametricConstraintSet::new(ParametricScope::ModelSpace);
    let plain = set.add(ConstraintKind::Horizontal, vec![ParametricRef::whole(h(1))], None);
    let named = set.add(
        ConstraintKind::Distance,
        vec![ParametricRef::whole(h(1))],
        Some(DrivingValue::Named("gap".to_string())),
    );
    let literal = set.add(
        ConstraintKind::Angle,
        vec![ParametricRef::whole(h(1))],
        Some(DrivingValue::Literal(30.0f64.to_bits())),
    );
    assert_eq!(glyph_label(set.get(plain).unwrap(), "unused"), "—");
    assert_eq!(glyph_label(set.get(named).unwrap(), "unused"), "↔ gap");
    assert_eq!(glyph_label(set.get(literal).unwrap(), "30.0°"), "∠ 30.0°");
}

#[test]
fn coincident_tool_starts_the_command() {
    let t = tool();
    assert_eq!(t.id, "CCONSTRAINT");
    assert_eq!(t.label, "Coincident");
    assert_eq!(t.icon, IconKind::Svg("constrain/coincident.svg"));
    assert_eq!(t.event, ModuleEvent::Command("CCONSTRAINT".to_string()));
}

#[test]
fn coincident_command_pairs_the_first_point_with_each_later_one() {
    let mut cmd: CoincidentConstraintCommand<(i64, i64)> = CoincidentConstraintCommand::new();
    assert_eq!(cmd.name(), "CCONSTRAINT");
    assert_eq!(cmd.prompt(), "COINCIDENT  Specify first point:");
    assert_eq!(cmd.on_point((1, 2)), CmdResult::NeedPoint);
    assert_eq!(cmd.prompt(), "COINCIDENT  Specify second point:");
    assert_eq!(
        cmd.on_point((3, 4)),
        CmdResult::AddCoincidentConstraint {
            point_a: (1, 2),
            point_b: (3, 4),
            label: "Coincident constraint"
        }
    );
    assert_eq!(
        cmd.on_point((5, 6)),
        CmdResult::AddCoincidentConstraint {
            point_a: (1, 2),
            point_b: (5, 6),
            label: "Coincident constraint"
        }
    );
    assert_eq!(cmd.on_enter(), CmdResult::Cancel);
    assert_eq!(cmd.on_escape(), CmdResult::Cancel);
}

#[test]
fn ids_are_never_reused_after_removal() {
    let mut set = ParametricConstraintSet::new(ParametricScope::ModelSpace);
    let a = set.add(ConstraintKind::Fixed, vec![ParametricRef::whole(h(1))], None);
    assert_eq!(a, 0);
    assert!(set.remove(a));
    let b = set.add(ConstraintKind::Fixed, vec![ParametricRef::whole(h(1))], None);
    assert_eq!(b, 1);
    assert!(set.get(a).is_none());
    let added = set.get(b).unwrap();
    assert!(added.enabled);
    assert_eq!(added.refs, vec![ParametricRef::whole(h(1))]);
}

#[test]
fn remove_all_touching_ignores_the_enabled_flag_and_keeps_order() {
    let mut set = ParametricConstraintSet::new(ParametricScope::ModelSpace);
    let first = set.add(ConstraintKind::Fixed, vec![ParametricRef::whole(h(1))], None);
    let other = set.add(ConstraintKind::Fixed, vec![ParametricRef::whole(h(2))], None);
    let last = set.add(
        ConstraintKind::Coincident,
        vec![ParametricRef::point(h(2), 0), ParametricRef::point(h(1), 1)],
        None,
    );
    set.constraints[0].enabled = false;
    assert_eq!(set.remove_all_touching(h(1)), vec![first, last]);
    assert_eq!(set.constraints.len(), 1);
    assert_eq!(set.constraints[0].id, other);
    assert!(set.remove_all_touching(h(1)).is_empty());
}

#[test]
fn constraint_set_for_a_scope_is_created_once() {
    let mut scene = Scene::new();
    let block = ParametricScope::Block(h(9));
    assert!(scene.parametric_constraint_set(block).is_none());
    scene
        .parametric_constraint_set_mut(block)
        .add(ConstraintKind::Fixed, vec![ParametricRef::whole(h(1))], None);
    scene
        .parametric_constraint_set_mut(block)
        .add(ConstraintKind::Fixed, vec![ParametricRef::whole(h(2))], None);
    let set = scene.parametric_constraint_set(block).unwrap();
    assert_eq!(set.scope, block);
    assert_eq!(set.constraints.len(), 2);
    assert!(scene
        .parametric_constraint_set(ParametricScope::ModelSpace)
        .is_none());
}

#[test]
fn visibility_by_handles_covers_only_constraints_on_those_entities() {
    let mut scene = Scene::new();
    let set = scene.parametric_constraint_set_mut(ParametricScope::ModelSpace);
    let on_one = set.add(ConstraintKind::Horizontal, vec![ParametricRef::whole(h(1))], None);
    let on_two = set.add(ConstraintKind::Vertical, vec![ParametricRef::whole(h(2))], None);
    let handles = [h(2)];
    assert_eq!(
        scene.set_parametric_constraint_visibility(ParametricScope::ModelSpace, Some(&handles), false, false),
        1
    );
    assert!(scene.is_parametric_constraint_visible(ParametricScope::ModelSpace, on_one));
    assert!(!scene.is_parametric_constraint_visible(ParametricScope::ModelSpace, on_two));
    // Hiding again changes nothing; the same id in another scope stays visible.
    assert_eq!(
        scene.set_parametric_constraint_visibility(ParametricScope::ModelSpace, Some(&handles), false, false),
        1
    );
    assert!(scene.is_parametric_constraint_visible(ParametricScope::Block(h(5)), on_two));
    assert_eq!(
        scene.set_parametric_constraint_visibility(ParametricScope::ModelSpace, None, false, true),
        2
    );
    assert!(scene.is_parametric_constraint_visible(ParametricScope::ModelSpace, on_two));
    assert_eq!(
        scene.set_parametric_constraint_visibility(ParametricScope::Block(h(5)), None, false, false),
        0
    );
}

#[test]
fn duplication_copies_only_fully_duplicated_enabled_constraints() {
    let mut scene = Scene::new();
    let set = scene.parametric_constraint_set_mut(ParametricScope::ModelSpace);
    let both = set.add(
        ConstraintKind::Coincident,
        vec![ParametricRef::point(h(1), 0), ParametricRef::point(h(2), 1)],
        None,
    );
    set.add(ConstraintKind::Parallel, vec![ParametricRef::whole(h(1)), ParametricRef::whole(h(3))], None);
    let disabled = set.add(ConstraintKind::Fixed, vec![ParametricRef::whole(h(2))], None);
    set.constraints[2].enabled = false;
    scene
        .parametric_constraint_set_mut(ParametricScope::Block(h(50)))
        .add(
            ConstraintKind::Radius,
            vec![ParametricRef::whole(h(2))],
            Some(DrivingValue::Named("r".to_string())),
        );

    let mut map: FxHashMap<Handle, Handle> = FxHashMap::default();
    map.insert(h(1), h(11));
    map.insert(h(2), h(12));
    let touched = scene.duplicate_parametric_constraints_for(&map);
    assert_eq!(touched, vec![h(11), h(12)]);

    let model = scene.parametric_constraint_set(ParametricScope::ModelSpace).unwrap();
    assert_eq!(model.constraints.len(), 4);
    let copy = &model.constraints[3];
    assert_eq!(copy.id, 3);
    assert_eq!(copy.kind, ConstraintKind::Coincident);
    assert_eq!(copy.refs, vec![ParametricRef::point(h(11), 0), ParametricRef::point(h(12), 1)]);
    assert_ne!(copy.id, both);
    assert_ne!(copy.id, disabled);

    let block = scene.parametric_constraint_set(ParametricScope::Block(h(50))).unwrap();
    assert_eq!(block.constraints.len(), 2);
    assert_eq!(block.constraints[1].refs, vec![ParametricRef::whole(h(12))]);
    assert_eq!(block.constraints[1].driving_param, Some(DrivingValue::Named("r".to_string())));
}

#[test]
fn duplication_with_an_empty_map_does_nothing() {
    let mut scene = Scene::new();
    scene
        .parametric_constraint_set_mut(ParametricScope::ModelSpace)
        .add(ConstraintKind::RigidSet, vec![], None);
    let map: FxHashMap<Handle, Handle> = FxHashMap::default();
    assert!(scene.duplicate_parametric_constraints_for(&map).is_empty());
    let model = scene.parametric_constraint_set(ParametricScope::ModelSpace).unwrap();
    assert_eq!(model.constraints.len(), 1);
}

#[test]
fn inference_skips_a_stated_pair_in_either_order() {
    let mut scene = Scene::new();
    scene
        .parametric_constraint_set_mut(ParametricScope::ModelSpace)
        .add(
            ConstraintKind::Coincident,
            vec![ParametricRef::point(h(2), 0), ParametricRef::point(h(1), 1)],
            None,
        );
    let relations = [
        InferredRelation::Coincident {
            first: 0,
            first_endpoint: ConstraintEndpoint::End,
            second: 1,
            second_endpoint: ConstraintEndpoint::Start,
        },
        InferredRelation::Concentric { first: 0, second: 1 },
        InferredRelation::Tangent { first: 1, second: 0 },
        InferredRelation::Vertical { entity: 1 },
    ];
    let inferred =
        scene.inferred_parametric_constraints(ParametricScope::ModelSpace, &[h(1), h(2)], &relations, |_, _| true);
    assert_eq!(
        inferred,
        vec![
            (ConstraintKind::Concentric, vec![ParametricRef::center(h(1)), ParametricRef::center(h(2))]),
            (ConstraintKind::Tangent, vec![ParametricRef::whole(h(2)), ParametricRef::whole(h(1))]),
            (ConstraintKind::Vertical, vec![ParametricRef::whole(h(2))]),
        ]
    );
    // In a scope without constraints every relation is proposed.
    let fresh = scene.inferred_parametric_constraints(ParametricScope::Block(h(7)), &[h(1), h(2)], &relations, |_, _| true);
    assert_eq!(fresh.len(), 4);
    assert_eq!(
        fresh[0],
        (ConstraintKind::Coincident, vec![ParametricRef::point(h(1), 1), ParametricRef::point(h(2), 0)])
    );
}

#[test]
fn parameter_usage_lists_entities_sorted_and_once() {
    let mut scene = Scene::new();
    let id = scene
        .parametric_constraint_set_mut(ParametricScope::ModelSpace)
        .add(
            ConstraintKind::EqualDistance,
            vec![
                ParametricRef::point(h(5), 0),
                ParametricRef::point(h(2), 0),
                ParametricRef::point(h(5), 1),
                ParametricRef::point(h(3), 0),
            ],
            Some(DrivingValue::Named("d".to_string())),
        );
    let usage = scene.parameter_usage("d");
    assert_eq!(usage.len(), 1);
    assert_eq!(usage[0].constraint_id, id);
    assert_eq!(usage[0].kind, ConstraintKind::EqualDistance);
    assert_eq!(usage[0].entities, vec![h(2), h(3), h(5)]);
}


#[test]
fn removing_the_added_id_restores_the_constraints() {
    let mut set = ParametricConstraintSet::new(ParametricScope::ModelSpace);
    set.add(ConstraintKind::Horizontal, vec![ParametricRef::whole(h(1))], None);
    let before = set.constraints.clone();
    let id = set.add(ConstraintKind::Vertical, vec![ParametricRef::whole(h(2))], None);
    assert!(set.remove(id));
    assert_eq!(set.constraints, before);
}

#[test]
fn constraints_touching_keeps_the_set_order() {
    let mut set = ParametricConstraintSet::new(ParametricScope::ModelSpace);
    let a = set.add(ConstraintKind::Fixed, vec![ParametricRef::whole(h(4))], None);
    set.add(ConstraintKind::Fixed, vec![ParametricRef::whole(h(5))], None);
    let c = set.add(ConstraintKind::Midpoint, vec![ParametricRef::point(h(6), 0), ParametricRef::whole(h(4))], None);
    let ids: Vec<u32> = set.constraints_touching(h(4)).iter().map(|c| c.id).collect();
    assert_eq!(ids, vec![a, c]);
}

#[test]
fn markers_classify_by_the_point_they_address() {
    assert_eq!(classify_marker(-3), MarkerTarget::Center);
    assert_eq!(classify_marker(-2), MarkerTarget::CurveMidpoint);
    assert_eq!(classify_marker(-1), MarkerTarget::Unresolvable);
    assert_eq!(classify_marker(-1_000_004), MarkerTarget::Unresolvable);
    assert_eq!(classify_marker(-2_000_004), MarkerTarget::SegmentMidpoint(4));
    assert_eq!(classify_marker(0), MarkerTarget::Vertex(0));
    assert_eq!(classify_marker(7), MarkerTarget::Vertex(7));
}

#[test]
fn inference_drops_what_the_validator_rejects() {
    let scene = Scene::new();
    let relations = [
        InferredRelation::Horizontal { entity: 0 },
        InferredRelation::Vertical { entity: 1 },
        InferredRelation::Parallel { first: 0, second: 1 },
    ];
    let mut asked = RefCell::new(Vec::new());
    let inferred = scene.inferred_parametric_constraints(
        ParametricScope::ModelSpace,
        &[h(1), h(2)],
        &relations,
        |kind, refs: &Vec<ParametricRef>| {
            asked.borrow_mut().push(kind);
            !(kind == ConstraintKind::Vertical && refs.len() == 1)
        },
    );
    assert_eq!(
        asked.get_mut().clone(),
        vec![ConstraintKind::Horizontal, ConstraintKind::Vertical, ConstraintKind::Parallel]
    );
    assert_eq!(
        inferred,
        vec![
            (ConstraintKind::Horizontal, vec![ParametricRef::whole(h(1))]),
            (ConstraintKind::Parallel, vec![ParametricRef::whole(h(1)), ParametricRef::whole(h(2))]),
        ]
    );
}

#[test]
fn literal_driving_values_compare_as_numbers() {
    let zero = DrivingValue::Literal(0.0f64.to_bits());
    let negative_zero = DrivingValue::Literal((-0.0f64).to_bits());
    let nan = DrivingValue::Literal(f64::NAN.to_bits());
    assert_eq!(zero, negative_zero);
    assert_ne!(nan, nan.clone());
    assert_ne!(DrivingValue::Literal(1.0f64.to_bits()), DrivingValue::Literal(2.0f64.to_bits()));
    assert_eq!(DrivingValue::Literal(2.5f64.to_bits()), DrivingValue::Literal(2.5f64.to_bits()));
    assert_ne!(DrivingValue::Literal(0.0f64.to_bits()), DrivingValue::Named("0".to_string()));
    assert_eq!(DrivingValue::Named("r".to_string()), DrivingValue::Named("r".to_string()));
}

#[test]
fn set_enabled_switches_one_constraint() {
    let mut set = ParametricConstraintSet::new(ParametricScope::ModelSpace);
    let a = set.add(ConstraintKind::Fixed, vec![ParametricRef::whole(h(1))], None);
    let b = set.add(ConstraintKind::Fixed, vec![ParametricRef::whole(h(1))], None);
    assert_eq!(set.next_constraint_id(), 2);
    assert!(set.set_enabled(a, false));
    assert!(!set.set_enabled(99, false));
    assert_eq!(set.constraints().len(), 2);
    let touching: Vec<u32> = set.constraints_touching(h(1)).iter().map(|c| c.id).collect();
    assert_eq!(touching, vec![b]);
    assert!(set.set_enabled(a, true));
    assert_eq!(set.constraints_touching(h(1)).len(), 2);
}

#[test]
fn coincident_command_defaults_to_no_point() {
    let mut cmd: CoincidentConstraintCommand<(i64, i64)> = Default::default();
    assert_eq!(cmd.prompt(), "COINCIDENT  Specify first point:");
    assert_eq!(cmd.on_point((0, 0)), CmdResult::NeedPoint);
}

#[test]
fn segment_endpoints_wrap_only_on_closed_polylines() {
    assert_eq!(segment_midpoint_endpoints(0, 3, false), Some((0, 1)));
    assert_eq!(segment_midpoint_endpoints(1, 3, false), Some((1, 2)));
    assert_eq!(segment_midpoint_endpoints(2, 3, false), None);
    assert_eq!(segment_midpoint_endpoints(2, 3, true), Some((2, 0)));
    assert_eq!(segment_midpoint_endpoints(3, 3, true), None);
    assert_eq!(segment_midpoint_endpoints(0, 0, true), None);
}

#[test]
fn scene_lists_its_sets_in_creation_order() {
    let mut scene = Scene::new();
    scene.parametric_constraint_set_mut(ParametricScope::Block(h(3)));
    scene.parametric_constraint_set_mut(ParametricScope::ModelSpace);
    scene.parametric_constraint_set_mut(ParametricScope::Block(h(3)));
    let scopes: Vec<ParametricScope> = scene.constraint_sets().iter().map(|s| s.scope).collect();
    assert_eq!(scopes, vec![ParametricScope::Block(h(3)), ParametricScope::ModelSpace]);
}

#[test]
fn glyph_anchor_follows_entity_kind_and_marker() {
    assert_eq!(glyph_anchor(EntityKind::Line, None), GlyphAnchor::LineMidpoint);
    assert_eq!(glyph_anchor(EntityKind::Line, Some(0)), GlyphAnchor::LinePoint(0));
    assert_eq!(glyph_anchor(EntityKind::Circle, None), GlyphAnchor::CircleRim);
    assert_eq!(glyph_anchor(EntityKind::Circle, Some(-3)), GlyphAnchor::CircleRim);
    assert_eq!(glyph_anchor(EntityKind::Circle, Some(1)), GlyphAnchor::OtherPoint(1));
    assert_eq!(glyph_anchor(EntityKind::Arc, Some(-3)), GlyphAnchor::ArcMidpoint);
    assert_eq!(glyph_anchor(EntityKind::Arc, Some(0)), GlyphAnchor::ArcPoint(0));
    assert_eq!(glyph_anchor(EntityKind::Other, Some(-2)), GlyphAnchor::OtherPoint(-2));
    assert_eq!(glyph_anchor(EntityKind::Other, None), GlyphAnchor::Nowhere);
}

#[test]
fn smooth_picks_the_open_spline() {
    let open = EntityKind::Spline { closed: false, periodic: false };
    let closed = EntityKind::Spline { closed: true, periodic: false };
    assert_eq!(smooth_spline_side(open, EntityKind::Line), Some(SplineSide::First));
    assert_eq!(smooth_spline_side(EntityKind::Arc, open), Some(SplineSide::Second));
    assert_eq!(smooth_spline_side(open, open), Some(SplineSide::First));
    assert_eq!(smooth_spline_side(closed, open), None);
    assert_eq!(smooth_spline_side(EntityKind::Line, EntityKind::Circle), None);
    assert_eq!(
        smooth_spline_side(EntityKind::Line, EntityKind::Spline { closed: false, periodic: true }),
        None
    );
}

#[test]
fn inference_examines_lines_circles_and_arcs_in_order() {
    let selected = [
        (h(1), EntityKind::Circle),
        (h(2), EntityKind::Other),
        (h(3), EntityKind::Line),
        (h(4), EntityKind::Spline { closed: false, periodic: false }),
        (h(5), EntityKind::Arc),
    ];
    assert_eq!(inference_sources(&selected), vec![h(1), h(3), h(5)]);
}
