use parametric_constraints::{
    ConstraintKind, DrivingValue, Handle, InferredRelation, ConstraintEndpoint, ParametricConstraintSet,
    ParametricRef, ParametricScope, Scene,
};

fn h(v: u64) -> Handle {
    Handle::new(v)
}

#[test]
fn add_assigns_increasing_ids_and_get_finds_them() {
    let mut set = ParametricConstraintSet::new(ParametricScope::ModelSpace);
    let a = set.add(
        ConstraintKind::Horizontal,
        vec![ParametricRef::whole(h(1))],
        None,
    );
    let b = set.add(
        ConstraintKind::Distance,
        vec![ParametricRef::whole(h(1))],
        Some(DrivingValue::Literal(25.0f64.to_bits())),
    );
    assert_ne!(a, b);
    assert_eq!(set.get(a).unwrap().kind, ConstraintKind::Horizontal);
    assert_eq!(
        set.get(b).unwrap().driving_param,
        Some(DrivingValue::Literal(25.0f64.to_bits()))
    );
}

#[test]
fn remove_drops_only_the_matching_id() {
    let mut set = ParametricConstraintSet::new(ParametricScope::ModelSpace);
    let a = set.add(
        ConstraintKind::Horizontal,
        vec![ParametricRef::whole(h(1))],
        None,
    );
    let b = set.add(
        ConstraintKind::Vertical,
        vec![ParametricRef::whole(h(2))],
        None,
    );
    assert!(set.remove(a));
    assert!(
        !set.remove(a),
        "removing twice should report nothing removed the second time"
    );
    assert!(set.get(a).is_none());
    assert!(set.get(b).is_some());
}

#[test]
fn constraints_touching_finds_entity_regardless_of_marker() {
    let mut set = ParametricConstraintSet::new(ParametricScope::ModelSpace);
    set.add(
        ConstraintKind::Coincident,
        vec![ParametricRef::point(h(1), 0), ParametricRef::point(h(2), 1)],
        None,
    );
    set.add(
        ConstraintKind::Horizontal,
        vec![ParametricRef::whole(h(3))],
        None,
    );

    let touching_1 = set.constraints_touching(h(1));
    assert_eq!(touching_1.len(), 1);
    let touching_3 = set.constraints_touching(h(3));
    assert_eq!(touching_3.len(), 1);
    assert_eq!(set.constraints_touching(h(99)).len(), 0);
}

#[test]
fn constraints_touching_skips_disabled() {
    let mut set = ParametricConstraintSet::new(ParametricScope::ModelSpace);
    let id = set.add(
        ConstraintKind::Horizontal,
        vec![ParametricRef::whole(h(1))],
        None,
    );
    set.constraints
        .iter_mut()
        .find(|c| c.id == id)
        .unwrap()
        .enabled = false;
    assert_eq!(set.constraints_touching(h(1)).len(), 0);
}

#[test]
fn remove_all_touching_drops_every_constraint_referencing_the_entity() {
    let mut set = ParametricConstraintSet::new(ParametricScope::ModelSpace);
    let coincident = set.add(
        ConstraintKind::Coincident,
        vec![ParametricRef::point(h(1), 0), ParametricRef::point(h(2), 1)],
        None,
    );
    let horizontal_other = set.add(
        ConstraintKind::Horizontal,
        vec![ParametricRef::whole(h(3))],
        None,
    );

    let removed = set.remove_all_touching(h(1));
    assert_eq!(removed, vec![coincident]);
    assert!(set.get(coincident).is_none());
    assert!(
        set.get(horizontal_other).is_some(),
        "unrelated entity's constraint must survive"
    );
}

#[test]
fn scope_owner_handle_resolves_block_directly() {
    let block_handle = h(42);
    let scope = ParametricScope::Block(block_handle);
    let doc = acadrust::CadDocument::new();
    let model_space = Handle::new(doc.header.model_space_block_handle.value());
    assert_eq!(scope.owner_handle(model_space), block_handle);
}

#[test]
fn ref_center_constructor_matches_the_dash_three_convention() {
    let r = ParametricRef::center(h(7));
    assert_eq!(
        r,
        ParametricRef {
            entity: h(7),
            marker: Some(-3)
        }
    );
}

#[test]
fn parameter_usage_finds_every_constraint_driven_by_the_named_parameter() {
    let mut scene = Scene::new();
    scene
        .parametric_constraint_set_mut(ParametricScope::ModelSpace)
        .add(
            ConstraintKind::Distance,
            vec![ParametricRef::point(h(1), 0), ParametricRef::point(h(1), 1)],
            Some(DrivingValue::Named("gap".to_string())),
        );
    scene
        .parametric_constraint_set_mut(ParametricScope::ModelSpace)
        .add(
            ConstraintKind::Radius,
            vec![ParametricRef::whole(h(2))],
            Some(DrivingValue::Named("gap".to_string())),
        );
    // Unrelated: a literal-driven constraint and one driven by a
    // different name must not show up.
    scene
        .parametric_constraint_set_mut(ParametricScope::ModelSpace)
        .add(
            ConstraintKind::Radius,
            vec![ParametricRef::whole(h(3))],
            Some(DrivingValue::Literal(5.0f64.to_bits())),
        );
    scene
        .parametric_constraint_set_mut(ParametricScope::ModelSpace)
        .add(
            ConstraintKind::Distance,
            vec![ParametricRef::point(h(4), 0), ParametricRef::point(h(4), 1)],
            Some(DrivingValue::Named("other".to_string())),
        );

    let usage = scene.parameter_usage("gap");
    assert_eq!(
        usage.len(),
        2,
        "exactly the two constraints driven by 'gap', got {usage:?}"
    );
    assert!(usage
        .iter()
        .any(|u| u.kind == ConstraintKind::Distance && u.entities == vec![h(1)]));
    assert!(usage
        .iter()
        .any(|u| u.kind == ConstraintKind::Radius && u.entities == vec![h(2)]));

    assert_eq!(scene.parameter_usage("nonexistent").len(), 0);
}

#[test]
fn parameter_usage_searches_every_scope_not_just_model_space() {
    let mut scene = Scene::new();
    let block = h(99);
    scene
        .parametric_constraint_set_mut(ParametricScope::Block(block))
        .add(
            ConstraintKind::Radius,
            vec![ParametricRef::whole(h(1))],
            Some(DrivingValue::Named("r".to_string())),
        );
    let usage = scene.parameter_usage("r");
    assert_eq!(usage.len(), 1);
    assert_eq!(usage[0].scope, ParametricScope::Block(block));
}

#[test]
fn parameter_usage_deduplicates_an_entity_referenced_by_two_markers() {
    let mut scene = Scene::new();
    // A Distance constraint whose two points are both on the same
    // entity (e.g. a line's own start and end) must list that entity
    // once, not twice.
    scene
        .parametric_constraint_set_mut(ParametricScope::ModelSpace)
        .add(
            ConstraintKind::Distance,
            vec![ParametricRef::point(h(1), 0), ParametricRef::point(h(1), 1)],
            Some(DrivingValue::Named("len".to_string())),
        );
    let usage = scene.parameter_usage("len");
    assert_eq!(usage.len(), 1);
    assert_eq!(usage[0].entities, vec![h(1)]);
}

#[test]
fn automatic_inference_maps_relations_and_skips_existing_constraints() {
    let mut scene = Scene::new();
    // Two horizontal lines, (0,0)-(5,0) and (5,0)-(10,0): the relations
    // detected between them.
    let first = h(1);
    let second = h(2);
    scene
        .parametric_constraint_set_mut(ParametricScope::ModelSpace)
        .add(
            ConstraintKind::Horizontal,
            vec![ParametricRef::whole(first)],
            None,
        );
    let relations = [
        InferredRelation::Coincident {
            first: 0,
            first_endpoint: ConstraintEndpoint::End,
            second: 1,
            second_endpoint: ConstraintEndpoint::Start,
        },
        InferredRelation::Collinear { first: 0, second: 1 },
        InferredRelation::Parallel { first: 0, second: 1 },
        InferredRelation::Horizontal { entity: 0 },
        InferredRelation::Horizontal { entity: 1 },
    ];

    let inferred =
        scene.inferred_parametric_constraints(ParametricScope::ModelSpace, &[first, second], &relations, |_, _| true);

    assert!(!inferred.iter().any(|(kind, refs)| {
        *kind == ConstraintKind::Horizontal && *refs == [ParametricRef::whole(first)]
    }));
    assert!(inferred.iter().any(|(kind, refs)| {
        *kind == ConstraintKind::Horizontal && *refs == [ParametricRef::whole(second)]
    }));
    assert!(inferred
        .iter()
        .any(|(kind, _)| *kind == ConstraintKind::Coincident));
    assert!(inferred
        .iter()
        .any(|(kind, _)| *kind == ConstraintKind::Colinear));
}

#[test]
fn visibility_toggles_geometric_and_dimensional_independently() {
    let mut scene = Scene::new();
    let line = h(1);
    let set = scene.parametric_constraint_set_mut(ParametricScope::ModelSpace);
    let geometric = set.add(
        ConstraintKind::Horizontal,
        vec![ParametricRef::whole(line)],
        None,
    );
    let dimensional = set.add(
        ConstraintKind::Distance,
        vec![ParametricRef::point(line, 0), ParametricRef::point(line, 1)],
        Some(DrivingValue::Literal(5.0f64.to_bits())),
    );

    assert_eq!(
        scene.set_parametric_constraint_visibility(
            ParametricScope::ModelSpace,
            None,
            false,
            false,
        ),
        1
    );
    assert!(!scene.is_parametric_constraint_visible(ParametricScope::ModelSpace, geometric));
    assert!(scene.is_parametric_constraint_visible(ParametricScope::ModelSpace, dimensional));
}
