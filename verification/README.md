# parametric_constraints

The parametric (geometric and dimensional) constraints of a CAD scene,
verified with Verus.

- `src/parametric_ref.rs`: the entity points a constraint attaches to, and
  the marker conventions (vertices, centers, polyline segments and segment
  midpoints).
- `src/constraint.rs`: constraint kinds, driving values, one constraint, and
  glyph text.
- `src/parametric_constraints.rs`: per-scope constraint sets, the scene-level
  state (one set per scope, hidden constraints), visibility, duplication
  over copied entities, parameter usage and the filtering of detected
  relations.
- `src/entity_kind.rs`: the entity kinds constraint geometry distinguishes,
  and the glyph-anchor and Smooth-spline case choices made on them.
- `src/inference.rs`: relations detected between primitives and the
  constraints they stand for.
- `src/coincident.rs`, `src/coincident/coincident_tool.rs`,
  `src/command.rs`, `src/modules.rs`: the CCONSTRAINT command and its tool.
- `app/lib.rs`: the host side: document handles, floating-point geometry
  queries over live entities, glyph value rendering, command registration.
