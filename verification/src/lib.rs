//! Parametric (geometric and dimensional) constraints of a CAD scene:
//! the references a constraint attaches to, per-scope constraint sets,
//! and the scene-level bookkeeping over them, together with the
//! Coincident constraint command and its ribbon tool.

pub mod angle_sector;
pub mod coincident;
pub mod command;
pub mod constraint;
pub mod distance_direction_type;
pub mod entity_kind;
pub mod handle;
pub mod inference;
pub mod modules;
pub mod parametric_constraints;
pub mod parametric_ref;
mod seq_util;

pub use coincident::coincident_tool;
pub use coincident::CoincidentConstraintCommand;
pub use command::CmdResult;
pub use constraint::{
    glyph_label, ConstraintId, ConstraintKind, DrivingValue, LiteralStyle, NativeConstraintOrigin,
    ParametricConstraint, RedundancyKind,
};
pub use entity_kind::{EntityKind, GlyphAnchor, SplineSide};
pub use handle::Handle;
pub use inference::{ConstraintEndpoint, InferredRelation};
pub use modules::{IconKind, ModuleEvent, ToolDef};
pub use parametric_constraints::{
    ParameterUsage, ParametricConstraintSet, ParametricScope, Scene,
};
pub use parametric_ref::ParametricRef;
