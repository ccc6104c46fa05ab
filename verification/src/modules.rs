//! Ribbon tools and the events they raise.
use vstd::prelude::*;

verus! {

/// The icon a tool shows.
#[derive(Debug, Clone, Copy, PartialEq, Eq)]
pub enum IconKind {
    /// An SVG icon, by the path of its asset under the icon directory.
    Svg(&'static str),
}

/// What activating a tool raises.
#[derive(Debug, Clone, PartialEq, Eq)]
pub enum ModuleEvent {
    /// Start the command with this name.
    Command(String),
}

/// A ribbon tool: its id, its label, its icon and the event it raises.
#[derive(Debug, Clone, PartialEq, Eq)]
pub struct ToolDef {
    pub id: &'static str,
    pub label: &'static str,
    pub icon: IconKind,
    pub event: ModuleEvent,
}

} // verus!
