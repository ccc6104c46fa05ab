//! The ribbon tool that starts CCONSTRAINT.
use vstd::prelude::*;

use crate::modules::{IconKind, ModuleEvent, ToolDef};

verus! {

/// The path of the Coincident icon under the icon directory.
pub open spec fn icon_path() -> Seq<char> {
    "constrain/coincident.svg"@
}

/// The Coincident tool: id and command CCONSTRAINT, label "Coincident".
pub fn tool() -> (t: ToolDef)
    ensures
        t.id@ == "CCONSTRAINT"@,
        t.label@ == "Coincident"@,
        t.icon matches IconKind::Svg(path) && path@ == icon_path(),
        t.event matches ModuleEvent::Command(name) && name@ == "CCONSTRAINT"@,
{
    ToolDef {
        id: "CCONSTRAINT",
        label: "Coincident",
        icon: IconKind::Svg("constrain/coincident.svg"),
        event: ModuleEvent::Command(String::from_str("CCONSTRAINT")),
    }
}

} // verus!
