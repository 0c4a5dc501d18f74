//! Decisions the language bindings make on top of the driver client.

use vstd::prelude::*;

use crate::model::{modes_view, name_view, Mode, Monitor, MonitorView};

verus! {

/// What setting a monitor's properties from the bindings makes of it: the
/// enabled flag and the modes where given, and the name in any case (no
/// name given clears it).
pub open spec fn with_settings(
    m: MonitorView,
    enabled: Option<bool>,
    name: Option<Seq<char>>,
    modes: Option<Seq<crate::model::ModeView>>,
) -> MonitorView {
    MonitorView {
        id: m.id,
        name: name,
        enabled: match enabled {
            Some(e) => e,
            None => m.enabled,
        },
        modes: match modes {
            Some(ms) => ms,
            None => m.modes,
        },
    }
}

/// Sets a monitor's properties: the enabled flag and the modes where given,
/// and the name in any case.
pub fn apply_settings(
    monitor: &mut Monitor,
    enabled: Option<bool>,
    name: Option<String>,
    modes: Option<Vec<Mode>>,
)
    ensures
        final(monitor)@ == with_settings(
            old(monitor)@,
            enabled,
            name_view(name),
            match modes {
                Some(v) => Some(modes_view(v@)),
                None => None,
            },
        ),
{
    if let Some(e) = enabled {
        monitor.enabled = e;
    }
    monitor.name = name;
    if let Some(ms) = modes {
        monitor.modes = ms;
    }
}

} // verus!
