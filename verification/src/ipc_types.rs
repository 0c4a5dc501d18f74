//! The flat message format between the control panel and the driver: a
//! monitor is its id and a list of (width, height, refresh rate) triples.

use vstd::prelude::*;

verus! {

/// One (resolution, refresh rate) pair of a monitor.
#[derive(Debug, Clone, Copy, PartialEq, Eq, Structural)]
pub struct MonitorProperties {
    pub width: u32,
    pub height: u32,
    pub refresh_rate: u32,
}

/// A monitor of the flat format.
#[derive(Debug)]
pub struct Monitor {
    /// Identifier.
    pub id: u32,
    pub properties: Vec<MonitorProperties>,
}

/// What a flat monitor holds, as a mathematical value.
pub struct MonitorSpec {
    pub id: u32,
    pub properties: Seq<MonitorProperties>,
}

impl View for Monitor {
    type V = MonitorSpec;

    open spec fn view(&self) -> MonitorSpec {
        MonitorSpec { id: self.id, properties: self.properties@ }
    }
}

/// The views of a list of flat monitors.
pub open spec fn flat_monitors_view(s: Seq<Monitor>) -> Seq<MonitorSpec> {
    s.map_values(|m: Monitor| m@)
}

/// A command for the driver.
#[derive(Debug)]
pub enum DriverCommand {
    Add(Vec<Monitor>),
    Remove(Vec<u32>),
    Update(Vec<Monitor>),
    RemoveAll,
}

} // verus!
