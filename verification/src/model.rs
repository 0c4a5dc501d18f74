//! The monitor model that clients and the driver exchange, and the
//! commands of the pipe protocol.

use vstd::prelude::*;

verus! {

/// Identifier of a virtual monitor.
pub type Id = u32;

/// A width or a height, in pixels.
pub type Dimen = u32;

/// A refresh rate, in Hz.
pub type RefreshRate = u32;

/// One resolution of a monitor together with the refresh rates offered at it.
#[derive(Debug)]
pub struct Mode {
    pub width: Dimen,
    pub height: Dimen,
    pub refresh_rates: Vec<RefreshRate>,
}

/// A virtual monitor: its identifier, an optional label, whether it is
/// attached to the system, and the modes it offers.
#[derive(Debug)]
pub struct Monitor {
    pub id: Id,
    pub name: Option<String>,
    pub enabled: bool,
    pub modes: Vec<Mode>,
}

/// Mathematical value of a [`Mode`].
pub struct ModeView {
    pub width: Dimen,
    pub height: Dimen,
    pub refresh_rates: Seq<RefreshRate>,
}

/// Mathematical value of a [`Monitor`].
pub struct MonitorView {
    pub id: Id,
    pub name: Option<Seq<char>>,
    pub enabled: bool,
    pub modes: Seq<ModeView>,
}

impl View for Mode {
    type V = ModeView;

    open spec fn view(&self) -> ModeView {
        ModeView { width: self.width, height: self.height, refresh_rates: self.refresh_rates@ }
    }
}

/// The text of an optional name.
pub open spec fn name_view(name: Option<String>) -> Option<Seq<char>> {
    match name {
        Some(n) => Some(n@),
        None => None,
    }
}

/// The values of a sequence of modes.
pub open spec fn modes_view(modes: Seq<Mode>) -> Seq<ModeView> {
    modes.map_values(|m: Mode| m@)
}

impl View for Monitor {
    type V = MonitorView;

    open spec fn view(&self) -> MonitorView {
        MonitorView {
            id: self.id,
            name: name_view(self.name),
            enabled: self.enabled,
            modes: modes_view(self.modes@),
        }
    }
}

/// The values of a sequence of monitors.
pub open spec fn monitors_view(monitors: Seq<Monitor>) -> Seq<MonitorView> {
    monitors.map_values(|m: Monitor| m@)
}

/// The value of a pushed sequence of modes.
pub proof fn lemma_modes_view_push(s: Seq<Mode>, m: Mode)
    ensures
        modes_view(s.push(m)) == modes_view(s).push(m@),
{
    assert(modes_view(s.push(m)) =~= modes_view(s).push(m@));
}

/// The value of a pushed sequence of monitors.
pub proof fn lemma_monitors_view_push(s: Seq<Monitor>, m: Monitor)
    ensures
        monitors_view(s.push(m)) == monitors_view(s).push(m@),
{
    assert(monitors_view(s.push(m)) =~= monitors_view(s).push(m@));
}

/// A monitor value with its enabled flag replaced.
pub open spec fn with_enabled(m: MonitorView, enabled: bool) -> MonitorView {
    MonitorView { enabled, ..m }
}

/// A monitor value with its modes replaced.
pub open spec fn with_modes(m: MonitorView, modes: Seq<ModeView>) -> MonitorView {
    MonitorView { modes, ..m }
}

/// Copy of a list of refresh rates.
pub fn copy_rates(rates: &Vec<RefreshRate>) -> (res: Vec<RefreshRate>)
    ensures
        res@ == rates@,
{
    let mut res: Vec<RefreshRate> = Vec::new();
    for i in 0..rates.len()
        invariant
            res@ == rates@.take(i as int),
    {
        res.push(rates[i]);
    }
    assert(rates@.take(rates.len() as int) == rates@);
    res
}

impl Mode {
    /// A copy of this mode.
    pub fn duplicate(&self) -> (res: Mode)
        ensures
            res@ == self@,
    {
        Mode { width: self.width, height: self.height, refresh_rates: copy_rates(&self.refresh_rates) }
    }
}

/// Copy of a list of modes.
pub fn copy_modes(modes: &[Mode]) -> (res: Vec<Mode>)
    ensures
        modes_view(res@) == modes_view(modes@),
{
    let mut res: Vec<Mode> = Vec::new();
    for i in 0..modes.len()
        invariant
            modes_view(res@) == modes_view(modes@.take(i as int)),
    {
        let ghost before = res@;
        let m = modes[i].duplicate();
        res.push(m);
        proof {
            assert(modes@.take(i + 1) == modes@.take(i as int).push(modes@[i as int]));
            lemma_modes_view_push(before, m);
            lemma_modes_view_push(modes@.take(i as int), modes@[i as int]);
        }
    }
    assert(modes@.take(modes.len() as int) == modes@);
    res
}

impl Monitor {
    /// A copy of this monitor.
    pub fn duplicate(&self) -> (res: Monitor)
        ensures
            res@ == self@,
    {
        let name = match &self.name {
            Some(n) => Some(n.clone()),
            None => None,
        };
        Monitor { id: self.id, name, enabled: self.enabled, modes: copy_modes(self.modes.as_slice()) }
    }
}

/// Copy of a list of monitors.
pub fn copy_monitors(monitors: &[Monitor]) -> (res: Vec<Monitor>)
    ensures
        monitors_view(res@) == monitors_view(monitors@),
{
    let mut res: Vec<Monitor> = Vec::new();
    for i in 0..monitors.len()
        invariant
            monitors_view(res@) == monitors_view(monitors@.take(i as int)),
    {
        let ghost before = res@;
        let m = monitors[i].duplicate();
        res.push(m);
        proof {
            assert(monitors@.take(i + 1) == monitors@.take(i as int).push(monitors@[i as int]));
            lemma_monitors_view_push(before, m);
            lemma_monitors_view_push(monitors@.take(i as int), monitors@[i as int]);
        }
    }
    assert(monitors@.take(monitors.len() as int) == monitors@);
    res
}

/// Whether two lists of refresh rates are equal.
pub fn rates_equal(a: &[RefreshRate], b: &[RefreshRate]) -> (res: bool)
    ensures
        res == (a@ == b@),
{
    if a.len() != b.len() {
        return false;
    }
    let mut i: usize = 0;
    while i < a.len()
        invariant
            a@.len() == b@.len(),
            i <= a@.len(),
            forall|j: int| 0 <= j < i ==> a@[j] == b@[j],
        decreases a@.len() - i,
    {
        if a[i] != b[i] {
            return false;
        }
        i = i + 1;
    }
    assert(a@ =~= b@);
    true
}

/// Whether two lists of modes are equal (the driver's test of whether a
/// monitor's modes changed).
pub fn modes_equal(a: &[Mode], b: &[Mode]) -> (res: bool)
    ensures
        res == (modes_view(a@) == modes_view(b@)),
{
    if a.len() != b.len() {
        assert(modes_view(a@).len() != modes_view(b@).len());
        return false;
    }
    let mut i: usize = 0;
    while i < a.len()
        invariant
            a@.len() == b@.len(),
            i <= a@.len(),
            forall|j: int| 0 <= j < i ==> a@[j]@ == b@[j]@,
        decreases a@.len() - i,
    {
        let same = a[i].width == b[i].width && a[i].height == b[i].height && rates_equal(
            a[i].refresh_rates.as_slice(),
            b[i].refresh_rates.as_slice(),
        );
        if !same {
            assert(modes_view(a@)[i as int] != modes_view(b@)[i as int]);
            return false;
        }
        i = i + 1;
    }
    assert(modes_view(a@) =~= modes_view(b@));
    true
}

/// Whether two optional names are equal.
pub fn names_equal(a: &Option<String>, b: &Option<String>) -> (res: bool)
    ensures
        res == (name_view(*a) == name_view(*b)),
{
    match (a, b) {
        (Some(x), Some(y)) => crate::text::str_eq(x.as_str(), y.as_str()),
        (None, None) => true,
        _ => false,
    }
}

/// Whether two lists of monitors are equal, names, flags and modes included.
pub fn monitors_equal(a: &[Monitor], b: &[Monitor]) -> (res: bool)
    ensures
        res == (monitors_view(a@) == monitors_view(b@)),
{
    if a.len() != b.len() {
        assert(monitors_view(a@).len() != monitors_view(b@).len());
        return false;
    }
    let mut i: usize = 0;
    while i < a.len()
        invariant
            a@.len() == b@.len(),
            i <= a@.len(),
            forall|j: int| 0 <= j < i ==> a@[j]@ == b@[j]@,
        decreases a@.len() - i,
    {
        let same = a[i].id == b[i].id && a[i].enabled == b[i].enabled && names_equal(
            &a[i].name,
            &b[i].name,
        ) && modes_equal(a[i].modes.as_slice(), b[i].modes.as_slice());
        if !same {
            assert(monitors_view(a@)[i as int] != monitors_view(b@)[i as int]);
            return false;
        }
        i = i + 1;
    }
    assert(monitors_view(a@) =~= monitors_view(b@));
    true
}

/// Driver commands, sent from a client to the driver.
#[non_exhaustive]
#[derive(Debug)]
pub enum DriverCommand {
    /// Notify of monitor changes (whether adding or updating).
    Notify(Vec<Monitor>),
    /// Remove monitors from the system.
    Remove(Vec<Id>),
    /// Remove all monitors from the system.
    RemoveAll,
}

/// Request command sent from client to server.
#[non_exhaustive]
#[derive(Debug, Clone, Copy, PartialEq, Eq, Structural)]
pub enum RequestCommand {
    /// Request information on the current system monitor state.
    State,
}

/// Reply command sent from server to client.
#[non_exhaustive]
#[derive(Debug)]
pub enum ReplyCommand {
    /// Reply to a previous state request.
    State(Vec<Monitor>),
}

/// An event happened.
#[non_exhaustive]
#[derive(Debug)]
pub enum EventCommand {
    /// Monitor state was changed while the client was connected.
    Changed(Vec<Monitor>),
}

/// Commands a server can receive.
#[non_exhaustive]
#[derive(Debug)]
pub enum ServerCommand {
    Driver(DriverCommand),
    Request(RequestCommand),
}

/// Commands a client can receive.
#[non_exhaustive]
#[derive(Debug)]
pub enum ClientCommand {
    Reply(ReplyCommand),
    Event(EventCommand),
}

} // verus!
