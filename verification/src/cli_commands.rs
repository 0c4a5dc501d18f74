//! The decisions of the command-line tool's subcommands: the modes a new
//! monitor is given, the id it gets, adding and removing a mode, and
//! switching a monitor on or off.

use vstd::prelude::*;

use crate::cli_mode::join_rates;
use crate::messages::push_str;
use crate::model::{
    copy_rates, modes_view, monitors_view, Dimen, Id, Mode, ModeView, Monitor, MonitorView,
    RefreshRate,
};
use crate::text::{char_of_digit, decimal, digit_char, push_decimal, string_from_chars};

verus! {

/// What the tool asks for when it adds a monitor with a single request:
/// one resolution, its refresh rates and, optionally, an id.
#[derive(Debug)]
pub struct NewMonitor {
    pub width: Dimen,
    pub height: Dimen,
    pub refresh_rates: Vec<RefreshRate>,
    pub id: Option<Id>,
}

/// Why the resolutions given to `add` cannot be turned into modes.
#[derive(Debug, Clone, Copy, PartialEq, Eq, Structural)]
pub enum AddModesError {
    /// A width was given for an extra resolution without a height.
    MissingHeight,
}

/// Why a mode cannot be removed.
#[derive(Debug, Clone, Copy, PartialEq, Eq, Structural)]
pub enum RemoveModeError {
    /// The monitor has no mode at this index.
    NoSuchMode { id: Id, index: usize },
    /// The mode is the monitor's last one.
    LastMode { id: Id },
}

/// The result of switching a monitor on or off: the monitor as it is now,
/// and whether its state changed (only then is the driver notified).
#[derive(Debug)]
pub struct EnableDisableOutcome {
    pub monitor: Monitor,
    pub toggled: bool,
}

/// The largest id of a list of monitors, -1 for none.
pub open spec fn max_id(ms: Seq<MonitorView>) -> int
    decreases ms.len(),
{
    if ms.len() == 0 {
        -1
    } else {
        let m = max_id(ms.drop_last());
        if ms.last().id > m {
            ms.last().id as int
        } else {
            m
        }
    }
}

/// The modes of a new monitor: the first resolution, then the extra
/// resolutions given as width, height pairs, each with the same refresh
/// rates.
pub open spec fn requested_modes(width: Dimen, height: Dimen, more: Seq<Dimen>, rates: Seq<RefreshRate>) -> Seq<
    ModeView,
> {
    seq![ModeView { width: width, height: height, refresh_rates: rates }] + Seq::new(
        more.len() / 2,
        |i: int| ModeView { width: more[2 * i], height: more[2 * i + 1], refresh_rates: rates },
    )
}

/// A monitor with other modes.
pub open spec fn with_mode_list(m: MonitorView, modes: Seq<ModeView>) -> MonitorView {
    MonitorView { modes: modes, ..m }
}

/// The largest id among the monitors is at least every id, and is one of
/// them when there are any.
proof fn lemma_max_id(ms: Seq<MonitorView>)
    ensures
        forall|i: int| 0 <= i < ms.len() ==> ms[i].id <= max_id(ms),
        ms.len() == 0 ==> max_id(ms) == -1,
        ms.len() > 0 ==> exists|i: int| 0 <= i < ms.len() && ms[i].id == max_id(ms),
    decreases ms.len(),
{
    if ms.len() > 0 {
        lemma_max_id(ms.drop_last());
        let p = ms.drop_last();
        if p.len() > 0 {
            let j = choose|j: int| 0 <= j < p.len() && p[j].id == max_id(p);
            assert(ms[j] == p[j]);
        }
        assert forall|i: int| 0 <= i < ms.len() implies ms[i].id <= max_id(ms) by {
            if i < p.len() {
                assert(ms[i] == p[i]);
            }
        }
    }
}

/// The id one past the largest is held by no monitor.
pub proof fn law_next_id_is_free(ms: Seq<MonitorView>)
    ensures
        forall|i: int| 0 <= i < ms.len() ==> (#[trigger] ms[i]).id != max_id(ms) + 1,
{
    lemma_max_id(ms);
}

/// The id of the next monitor: one more than the largest id, 0 when there
/// are no monitors.
pub fn next_id(monitors: &[Monitor]) -> (res: Id)
    requires
        forall|i: int| 0 <= i < monitors@.len() ==> (#[trigger] monitors@[i]).id < Id::MAX,
    ensures
        res == max_id(monitors_view(monitors@)) + 1,
{
    let ghost ms = monitors_view(monitors@);
    let mut best: Option<Id> = None;
    for i in 0..monitors.len()
        invariant
            ms == monitors_view(monitors@),
            forall|j: int| 0 <= j < monitors@.len() ==> (#[trigger] monitors@[j]).id < Id::MAX,
            match best {
                Some(b) => b == max_id(ms.take(i as int)) && b < Id::MAX,
                None => max_id(ms.take(i as int)) == -1,
            },
    {
        assert(ms.take(i + 1).drop_last() =~= ms.take(i as int));
        assert(ms.take(i + 1).last() == monitors@[i as int]@);
        let id = monitors[i].id;
        best = match best {
            Some(b) => if id > b {
                Some(id)
            } else {
                Some(b)
            },
            None => Some(id),
        };
    }
    assert(ms.take(monitors@.len() as int) =~= ms);
    match best {
        Some(b) => b + 1,
        None => 0,
    }
}

/// The modes for `add`: the first resolution and the extra ones, given as
/// width, height pairs, each with the same refresh rates; an error when an
/// extra width has no height.
pub fn requested_mode_list(width: Dimen, height: Dimen, more: &[Dimen], rates: &Vec<RefreshRate>) -> (res:
    Result<Vec<Mode>, AddModesError>)
    ensures
        match res {
            Ok(modes) => more@.len() % 2 == 0 && modes_view(modes@) == requested_modes(
                width,
                height,
                more@,
                rates@,
            ),
            Err(e) => more@.len() % 2 != 0 && e == AddModesError::MissingHeight,
        },
{
    if more.len() % 2 != 0 {
        return Err(AddModesError::MissingHeight);
    }
    let ghost want = requested_modes(width, height, more@, rates@);
    let mut modes: Vec<Mode> = Vec::new();
    modes.push(Mode { width, height, refresh_rates: copy_rates(rates) });
    let pairs = more.len() / 2;
    for k in 0..pairs
        invariant
            pairs == more@.len() / 2,
            more@.len() % 2 == 0,
            want == requested_modes(width, height, more@, rates@),
            modes_view(modes@) == want.take(k + 1),
    {
        let ghost before = modes_view(modes@);
        let n = more.len();
        assert(2 * k + 1 < n) by (nonlinear_arith)
            requires
                k < pairs,
                pairs == n / 2,
        ;
        let w = more[2 * k];
        let h = more[2 * k + 1];
        modes.push(Mode { width: w, height: h, refresh_rates: copy_rates(rates) });
        assert(modes_view(modes@) =~= before.push(want[k + 1]));
        assert(want.take(k + 2) =~= want.take(k + 1).push(want[k + 1]));
    }
    assert(want.take(pairs + 1) =~= want);
    Ok(modes)
}

/// Appends a mode to a monitor and returns its index.
pub fn push_mode(monitor: &mut Monitor, mode: Mode) -> (index: usize)
    ensures
        index == old(monitor)@.modes.len(),
        final(monitor)@ == with_mode_list(old(monitor)@, old(monitor)@.modes.push(mode@)),
{
    let index = monitor.modes.len();
    monitor.modes.push(mode);
    assert(final(monitor)@.modes =~= old(monitor)@.modes.push(mode@));
    index
}

/// Removes mode `index` of a monitor: an error when there is no such mode,
/// or when it is the monitor's only one.
pub fn remove_mode_at(monitor: &mut Monitor, index: usize) -> (res: Result<(), RemoveModeError>)
    ensures
        match res {
            Ok(()) => index < old(monitor)@.modes.len() && old(monitor)@.modes.len() != 1
                && final(monitor)@ == with_mode_list(
                old(monitor)@,
                old(monitor)@.modes.remove(index as int),
            ),
            Err(RemoveModeError::NoSuchMode { id, index: i }) => index >= old(monitor)@.modes.len()
                && id == old(monitor).id && i == index && final(monitor)@ == old(monitor)@,
            Err(RemoveModeError::LastMode { id }) => index < old(monitor)@.modes.len()
                && old(monitor)@.modes.len() == 1 && id == old(monitor).id && final(monitor)@ == old(
                monitor,
            )@,
        },
{
    if index >= monitor.modes.len() {
        return Err(RemoveModeError::NoSuchMode { id: monitor.id, index });
    }
    if monitor.modes.len() == 1 {
        return Err(RemoveModeError::LastMode { id: monitor.id });
    }
    monitor.modes.remove(index);
    assert(final(monitor)@.modes =~= old(monitor)@.modes.remove(index as int));
    Ok(())
}

/// Switches a monitor on or off: the outcome holds the monitor with the
/// requested state, and whether that changed it.
pub fn set_enabled_outcome(monitor: Monitor, enabled: bool) -> (res: EnableDisableOutcome)
    ensures
        res.toggled == (enabled != monitor.enabled),
        res.monitor@ == (MonitorView { enabled: enabled, ..monitor@ }),
{
    let mut monitor = monitor;
    let toggled = enabled != monitor.enabled;
    if toggled {
        monitor.enabled = enabled;
    }
    EnableDisableOutcome { monitor, toggled }
}

impl NewMonitor {
    /// The id the monitor gets: the one asked for, or else one more than
    /// the largest id of the current monitors (0 when there are none).
    pub fn resolve_id(&self, current: &[Monitor]) -> (res: Id)
        requires
            self.id is None ==> forall|i: int| 0 <= i < current@.len() ==> (#[trigger] current@[i]).id
                < Id::MAX,
        ensures
            res == match self.id {
                Some(id) => id as int,
                None => max_id(monitors_view(current@)) + 1,
            },
    {
        match self.id {
            Some(id) => id,
            None => next_id(current),
        }
    }

    /// The monitor that is sent to the driver: the given id, no name,
    /// switched on, with the one requested mode.
    pub fn into_monitor(self, id: Id) -> (res: Monitor)
        ensures
            res@ == (MonitorView {
                id: id,
                name: None,
                enabled: true,
                modes: seq![
                    ModeView { width: self.width, height: self.height, refresh_rates: self.refresh_rates@ },
                ],
            }),
    {
        let mut modes: Vec<Mode> = Vec::new();
        modes.push(Mode { width: self.width, height: self.height, refresh_rates: self.refresh_rates });
        let res = Monitor { id, name: None, enabled: true, modes };
        assert(res@.modes =~= seq![
            ModeView { width: self.width, height: self.height, refresh_rates: self.refresh_rates@ },
        ]);
        res
    }
}


/// A refresh rate list as the listing shows it: the rates joined by `/`,
/// or `?` when there are none.
pub open spec fn rates_text(q: Seq<RefreshRate>) -> Seq<char> {
    if q.len() == 0 {
        "?"@
    } else {
        join_rates(q)
    }
}

/// The listing line of mode `index`.
pub open spec fn mode_line(index: nat, m: ModeView) -> Seq<char> {
    "- Mode "@ + decimal(index) + ": "@ + decimal(m.width as nat) + "x"@ + decimal(m.height as nat)
        + " @ "@ + rates_text(m.refresh_rates) + "Hz"@
}

/// The listing heading of a monitor: its id, its name in brackets when it
/// has one, and a mark when it is disabled.
pub open spec fn monitor_heading(m: MonitorView) -> Seq<char> {
    let name = match m.name {
        Some(n) => " ["@ + n + "]"@,
        None => Seq::empty(),
    };
    let disabled = if m.enabled {
        Seq::empty()
    } else {
        " (disabled)"@
    };
    "Monitor "@ + decimal(m.id as nat) + name + disabled + ":"@
}

/// The listing lines of a monitor: its heading, then one line per mode, or
/// a line saying it has none.
pub open spec fn monitor_lines(m: MonitorView) -> Seq<Seq<char>> {
    seq![monitor_heading(m)] + if m.modes.len() == 0 {
        seq!["- No modes"@]
    } else {
        Seq::new(m.modes.len(), |i: int| mode_line(i as nat, m.modes[i]))
    }
}

/// The lines of the monitors, an empty line between two monitors.
pub open spec fn monitors_lines(ms: Seq<MonitorView>) -> Seq<Seq<char>>
    decreases ms.len(),
{
    if ms.len() == 0 {
        Seq::empty()
    } else if ms.len() == 1 {
        monitor_lines(ms[0])
    } else {
        monitors_lines(ms.drop_last()) + seq![Seq::<char>::empty()] + monitor_lines(ms.last())
    }
}

/// The listing of the monitors: a title and their lines, or a line saying
/// there are none.
pub open spec fn listing_spec(ms: Seq<MonitorView>) -> Seq<Seq<char>> {
    if ms.len() == 0 {
        seq!["No virtual monitors found."@]
    } else {
        seq!["Virtual monitors"@] + monitors_lines(ms)
    }
}

/// The texts of a list of strings.
pub open spec fn texts(v: Seq<String>) -> Seq<Seq<char>> {
    v.map_values(|s: String| s@)
}

/// Appends the decimal representation of `n`.
fn push_index(out: &mut Vec<char>, n: usize)
    ensures
        final(out)@ == old(out)@ + decimal(n as nat),
    decreases n,
{
    if n >= 10 {
        push_index(out, n / 10);
    }
    let d = (n % 10) as u32;
    out.push(char_of_digit(d));
    proof {
        if n < 10 {
            assert(decimal(n as nat) == seq![digit_char(n as int)]);
        }
    }
    assert(final(out)@ =~= old(out)@ + decimal(n as nat));
}

/// Appends refresh rates joined by `/`, or `?` when there are none.
fn push_rates_text(out: &mut Vec<char>, rates: &[RefreshRate])
    ensures
        final(out)@ == old(out)@ + rates_text(rates@),
{
    let n = rates.len();
    if n == 0 {
        push_str(out, "?");
        return;
    }
    let ghost head = out@;
    let mut i: usize = 0;
    while i < n
        invariant
            n == rates@.len(),
            0 < n,
            i <= n,
            head == old(out)@,
            i == 0 ==> out@ == head,
            i > 0 ==> out@ == head + join_rates(rates@.take(i as int)),
        decreases n - i,
    {
        let ghost q = rates@.take(i + 1);
        if i > 0 {
            out.push('/');
        }
        push_decimal(out, rates[i]);
        proof {
            assert(q.drop_last() =~= rates@.take(i as int));
            assert(q.last() == rates@[i as int]);
            if i == 0 {
                assert(join_rates(q) == decimal(q[0] as nat));
            } else {
                assert(join_rates(q) == join_rates(q.drop_last()).push('/') + decimal(q.last() as nat));
            }
            assert(out@ =~= head + join_rates(q));
        }
        i = i + 1;
    }
    assert(rates@.take(n as int) =~= rates@);
}

/// The listing line of mode `index`.
fn mode_line_text(index: usize, mode: &Mode) -> (res: String)
    ensures
        res@ == mode_line(index as nat, mode@),
{
    let mut out: Vec<char> = Vec::new();
    push_str(&mut out, "- Mode ");
    push_index(&mut out, index);
    push_str(&mut out, ": ");
    push_decimal(&mut out, mode.width);
    push_str(&mut out, "x");
    push_decimal(&mut out, mode.height);
    push_str(&mut out, " @ ");
    push_rates_text(&mut out, mode.refresh_rates.as_slice());
    push_str(&mut out, "Hz");
    string_from_chars(out.as_slice())
}

/// The listing heading of a monitor.
fn heading_text(m: &Monitor) -> (res: String)
    ensures
        res@ == monitor_heading(m@),
{
    let mut out: Vec<char> = Vec::new();
    push_str(&mut out, "Monitor ");
    push_decimal(&mut out, m.id);
    let ghost after_id = out@;
    match &m.name {
        Some(n) => {
            push_str(&mut out, " [");
            push_str(&mut out, n.as_str());
            push_str(&mut out, "]");
        },
        None => {},
    }
    if !m.enabled {
        push_str(&mut out, " (disabled)");
    }
    push_str(&mut out, ":");
    assert(out@ =~= monitor_heading(m@));
    string_from_chars(out.as_slice())
}

/// Appends the listing lines of a monitor.
fn push_monitor_lines(lines: &mut Vec<String>, m: &Monitor)
    ensures
        texts(final(lines)@) == texts(old(lines)@) + monitor_lines(m@),
{
    let ghost start = texts(lines@);
    let h = heading_text(m);
    lines.push(h);
    assert(texts(lines@) =~= start + seq![monitor_heading(m@)]);
    let ghost with_heading = texts(lines@);
    if m.modes.len() == 0 {
        lines.push("- No modes".to_owned());
        assert(texts(lines@) =~= with_heading + seq!["- No modes"@]);
    } else {
        let ghost ml = Seq::new(m@.modes.len(), |i: int| mode_line(i as nat, m@.modes[i]));
        for i in 0..m.modes.len()
            invariant
                ml == Seq::new(m@.modes.len(), |i: int| mode_line(i as nat, m@.modes[i])),
                texts(lines@) == with_heading + ml.take(i as int),
        {
            let line = mode_line_text(i, &m.modes[i]);
            let ghost before = texts(lines@);
            lines.push(line);
            assert(texts(lines@) =~= before.push(ml[i as int]));
            assert(ml.take(i + 1) =~= ml.take(i as int).push(ml[i as int]));
        }
        assert(ml.take(m@.modes.len() as int) =~= ml);
    }
    assert(texts(lines@) =~= start + monitor_lines(m@));
}

/// The listing of the monitors, one string per line.
pub fn listing(monitors: &[Monitor]) -> (res: Vec<String>)
    ensures
        texts(res@) == listing_spec(monitors_view(monitors@)),
{
    let ghost ms = monitors_view(monitors@);
    let mut lines: Vec<String> = Vec::new();
    if monitors.len() == 0 {
        lines.push("No virtual monitors found.".to_owned());
        assert(texts(lines@) =~= listing_spec(ms));
        return lines;
    }
    lines.push("Virtual monitors".to_owned());
    assert(texts(lines@) =~= seq!["Virtual monitors"@]);
    for i in 0..monitors.len()
        invariant
            ms == monitors_view(monitors@),
            monitors@.len() > 0,
            texts(lines@) == seq!["Virtual monitors"@] + monitors_lines(ms.take(i as int)),
    {
        let ghost before = texts(lines@);
        let ghost t = ms.take(i + 1);
        proof {
            assert(t.drop_last() =~= ms.take(i as int));
            assert(t.last() == monitors@[i as int]@);
        }
        if i > 0 {
            lines.push(String::new());
            assert(texts(lines@) =~= before + seq![Seq::<char>::empty()]);
        }
        let ghost mid = texts(lines@);
        push_monitor_lines(&mut lines, &monitors[i]);
        assert(texts(lines@) == mid + monitor_lines(monitors@[i as int]@));
        proof {
            if i == 0 {
                assert(t.len() == 1);
                assert(ms.take(0) =~= Seq::<MonitorView>::empty());
                assert(texts(lines@) =~= seq!["Virtual monitors"@] + monitors_lines(t));
            } else {
                assert(monitors_lines(t) == monitors_lines(ms.take(i as int)) + seq![Seq::<char>::empty()]
                    + monitor_lines(monitors@[i as int]@));
                assert(texts(lines@) =~= seq!["Virtual monitors"@] + monitors_lines(t));
            }
        }
    }
    assert(ms.take(monitors@.len() as int) =~= ms);
    lines
}
} // verus!
