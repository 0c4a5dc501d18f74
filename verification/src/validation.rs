//! Validity of monitor lists: unique monitor ids, unique resolutions per
//! monitor, and unique refresh rates per mode.

use vstd::prelude::*;

use crate::model::{modes_view, monitors_view, Id, Mode, ModeView, Monitor, MonitorView, RefreshRate};

verus! {

/// The first duplicate found in a monitor list.
#[derive(Debug, Clone, Copy, PartialEq, Eq, Structural)]
pub enum DuplicateError {
    /// Duplicate monitor with the given id.
    Monitor(Id),
    /// Duplicate mode `width`x`height` on the monitor with the given id.
    Mode(u32, u32, Id),
    /// Duplicate refresh rate on mode `width`x`height` of a monitor:
    /// (rate, width, height, monitor id).
    RefreshRate(u32, u32, u32, Id),
}

/// The first refresh rate (in list order) that occurs again later in the list.
pub open spec fn first_dup_rate(s: Seq<RefreshRate>) -> Option<RefreshRate>
    decreases s.len(),
{
    if s.len() == 0 {
        None
    } else if s.drop_first().contains(s[0]) {
        Some(s[0])
    } else {
        first_dup_rate(s.drop_first())
    }
}

/// Whether two modes have the same resolution.
pub open spec fn same_resolution(a: ModeView, b: ModeView) -> bool {
    a.width == b.width && a.height == b.height
}

/// Whether a later mode of `ms` has the resolution of `m`.
pub open spec fn resolution_in(ms: Seq<ModeView>, m: ModeView) -> bool {
    exists|j: int| 0 <= j < ms.len() && same_resolution(#[trigger] ms[j], m)
}

/// The duplicate refresh rate error of one mode, if any.
pub open spec fn mode_dup(m: ModeView, id: Id) -> Option<DuplicateError> {
    match first_dup_rate(m.refresh_rates) {
        Some(rr) => Some(DuplicateError::RefreshRate(rr, m.width, m.height, id)),
        None => None,
    }
}

/// The first duplicate in the modes of monitor `id`: modes are checked in
/// order, each first for a later mode of the same resolution, then for a
/// repeated refresh rate.
pub open spec fn modes_dup(ms: Seq<ModeView>, id: Id) -> Option<DuplicateError>
    decreases ms.len(),
{
    if ms.len() == 0 {
        None
    } else if resolution_in(ms.drop_first(), ms[0]) {
        Some(DuplicateError::Mode(ms[0].width, ms[0].height, id))
    } else if mode_dup(ms[0], id) is Some {
        mode_dup(ms[0], id)
    } else {
        modes_dup(ms.drop_first(), id)
    }
}

/// The first duplicate of one monitor.
pub open spec fn monitor_dup(m: MonitorView) -> Option<DuplicateError> {
    modes_dup(m.modes, m.id)
}

/// Whether a later monitor of `ms` has id `id`.
pub open spec fn id_in(ms: Seq<MonitorView>, id: Id) -> bool {
    exists|j: int| 0 <= j < ms.len() && (#[trigger] ms[j]).id == id
}

/// The first duplicate of a monitor list: monitors are checked in order,
/// each first for a later monitor of the same id, then for duplicates inside.
pub open spec fn monitors_dup(ms: Seq<MonitorView>) -> Option<DuplicateError>
    decreases ms.len(),
{
    if ms.len() == 0 {
        None
    } else if id_in(ms.drop_first(), ms[0].id) {
        Some(DuplicateError::Monitor(ms[0].id))
    } else if monitor_dup(ms[0]) is Some {
        monitor_dup(ms[0])
    } else {
        monitors_dup(ms.drop_first())
    }
}

/// The result of a check that reports the given first duplicate.
pub open spec fn dup_result(d: Option<DuplicateError>) -> Result<(), DuplicateError> {
    match d {
        Some(e) => Err(e),
        None => Ok(()),
    }
}

/// No refresh rate occurs twice.
pub open spec fn rates_unique(s: Seq<RefreshRate>) -> bool {
    forall|i: int, j: int| 0 <= i < j < s.len() ==> s[i] != s[j]
}

/// No two modes share a resolution and no mode repeats a refresh rate.
pub open spec fn modes_valid(ms: Seq<ModeView>) -> bool {
    &&& forall|i: int, j: int|
        0 <= i < j < ms.len() ==> !same_resolution(#[trigger] ms[i], #[trigger] ms[j])
    &&& forall|i: int| 0 <= i < ms.len() ==> rates_unique(#[trigger] ms[i].refresh_rates)
}

/// A monitor whose modes are valid.
pub open spec fn monitor_valid(m: MonitorView) -> bool {
    modes_valid(m.modes)
}

/// A valid monitor list: unique ids and valid monitors.
pub open spec fn monitors_valid(ms: Seq<MonitorView>) -> bool {
    &&& forall|i: int, j: int| 0 <= i < j < ms.len() ==> (#[trigger] ms[i]).id != (#[trigger] ms[j]).id
    &&& forall|i: int| 0 <= i < ms.len() ==> monitor_valid(#[trigger] ms[i])
}

/// No duplicate rate is found exactly when the rates are unique.
pub proof fn lemma_first_dup_rate(s: Seq<RefreshRate>)
    ensures
        first_dup_rate(s) is None <==> rates_unique(s),
    decreases s.len(),
{
    if s.len() > 0 {
        lemma_first_dup_rate(s.drop_first());
        if s.drop_first().contains(s[0]) {
            let j = choose|j: int| 0 <= j < s.drop_first().len() && s.drop_first()[j] == s[0];
            assert(s[0] == s[j + 1]);
        } else {
            if rates_unique(s.drop_first()) {
                assert forall|i: int, j: int| 0 <= i < j < s.len() implies s[i] != s[j] by {
                    if i == 0 {
                        assert(s.drop_first()[j - 1] == s[j]);
                    } else {
                        assert(s.drop_first()[i - 1] == s[i]);
                        assert(s.drop_first()[j - 1] == s[j]);
                    }
                }
            }
            if rates_unique(s) {
                assert forall|i: int, j: int| 0 <= i < j < s.drop_first().len() implies s.drop_first()[i]
                    != s.drop_first()[j] by {
                    assert(s[i + 1] != s[j + 1]);
                }
            }
        }
    }
}

/// No duplicate is found in modes exactly when they are valid.
pub proof fn lemma_modes_dup(ms: Seq<ModeView>, id: Id)
    ensures
        modes_dup(ms, id) is None <==> modes_valid(ms),
    decreases ms.len(),
{
    if ms.len() > 0 {
        let t = ms.drop_first();
        lemma_modes_dup(t, id);
        lemma_first_dup_rate(ms[0].refresh_rates);
        if resolution_in(t, ms[0]) {
            let j = choose|j: int| 0 <= j < t.len() && same_resolution(#[trigger] t[j], ms[0]);
            assert(same_resolution(ms[0], ms[j + 1]));
        } else if mode_dup(ms[0], id) is Some {
            assert(!rates_unique(ms[0].refresh_rates));
        } else {
            if modes_valid(t) {
                assert forall|i: int, j: int| 0 <= i < j < ms.len() implies !same_resolution(
                    #[trigger] ms[i],
                    #[trigger] ms[j],
                ) by {
                    if i == 0 {
                        assert(t[j - 1] == ms[j]);
                    } else {
                        assert(t[i - 1] == ms[i]);
                        assert(t[j - 1] == ms[j]);
                    }
                }
                assert forall|i: int| 0 <= i < ms.len() implies rates_unique(
                    #[trigger] ms[i].refresh_rates,
                ) by {
                    if i > 0 {
                        assert(t[i - 1] == ms[i]);
                    }
                }
            }
            if modes_valid(ms) {
                assert forall|i: int, j: int| 0 <= i < j < t.len() implies !same_resolution(
                    #[trigger] t[i],
                    #[trigger] t[j],
                ) by {
                    assert(!same_resolution(ms[i + 1], ms[j + 1]));
                }
                assert forall|i: int| 0 <= i < t.len() implies rates_unique(
                    #[trigger] t[i].refresh_rates,
                ) by {
                    assert(rates_unique(ms[i + 1].refresh_rates));
                }
            }
        }
    }
}

/// No duplicate is found in a monitor list exactly when it is valid: unique
/// monitor ids, unique resolutions per monitor, unique refresh rates per mode.
pub proof fn lemma_monitors_dup(ms: Seq<MonitorView>)
    ensures
        monitors_dup(ms) is None <==> monitors_valid(ms),
    decreases ms.len(),
{
    if ms.len() > 0 {
        let t = ms.drop_first();
        lemma_monitors_dup(t);
        lemma_modes_dup(ms[0].modes, ms[0].id);
        if id_in(t, ms[0].id) {
            let j = choose|j: int| 0 <= j < t.len() && (#[trigger] t[j]).id == ms[0].id;
            assert(ms[j + 1].id == ms[0].id);
        } else if monitor_dup(ms[0]) is Some {
            assert(!monitor_valid(ms[0]));
        } else {
            if monitors_valid(t) {
                assert forall|i: int, j: int| 0 <= i < j < ms.len() implies (#[trigger] ms[i]).id
                    != (#[trigger] ms[j]).id by {
                    if i == 0 {
                        assert(t[j - 1] == ms[j]);
                    } else {
                        assert(t[i - 1] == ms[i]);
                        assert(t[j - 1] == ms[j]);
                    }
                }
                assert forall|i: int| 0 <= i < ms.len() implies monitor_valid(#[trigger] ms[i]) by {
                    if i > 0 {
                        assert(t[i - 1] == ms[i]);
                    }
                }
            }
            if monitors_valid(ms) {
                assert forall|i: int, j: int| 0 <= i < j < t.len() implies (#[trigger] t[i]).id
                    != (#[trigger] t[j]).id by {
                    assert(ms[i + 1].id != ms[j + 1].id);
                }
                assert forall|i: int| 0 <= i < t.len() implies monitor_valid(#[trigger] t[i]) by {
                    assert(monitor_valid(ms[i + 1]));
                }
            }
        }
    }
}

/// Checks a mode for a repeated refresh rate.
pub fn mode_has_duplicates(mode: &Mode, id: Id) -> (res: Result<(), DuplicateError>)
    ensures
        res == dup_result(mode_dup(mode@, id)),
{
    let rates = &mode.refresh_rates;
    let n = rates.len();
    let mut i: usize = 0;
    assert(rates@.skip(0) =~= rates@);
    while i < n
        invariant
            n == rates@.len(),
            rates@ == mode@.refresh_rates,
            i <= n,
            first_dup_rate(rates@) == first_dup_rate(rates@.skip(i as int)),
        decreases n - i,
    {
        let ghost rest = rates@.skip(i as int);
        assert(rest[0] == rates@[i as int]);
        assert(rest.drop_first() == rates@.skip(i + 1));
        let rr = rates[i];
        let mut j = i + 1;
        while j < n
            invariant
                i < j <= n,
                n == rates@.len(),
                rr == rates@[i as int],
                rest == rates@.skip(i as int),
                rates@ == mode@.refresh_rates,
                first_dup_rate(rates@) == first_dup_rate(rest),
                forall|k: int| i < k < j ==> rates@[k] != rr,
            decreases n - j,
        {
            if rates[j] == rr {
                assert(rest.drop_first()[j - i - 1] == rates@[j as int]);
                assert(rest.drop_first().contains(rr));
                return Err(DuplicateError::RefreshRate(rr, mode.width, mode.height, id));
            }
            j = j + 1;
        }
        assert(!rest.drop_first().contains(rr)) by {
            if rest.drop_first().contains(rr) {
                let k = choose|k: int| 0 <= k < rest.drop_first().len() && rest.drop_first()[k] == rr;
                assert(rates@[i + 1 + k] == rr);
            }
        }
        i = i + 1;
    }
    assert(rates@.skip(n as int).len() == 0);
    Ok(())
}

/// Checks the modes of a monitor for a repeated resolution or a repeated
/// refresh rate.
pub fn mon_has_duplicates(monitor: &Monitor) -> (res: Result<(), DuplicateError>)
    ensures
        res == dup_result(monitor_dup(monitor@)),
{
    let modes = &monitor.modes;
    let ghost ms = modes_view(modes@);
    let n = modes.len();
    let mut i: usize = 0;
    assert(ms.skip(0) =~= ms);
    while i < n
        invariant
            n == modes@.len(),
            ms == modes_view(modes@),
            ms == monitor@.modes,
            i <= n,
            modes_dup(ms, monitor.id) == modes_dup(ms.skip(i as int), monitor.id),
        decreases n - i,
    {
        let ghost rest = ms.skip(i as int);
        assert(rest[0] == modes@[i as int]@);
        assert(rest.drop_first() == ms.skip(i + 1));
        let w = modes[i].width;
        let h = modes[i].height;
        let mut j = i + 1;
        while j < n
            invariant
                i < j <= n,
                n == modes@.len(),
                ms == modes_view(modes@),
                w == modes@[i as int].width,
                h == modes@[i as int].height,
                rest == ms.skip(i as int),
                ms == monitor@.modes,
                modes_dup(ms, monitor.id) == modes_dup(rest, monitor.id),
                forall|k: int| i < k < j ==> !same_resolution(#[trigger] ms[k], ms[i as int]),
            decreases n - j,
        {
            if modes[j].width == w && modes[j].height == h {
                assert(rest.drop_first()[j - i - 1] == ms[j as int]);
                assert(same_resolution(rest.drop_first()[j - i - 1], rest[0]));
                assert(resolution_in(rest.drop_first(), rest[0]));
                return Err(DuplicateError::Mode(w, h, monitor.id));
            }
            assert(!same_resolution(ms[j as int], ms[i as int]));
            j = j + 1;
        }
        assert(!resolution_in(rest.drop_first(), rest[0])) by {
            if resolution_in(rest.drop_first(), rest[0]) {
                let k = choose|k: int|
                    0 <= k < rest.drop_first().len() && same_resolution(
                        #[trigger] rest.drop_first()[k],
                        rest[0],
                    );
                assert(ms[i + 1 + k] == rest.drop_first()[k]);
            }
        }
        let r = mode_has_duplicates(&modes[i], monitor.id);
        if r.is_err() {
            return r;
        }
        i = i + 1;
    }
    assert(ms.skip(n as int).len() == 0);
    Ok(())
}

/// Checks a monitor list for a repeated id, then each monitor in order for
/// duplicates inside it.
pub fn mons_have_duplicates(monitors: &[Monitor]) -> (res: Result<(), DuplicateError>)
    ensures
        res == dup_result(monitors_dup(monitors_view(monitors@))),
{
    let ghost ms = monitors_view(monitors@);
    let n = monitors.len();
    let mut i: usize = 0;
    assert(ms.skip(0) =~= ms);
    while i < n
        invariant
            n == monitors@.len(),
            ms == monitors_view(monitors@),
            i <= n,
            monitors_dup(ms) == monitors_dup(ms.skip(i as int)),
        decreases n - i,
    {
        let ghost rest = ms.skip(i as int);
        assert(rest[0] == monitors@[i as int]@);
        assert(rest.drop_first() == ms.skip(i + 1));
        let id = monitors[i].id;
        let mut j = i + 1;
        while j < n
            invariant
                i < j <= n,
                n == monitors@.len(),
                ms == monitors_view(monitors@),
                id == monitors@[i as int].id,
                rest == ms.skip(i as int),
                monitors_dup(ms) == monitors_dup(rest),
                forall|k: int| i < k < j ==> (#[trigger] ms[k]).id != id,
            decreases n - j,
        {
            if monitors[j].id == id {
                assert(rest.drop_first()[j - i - 1] == ms[j as int]);
                assert(rest.drop_first()[j - i - 1].id == id);
                assert(id_in(rest.drop_first(), rest[0].id));
                return Err(DuplicateError::Monitor(id));
            }
            assert(ms[j as int].id != id);
            j = j + 1;
        }
        assert(!id_in(rest.drop_first(), id)) by {
            if id_in(rest.drop_first(), id) {
                let k = choose|k: int|
                    0 <= k < rest.drop_first().len() && (#[trigger] rest.drop_first()[k]).id == id;
                assert(ms[i + 1 + k] == rest.drop_first()[k]);
            }
        }
        let r = mon_has_duplicates(&monitors[i]);
        if r.is_err() {
            return r;
        }
        i = i + 1;
    }
    assert(ms.skip(n as int).len() == 0);
    Ok(())
}

/// The driver's validity test of a monitor list received from a client:
/// `true` when some id, resolution or refresh rate repeats.
pub fn has_duplicates(monitors: &[Monitor]) -> (res: bool)
    ensures
        res == !monitors_valid(monitors_view(monitors@)),
{
    proof {
        lemma_monitors_dup(monitors_view(monitors@));
    }
    mons_have_duplicates(monitors).is_err()
}

} // verus!
