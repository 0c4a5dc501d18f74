//! The driver's list of virtual monitors and the decisions it takes on a
//! client's commands: which monitors to detach from the system, which to
//! (re)attach, and what the list becomes.

use vstd::prelude::*;

use crate::model::{
    copy_monitors, modes_equal, monitors_view, DriverCommand, Id, Monitor, MonitorView,
    RequestCommand, ServerCommand,
};
use crate::validation::{has_duplicates, monitors_valid};
use crate::driver_client::id_listed;

verus! {

/// A monitor known to the driver, and whether it is attached to the system.
pub struct MonitorObject {
    pub attached: bool,
    pub data: Monitor,
}

/// Mathematical value of a [`MonitorObject`].
pub struct SlotView {
    pub attached: bool,
    pub data: MonitorView,
}

impl View for MonitorObject {
    type V = SlotView;

    open spec fn view(&self) -> SlotView {
        SlotView { attached: self.attached, data: self.data@ }
    }
}

/// The values of a list of monitor objects.
pub open spec fn slots_view(s: Seq<MonitorObject>) -> Seq<SlotView> {
    s.map_values(|o: MonitorObject| o@)
}

/// What the driver does after a notify: detach the monitors listed in
/// `departures` (in order), then, for each monitor sent (in order), attach
/// it when its flag in `arrivals` is set.
pub struct NotifyPlan {
    pub departures: Vec<Id>,
    pub arrivals: Vec<(Id, bool)>,
}

/// The ids of the monitors of a list.
pub open spec fn ids_of(ms: Seq<MonitorView>) -> Seq<Id> {
    ms.map_values(|m: MonitorView| m.id)
}

/// The first phase of a notify: keep the monitors whose id is sent, and
/// detach the attached ones that are dropped. Returns (kept, detached ids).
pub open spec fn retain_sent(slots: Seq<SlotView>, sent: Seq<Id>) -> (Seq<SlotView>, Seq<Id>)
    decreases slots.len(),
{
    if slots.len() == 0 {
        (slots, Seq::empty())
    } else {
        let (kept, deps) = retain_sent(slots.drop_last(), sent);
        let x = slots.last();
        if sent.contains(x.data.id) {
            (kept.push(x), deps)
        } else if x.attached {
            (kept, deps.push(x.data.id))
        } else {
            (kept, deps)
        }
    }
}

/// Position of the first slot with id `id`.
pub open spec fn is_first_slot(slots: Seq<SlotView>, id: Id, i: int) -> bool {
    &&& 0 <= i < slots.len()
    &&& slots[i].data.id == id
    &&& forall|j: int| 0 <= j < i ==> (#[trigger] slots[j]).data.id != id
}

/// Some slot has id `id`.
pub open spec fn slot_in(slots: Seq<SlotView>, id: Id) -> bool {
    exists|i: int| 0 <= i < slots.len() && (#[trigger] slots[i]).data.id == id
}

/// The state of the second phase of a notify: (slots, detached ids, arrivals).
pub type NotifyState = (Seq<SlotView>, Seq<Id>, Seq<(Id, bool)>);

/// One monitor of a notify. A known monitor takes the new value; it is
/// detached when its modes changed or it is disabled, and attached when it
/// was just enabled, or is enabled and its modes changed, or is enabled and
/// not attached. An unknown monitor is added, to be attached when enabled.
pub open spec fn notify_step(st: NotifyState, m: MonitorView) -> NotifyState {
    let (slots, deps, arrs) = st;
    if slot_in(slots, m.id) {
        let k = choose|k: int| is_first_slot(slots, m.id, k);
        let cur = slots[k];
        let changed = cur.data.modes != m.modes;
        let arrive = (!cur.data.enabled && m.enabled) || (m.enabled && changed) || (m.enabled
            && !cur.attached);
        let detach = changed || !m.enabled;
        let deps2 = if detach && cur.attached {
            deps.push(m.id)
        } else {
            deps
        };
        let attached = if detach {
            false
        } else {
            cur.attached
        };
        (slots.update(k, SlotView { attached, data: m }), deps2, arrs.push((m.id, arrive)))
    } else {
        (
            slots.push(SlotView { attached: false, data: m }),
            deps,
            arrs.push((m.id, m.enabled)),
        )
    }
}

/// The second phase of a notify over the monitors sent, in order.
pub open spec fn notify_fold(st: NotifyState, ms: Seq<MonitorView>) -> NotifyState
    decreases ms.len(),
{
    if ms.len() == 0 {
        st
    } else {
        notify_step(notify_fold(st, ms.drop_last()), ms.last())
    }
}

/// The result of a notify with monitors `ms` on `slots`: the new slots, the
/// ids to detach, and the arrival decisions. Sent lists with a repeated id,
/// resolution or refresh rate are ignored.
pub open spec fn notify_spec(slots: Seq<SlotView>, ms: Seq<MonitorView>) -> NotifyState {
    if !monitors_valid(ms) {
        (slots, Seq::empty(), Seq::empty())
    } else {
        let (kept, deps) = retain_sent(slots, ids_of(ms));
        notify_fold((kept, deps, Seq::empty()), ms)
    }
}

/// Removing the monitors with one id: (kept slots, detached ids).
pub open spec fn remove_one(slots: Seq<SlotView>, id: Id) -> (Seq<SlotView>, Seq<Id>)
    decreases slots.len(),
{
    if slots.len() == 0 {
        (slots, Seq::empty())
    } else {
        let (kept, deps) = remove_one(slots.drop_last(), id);
        let x = slots.last();
        if x.data.id != id {
            (kept.push(x), deps)
        } else if x.attached {
            (kept, deps.push(id))
        } else {
            (kept, deps)
        }
    }
}

/// Removing the monitors of each listed id in turn: (slots, detached ids).
pub open spec fn remove_spec(slots: Seq<SlotView>, ids: Seq<Id>) -> (Seq<SlotView>, Seq<Id>)
    decreases ids.len(),
{
    if ids.len() == 0 {
        (slots, Seq::empty())
    } else {
        let (s1, d1) = remove_spec(slots, ids.drop_last());
        let (s2, d2) = remove_one(s1, ids.last());
        (s2, d1 + d2)
    }
}

/// The ids of the attached slots, in order.
pub open spec fn attached_ids(slots: Seq<SlotView>) -> Seq<Id>
    decreases slots.len(),
{
    if slots.len() == 0 {
        Seq::empty()
    } else if slots.last().attached {
        attached_ids(slots.drop_last()).push(slots.last().data.id)
    } else {
        attached_ids(slots.drop_last())
    }
}

pub(crate) proof fn lemma_slots_view_push(s: Seq<MonitorObject>, o: MonitorObject)
    ensures
        slots_view(s.push(o)) == slots_view(s).push(o@),
{
    assert(slots_view(s.push(o)) =~= slots_view(s).push(o@));
}

/// Position of the first monitor object with id `id`.
pub(crate) fn position_of_slot(slots: &Vec<MonitorObject>, id: Id) -> (res: Option<usize>)
    ensures
        match res {
            Some(i) => is_first_slot(slots_view(slots@), id, i as int),
            None => !slot_in(slots_view(slots@), id),
        },
{
    let ghost sv = slots_view(slots@);
    let mut i: usize = 0;
    while i < slots.len()
        invariant
            sv == slots_view(slots@),
            i <= slots@.len(),
            forall|j: int| 0 <= j < i ==> (#[trigger] sv[j]).data.id != id,
        decreases slots@.len() - i,
    {
        if slots[i].data.id == id {
            return Some(i);
        }
        i = i + 1;
    }
    None
}

/// The ids of a list of monitors.
fn monitor_ids(ms: &Vec<Monitor>) -> (res: Vec<Id>)
    ensures
        res@ == ids_of(monitors_view(ms@)),
{
    let mut res: Vec<Id> = Vec::new();
    for i in 0..ms.len()
        invariant
            res@ == ids_of(monitors_view(ms@)).take(i as int),
    {
        res.push(ms[i].id);
        assert(res@ =~= ids_of(monitors_view(ms@)).take(i + 1));
    }
    assert(ids_of(monitors_view(ms@)).take(ms.len() as int) =~= ids_of(monitors_view(ms@)));
    res
}

/// Applies a notify to the driver's list: returns what to detach and what
/// to attach. A sent list with a repeated id, resolution or refresh rate
/// is ignored.
pub fn notify(registry: &mut Vec<MonitorObject>, monitors: Vec<Monitor>) -> (plan: NotifyPlan)
    ensures
        ({
            let (slots, deps, arrs) = notify_spec(
                slots_view(old(registry)@),
                monitors_view(monitors@),
            );
            &&& slots_view(final(registry)@) == slots
            &&& plan.departures@ == deps
            &&& plan.arrivals@ == arrs
        }),
{
    let ghost ms = monitors_view(monitors@);
    if has_duplicates(monitors.as_slice()) {
        return NotifyPlan { departures: Vec::new(), arrivals: Vec::new() };
    }
    let sent = monitor_ids(&monitors);
    // Phase one: drop the monitors that are not sent.
    let mut olds: Vec<MonitorObject> = Vec::new();
    std::mem::swap(registry, &mut olds);
    let ghost o = olds@;
    let mut departures: Vec<Id> = Vec::new();
    for x in it: olds
        invariant
            it.seq() == o,
            sent@ == ids_of(ms),
            ({
                let (kept, deps) = retain_sent(slots_view(o.take(it.index() as int)), sent@);
                slots_view(registry@) == kept && departures@ == deps
            }),
    {
        let ghost k = it.index() as int;
        let ghost before = registry@;
        proof {
            assert(o.take(k + 1).drop_last() == o.take(k));
            assert(slots_view(o.take(k + 1)).drop_last() =~= slots_view(o.take(k)));
            assert(slots_view(o.take(k + 1)).last() == x@);
        }
        if id_listed(sent.as_slice(), x.data.id) {
            registry.push(x);
            proof {
                lemma_slots_view_push(before, x);
            }
        } else if x.attached {
            departures.push(x.data.id);
        }
    }
    assert(o.take(o.len() as int) == o);
    // Phase two: update or add each sent monitor.
    let mut arrivals: Vec<(Id, bool)> = Vec::new();
    let ghost start: NotifyState = (slots_view(registry@), departures@, Seq::empty());
    for m in it: monitors
        invariant
            it.seq() == monitors@,
            ms == monitors_view(monitors@),
            ({
                let (slots, deps, arrs) = notify_fold(start, ms.take(it.index() as int));
                slots_view(registry@) == slots && departures@ == deps && arrivals@ == arrs
            }),
    {
        let ghost k = it.index() as int;
        let ghost st: NotifyState = (slots_view(registry@), departures@, arrivals@);
        proof {
            assert(ms.take(k + 1).drop_last() =~= ms.take(k));
            assert(ms.take(k + 1).last() == m@);
        }
        let id = m.id;
        match position_of_slot(registry, id) {
            Some(p) => {
                proof {
                    let q = choose|q: int| is_first_slot(st.0, id, q);
                    if q < p {
                        assert(st.0[q].data.id != id);
                    } else if p < q {
                        assert(st.0[p as int].data.id != id);
                    }
                    assert(slot_in(st.0, id));
                }
                let cur_enabled = registry[p].data.enabled;
                let cur_attached = registry[p].attached;
                let changed = !modes_equal(registry[p].data.modes.as_slice(), m.modes.as_slice());
                let arrive = (!cur_enabled && m.enabled) || (m.enabled && changed) || (m.enabled
                    && !cur_attached);
                let detach = changed || !m.enabled;
                if detach && cur_attached {
                    departures.push(id);
                }
                let attached = if detach {
                    false
                } else {
                    cur_attached
                };
                let ghost mv = m@;
                let ghost before = registry@;
                registry.set(p, MonitorObject { attached, data: m });
                assert(slots_view(registry@) =~= slots_view(before).update(
                    p as int,
                    SlotView { attached, data: mv },
                ));
                arrivals.push((id, arrive));
            },
            None => {
                let enabled = m.enabled;
                let ghost before = registry@;
                let o = MonitorObject { attached: false, data: m };
                registry.push(o);
                proof {
                    lemma_slots_view_push(before, o);
                }
                arrivals.push((id, enabled));
            },
        }
    }
    assert(ms.take(ms.len() as int) == ms);
    NotifyPlan { departures, arrivals }
}

/// No two slots share an id.
pub open spec fn slot_ids_unique(slots: Seq<SlotView>) -> bool {
    forall|i: int, j: int|
        0 <= i < j < slots.len() ==> (#[trigger] slots[i]).data.id != (#[trigger] slots[j]).data.id
}

/// The slots kept by the first phase of a notify are slots of the list,
/// in order, with a sent id.
proof fn lemma_retain_sent(slots: Seq<SlotView>, sent: Seq<Id>) -> (f: spec_fn(int) -> int)
    ensures
        forall|i: int|
            0 <= i < retain_sent(slots, sent).0.len() ==> 0 <= #[trigger] f(i) < slots.len()
                && retain_sent(slots, sent).0[i] == slots[f(i)] && sent.contains(
                slots[f(i)].data.id,
            ),
        forall|i: int, j: int|
            0 <= i < j < retain_sent(slots, sent).0.len() ==> #[trigger] f(i) < #[trigger] f(j),
    decreases slots.len(),
{
    let r = retain_sent(slots, sent).0;
    if slots.len() == 0 {
        |i: int| i
    } else {
        let t = slots.drop_last();
        let g = lemma_retain_sent(t, sent);
        let n = retain_sent(t, sent).0.len();
        let f = |i: int|
            if i < n {
                g(i)
            } else {
                slots.len() - 1
            };
        assert forall|i: int| 0 <= i < r.len() implies 0 <= #[trigger] f(i) < slots.len() && r[i]
            == slots[f(i)] && sent.contains(slots[f(i)].data.id) by {
            if i < n {
                assert(r[i] == retain_sent(t, sent).0[i]);
                assert(t[g(i)] == slots[g(i)]);
            }
        }
        assert forall|i: int, j: int| 0 <= i < j < r.len() implies #[trigger] f(i) < #[trigger] f(
            j,
        ) by {
            if j < n {
                assert(g(i) < g(j));
            } else {
                assert(0 <= g(i) < t.len());
            }
        }
        f
    }
}

/// When some slot has an id, a first one has it.
pub(crate) proof fn lemma_first_slot_exists(slots: Seq<SlotView>, id: Id)
    requires
        slot_in(slots, id),
    ensures
        exists|k: int| is_first_slot(slots, id, k),
    decreases slots.len(),
{
    if slots[0].data.id == id {
        assert(is_first_slot(slots, id, 0));
    } else {
        let t = slots.drop_first();
        let j = choose|j: int| 0 <= j < slots.len() && (#[trigger] slots[j]).data.id == id;
        assert(t[j - 1].data.id == id);
        lemma_first_slot_exists(t, id);
        let k = choose|k: int| is_first_slot(t, id, k);
        assert(is_first_slot(slots, id, k + 1)) by {
            assert forall|i: int| 0 <= i < k + 1 implies (#[trigger] slots[i]).data.id != id by {
                if i > 0 {
                    assert(slots[i] == t[i - 1]);
                }
            }
        }
    }
}

/// What the second phase of a notify keeps true, after the first `i`
/// monitors sent.
pub open spec fn notify_progress(slots: Seq<SlotView>, ms: Seq<MonitorView>, i: int) -> bool {
    &&& slot_ids_unique(slots)
    &&& forall|k: int| 0 <= k < slots.len() ==> ids_of(ms).contains(#[trigger] slots[k].data.id)
    &&& forall|j: int|
        #![trigger ms[j]]
        0 <= j < i ==> exists|k: int| 0 <= k < slots.len() && (#[trigger] slots[k]).data == ms[j]
}

proof fn lemma_notify_fold_progress(st: NotifyState, ms: Seq<MonitorView>, i: int)
    requires
        monitors_valid(ms),
        0 <= i <= ms.len(),
        notify_progress(st.0, ms, 0),
    ensures
        notify_progress(notify_fold(st, ms.take(i)).0, ms, i),
    decreases i,
{
    if i > 0 {
        lemma_notify_fold_progress(st, ms, i - 1);
        assert(ms.take(i).drop_last() =~= ms.take(i - 1));
        assert(ms.take(i).last() == ms[i - 1]);
        let prev = notify_fold(st, ms.take(i - 1));
        let slots = prev.0;
        let m = ms[i - 1];
        let next = notify_fold(st, ms.take(i)).0;
        assert(next == notify_step(prev, m).0);
        assert(ids_of(ms)[i - 1] == m.id);
        if slot_in(slots, m.id) {
            lemma_first_slot_exists(slots, m.id);
            let k = choose|k: int| is_first_slot(slots, m.id, k);
            assert(next == slots.update(k, SlotView { attached: next[k].attached, data: m }));
            assert forall|a: int, b: int| 0 <= a < b < next.len() implies (#[trigger] next[a]).data.id
                != (#[trigger] next[b]).data.id by {
                assert(next[a].data.id == slots[a].data.id);
                assert(next[b].data.id == slots[b].data.id);
            }
            assert forall|x: int| 0 <= x < next.len() implies ids_of(ms).contains(
                #[trigger] next[x].data.id,
            ) by {
                assert(next[x].data.id == slots[x].data.id);
            }
            assert forall|j: int| #![trigger ms[j]] 0 <= j < i implies exists|x: int|
                0 <= x < next.len() && (#[trigger] next[x]).data == ms[j] by {
                if j == i - 1 {
                    assert(next[k].data == ms[j]);
                } else {
                    let x = choose|x: int| 0 <= x < slots.len() && (#[trigger] slots[x]).data == ms[j];
                    if x == k {
                        assert(ms[j].id == m.id);
                        assert(ms[j].id != ms[i - 1].id);
                    }
                    assert(next[x].data == ms[j]);
                }
            }
        } else {
            assert(next == slots.push(SlotView { attached: false, data: m }));
            assert forall|a: int, b: int| 0 <= a < b < next.len() implies (#[trigger] next[a]).data.id
                != (#[trigger] next[b]).data.id by {
                if b == slots.len() {
                    assert(next[a] == slots[a]);
                    assert(slots[a].data.id != m.id);
                } else {
                    assert(next[a] == slots[a]);
                    assert(next[b] == slots[b]);
                }
            }
            assert forall|x: int| 0 <= x < next.len() implies ids_of(ms).contains(
                #[trigger] next[x].data.id,
            ) by {
                if x < slots.len() {
                    assert(next[x] == slots[x]);
                }
            }
            assert forall|j: int| #![trigger ms[j]] 0 <= j < i implies exists|x: int|
                0 <= x < next.len() && (#[trigger] next[x]).data == ms[j] by {
                if j == i - 1 {
                    assert(next[slots.len() as int].data == ms[j]);
                } else {
                    let x = choose|x: int| 0 <= x < slots.len() && (#[trigger] slots[x]).data == ms[j];
                    assert(next[x] == slots[x]);
                }
            }
        }
    } else {
        assert(ms.take(0) =~= Seq::<MonitorView>::empty());
    }
}

/// After a notify with a valid list, the driver holds exactly the monitors
/// sent: each sent monitor is held with the value sent, no other monitor is
/// held, and no two held monitors share an id.
pub proof fn law_notify_holds_sent(slots: Seq<SlotView>, ms: Seq<MonitorView>)
    requires
        slot_ids_unique(slots),
        monitors_valid(ms),
    ensures
        slot_ids_unique(notify_spec(slots, ms).0),
        forall|j: int|
            #![trigger ms[j]]
            0 <= j < ms.len() ==> exists|k: int|
                0 <= k < notify_spec(slots, ms).0.len() && (#[trigger] notify_spec(
                    slots,
                    ms,
                ).0[k]).data == ms[j],
        forall|k: int|
            #![trigger notify_spec(slots, ms).0[k]]
            0 <= k < notify_spec(slots, ms).0.len() ==> exists|j: int|
                0 <= j < ms.len() && notify_spec(slots, ms).0[k].data == #[trigger] ms[j],
{
    let sent = ids_of(ms);
    let (kept, deps) = retain_sent(slots, sent);
    let f = lemma_retain_sent(slots, sent);
    assert(notify_progress(kept, ms, 0)) by {
        assert forall|a: int, b: int| 0 <= a < b < kept.len() implies (#[trigger] kept[a]).data.id
            != (#[trigger] kept[b]).data.id by {
            assert(f(a) < f(b));
            assert(kept[a] == slots[f(a)]);
            assert(kept[b] == slots[f(b)]);
            assert(slots[f(a)].data.id != slots[f(b)].data.id);
        }
        assert forall|k: int| 0 <= k < kept.len() implies sent.contains(#[trigger] kept[k].data.id) by {
            assert(kept[k] == slots[f(k)]);
        }
    }
    let st: NotifyState = (kept, deps, Seq::empty());
    lemma_notify_fold_progress(st, ms, ms.len() as int);
    assert(ms.take(ms.len() as int) =~= ms);
    let r = notify_spec(slots, ms).0;
    assert(r == notify_fold(st, ms).0);
    assert forall|k: int| #![trigger r[k]] 0 <= k < r.len() implies exists|j: int|
        0 <= j < ms.len() && r[k].data == #[trigger] ms[j] by {
        assert(sent.contains(r[k].data.id));
        let j = choose|j: int| 0 <= j < sent.len() && sent[j] == r[k].data.id;
        assert(sent[j] == ms[j].id);
        let x = choose|x: int| 0 <= x < r.len() && (#[trigger] r[x]).data == ms[j];
        if x != k {
            if x < k {
                assert(r[x].data.id != r[k].data.id);
            } else {
                assert(r[k].data.id != r[x].data.id);
            }
        }
    }
}

/// The slot held for `id`, where there is one: the first with that id.
pub open spec fn slot_for(slots: Seq<SlotView>, id: Id) -> Option<SlotView> {
    if slot_in(slots, id) {
        Some(slots[choose|k: int| is_first_slot(slots, id, k)])
    } else {
        None
    }
}

pub(crate) proof fn lemma_push_has(s: Seq<Id>, a: Id, x: Id)
    ensures
        s.push(a).contains(x) <==> (s.contains(x) || a == x),
{
    if s.contains(x) {
        let i = choose|i: int| 0 <= i < s.len() && s[i] == x;
        assert(s.push(a)[i] == x);
    }
    if a == x {
        assert(s.push(a)[s.len() as int] == x);
    }
    if s.push(a).contains(x) {
        let i = choose|i: int| 0 <= i < s.push(a).len() && s.push(a)[i] == x;
        if i < s.len() {
            assert(s[i] == x);
        }
    }
}

proof fn lemma_first_slot_unique(slots: Seq<SlotView>, id: Id, a: int, b: int)
    requires
        is_first_slot(slots, id, a),
        is_first_slot(slots, id, b),
    ensures
        a == b,
{
    if a < b {
        assert(slots[a].data.id != id);
    } else if b < a {
        assert(slots[b].data.id != id);
    }
}

pub(crate) proof fn lemma_slot_for_first(slots: Seq<SlotView>, id: Id, k: int)
    requires
        is_first_slot(slots, id, k),
    ensures
        slot_for(slots, id) == Some(slots[k]),
{
    assert(slots[k].data.id == id);
    assert(slot_in(slots, id));
    let q = choose|q: int| is_first_slot(slots, id, q);
    lemma_first_slot_unique(slots, id, q, k);
}

pub(crate) proof fn lemma_slot_for_unique(slots: Seq<SlotView>, id: Id, k: int)
    requires
        slot_ids_unique(slots),
        0 <= k < slots.len(),
        slots[k].data.id == id,
    ensures
        slot_for(slots, id) == Some(slots[k]),
{
    assert forall|j: int| 0 <= j < k implies (#[trigger] slots[j]).data.id != id by {
        assert(slots[j].data.id != slots[k].data.id);
    }
    assert(is_first_slot(slots, id, k));
    lemma_slot_for_first(slots, id, k);
}

/// A step for another id leaves the slot held for `id` and whether `id` is
/// to be detached as they were, and adds one arrival decision, for the
/// monitor of the step.
proof fn lemma_notify_step_frame(st: NotifyState, m: MonitorView, id: Id)
    requires
        m.id != id,
    ensures
        slot_for(notify_step(st, m).0, id) == slot_for(st.0, id),
        notify_step(st, m).1.contains(id) == st.1.contains(id),
        notify_step(st, m).2 == st.2.push((m.id, notify_step(st, m).2.last().1)),
{
    let slots = st.0;
    let next = notify_step(st, m).0;
    if slot_in(slots, m.id) {
        lemma_first_slot_exists(slots, m.id);
        let k = choose|k: int| is_first_slot(slots, m.id, k);
        assert(next.len() == slots.len());
        if slot_in(slots, id) {
            lemma_first_slot_exists(slots, id);
            let q = choose|q: int| is_first_slot(slots, id, q);
            assert(q != k);
            assert forall|j: int| 0 <= j < q implies (#[trigger] next[j]).data.id != id by {
                if j != k {
                    assert(next[j] == slots[j]);
                }
            }
            assert(next[q] == slots[q]);
            assert(is_first_slot(next, id, q));
            lemma_slot_for_first(next, id, q);
            lemma_slot_for_first(slots, id, q);
        } else {
            assert forall|x: int| 0 <= x < next.len() implies (#[trigger] next[x]).data.id != id by {
                if x != k {
                    assert(next[x] == slots[x]);
                }
            }
        }
        lemma_push_has(st.1, m.id, id);
    } else {
        assert(next.len() == slots.len() + 1);
        if slot_in(slots, id) {
            lemma_first_slot_exists(slots, id);
            let q = choose|q: int| is_first_slot(slots, id, q);
            assert forall|j: int| 0 <= j < q implies (#[trigger] next[j]).data.id != id by {
                assert(next[j] == slots[j]);
            }
            assert(next[q] == slots[q]);
            assert(is_first_slot(next, id, q));
            lemma_slot_for_first(next, id, q);
            lemma_slot_for_first(slots, id, q);
        } else {
            assert forall|x: int| 0 <= x < next.len() implies (#[trigger] next[x]).data.id != id by {
                if x < slots.len() {
                    assert(next[x] == slots[x]);
                }
            }
        }
    }
}

/// Steps for other ids, from monitor `a` to monitor `b`, leave the slot
/// held for `id` and whether it is to be detached as they were.
proof fn lemma_notify_fold_frame(st: NotifyState, ms: Seq<MonitorView>, a: int, b: int, id: Id)
    requires
        0 <= a <= b <= ms.len(),
        forall|x: int| a <= x < b ==> (#[trigger] ms[x]).id != id,
    ensures
        slot_for(notify_fold(st, ms.take(b)).0, id) == slot_for(notify_fold(st, ms.take(a)).0, id),
        notify_fold(st, ms.take(b)).1.contains(id) == notify_fold(st, ms.take(a)).1.contains(id),
    decreases b - a,
{
    if a < b {
        lemma_notify_fold_frame(st, ms, a, b - 1, id);
        assert(ms.take(b).drop_last() =~= ms.take(b - 1));
        assert(ms.take(b).last() == ms[b - 1]);
        lemma_notify_step_frame(notify_fold(st, ms.take(b - 1)), ms[b - 1], id);
    }
}

/// The arrival decisions grow by one per monitor sent, the earlier ones
/// staying as they were.
proof fn lemma_notify_fold_arrivals(st: NotifyState, ms: Seq<MonitorView>, j: int)
    requires
        0 <= j <= ms.len(),
    ensures
        notify_fold(st, ms).2.len() == st.2.len() + ms.len(),
        notify_fold(st, ms).2.take(st.2.len() + j) == notify_fold(st, ms.take(j)).2,
    decreases ms.len(),
{
    if ms.len() > 0 {
        let pre = ms.drop_last();
        if j < ms.len() {
            lemma_notify_fold_arrivals(st, pre, j);
            assert(pre.take(j) =~= ms.take(j));
            assert(notify_fold(st, ms).2.take(st.2.len() + j) =~= notify_fold(st, pre).2.take(
                st.2.len() + j,
            ));
        } else {
            lemma_notify_fold_arrivals(st, pre, 0);
            assert(ms.take(j) =~= ms);
            assert(notify_fold(st, ms).2.take(st.2.len() + j) =~= notify_fold(st, ms).2);
        }
    } else {
        assert(ms.take(j) =~= ms);
        assert(st.2.take(st.2.len() + j) =~= st.2);
    }
}

/// Every slot with a sent id is kept by the first phase.
proof fn lemma_retain_keeps_sent(slots: Seq<SlotView>, sent: Seq<Id>, k: int)
    requires
        0 <= k < slots.len(),
        sent.contains(slots[k].data.id),
    ensures
        exists|x: int|
            0 <= x < retain_sent(slots, sent).0.len() && retain_sent(slots, sent).0[x] == slots[k],
    decreases slots.len(),
{
    let t = slots.drop_last();
    let r = retain_sent(slots, sent).0;
    if k == slots.len() - 1 {
        assert(r[r.len() - 1] == slots[k]);
    } else {
        assert(t[k] == slots[k]);
        lemma_retain_keeps_sent(t, sent, k);
        let x = choose|x: int|
            0 <= x < retain_sent(t, sent).0.len() && retain_sent(t, sent).0[x] == t[k];
        assert(r[x] == retain_sent(t, sent).0[x]);
    }
}

/// The first phase detaches only monitors whose id is not sent.
proof fn lemma_retain_departures_unsent(slots: Seq<SlotView>, sent: Seq<Id>, id: Id)
    requires
        sent.contains(id),
    ensures
        !retain_sent(slots, sent).1.contains(id),
    decreases slots.len(),
{
    if slots.len() > 0 {
        let t = slots.drop_last();
        lemma_retain_departures_unsent(t, sent, id);
        lemma_push_has(retain_sent(t, sent).1, slots.last().data.id, id);
    }
}

/// The first phase keeps the slot held for a sent id, and keeps ids unique.
proof fn lemma_kept_slot_for(slots: Seq<SlotView>, sent: Seq<Id>, id: Id)
    requires
        slot_ids_unique(slots),
        sent.contains(id),
    ensures
        slot_ids_unique(retain_sent(slots, sent).0),
        slot_for(retain_sent(slots, sent).0, id) == slot_for(slots, id),
{
    let kept = retain_sent(slots, sent).0;
    let f = lemma_retain_sent(slots, sent);
    assert forall|a: int, b: int| 0 <= a < b < kept.len() implies (#[trigger] kept[a]).data.id
        != (#[trigger] kept[b]).data.id by {
        assert(f(a) < f(b));
        assert(kept[a] == slots[f(a)]);
        assert(kept[b] == slots[f(b)]);
        assert(slots[f(a)].data.id != slots[f(b)].data.id);
    }
    if slot_in(slots, id) {
        let k = choose|k: int| 0 <= k < slots.len() && (#[trigger] slots[k]).data.id == id;
        lemma_slot_for_unique(slots, id, k);
        lemma_retain_keeps_sent(slots, sent, k);
        let x = choose|x: int| 0 <= x < kept.len() && kept[x] == slots[k];
        lemma_slot_for_unique(kept, id, x);
    } else {
        assert forall|x: int| 0 <= x < kept.len() implies (#[trigger] kept[x]).data.id != id by {
            assert(kept[x] == slots[f(x)]);
        }
    }
}

/// What the step for monitor `m` does to the slot held for its own id,
/// to whether that id is to be detached, and to the arrival decisions.
proof fn lemma_notify_step_own(st: NotifyState, m: MonitorView)
    ensures
        ({
            let next = notify_step(st, m);
            match slot_for(st.0, m.id) {
                Some(cur) => {
                    let changed = cur.data.modes != m.modes;
                    let detach = changed || !m.enabled;
                    &&& slot_for(next.0, m.id) == Some(
                        SlotView { attached: !detach && cur.attached, data: m },
                    )
                    &&& next.1.contains(m.id) == (st.1.contains(m.id) || (detach && cur.attached))
                    &&& next.2 == st.2.push(
                        (
                            m.id,
                            (!cur.data.enabled && m.enabled) || (m.enabled && changed) || (m.enabled
                                && !cur.attached),
                        ),
                    )
                },
                None => {
                    &&& slot_for(next.0, m.id) == Some(SlotView { attached: false, data: m })
                    &&& next.1 == st.1
                    &&& next.2 == st.2.push((m.id, m.enabled))
                },
            }
        }),
{
    let pslots = st.0;
    let nslots = notify_step(st, m).0;
    if slot_in(pslots, m.id) {
        lemma_first_slot_exists(pslots, m.id);
        let q = choose|q: int| is_first_slot(pslots, m.id, q);
        lemma_slot_for_first(pslots, m.id, q);
        assert(nslots.len() == pslots.len());
        assert forall|i: int| 0 <= i < q implies (#[trigger] nslots[i]).data.id != m.id by {
            assert(nslots[i] == pslots[i]);
        }
        assert(is_first_slot(nslots, m.id, q));
        lemma_slot_for_first(nslots, m.id, q);
        lemma_push_has(st.1, m.id, m.id);
    } else {
        assert(nslots[pslots.len() as int].data == m);
        assert forall|i: int| 0 <= i < pslots.len() implies (#[trigger] nslots[i]).data.id != m.id by {
            assert(nslots[i] == pslots[i]);
        }
        assert(is_first_slot(nslots, m.id, pslots.len() as int));
        lemma_slot_for_first(nslots, m.id, pslots.len() as int);
    }
}

/// What a notify with a valid list does to monitor `j` sent, in terms of
/// the slot held for its id before and after.
proof fn lemma_notify_sent(slots: Seq<SlotView>, ms: Seq<MonitorView>, j: int)
    requires
        slot_ids_unique(slots),
        monitors_valid(ms),
        0 <= j < ms.len(),
    ensures
        ({
            let (ns, deps, arrs) = notify_spec(slots, ms);
            let m = ms[j];
            &&& arrs.len() == ms.len()
            &&& match slot_for(slots, m.id) {
                Some(cur) => {
                    let changed = cur.data.modes != m.modes;
                    let detach = changed || !m.enabled;
                    &&& slot_for(ns, m.id) == Some(
                        SlotView { attached: !detach && cur.attached, data: m },
                    )
                    &&& deps.contains(m.id) == (detach && cur.attached)
                    &&& arrs[j] == (
                        m.id,
                        (!cur.data.enabled && m.enabled) || (m.enabled && changed) || (m.enabled
                            && !cur.attached),
                    )
                },
                None => {
                    &&& slot_for(ns, m.id) == Some(SlotView { attached: false, data: m })
                    &&& !deps.contains(m.id)
                    &&& arrs[j] == (m.id, m.enabled)
                },
            }
        }),
{
    let m = ms[j];
    let sent = ids_of(ms);
    assert(sent[j] == m.id);
    let (kept, deps0) = retain_sent(slots, sent);
    let st: NotifyState = (kept, deps0, Seq::empty());
    lemma_kept_slot_for(slots, sent, m.id);
    lemma_retain_departures_unsent(slots, sent, m.id);
    assert(ms.take(ms.len() as int) =~= ms);
    assert(ms.take(0) =~= Seq::<MonitorView>::empty());
    assert forall|x: int| 0 <= x < j implies (#[trigger] ms[x]).id != m.id by {
        assert(ms[x].id != ms[j].id);
    }
    lemma_notify_fold_frame(st, ms, 0, j, m.id);
    let prev = notify_fold(st, ms.take(j));
    assert(ms.take(j + 1).drop_last() =~= ms.take(j));
    assert(ms.take(j + 1).last() == m);
    let next = notify_fold(st, ms.take(j + 1));
    assert(next == notify_step(prev, m));
    lemma_notify_step_own(prev, m);
    assert forall|x: int| j + 1 <= x < ms.len() implies (#[trigger] ms[x]).id != m.id by {
        assert(ms[j].id != ms[x].id);
    }
    lemma_notify_fold_frame(st, ms, j + 1, ms.len() as int, m.id);
    lemma_notify_fold_arrivals(st, ms, j + 1);
    lemma_notify_fold_arrivals(st, ms.take(j), j);
    assert(ms.take(j).take(j) =~= ms.take(j));
    assert(notify_spec(slots, ms) == notify_fold(st, ms.take(ms.len() as int)));
    assert(notify_spec(slots, ms).2[j] == next.2[j]);
}

/// The first phase detaches a monitor whose id is not sent exactly when it
/// is attached.
proof fn lemma_retain_departures_dropped(slots: Seq<SlotView>, sent: Seq<Id>, k: int)
    requires
        slot_ids_unique(slots),
        0 <= k < slots.len(),
        !sent.contains(slots[k].data.id),
    ensures
        retain_sent(slots, sent).1.contains(slots[k].data.id) == slots[k].attached,
    decreases slots.len(),
{
    let t = slots.drop_last();
    let id = slots[k].data.id;
    let x = slots.last();
    assert forall|a: int, b: int| 0 <= a < b < t.len() implies (#[trigger] t[a]).data.id
        != (#[trigger] t[b]).data.id by {
        assert(t[a] == slots[a] && t[b] == slots[b]);
    }
    lemma_push_has(retain_sent(t, sent).1, x.data.id, id);
    if k == slots.len() - 1 {
        assert forall|i: int| 0 <= i < t.len() implies (#[trigger] t[i]).data.id != id by {
            assert(t[i] == slots[i]);
            assert(slots[i].data.id != slots[k].data.id);
        }
        lemma_retain_departures_absent(t, sent, id);
    } else {
        assert(t[k] == slots[k]);
        lemma_retain_departures_dropped(t, sent, k);
        assert(x.data.id != id) by {
            assert(slots[k].data.id != slots[slots.len() - 1].data.id);
        }
    }
}

/// The first phase detaches no id that no slot has.
proof fn lemma_retain_departures_absent(slots: Seq<SlotView>, sent: Seq<Id>, id: Id)
    requires
        forall|i: int| 0 <= i < slots.len() ==> (#[trigger] slots[i]).data.id != id,
    ensures
        !retain_sent(slots, sent).1.contains(id),
    decreases slots.len(),
{
    if slots.len() > 0 {
        let t = slots.drop_last();
        assert forall|i: int| 0 <= i < t.len() implies (#[trigger] t[i]).data.id != id by {
            assert(t[i] == slots[i]);
        }
        lemma_retain_departures_absent(t, sent, id);
        lemma_push_has(retain_sent(t, sent).1, slots.last().data.id, id);
    }
}

/// A notify with a valid list drops every monitor whose id is not sent, and
/// detaches it exactly when it was attached.
pub proof fn law_notify_drops_unsent(slots: Seq<SlotView>, ms: Seq<MonitorView>, k: int)
    requires
        slot_ids_unique(slots),
        monitors_valid(ms),
        0 <= k < slots.len(),
        forall|j: int| 0 <= j < ms.len() ==> (#[trigger] ms[j]).id != slots[k].data.id,
    ensures
        ({
            let (ns, deps, arrs) = notify_spec(slots, ms);
            &&& deps.contains(slots[k].data.id) == slots[k].attached
            &&& forall|x: int| 0 <= x < ns.len() ==> (#[trigger] ns[x]).data.id != slots[k].data.id
        }),
{
    let id = slots[k].data.id;
    let sent = ids_of(ms);
    assert(!sent.contains(id)) by {
        if sent.contains(id) {
            let j = choose|j: int| 0 <= j < sent.len() && sent[j] == id;
            assert(ms[j].id == id);
        }
    }
    let (kept, deps0) = retain_sent(slots, sent);
    let st: NotifyState = (kept, deps0, Seq::empty());
    lemma_retain_departures_dropped(slots, sent, k);
    lemma_notify_fold_frame(st, ms, 0, ms.len() as int, id);
    assert(ms.take(ms.len() as int) =~= ms);
    assert(ms.take(0) =~= Seq::<MonitorView>::empty());
    assert(notify_spec(slots, ms) == notify_fold(st, ms.take(ms.len() as int)));
    law_notify_holds_sent(slots, ms);
    let ns = notify_spec(slots, ms).0;
    assert forall|x: int| 0 <= x < ns.len() implies (#[trigger] ns[x]).data.id != id by {
        let j = choose|j: int| 0 <= j < ms.len() && ns[x].data == #[trigger] ms[j];
        assert(ms[j].id != id);
    }
}

/// What a notify with a valid list does to each monitor sent, against what
/// the driver held before:
/// - a held monitor sent enabled with the same modes (a change of name
///   only, say) is not detached and keeps its attached flag;
/// - a held monitor sent disabled, or with other modes, is held afterwards
///   as not attached, and is detached when it was attached;
/// - a held monitor that is not attached is never detached;
/// - it is to be attached when it is sent enabled and was disabled, or its
///   modes changed, or it was not attached;
/// - a monitor not held before is not detached, is held as not attached,
///   and is to be attached exactly when it is sent enabled.
///
/// The arrival decisions come in the order of the monitors sent.
pub proof fn law_notify_detach_and_attach(slots: Seq<SlotView>, ms: Seq<MonitorView>, j: int)
    requires
        slot_ids_unique(slots),
        monitors_valid(ms),
        0 <= j < ms.len(),
    ensures
        ({
            let (ns, deps, arrs) = notify_spec(slots, ms);
            let m = ms[j];
            &&& arrs.len() == ms.len()
            &&& arrs[j].0 == m.id
            &&& forall|k: int|
                #![trigger slots[k]]
                0 <= k < slots.len() && slots[k].data.id == m.id ==> {
                    let cur = slots[k];
                    &&& (cur.data.modes == m.modes && m.enabled) ==> !deps.contains(m.id)
                        && forall|x: int|
                        0 <= x < ns.len() && (#[trigger] ns[x]).data.id == m.id ==> ns[x].attached
                            == cur.attached
                    &&& (!m.enabled || cur.data.modes != m.modes) ==> forall|x: int|
                        0 <= x < ns.len() && (#[trigger] ns[x]).data.id == m.id ==> !ns[x].attached
                    &&& (cur.attached && (!m.enabled || cur.data.modes != m.modes)) ==> deps.contains(
                        m.id,
                    )
                    &&& !cur.attached ==> !deps.contains(m.id)
                    &&& arrs[j].1 == (m.enabled && (!cur.data.enabled || cur.data.modes != m.modes
                        || !cur.attached))
                }
            &&& (forall|k: int| 0 <= k < slots.len() ==> (#[trigger] slots[k]).data.id != m.id) ==> {
                &&& !deps.contains(m.id)
                &&& arrs[j].1 == m.enabled
                &&& forall|x: int|
                    0 <= x < ns.len() && (#[trigger] ns[x]).data.id == m.id ==> !ns[x].attached
            }
        }),
{
    let m = ms[j];
    let ns = notify_spec(slots, ms).0;
    lemma_notify_sent(slots, ms, j);
    law_notify_holds_sent(slots, ms);
    assert forall|x: int| 0 <= x < ns.len() && (#[trigger] ns[x]).data.id == m.id implies slot_for(
        ns,
        m.id,
    ) == Some(ns[x]) by {
        lemma_slot_for_unique(ns, m.id, x);
    }
    assert forall|k: int| 0 <= k < slots.len() && (#[trigger] slots[k]).data.id == m.id implies slot_for(
        slots,
        m.id,
    ) == Some(slots[k]) by {
        lemma_slot_for_unique(slots, m.id, k);
    }
}

/// Marks the first monitor with id `id` as attached, after the system
/// accepted it.
pub fn mark_attached(registry: &mut Vec<MonitorObject>, id: Id) -> (found: bool)
    ensures
        found <==> slot_in(slots_view(old(registry)@), id),
        found ==> exists|k: int|
            is_first_slot(slots_view(old(registry)@), id, k) && slots_view(final(registry)@)
                == slots_view(old(registry)@).update(
                k,
                SlotView { attached: true, data: slots_view(old(registry)@)[k].data },
            ),
        !found ==> final(registry)@ == old(registry)@,
{
    match position_of_slot(registry, id) {
        Some(p) => {
            let ghost before = slots_view(registry@);
            let slot = &mut registry[p];
            slot.attached = true;
            assert(slots_view(registry@) =~= before.update(
                p as int,
                SlotView { attached: true, data: before[p as int].data },
            ));
            true
        },
        None => false,
    }
}

/// Removes the monitors of each listed id in turn, and returns the ids of
/// the attached ones to detach.
pub fn remove(registry: &mut Vec<MonitorObject>, ids: &[Id]) -> (departures: Vec<Id>)
    ensures
        slots_view(final(registry)@) == remove_spec(slots_view(old(registry)@), ids@).0,
        departures@ == remove_spec(slots_view(old(registry)@), ids@).1,
{
    let ghost start = slots_view(registry@);
    let mut departures: Vec<Id> = Vec::new();
    for i in 0..ids.len()
        invariant
            slots_view(registry@) == remove_spec(start, ids@.take(i as int)).0,
            departures@ == remove_spec(start, ids@.take(i as int)).1,
    {
        let id = ids[i];
        let ghost s1 = slots_view(registry@);
        let ghost d1 = departures@;
        proof {
            assert(ids@.take(i + 1).drop_last() =~= ids@.take(i as int));
            assert(ids@.take(i + 1).last() == id);
        }
        let mut olds: Vec<MonitorObject> = Vec::new();
        std::mem::swap(registry, &mut olds);
        let ghost o = olds@;
        let ghost start_deps = departures@;
        for x in it: olds
            invariant
                it.seq() == o,
                s1 == slots_view(o),
                d1 == start_deps,
                ({
                    let (kept, deps) = remove_one(slots_view(o.take(it.index() as int)), id);
                    slots_view(registry@) == kept && departures@ == start_deps + deps
                }),
        {
            let ghost k = it.index() as int;
            let ghost before = registry@;
            let ghost dbefore = departures@;
            proof {
                assert(o.take(k + 1).drop_last() == o.take(k));
                assert(slots_view(o.take(k + 1)).drop_last() =~= slots_view(o.take(k)));
                assert(slots_view(o.take(k + 1)).last() == x@);
            }
            if x.data.id != id {
                registry.push(x);
                proof {
                    lemma_slots_view_push(before, x);
                }
            } else if x.attached {
                departures.push(id);
                proof {
                    let (kept, deps) = remove_one(slots_view(o.take(k)), id);
                    assert(departures@ =~= start_deps + deps.push(id));
                }
            }
        }
        assert(o.take(o.len() as int) == o);
    }
    assert(ids@.take(ids.len() as int) == ids@);
    departures
}

/// Removes every monitor, and returns the ids of the attached ones to
/// detach.
pub fn remove_all(registry: &mut Vec<MonitorObject>) -> (departures: Vec<Id>)
    ensures
        final(registry)@.len() == 0,
        departures@ == attached_ids(slots_view(old(registry)@)),
{
    let mut departures: Vec<Id> = Vec::new();
    let ghost s = slots_view(registry@);
    for i in 0..registry.len()
        invariant
            s == slots_view(registry@),
            departures@ == attached_ids(s.take(i as int)),
    {
        proof {
            assert(s.take(i + 1).drop_last() =~= s.take(i as int));
            assert(s.take(i + 1).last() == registry@[i as int]@);
        }
        if registry[i].attached {
            departures.push(registry[i].data.id);
        }
    }
    assert(s.take(s.len() as int) == s);
    registry.clear();
    departures
}

/// How many monitors the driver knows.
pub fn monitor_count(registry: &Vec<MonitorObject>) -> (n: usize)
    ensures
        n == registry@.len(),
{
    registry.len()
}

/// The monitor values of a list of slots.
pub open spec fn slots_data(slots: Seq<SlotView>) -> Seq<MonitorView> {
    slots.map_values(|s: SlotView| s.data)
}

/// The monitor values of the driver's list, as a state reply sends them.
pub fn current_state(registry: &Vec<MonitorObject>) -> (res: Vec<Monitor>)
    ensures
        monitors_view(res@) == slots_data(slots_view(registry@)),
{
    let mut res: Vec<Monitor> = Vec::new();
    for i in 0..registry.len()
        invariant
            monitors_view(res@) == slots_data(slots_view(registry@)).take(
                i as int,
            ),
    {
        let ghost before = res@;
        let m = registry[i].data.duplicate();
        res.push(m);
        proof {
            crate::model::lemma_monitors_view_push(before, m);
        }
        assert(monitors_view(res@) =~= slots_data(slots_view(registry@)).take(
            i + 1,
        ));
    }
    assert(slots_data(slots_view(registry@)).take(registry.len() as int)
        =~= slots_data(slots_view(registry@)));
    res
}


/// What the driver does after a command from a client: the monitors to
/// detach and to attach, the state to announce to the other clients, and
/// the reply to the sender.
pub struct DriverResponse {
    pub departures: Vec<Id>,
    pub arrivals: Vec<(Id, bool)>,
    pub changed: Option<Vec<Monitor>>,
    pub reply: Option<Vec<Monitor>>,
}

/// Handles one command from a client: a notify is applied and the monitors
/// sent are announced; a remove or a remove-all is applied and the
/// resulting state announced; a state request is answered with the state.
pub fn handle_command(registry: &mut Vec<MonitorObject>, command: ServerCommand) -> (res: DriverResponse)
    ensures
        match command {
            ServerCommand::Driver(DriverCommand::Notify(ms)) => {
                let (slots, deps, arrs) = notify_spec(slots_view(old(registry)@), monitors_view(ms@));
                &&& slots_view(final(registry)@) == slots
                &&& res.departures@ == deps
                &&& res.arrivals@ == arrs
                &&& res.changed matches Some(c) && monitors_view(c@) == monitors_view(ms@)
                &&& res.reply is None
            },
            ServerCommand::Driver(DriverCommand::Remove(ids)) => {
                let (slots, deps) = remove_spec(slots_view(old(registry)@), ids@);
                &&& slots_view(final(registry)@) == slots
                &&& res.departures@ == deps
                &&& res.arrivals@.len() == 0
                &&& res.changed matches Some(c) && monitors_view(c@) == slots_data(slots)
                &&& res.reply is None
            },
            ServerCommand::Driver(DriverCommand::RemoveAll) => {
                &&& final(registry)@.len() == 0
                &&& res.departures@ == attached_ids(slots_view(old(registry)@))
                &&& res.arrivals@.len() == 0
                &&& res.changed matches Some(c) && c@.len() == 0
                &&& res.reply is None
            },
            ServerCommand::Request(RequestCommand::State) => {
                &&& final(registry)@ == old(registry)@
                &&& res.departures@.len() == 0
                &&& res.arrivals@.len() == 0
                &&& res.changed is None
                &&& res.reply matches Some(r) && monitors_view(r@) == slots_data(slots_view(old(registry)@))
            },
        },
{
    match command {
        ServerCommand::Driver(DriverCommand::Notify(ms)) => {
            let sent = copy_monitors(ms.as_slice());
            let plan = notify(registry, ms);
            DriverResponse {
                departures: plan.departures,
                arrivals: plan.arrivals,
                changed: Some(sent),
                reply: None,
            }
        },
        ServerCommand::Driver(DriverCommand::Remove(ids)) => {
            let departures = remove(registry, ids.as_slice());
            let state = current_state(registry);
            DriverResponse { departures, arrivals: Vec::new(), changed: Some(state), reply: None }
        },
        ServerCommand::Driver(DriverCommand::RemoveAll) => {
            let departures = remove_all(registry);
            DriverResponse { departures, arrivals: Vec::new(), changed: Some(Vec::new()), reply: None }
        },
        ServerCommand::Request(RequestCommand::State) => {
            let state = current_state(registry);
            DriverResponse {
                departures: Vec::new(),
                arrivals: Vec::new(),
                changed: None,
                reply: Some(state),
            }
        },
    }
}
} // verus!
