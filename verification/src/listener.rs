//! The driver's handling of the flat control protocol: each message is a
//! little-endian 64-bit length followed by that many bytes of text, and
//! lengths of a mebibyte or more are refused; monitors are added when their
//! id is new, merged into the list in place, and removed all at once.

use vstd::prelude::*;

use crate::driver_client::id_listed;
use crate::model::{modes_equal, Id, Monitor, MonitorView, monitors_view};
use crate::registry::{
    is_first_slot, lemma_first_slot_exists, lemma_push_has, lemma_slot_for_first,
    lemma_slots_view_push, slot_for, position_of_slot, slot_in, slots_view, MonitorObject,
    NotifyPlan, NotifyState, SlotView,
};

verus! {

/// The largest message body the driver reads, plus one.
pub const MAX_MESSAGE_LEN: u64 = 1048576;

/// The number a list of bytes denotes, least significant byte first.
pub open spec fn le_value(bytes: Seq<u8>) -> nat
    decreases bytes.len(),
{
    if bytes.len() == 0 {
        0
    } else {
        bytes[0] as nat + 256 * le_value(bytes.drop_first())
    }
}

/// `256` to the power `n`.
pub open spec fn pow256(n: nat) -> nat
    decreases n,
{
    if n == 0 {
        1
    } else {
        256 * pow256((n - 1) as nat)
    }
}

/// A number written in `n` bytes is below `256` to the power `n`.
proof fn lemma_le_value_bound(bytes: Seq<u8>)
    ensures
        le_value(bytes) < pow256(bytes.len()),
    decreases bytes.len(),
{
    if bytes.len() > 0 {
        lemma_le_value_bound(bytes.drop_first());
        let r = le_value(bytes.drop_first());
        let p = pow256((bytes.len() - 1) as nat);
        assert(bytes[0] as nat + 256 * r < 256 * p) by (nonlinear_arith)
            requires
                r < p,
                bytes[0] < 256,
        ;
    }
}

/// Powers of 256 grow with the exponent.
proof fn lemma_pow256_monotonic(a: nat, b: nat)
    requires
        a <= b,
    ensures
        pow256(a) <= pow256(b),
    decreases b,
{
    if a < b {
        lemma_pow256_monotonic(a, (b - 1) as nat);
    }
}

/// The length field of a message.
pub fn message_length(bytes: [u8; 8]) -> (res: u64)
    ensures
        res == le_value(bytes@),
{
    let mut v: u64 = 0;
    let mut i: usize = 8;
    proof {
        assert(bytes@.subrange(8, 8) =~= Seq::<u8>::empty());
    }
    while i > 0
        invariant
            i <= 8,
            bytes@.len() == 8,
            v == le_value(bytes@.subrange(i as int, 8)),
        decreases i,
    {
        i = i - 1;
        let ghost tail = bytes@.subrange(i + 1, 8);
        proof {
            lemma_le_value_bound(tail);
            lemma_pow256_monotonic(tail.len(), 7);
            assert(pow256(7) == 0x100000000000000) by {
                reveal_with_fuel(pow256, 8);
            }
            assert(bytes@.subrange(i as int, 8).drop_first() =~= tail);
            assert(v * 256 + bytes@[i as int] <= u64::MAX) by (nonlinear_arith)
                requires
                    v < 0x100000000000000,
                    bytes@[i as int] < 256,
            ;
        }
        v = v * 256 + bytes[i] as u64;
    }
    assert(bytes@.subrange(0, 8) =~= bytes@);
    v
}

/// Whether a message of this length is read: it must be below a mebibyte.
pub fn length_accepted(len: u64) -> (res: bool)
    ensures
        res == (len < MAX_MESSAGE_LEN),
{
    len < MAX_MESSAGE_LEN
}

/// One monitor merged into the list. A known monitor takes the new value;
/// it is detached when its modes changed or it is disabled, and attached
/// when it was just enabled or is enabled and its modes changed. An unknown
/// monitor is added, to be attached when enabled.
pub open spec fn merge_step(st: NotifyState, m: MonitorView) -> NotifyState {
    let (slots, deps, arrs) = st;
    if slot_in(slots, m.id) {
        let k = choose|k: int| is_first_slot(slots, m.id, k);
        let cur = slots[k];
        let changed = cur.data.modes != m.modes;
        let arrive = (!cur.data.enabled && m.enabled) || (m.enabled && changed);
        let detach = changed || !m.enabled;
        let deps2 = if detach && cur.attached {
            deps.push(m.id)
        } else {
            deps
        };
        let attached = if detach {
            false
        } else {
            cur.attached
        };
        (slots.update(k, SlotView { attached, data: m }), deps2, arrs.push((m.id, arrive)))
    } else {
        (slots.push(SlotView { attached: false, data: m }), deps, arrs.push((m.id, m.enabled)))
    }
}

/// Merging the monitors sent, in order.
pub open spec fn merge_fold(st: NotifyState, ms: Seq<MonitorView>) -> NotifyState
    decreases ms.len(),
{
    if ms.len() == 0 {
        st
    } else {
        merge_step(merge_fold(st, ms.drop_last()), ms.last())
    }
}

/// Adding monitors: each one whose id is not known yet is appended, to be
/// attached. Returns (slots, ids to attach, ids refused).
pub open spec fn add_fold(slots: Seq<SlotView>, ms: Seq<MonitorView>) -> (Seq<SlotView>, Seq<Id>, Seq<Id>)
    decreases ms.len(),
{
    if ms.len() == 0 {
        (slots, Seq::empty(), Seq::empty())
    } else {
        let (s, created, refused) = add_fold(slots, ms.drop_last());
        let m = ms.last();
        if slot_in(s, m.id) {
            (s, created, refused.push(m.id))
        } else {
            (s.push(SlotView { attached: false, data: m }), created.push(m.id), refused)
        }
    }
}

/// The ids of the attached slots before the first detached one, and
/// whether there is a detached one.
pub open spec fn attached_prefix(slots: Seq<SlotView>) -> (Seq<Id>, bool)
    decreases slots.len(),
{
    if slots.len() == 0 {
        (Seq::empty(), false)
    } else {
        let (ids, stopped) = attached_prefix(slots.drop_last());
        if stopped {
            (ids, true)
        } else if slots.last().attached {
            (ids.push(slots.last().data.id), false)
        } else {
            (ids, true)
        }
    }
}

/// What adding monitors decided: the ids to attach, and the ids refused
/// because a monitor with that id is already known.
pub struct AddOutcome {
    pub created: Vec<Id>,
    pub refused: Vec<Id>,
}

/// Merges monitors into the list in place: monitors that are not sent stay,
/// and the list is taken as it comes. Returns what to detach and what to
/// attach.
pub fn merge_monitors(registry: &mut Vec<MonitorObject>, monitors: Vec<Monitor>) -> (plan: NotifyPlan)
    ensures
        ({
            let (slots, deps, arrs) = merge_fold(
                (slots_view(old(registry)@), Seq::empty(), Seq::empty()),
                monitors_view(monitors@),
            );
            &&& slots_view(final(registry)@) == slots
            &&& plan.departures@ == deps
            &&& plan.arrivals@ == arrs
        }),
{
    let ghost ms = monitors_view(monitors@);
    let mut departures: Vec<Id> = Vec::new();
    let mut arrivals: Vec<(Id, bool)> = Vec::new();
    let ghost start: NotifyState = (slots_view(registry@), Seq::empty(), Seq::empty());
    for m in it: monitors
        invariant
            it.seq() == monitors@,
            ms == monitors_view(monitors@),
            ({
                let (slots, deps, arrs) = merge_fold(start, ms.take(it.index() as int));
                slots_view(registry@) == slots && departures@ == deps && arrivals@ == arrs
            }),
    {
        let ghost k = it.index() as int;
        let ghost st: NotifyState = (slots_view(registry@), departures@, arrivals@);
        proof {
            assert(ms.take(k + 1).drop_last() =~= ms.take(k));
            assert(ms.take(k + 1).last() == m@);
        }
        let id = m.id;
        match position_of_slot(registry, id) {
            Some(p) => {
                proof {
                    let q = choose|q: int| is_first_slot(st.0, id, q);
                    if q < p {
                        assert(st.0[q].data.id != id);
                    } else if p < q {
                        assert(st.0[p as int].data.id != id);
                    }
                    assert(slot_in(st.0, id));
                }
                let cur_enabled = registry[p].data.enabled;
                let cur_attached = registry[p].attached;
                let changed = !modes_equal(registry[p].data.modes.as_slice(), m.modes.as_slice());
                let arrive = (!cur_enabled && m.enabled) || (m.enabled && changed);
                let detach = changed || !m.enabled;
                if detach && cur_attached {
                    departures.push(id);
                }
                let attached = if detach {
                    false
                } else {
                    cur_attached
                };
                let ghost mv = m@;
                let ghost before = registry@;
                registry.set(p, MonitorObject { attached, data: m });
                assert(slots_view(registry@) =~= slots_view(before).update(
                    p as int,
                    SlotView { attached, data: mv },
                ));
                arrivals.push((id, arrive));
            },
            None => {
                let enabled = m.enabled;
                let ghost before = registry@;
                let o = MonitorObject { attached: false, data: m };
                registry.push(o);
                proof {
                    lemma_slots_view_push(before, o);
                }
                arrivals.push((id, enabled));
            },
        }
    }
    assert(ms.take(ms.len() as int) == ms);
    NotifyPlan { departures, arrivals }
}

/// Adds the monitors whose id is not known yet, in order; the others are
/// refused.
pub fn add_monitors(registry: &mut Vec<MonitorObject>, monitors: Vec<Monitor>) -> (res: AddOutcome)
    ensures
        ({
            let (slots, created, refused) = add_fold(slots_view(old(registry)@), monitors_view(monitors@));
            &&& slots_view(final(registry)@) == slots
            &&& res.created@ == created
            &&& res.refused@ == refused
        }),
{
    let ghost ms = monitors_view(monitors@);
    let ghost start = slots_view(registry@);
    let mut created: Vec<Id> = Vec::new();
    let mut refused: Vec<Id> = Vec::new();
    for m in it: monitors
        invariant
            it.seq() == monitors@,
            ms == monitors_view(monitors@),
            ({
                let (slots, c, r) = add_fold(start, ms.take(it.index() as int));
                slots_view(registry@) == slots && created@ == c && refused@ == r
            }),
    {
        let ghost k = it.index() as int;
        proof {
            assert(ms.take(k + 1).drop_last() =~= ms.take(k));
            assert(ms.take(k + 1).last() == m@);
        }
        let id = m.id;
        match position_of_slot(registry, id) {
            Some(p) => {
                assert(slot_in(slots_view(registry@), id)) by {
                    assert(slots_view(registry@)[p as int].data.id == id);
                }
                refused.push(id);
            },
            None => {
                let ghost before = registry@;
                let o = MonitorObject { attached: false, data: m };
                registry.push(o);
                proof {
                    lemma_slots_view_push(before, o);
                }
                created.push(id);
            },
        }
    }
    assert(ms.take(ms.len() as int) == ms);
    AddOutcome { created, refused }
}

/// Removes every monitor; the attached ones are detached in order until the
/// first one that is not attached, where detaching stops. Returns the ids
/// to detach and whether it stopped early.
pub fn remove_all_until_detached(registry: &mut Vec<MonitorObject>) -> (res: (Vec<Id>, bool))
    ensures
        final(registry)@.len() == 0,
        res.0@ == attached_prefix(slots_view(old(registry)@)).0,
        res.1 == attached_prefix(slots_view(old(registry)@)).1,
{
    let ghost s = slots_view(registry@);
    let mut departures: Vec<Id> = Vec::new();
    let mut stopped = false;
    for i in 0..registry.len()
        invariant
            s == slots_view(registry@),
            departures@ == attached_prefix(s.take(i as int)).0,
            stopped == attached_prefix(s.take(i as int)).1,
    {
        proof {
            assert(s.take(i + 1).drop_last() =~= s.take(i as int));
            assert(s.take(i + 1).last() == s[i as int]);
        }
        if !stopped {
            if registry[i].attached {
                departures.push(registry[i].data.id);
            } else {
                stopped = true;
            }
        }
    }
    assert(s.take(s.len() as int) =~= s);
    registry.clear();
    (departures, stopped)
}


/// The scan of slots `0..k` for one id: each attached slot with the id is
/// detached; a slot with the id that is not attached stops everything.
/// Returns (detached ids, stopped).
pub open spec fn scan_id(slots: Seq<SlotView>, id: Id, k: int) -> (Seq<Id>, bool)
    decreases k,
{
    if k <= 0 {
        (Seq::empty(), false)
    } else {
        let (ds, stopped) = scan_id(slots, id, k - 1);
        if stopped {
            (ds, true)
        } else if slots[k - 1].data.id == id {
            if slots[k - 1].attached {
                (ds.push(id), false)
            } else {
                (ds, true)
            }
        } else {
            (ds, false)
        }
    }
}

/// The scan for each id in turn, until one stops it.
pub open spec fn scan_ids(slots: Seq<SlotView>, ids: Seq<Id>) -> (Seq<Id>, bool)
    decreases ids.len(),
{
    if ids.len() == 0 {
        (Seq::empty(), false)
    } else {
        let (ds, stopped) = scan_ids(slots, ids.drop_last());
        if stopped {
            (ds, true)
        } else {
            let (d2, s2) = scan_id(slots, ids.last(), slots.len() as int);
            (ds + d2, s2)
        }
    }
}

/// The slots whose id is not listed, in order.
pub open spec fn without_listed(slots: Seq<SlotView>, ids: Seq<Id>) -> Seq<SlotView>
    decreases slots.len(),
{
    if slots.len() == 0 {
        slots
    } else if ids.contains(slots.last().data.id) {
        without_listed(slots.drop_last(), ids)
    } else {
        without_listed(slots.drop_last(), ids).push(slots.last())
    }
}

/// A stopped scan of one id stays as it is over the later slots.
proof fn lemma_scan_id_stopped(slots: Seq<SlotView>, id: Id, j: int, k: int)
    requires
        0 <= j <= k,
        scan_id(slots, id, j).1,
    ensures
        scan_id(slots, id, k) == scan_id(slots, id, j),
    decreases k - j,
{
    if j < k {
        lemma_scan_id_stopped(slots, id, j, k - 1);
    }
}

/// A stopped scan stays as it is over the later ids.
proof fn lemma_scan_ids_stopped(slots: Seq<SlotView>, ids: Seq<Id>, k: int)
    requires
        0 <= k <= ids.len(),
        scan_ids(slots, ids.take(k)).1,
    ensures
        scan_ids(slots, ids) == scan_ids(slots, ids.take(k)),
    decreases ids.len() - k,
{
    if k < ids.len() {
        assert(ids.take(k + 1).drop_last() =~= ids.take(k));
        lemma_scan_ids_stopped(slots, ids, k + 1);
    } else {
        assert(ids.take(k) =~= ids);
    }
}

/// Removes the monitors with the listed ids: for each id in turn, every
/// attached monitor with it is detached; a monitor with a listed id that is
/// not attached stops the whole removal, leaving the list as it was.
/// Otherwise every monitor with a listed id is removed, the others keeping
/// their order. Returns the ids to detach and whether the removal stopped.
pub fn remove_listed(registry: &mut Vec<MonitorObject>, ids: &[Id]) -> (res: (Vec<Id>, bool))
    ensures
        ({
            let (ds, stopped) = scan_ids(slots_view(old(registry)@), ids@);
            &&& res.0@ == ds
            &&& res.1 == stopped
            &&& stopped ==> final(registry)@ == old(registry)@
            &&& !stopped ==> slots_view(final(registry)@) == without_listed(
                slots_view(old(registry)@),
                ids@,
            )
        }),
{
    let ghost s = slots_view(registry@);
    let n = registry.len();
    let mut departures: Vec<Id> = Vec::new();
    for i in 0..ids.len()
        invariant
            s == slots_view(registry@),
            registry@ == old(registry)@,
            n == registry@.len(),
            scan_ids(s, ids@.take(i as int)) == (departures@, false),
    {
        proof {
            assert(ids@.take(i + 1).drop_last() =~= ids@.take(i as int));
            assert(ids@.take(i + 1).last() == ids@[i as int]);
        }
        let id = ids[i];
        let ghost ds0 = departures@;
        for j in 0..n
            invariant
                s == slots_view(registry@),
                registry@ == old(registry)@,
                n == registry@.len(),
                i < ids@.len(),
                id == ids@[i as int],
                scan_ids(s, ids@.take(i as int)) == (ds0, false),
                ({
                    let (d2, stopped) = scan_id(s, id, j as int);
                    departures@ == ds0 + d2 && !stopped
                }),
        {
            let ghost (d2, _st) = scan_id(s, id, j as int);
            if registry[j].data.id == id {
                if !registry[j].attached {
                    proof {
                        assert(scan_id(s, id, j + 1) == (d2, true));
                        lemma_scan_id_stopped(s, id, j + 1, s.len() as int);
                        assert(ids@.take(i + 1).drop_last() =~= ids@.take(i as int));
                        assert(ids@.take(i + 1).last() == id);
                        assert(scan_ids(s, ids@.take(i + 1)) == (ds0 + d2, true));
                        lemma_scan_ids_stopped(s, ids@, i + 1);
                    }
                    return (departures, true);
                }
                departures.push(id);
                assert(departures@ =~= ds0 + d2.push(id));
            }
        }
    }
    assert(ids@.take(ids@.len() as int) =~= ids@);
    let mut olds: Vec<MonitorObject> = Vec::new();
    std::mem::swap(registry, &mut olds);
    let ghost o = olds@;
    for x in it: olds
        invariant
            it.seq() == o,
            slots_view(o) == s,
            slots_view(registry@) == without_listed(slots_view(o.take(it.index() as int)), ids@),
    {
        let ghost k = it.index() as int;
        let ghost before = registry@;
        proof {
            assert(o.take(k + 1).drop_last() == o.take(k));
            assert(slots_view(o.take(k + 1)).drop_last() =~= slots_view(o.take(k)));
            assert(slots_view(o.take(k + 1)).last() == x@);
        }
        if !id_listed(ids, x.data.id) {
            registry.push(x);
            proof {
                lemma_slots_view_push(before, x);
            }
        }
    }
    assert(o.take(o.len() as int) == o);
    (departures, false)
}
/// Merging never brings back an id that is neither held nor merged.
proof fn lemma_merge_fold_absent(st: NotifyState, ms: Seq<MonitorView>, id: Id)
    requires
        !slot_in(st.0, id),
        forall|j: int| 0 <= j < ms.len() ==> (#[trigger] ms[j]).id != id,
    ensures
        !slot_in(merge_fold(st, ms).0, id),
    decreases ms.len(),
{
    if ms.len() > 0 {
        let pre = ms.drop_last();
        assert forall|j: int| 0 <= j < pre.len() implies (#[trigger] pre[j]).id != id by {
            assert(pre[j] == ms[j]);
        }
        lemma_merge_fold_absent(st, pre, id);
        let prev = merge_fold(st, pre);
        let m = ms.last();
        assert(m.id != id);
        let next = merge_fold(st, ms).0;
        assert(next == merge_step(prev, m).0);
        if slot_in(prev.0, m.id) {
            lemma_first_slot_exists(prev.0, m.id);
            let k = choose|k: int| is_first_slot(prev.0, m.id, k);
            assert forall|x: int| 0 <= x < next.len() implies (#[trigger] next[x]).data.id != id by {
                if x != k {
                    assert(next[x] == prev.0[x]);
                }
            }
        } else {
            assert forall|x: int| 0 <= x < next.len() implies (#[trigger] next[x]).data.id != id by {
                if x < prev.0.len() {
                    assert(next[x] == prev.0[x]);
                }
            }
        }
    }
}

/// The arrival decisions of a merge grow by one per monitor merged: the
/// decisions made for the first `j` monitors stay as they were.
proof fn lemma_merge_fold_arrivals(st: NotifyState, ms: Seq<MonitorView>, j: int)
    requires
        0 <= j <= ms.len(),
    ensures
        merge_fold(st, ms).2.len() == st.2.len() + ms.len(),
        merge_fold(st, ms).2.take(st.2.len() + j) == merge_fold(st, ms.take(j)).2,
    decreases ms.len(),
{
    if ms.len() > 0 {
        let pre = ms.drop_last();
        if j < ms.len() {
            lemma_merge_fold_arrivals(st, pre, j);
            assert(pre.take(j) =~= ms.take(j));
            assert(merge_fold(st, ms).2.take(st.2.len() + j) =~= merge_fold(st, pre).2.take(
                st.2.len() + j,
            ));
        } else {
            lemma_merge_fold_arrivals(st, pre, 0);
            assert(ms.take(j) =~= ms);
            assert(merge_fold(st, ms).2.take(st.2.len() + j) =~= merge_fold(st, ms).2);
        }
    } else {
        assert(ms.take(j) =~= ms);
        assert(st.2.take(st.2.len() + j) =~= st.2);
    }
}

/// A monitor merged with an id that is not held yet, and that no earlier
/// monitor of the same merge has, is to be attached exactly when it is
/// enabled: a disabled new monitor is never attached. Each arrival
/// decision belongs to the monitor merged at its position.
pub proof fn law_merge_new_monitor_arrives_when_enabled(
    slots: Seq<SlotView>,
    ms: Seq<MonitorView>,
    j: int,
)
    requires
        0 <= j < ms.len(),
    ensures
        ({
            let arrs = merge_fold((slots, Seq::empty(), Seq::empty()), ms).2;
            &&& arrs.len() == ms.len()
            &&& arrs[j].0 == ms[j].id
            &&& (!slot_in(slots, ms[j].id) && forall|k: int| 0 <= k < j ==> (#[trigger] ms[k]).id
                != ms[j].id) ==> arrs[j].1 == ms[j].enabled
        }),
{
    let st: NotifyState = (slots, Seq::empty(), Seq::empty());
    lemma_merge_fold_arrivals(st, ms, j + 1);
    let pre = ms.take(j);
    assert(ms.take(j + 1).drop_last() =~= pre);
    assert(ms.take(j + 1).last() == ms[j]);
    let prev = merge_fold(st, pre);
    let arrs = merge_fold(st, ms).2;
    assert(arrs[j] == merge_fold(st, ms.take(j + 1)).2[j]);
    lemma_merge_fold_arrivals(st, pre, j);
    assert(prev.2.len() == j);
    if !slot_in(slots, ms[j].id) && forall|k: int| 0 <= k < j ==> (#[trigger] ms[k]).id != ms[j].id {
        assert forall|k: int| 0 <= k < pre.len() implies (#[trigger] pre[k]).id != ms[j].id by {
            assert(pre[k] == ms[k]);
        }
        lemma_merge_fold_absent(st, pre, ms[j].id);
    }
}

/// A merge step for another id leaves the slot held for `id` and whether
/// `id` is to be detached as they were.
proof fn lemma_merge_step_frame(st: NotifyState, m: MonitorView, id: Id)
    requires
        m.id != id,
    ensures
        slot_for(merge_step(st, m).0, id) == slot_for(st.0, id),
        merge_step(st, m).1.contains(id) == st.1.contains(id),
{
    let slots = st.0;
    let next = merge_step(st, m).0;
    if slot_in(slots, m.id) {
        lemma_first_slot_exists(slots, m.id);
        let k = choose|k: int| is_first_slot(slots, m.id, k);
        assert(next.len() == slots.len());
        if slot_in(slots, id) {
            lemma_first_slot_exists(slots, id);
            let q = choose|q: int| is_first_slot(slots, id, q);
            assert(q != k);
            assert forall|j: int| 0 <= j < q implies (#[trigger] next[j]).data.id != id by {
                if j != k {
                    assert(next[j] == slots[j]);
                }
            }
            assert(next[q] == slots[q]);
            assert(is_first_slot(next, id, q));
            lemma_slot_for_first(next, id, q);
            lemma_slot_for_first(slots, id, q);
        } else {
            assert forall|x: int| 0 <= x < next.len() implies (#[trigger] next[x]).data.id != id by {
                if x != k {
                    assert(next[x] == slots[x]);
                }
            }
        }
        lemma_push_has(st.1, m.id, id);
    } else {
        if slot_in(slots, id) {
            lemma_first_slot_exists(slots, id);
            let q = choose|q: int| is_first_slot(slots, id, q);
            assert forall|j: int| 0 <= j < q implies (#[trigger] next[j]).data.id != id by {
                assert(next[j] == slots[j]);
            }
            assert(next[q] == slots[q]);
            assert(is_first_slot(next, id, q));
            lemma_slot_for_first(next, id, q);
            lemma_slot_for_first(slots, id, q);
        } else {
            assert forall|x: int| 0 <= x < next.len() implies (#[trigger] next[x]).data.id != id by {
                if x < slots.len() {
                    assert(next[x] == slots[x]);
                }
            }
        }
    }
}

/// Merge steps for other ids, from monitor `a` to monitor `b`, leave the
/// slot held for `id` and whether it is to be detached as they were.
proof fn lemma_merge_fold_frame(st: NotifyState, ms: Seq<MonitorView>, a: int, b: int, id: Id)
    requires
        0 <= a <= b <= ms.len(),
        forall|x: int| a <= x < b ==> (#[trigger] ms[x]).id != id,
    ensures
        slot_for(merge_fold(st, ms.take(b)).0, id) == slot_for(merge_fold(st, ms.take(a)).0, id),
        merge_fold(st, ms.take(b)).1.contains(id) == merge_fold(st, ms.take(a)).1.contains(id),
    decreases b - a,
{
    if a < b {
        lemma_merge_fold_frame(st, ms, a, b - 1, id);
        assert(ms.take(b).drop_last() =~= ms.take(b - 1));
        assert(ms.take(b).last() == ms[b - 1]);
        lemma_merge_step_frame(merge_fold(st, ms.take(b - 1)), ms[b - 1], id);
    }
}

/// What the merge step for `m` does to the slot held for its own id, and
/// to whether that id is to be detached.
proof fn lemma_merge_step_own(st: NotifyState, m: MonitorView)
    ensures
        ({
            let next = merge_step(st, m);
            match slot_for(st.0, m.id) {
                Some(cur) => {
                    let detach = cur.data.modes != m.modes || !m.enabled;
                    &&& slot_for(next.0, m.id) == Some(
                        SlotView { attached: !detach && cur.attached, data: m },
                    )
                    &&& next.1.contains(m.id) == (st.1.contains(m.id) || (detach && cur.attached))
                    &&& next.2.last() == (
                        m.id,
                        (!cur.data.enabled && m.enabled) || (m.enabled && cur.data.modes != m.modes),
                    )
                },
                None => {
                    &&& slot_for(next.0, m.id) == Some(SlotView { attached: false, data: m })
                    &&& next.1 == st.1
                    &&& next.2.last() == (m.id, m.enabled)
                },
            }
        }),
{
    let pslots = st.0;
    let nslots = merge_step(st, m).0;
    if slot_in(pslots, m.id) {
        lemma_first_slot_exists(pslots, m.id);
        let q = choose|q: int| is_first_slot(pslots, m.id, q);
        lemma_slot_for_first(pslots, m.id, q);
        assert(nslots.len() == pslots.len());
        assert forall|i: int| 0 <= i < q implies (#[trigger] nslots[i]).data.id != m.id by {
            assert(nslots[i] == pslots[i]);
        }
        assert(is_first_slot(nslots, m.id, q));
        lemma_slot_for_first(nslots, m.id, q);
        lemma_push_has(st.1, m.id, m.id);
    } else {
        assert(nslots[pslots.len() as int].data == m);
        assert forall|i: int| 0 <= i < pslots.len() implies (#[trigger] nslots[i]).data.id != m.id by {
            assert(nslots[i] == pslots[i]);
        }
        assert(is_first_slot(nslots, m.id, pslots.len() as int));
        lemma_slot_for_first(nslots, m.id, pslots.len() as int);
    }
}

/// What merging does to a monitor whose id comes once in the merge, against
/// what the driver held: a held monitor merged enabled with the same modes
/// is not detached and keeps its attached flag; one merged disabled or with
/// other modes is held as not attached and detached when it was attached;
/// one not attached is never detached; it is to be attached when merged
/// enabled and it was disabled or its modes changed. A monitor not held
/// before is not detached and is held as not attached.
pub proof fn law_merge_known_monitor(slots: Seq<SlotView>, ms: Seq<MonitorView>, j: int)
    requires
        0 <= j < ms.len(),
        forall|x: int| 0 <= x < ms.len() && x != j ==> (#[trigger] ms[x]).id != ms[j].id,
    ensures
        ({
            let (ns, deps, arrs) = merge_fold((slots, Seq::empty(), Seq::empty()), ms);
            let m = ms[j];
            &&& match slot_for(slots, m.id) {
                Some(cur) => {
                    &&& (cur.data.modes == m.modes && m.enabled) ==> !deps.contains(m.id)
                        && slot_for(ns, m.id) == Some(SlotView { attached: cur.attached, data: m })
                    &&& (!m.enabled || cur.data.modes != m.modes) ==> slot_for(ns, m.id) == Some(
                        SlotView { attached: false, data: m },
                    )
                    &&& (cur.attached && (!m.enabled || cur.data.modes != m.modes)) ==> deps.contains(
                        m.id,
                    )
                    &&& !cur.attached ==> !deps.contains(m.id)
                    &&& arrs[j].1 == (m.enabled && (!cur.data.enabled || cur.data.modes != m.modes))
                },
                None => {
                    &&& !deps.contains(m.id)
                    &&& slot_for(ns, m.id) == Some(SlotView { attached: false, data: m })
                },
            }
        }),
{
    let m = ms[j];
    let st: NotifyState = (slots, Seq::empty(), Seq::empty());
    assert(ms.take(ms.len() as int) =~= ms);
    assert(ms.take(0) =~= Seq::<MonitorView>::empty());
    lemma_merge_fold_frame(st, ms, 0, j, m.id);
    let prev = merge_fold(st, ms.take(j));
    assert(ms.take(j + 1).drop_last() =~= ms.take(j));
    assert(ms.take(j + 1).last() == m);
    let next = merge_fold(st, ms.take(j + 1));
    assert(next == merge_step(prev, m));
    lemma_merge_step_own(prev, m);
    lemma_merge_fold_frame(st, ms, j + 1, ms.len() as int, m.id);
    lemma_merge_fold_arrivals(st, ms, j + 1);
    lemma_merge_fold_arrivals(st, ms.take(j), j);
    assert(ms.take(j).take(j) =~= ms.take(j));
    assert(merge_fold(st, ms).2[j] == next.2[j]);
}

} // verus!
