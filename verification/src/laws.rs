//! Properties of the client state that span several operations.

use vstd::prelude::*;

use crate::driver_client::{
    enabled_for, id_free, with_mode_added, with_resolution_removed, without_ids,
    without_resolution,
};
use crate::model::{with_enabled, with_modes, Id, ModeView, MonitorView};
use crate::validation::{
    lemma_modes_dup, lemma_monitors_dup, id_in, mode_dup, monitor_dup, monitor_valid,
    monitors_valid, modes_valid, rates_unique, resolution_in, same_resolution,
    lemma_first_dup_rate,
};

verus! {

/// Every monitor kept by `without_ids` comes from the given list, keeps
/// its relative order, and has an unlisted id; every monitor with an
/// unlisted id is kept.
pub proof fn lemma_without_ids_members(s: Seq<MonitorView>, ids: Seq<Id>)
    ensures
        forall|i: int|
            0 <= i < without_ids(s, ids).len() ==> !ids.contains(
                (#[trigger] without_ids(s, ids)[i]).id,
            ) && s.contains(without_ids(s, ids)[i]),
        forall|i: int|
            0 <= i < s.len() && !ids.contains((#[trigger] s[i]).id) ==> without_ids(
                s,
                ids,
            ).contains(s[i]),
        without_ids(s, ids).len() <= s.len(),
    decreases s.len(),
{
    if s.len() > 0 {
        let t = s.drop_last();
        lemma_without_ids_members(t, ids);
        let r = without_ids(t, ids);
        assert forall|i: int| 0 <= i < without_ids(s, ids).len() implies !ids.contains(
            (#[trigger] without_ids(s, ids)[i]).id,
        ) && s.contains(without_ids(s, ids)[i]) by {
            if i < r.len() {
                assert(without_ids(s, ids)[i] == r[i]);
                let k = choose|k: int| 0 <= k < t.len() && t[k] == r[i];
                assert(s[k] == t[k]);
            } else {
                assert(without_ids(s, ids)[i] == s.last());
                assert(s[s.len() - 1] == s.last());
            }
        }
        assert forall|i: int| 0 <= i < s.len() && !ids.contains((#[trigger] s[i]).id) implies without_ids(
            s,
            ids,
        ).contains(s[i]) by {
            if i < s.len() - 1 {
                assert(t[i] == s[i]);
                let k = choose|k: int| 0 <= k < r.len() && r[k] == t[i];
                assert(without_ids(s, ids)[k] == r[k]);
            } else {
                assert(without_ids(s, ids)[r.len() as int] == s[i]);
            }
        }
    }
}

/// Removing monitors keeps a state without listed ids unchanged.
pub proof fn lemma_without_ids_unlisted(s: Seq<MonitorView>, ids: Seq<Id>)
    requires
        forall|i: int| 0 <= i < s.len() ==> !ids.contains(#[trigger] s[i].id),
    ensures
        without_ids(s, ids) == s,
    decreases s.len(),
{
    if s.len() > 0 {
        lemma_without_ids_unlisted(s.drop_last(), ids);
        assert(!ids.contains(s[s.len() - 1].id));
        assert(s.drop_last().push(s.last()) =~= s);
    }
}

/// Removing the monitors with listed ids: no remaining monitor has a
/// listed id, and the remaining ones keep their order.
pub proof fn law_remove_removes(s: Seq<MonitorView>, ids: Seq<Id>)
    ensures
        forall|i: int| 0 <= i < without_ids(s, ids).len() ==> !ids.contains(
            (#[trigger] without_ids(s, ids)[i]).id,
        ),
        forall|k: Id| ids.contains(k) ==> !id_in(without_ids(s, ids), k),
{
    lemma_without_ids_members(s, ids);
    assert forall|k: Id| ids.contains(k) implies !id_in(without_ids(s, ids), k) by {
        if id_in(without_ids(s, ids), k) {
            let j = choose|j: int|
                0 <= j < without_ids(s, ids).len() && (#[trigger] without_ids(s, ids)[j]).id == k;
            assert(!ids.contains(without_ids(s, ids)[j].id));
        }
    }
}

/// Removing the id of a monitor just added gives the state back.
pub proof fn law_add_then_remove(s: Seq<MonitorView>, m: MonitorView)
    requires
        !id_in(s, m.id),
    ensures
        without_ids(s.push(m), seq![m.id]) == s,
{
    let ids = seq![m.id];
    assert forall|i: int| 0 <= i < s.len() implies !ids.contains(#[trigger] s[i].id) by {
        if ids.contains(s[i].id) {
            assert(ids[0] == s[i].id);
        }
    }
    lemma_without_ids_unlisted(s, ids);
    assert(s.push(m).drop_last() == s);
    assert(ids.contains(m.id)) by {
        assert(ids[0] == m.id);
    }
}

/// A mode list without any mode of a resolution is kept by removing it.
pub proof fn lemma_without_resolution_absent(ms: Seq<ModeView>, w: u32, h: u32)
    requires
        forall|i: int| 0 <= i < ms.len() ==> !((#[trigger] ms[i]).width == w && ms[i].height == h),
    ensures
        without_resolution(ms, w, h) == ms,
    decreases ms.len(),
{
    if ms.len() > 0 {
        lemma_without_resolution_absent(ms.drop_last(), w, h);
        assert(ms.drop_last().push(ms.last()) =~= ms);
    }
}

/// Removing the resolution of a mode just added gives the state back.
pub proof fn law_add_mode_then_remove_mode(s: Seq<MonitorView>, k: int, m: ModeView)
    requires
        0 <= k < s.len(),
        !resolution_in(s[k].modes, m),
    ensures
        with_resolution_removed(with_mode_added(s, k, m), k, m.width, m.height) == s,
{
    let ms = s[k].modes;
    assert forall|i: int| 0 <= i < ms.len() implies !((#[trigger] ms[i]).width == m.width
        && ms[i].height == m.height) by {
        if ms[i].width == m.width && ms[i].height == m.height {
            assert(same_resolution(ms[i], m));
        }
    }
    lemma_without_resolution_absent(ms, m.width, m.height);
    let added = with_mode_added(s, k, m);
    assert(added[k].modes == ms.push(m));
    assert(ms.push(m).drop_last() == ms);
    assert(without_resolution(ms.push(m), m.width, m.height) == ms);
    assert(with_modes(with_modes(s[k], ms.push(m)), ms) == s[k]);
    assert(with_resolution_removed(added, k, m.width, m.height) =~= s);
}

/// `without_ids` keeps a subsequence: each kept monitor comes from a strictly
/// increasing position of the given list.
pub proof fn lemma_without_ids_subsequence(s: Seq<MonitorView>, ids: Seq<Id>) -> (f: spec_fn(
    int,
) -> int)
    ensures
        forall|i: int|
            0 <= i < without_ids(s, ids).len() ==> 0 <= #[trigger] f(i) < s.len() && without_ids(
                s,
                ids,
            )[i] == s[f(i)],
        forall|i: int, j: int|
            0 <= i < j < without_ids(s, ids).len() ==> #[trigger] f(i) < #[trigger] f(j),
    decreases s.len(),
{
    let r = without_ids(s, ids);
    if s.len() == 0 {
        |i: int| i
    } else {
        let t = s.drop_last();
        let g = lemma_without_ids_subsequence(t, ids);
        let n = without_ids(t, ids).len();
        let f = |i: int|
            if i < n {
                g(i)
            } else {
                s.len() - 1
            };
        assert forall|i: int| 0 <= i < r.len() implies 0 <= #[trigger] f(i) < s.len() && r[i]
            == s[f(i)] by {
            if i < n {
                assert(r[i] == without_ids(t, ids)[i]);
                assert(t[g(i)] == s[g(i)]);
            }
        }
        assert forall|i: int, j: int| 0 <= i < j < r.len() implies #[trigger] f(i) < #[trigger] f(
            j,
        ) by {
            if j < n {
                assert(g(i) < g(j));
            } else {
                assert(0 <= g(i) < t.len());
            }
        }
        f
    }
}

/// A subsequence of a valid monitor list is valid.
pub proof fn lemma_subsequence_valid(s: Seq<MonitorView>, r: Seq<MonitorView>, f: spec_fn(int) -> int)
    requires
        monitors_valid(s),
        forall|i: int| 0 <= i < r.len() ==> 0 <= #[trigger] f(i) < s.len() && r[i] == s[f(i)],
        forall|i: int, j: int| 0 <= i < j < r.len() ==> #[trigger] f(i) < #[trigger] f(j),
    ensures
        monitors_valid(r),
{
    assert forall|i: int, j: int| 0 <= i < j < r.len() implies (#[trigger] r[i]).id != (
    #[trigger] r[j]).id by {
        assert(f(i) < f(j));
        assert(s[f(i)].id != s[f(j)].id);
    }
    assert forall|i: int| 0 <= i < r.len() implies monitor_valid(#[trigger] r[i]) by {
        assert(monitor_valid(s[f(i)]));
    }
}

/// Adding a monitor whose id is free and which has no duplicates keeps a
/// valid state valid.
pub proof fn law_add_keeps_valid(s: Seq<MonitorView>, m: MonitorView)
    requires
        monitors_valid(s),
        !id_in(s, m.id),
        monitor_dup(m) is None,
    ensures
        monitors_valid(s.push(m)),
{
    lemma_modes_dup(m.modes, m.id);
    let t = s.push(m);
    assert forall|i: int, j: int| 0 <= i < j < t.len() implies (#[trigger] t[i]).id != (
    #[trigger] t[j]).id by {
        if j == s.len() {
            assert(t[i] == s[i]);
            assert(!(s[i].id == m.id));
        }
    }
    assert forall|i: int| 0 <= i < t.len() implies monitor_valid(#[trigger] t[i]) by {
        if i < s.len() {
            assert(t[i] == s[i]);
        }
    }
}

/// Removing monitors keeps a valid state valid.
pub proof fn law_remove_keeps_valid(s: Seq<MonitorView>, ids: Seq<Id>)
    requires
        monitors_valid(s),
    ensures
        monitors_valid(without_ids(s, ids)),
{
    let f = lemma_without_ids_subsequence(s, ids);
    lemma_subsequence_valid(s, without_ids(s, ids), f);
}

/// Changing enabled flags keeps a valid state valid.
pub proof fn law_set_enabled_keeps_valid(s: Seq<MonitorView>, ids: Seq<Id>, e: bool)
    requires
        monitors_valid(s),
    ensures
        monitors_valid(enabled_for(s, ids, e)),
{
    let t = enabled_for(s, ids, e);
    assert forall|i: int, j: int| 0 <= i < j < t.len() implies (#[trigger] t[i]).id != (
    #[trigger] t[j]).id by {
        assert(t[i].id == s[i].id);
        assert(t[j].id == s[j].id);
    }
    assert forall|i: int| 0 <= i < t.len() implies monitor_valid(#[trigger] t[i]) by {
        assert(t[i].modes == s[i].modes);
    }
}

/// Adding a mode with a new resolution and no repeated refresh rate keeps
/// a valid state valid.
pub proof fn law_add_mode_keeps_valid(s: Seq<MonitorView>, k: int, m: ModeView)
    requires
        monitors_valid(s),
        0 <= k < s.len(),
        mode_dup(m, s[k].id) is None,
        !resolution_in(s[k].modes, m),
    ensures
        monitors_valid(with_mode_added(s, k, m)),
{
    lemma_first_dup_rate(m.refresh_rates);
    let t = with_mode_added(s, k, m);
    let ms = s[k].modes.push(m);
    assert(modes_valid(ms)) by {
        let old_ms = s[k].modes;
        assert(monitor_valid(s[k]));
        assert forall|i: int, j: int| 0 <= i < j < ms.len() implies !same_resolution(
            #[trigger] ms[i],
            #[trigger] ms[j],
        ) by {
            if j == old_ms.len() {
                assert(ms[i] == old_ms[i]);
                if same_resolution(ms[i], ms[j]) {
                    assert(same_resolution(old_ms[i], m));
                }
            } else {
                assert(ms[i] == old_ms[i]);
                assert(ms[j] == old_ms[j]);
            }
        }
        assert forall|i: int| 0 <= i < ms.len() implies rates_unique(#[trigger] ms[i].refresh_rates) by {
            if i < old_ms.len() {
                assert(ms[i] == old_ms[i]);
            }
        }
    }
    assert forall|i: int, j: int| 0 <= i < j < t.len() implies (#[trigger] t[i]).id != (
    #[trigger] t[j]).id by {
        assert(t[i].id == s[i].id);
        assert(t[j].id == s[j].id);
    }
    assert forall|i: int| 0 <= i < t.len() implies monitor_valid(#[trigger] t[i]) by {
        if i != k {
            assert(t[i] == s[i]);
        }
    }
}

/// A subsequence of a valid mode list is valid; `without_resolution` keeps
/// such a subsequence.
pub proof fn lemma_without_resolution_valid(ms: Seq<ModeView>, w: u32, h: u32)
    requires
        modes_valid(ms),
    ensures
        modes_valid(without_resolution(ms, w, h)),
        forall|i: int|
            0 <= i < without_resolution(ms, w, h).len() ==> ms.contains(
                #[trigger] without_resolution(ms, w, h)[i],
            ),
    decreases ms.len(),
{
    if ms.len() > 0 {
        let t = ms.drop_last();
        assert(modes_valid(t)) by {
            assert forall|i: int, j: int| 0 <= i < j < t.len() implies !same_resolution(
                #[trigger] t[i],
                #[trigger] t[j],
            ) by {
                assert(t[i] == ms[i]);
                assert(t[j] == ms[j]);
            }
            assert forall|i: int| 0 <= i < t.len() implies rates_unique(
                #[trigger] t[i].refresh_rates,
            ) by {
                assert(t[i] == ms[i]);
            }
        }
        lemma_without_resolution_valid(t, w, h);
        let r = without_resolution(t, w, h);
        let x = ms.last();
        if !(x.width == w && x.height == h) {
            let rr = r.push(x);
            assert forall|i: int| 0 <= i < rr.len() implies ms.contains(#[trigger] rr[i]) by {
                if i < r.len() {
                    assert(rr[i] == r[i]);
                    let k = choose|k: int| 0 <= k < t.len() && t[k] == r[i];
                    assert(ms[k] == t[k]);
                } else {
                    assert(ms[ms.len() - 1] == x);
                }
            }
            assert forall|i: int, j: int| 0 <= i < j < rr.len() implies !same_resolution(
                #[trigger] rr[i],
                #[trigger] rr[j],
            ) by {
                if j == r.len() {
                    assert(rr[i] == r[i]);
                    let k = choose|k: int| 0 <= k < t.len() && t[k] == r[i];
                    assert(ms[k] == t[k]);
                    assert(!same_resolution(ms[k], ms[ms.len() - 1]));
                } else {
                    assert(rr[i] == r[i]);
                    assert(rr[j] == r[j]);
                }
            }
            assert forall|i: int| 0 <= i < rr.len() implies rates_unique(
                #[trigger] rr[i].refresh_rates,
            ) by {
                if i < r.len() {
                    assert(rr[i] == r[i]);
                } else {
                    assert(ms[ms.len() - 1] == x);
                }
            }
        } else {
            assert forall|i: int| 0 <= i < r.len() implies ms.contains(#[trigger] r[i]) by {
                let k = choose|k: int| 0 <= k < t.len() && t[k] == r[i];
                assert(ms[k] == t[k]);
            }
        }
    }
}

/// Removing a resolution keeps a valid state valid.
pub proof fn law_remove_mode_keeps_valid(s: Seq<MonitorView>, k: int, w: u32, h: u32)
    requires
        monitors_valid(s),
        0 <= k < s.len(),
    ensures
        monitors_valid(with_resolution_removed(s, k, w, h)),
{
    assert(monitor_valid(s[k]));
    lemma_without_resolution_valid(s[k].modes, w, h);
    let t = with_resolution_removed(s, k, w, h);
    assert forall|i: int, j: int| 0 <= i < j < t.len() implies (#[trigger] t[i]).id != (
    #[trigger] t[j]).id by {
        assert(t[i].id == s[i].id);
        assert(t[j].id == s[j].id);
    }
    assert forall|i: int| 0 <= i < t.len() implies monitor_valid(#[trigger] t[i]) by {
        if i != k {
            assert(t[i] == s[i]);
        }
    }
}

/// A free id can always be added: a monitor with a free id and no
/// duplicates inside is accepted, and the state stays valid.
pub proof fn law_new_id_accepted(s: Seq<MonitorView>, m: MonitorView)
    requires
        monitors_valid(s),
        id_free(s, m.id),
        monitor_valid(m),
    ensures
        monitor_dup(m) is None,
        monitors_valid(s.push(m)),
{
    lemma_modes_dup(m.modes, m.id);
    law_add_keeps_valid(s, m);
}

/// A state is accepted by a replacement of all monitors exactly when it is
/// valid.
pub proof fn law_set_monitors_accepts_valid(ms: Seq<MonitorView>)
    ensures
        crate::validation::monitors_dup(ms) is None <==> monitors_valid(ms),
{
    lemma_monitors_dup(ms);
}

} // verus!
