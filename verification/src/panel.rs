//! The control panel's model of the monitors it manages. A monitor's modes
//! are kept in a map from a text key (`WIDTHxHEIGHT` for the modes the panel
//! creates) to the mode, walked in key order; modes and refresh rates that
//! the user added but has not applied yet are marked pending and are never
//! sent to the driver.

use vstd::prelude::*;

use crate::ipc_types::{
    flat_monitors_view, DriverCommand, Monitor as FlatMonitor, MonitorProperties, MonitorSpec,
};
use crate::text::{
    chars_eq, chars_of, decimal, parse_u32, push_decimal, spec_parse_u32, string_from_chars,
};

verus! {

/// A refresh rate of a mode, and whether it is still pending.
#[derive(Debug, Clone, Copy, PartialEq, Eq, Structural)]
pub struct RefreshRate {
    pub rate: u32,
    pub pending: bool,
}

/// A resolution with its refresh rates, and whether it is still pending.
#[derive(Debug)]
pub struct MonitorMode {
    pub width: u32,
    pub height: u32,
    pub refresh_rates: Vec<RefreshRate>,
    pub pending: bool,
}

/// A mode under its key in a monitor's map of modes.
#[derive(Debug)]
pub struct ModeEntry {
    pub key: String,
    pub mode: MonitorMode,
}

/// What a mode entry holds, as a mathematical value.
pub struct EntrySpec {
    pub key: Seq<char>,
    pub width: u32,
    pub height: u32,
    pub rates: Seq<RefreshRate>,
    pub pending: bool,
}

impl View for ModeEntry {
    type V = EntrySpec;

    open spec fn view(&self) -> EntrySpec {
        EntrySpec {
            key: self.key@,
            width: self.mode.width,
            height: self.mode.height,
            rates: self.mode.refresh_rates@,
            pending: self.mode.pending,
        }
    }
}

/// The views of a list of mode entries.
pub open spec fn entries_view(s: Seq<ModeEntry>) -> Seq<EntrySpec> {
    s.map_values(|e: ModeEntry| e@)
}

/// A monitor as the control panel edits it: its id and, once it has any,
/// its modes by key in key order.
#[derive(Debug)]
pub struct Monitor {
    pub id: u32,
    pub modes: Option<Vec<ModeEntry>>,
}

/// The views of a monitor's modes, where it has a map of modes.
pub open spec fn modes_spec(modes: Option<Vec<ModeEntry>>) -> Option<Seq<EntrySpec>> {
    match modes {
        Some(v) => Some(entries_view(v@)),
        None => None,
    }
}

/// The order of map keys: text compared character by character, a proper
/// prefix first (the order of `String`, whose UTF-8 bytes order as the
/// characters do).
pub open spec fn key_less(a: Seq<char>, b: Seq<char>) -> bool
    decreases a.len(),
{
    if b.len() == 0 {
        false
    } else if a.len() == 0 {
        true
    } else if a[0] != b[0] {
        (a[0] as int) < (b[0] as int)
    } else {
        key_less(a.drop_first(), b.drop_first())
    }
}

/// No key comes before itself.
pub proof fn lemma_key_less_irreflexive(a: Seq<char>)
    ensures
        !key_less(a, a),
    decreases a.len(),
{
    if a.len() > 0 {
        lemma_key_less_irreflexive(a.drop_first());
    }
}

/// The key order is transitive.
pub proof fn lemma_key_less_transitive(a: Seq<char>, b: Seq<char>, c: Seq<char>)
    requires
        key_less(a, b),
        key_less(b, c),
    ensures
        key_less(a, c),
    decreases a.len(),
{
    if a.len() > 0 && a[0] == b[0] && b[0] == c[0] {
        lemma_key_less_transitive(a.drop_first(), b.drop_first(), c.drop_first());
    }
}

/// Of two different keys, one comes first.
pub proof fn lemma_key_less_total(a: Seq<char>, b: Seq<char>)
    requires
        a != b,
    ensures
        key_less(a, b) || key_less(b, a),
    decreases a.len(),
{
    if a.len() > 0 && b.len() > 0 && a[0] == b[0] {
        if a.drop_first() == b.drop_first() {
            assert(a =~= seq![a[0]] + a.drop_first());
            assert(b =~= seq![b[0]] + b.drop_first());
        }
        lemma_key_less_total(a.drop_first(), b.drop_first());
    } else if a.len() == 0 && b.len() == 0 {
        assert(a =~= b);
    }
}

/// Whether the keys of a list of entries strictly increase.
pub open spec fn keys_sorted(s: Seq<EntrySpec>) -> bool {
    forall|i: int, j: int| 0 <= i < j < s.len() ==> key_less(#[trigger] s[i].key, #[trigger] s[j].key)
}

/// Whether `after` is `before` with `e` stored under its key, as a map
/// ordered by key stores it: in place of the entry with the same key, or
/// else between the smaller and the greater keys.
pub open spec fn stored_under_key(before: Seq<EntrySpec>, after: Seq<EntrySpec>, e: EntrySpec) -> bool {
    ||| exists|i: int| 0 <= i < before.len() && before[i].key == e.key && after == before.update(i, e)
    ||| (forall|i: int| 0 <= i < before.len() ==> before[i].key != e.key) && exists|p: int|
        0 <= p <= before.len() && after == before.insert(p, e)
}

/// The key of the mode the panel creates for a resolution.
pub open spec fn resolution_key(width: u32, height: u32) -> Seq<char> {
    decimal(width as nat) + seq!['x'] + decimal(height as nat)
}

/// Whether `a` comes before `b` in the key order.
fn chars_less(a: &[char], b: &[char]) -> (res: bool)
    ensures
        res == key_less(a@, b@),
{
    let mut i: usize = 0;
    assert(a@.skip(0) =~= a@);
    assert(b@.skip(0) =~= b@);
    while i < a.len() && i < b.len()
        invariant
            i <= a@.len(),
            i <= b@.len(),
            key_less(a@, b@) == key_less(a@.skip(i as int), b@.skip(i as int)),
        decreases a@.len() - i,
    {
        if a[i] != b[i] {
            assert(a@.skip(i as int)[0] == a@[i as int]);
            assert(b@.skip(i as int)[0] == b@[i as int]);
            return a[i] < b[i];
        }
        assert(a@.skip(i as int).drop_first() =~= a@.skip(i + 1));
        assert(b@.skip(i as int).drop_first() =~= b@.skip(i + 1));
        i = i + 1;
    }
    i < b.len()
}

/// The key text of a resolution.
fn resolution_key_string(width: u32, height: u32) -> (res: String)
    ensures
        res@ == resolution_key(width, height),
{
    let mut out: Vec<char> = Vec::new();
    push_decimal(&mut out, width);
    out.push('x');
    push_decimal(&mut out, height);
    assert(out@ =~= resolution_key(width, height));
    string_from_chars(out.as_slice())
}

/// The number of entries whose keys come before `key`.
fn position_of_key(entries: &[ModeEntry], key: &[char]) -> (p: usize)
    requires
        keys_sorted(entries_view(entries@)),
    ensures
        p <= entries@.len(),
        forall|i: int| 0 <= i < p ==> key_less(#[trigger] entries@[i].key@, key@),
        p < entries@.len() ==> !key_less(entries@[p as int].key@, key@),
{
    let mut p: usize = 0;
    let mut found = false;
    while p < entries.len() && !found
        invariant
            p <= entries@.len(),
            forall|i: int| 0 <= i < p ==> key_less(#[trigger] entries@[i].key@, key@),
            found ==> p < entries@.len() && !key_less(entries@[p as int].key@, key@),
        decreases entries@.len() - p + (if found { 0int } else { 1int }),
    {
        let k = chars_of(entries[p].key.as_str());
        if chars_less(k.as_slice(), key) {
            p = p + 1;
        } else {
            found = true;
        }
    }
    p
}

/// Stores `e` under its key.
fn insert_entry(entries: &mut Vec<ModeEntry>, e: ModeEntry)
    requires
        keys_sorted(entries_view(old(entries)@)),
    ensures
        keys_sorted(entries_view(final(entries)@)),
        stored_under_key(entries_view(old(entries)@), entries_view(final(entries)@), e@),
{
    let ghost s = entries_view(entries@);
    let ghost ev = e@;
    let ek = chars_of(e.key.as_str());
    let p = position_of_key(entries.as_slice(), ek.as_slice());
    if p < entries.len() {
        let k = chars_of(entries[p].key.as_str());
        if chars_eq(k.as_slice(), ek.as_slice()) {
            entries.set(p, e);
            proof {
                let n = entries_view(entries@);
                assert(n =~= s.update(p as int, ev));
                assert forall|i: int, j: int| 0 <= i < j < n.len() implies key_less(
                    #[trigger] n[i].key,
                    #[trigger] n[j].key,
                ) by {
                    assert(n[i].key == s[i].key);
                    assert(n[j].key == s[j].key);
                }
            }
            return;
        }
    }
    proof {
        if p < s.len() {
            assert(s[p as int].key != ev.key);
            lemma_key_less_total(s[p as int].key, ev.key);
        }
        assert forall|q: int| p <= q < s.len() implies key_less(ev.key, #[trigger] s[q].key) by {
            if q > p {
                assert(key_less(s[p as int].key, s[q].key));
                lemma_key_less_transitive(ev.key, s[p as int].key, s[q].key);
            }
        }
        assert forall|i: int| 0 <= i < s.len() implies s[i].key != ev.key by {
            if i < p {
                assert(key_less(s[i].key, ev.key));
                lemma_key_less_irreflexive(ev.key);
            } else {
                assert(key_less(ev.key, s[i].key));
                lemma_key_less_irreflexive(ev.key);
            }
        }
    }
    entries.insert(p, e);
    proof {
        let n = entries_view(entries@);
        assert(n =~= s.insert(p as int, ev));
        assert forall|i: int, j: int| 0 <= i < j < n.len() implies key_less(
            #[trigger] n[i].key,
            #[trigger] n[j].key,
        ) by {
            if j < p {
                assert(n[i] == s[i] && n[j] == s[j]);
            } else if j == p {
                assert(n[i] == s[i]);
            } else if i < p {
                assert(n[i] == s[i] && n[j] == s[j - 1]);
                lemma_key_less_transitive(s[i].key, ev.key, s[j - 1].key);
            } else if i == p {
                assert(n[j] == s[j - 1]);
            } else {
                assert(n[i] == s[i - 1] && n[j] == s[j - 1]);
            }
        }
    }
}


/// The refresh rates of a list that are not pending, in order.
pub open spec fn settled_rates(rs: Seq<RefreshRate>) -> Seq<RefreshRate>
    decreases rs.len(),
{
    if rs.len() == 0 {
        Seq::empty()
    } else {
        let p = settled_rates(rs.drop_last());
        if rs.last().pending {
            p
        } else {
            p.push(rs.last())
        }
    }
}

/// An entry with only its settled refresh rates.
pub open spec fn with_settled_rates(e: EntrySpec) -> EntrySpec {
    EntrySpec { key: e.key, width: e.width, height: e.height, rates: settled_rates(e.rates), pending: e.pending }
}

/// The entries left once the pending modes are dropped and the pending
/// refresh rates of the others removed.
pub open spec fn without_pending(es: Seq<EntrySpec>) -> Seq<EntrySpec>
    decreases es.len(),
{
    if es.len() == 0 {
        Seq::empty()
    } else {
        let p = without_pending(es.drop_last());
        if es.last().pending {
            p
        } else {
            p.push(with_settled_rates(es.last()))
        }
    }
}

/// A refresh rate marked as applied.
pub open spec fn accepted_rate(r: RefreshRate) -> RefreshRate {
    RefreshRate { rate: r.rate, pending: false }
}

/// A list of refresh rates, all marked as applied.
pub open spec fn accepted_rates(rs: Seq<RefreshRate>) -> Seq<RefreshRate> {
    rs.map_values(|r: RefreshRate| accepted_rate(r))
}

/// An entry with itself and all its refresh rates marked as applied.
pub open spec fn accepted(e: EntrySpec) -> EntrySpec {
    EntrySpec {
        key: e.key,
        width: e.width,
        height: e.height,
        rates: accepted_rates(e.rates),
        pending: false,
    }
}

/// A list of entries, all marked as applied.
pub open spec fn all_accepted(es: Seq<EntrySpec>) -> Seq<EntrySpec> {
    es.map_values(|e: EntrySpec| accepted(e))
}

/// The pairs of one resolution with its settled refresh rates.
pub open spec fn rate_properties(width: u32, height: u32, rs: Seq<RefreshRate>) -> Seq<MonitorProperties> {
    settled_rates(rs).map_values(
        |r: RefreshRate| MonitorProperties { width: width, height: height, refresh_rate: r.rate },
    )
}

/// The (resolution, refresh rate) pairs the driver is told of: those of the
/// modes that are not pending, each with its refresh rates that are not
/// pending, in key order.
pub open spec fn settled_properties(es: Seq<EntrySpec>) -> Seq<MonitorProperties>
    decreases es.len(),
{
    if es.len() == 0 {
        Seq::empty()
    } else {
        let p = settled_properties(es.drop_last());
        let e = es.last();
        if e.pending {
            p
        } else {
            p + rate_properties(e.width, e.height, e.rates)
        }
    }
}

/// The pairs of a monitor's modes, none where it has no map of modes.
pub open spec fn monitor_properties(modes: Option<Seq<EntrySpec>>) -> Seq<MonitorProperties> {
    match modes {
        Some(es) => settled_properties(es),
        None => Seq::empty(),
    }
}

/// What a monitor's modes become when its pending changes are dropped.
pub open spec fn modes_without_pending(modes: Option<Seq<EntrySpec>>) -> Option<Seq<EntrySpec>> {
    match modes {
        Some(es) => Some(without_pending(es)),
        None => None,
    }
}

/// What a monitor's modes become when its pending changes are applied.
pub open spec fn modes_accepted(modes: Option<Seq<EntrySpec>>) -> Option<Seq<EntrySpec>> {
    match modes {
        Some(es) => Some(all_accepted(es)),
        None => None,
    }
}

/// Whether a monitor's map of modes, where it has one, is in key order.
pub open spec fn modes_sorted(modes: Option<Seq<EntrySpec>>) -> bool {
    match modes {
        Some(es) => keys_sorted(es),
        None => true,
    }
}

/// Dropping pending changes keeps keys in order, and keeps only keys that
/// were there.
pub proof fn lemma_without_pending_keys(es: Seq<EntrySpec>)
    ensures
        keys_sorted(es) ==> keys_sorted(without_pending(es)),
        forall|k: int| 0 <= k < without_pending(es).len() ==> exists|j: int|
            0 <= j < es.len() && #[trigger] without_pending(es)[k].key == es[j].key,
    decreases es.len(),
{
    if es.len() > 0 {
        let pre = es.drop_last();
        lemma_without_pending_keys(pre);
        let p = without_pending(pre);
        let w = without_pending(es);
        assert forall|k: int| 0 <= k < w.len() implies exists|j: int|
            0 <= j < es.len() && #[trigger] w[k].key == es[j].key by {
            if k < p.len() {
                let j = choose|j: int| 0 <= j < pre.len() && p[k].key == pre[j].key;
                assert(w[k] == p[k]);
                assert(es[j] == pre[j]);
            } else {
                assert(w[k].key == es[es.len() - 1].key);
            }
        }
        if keys_sorted(es) {
            assert(keys_sorted(pre)) by {
                assert forall|i: int, j: int| 0 <= i < j < pre.len() implies key_less(
                    #[trigger] pre[i].key,
                    #[trigger] pre[j].key,
                ) by {
                    assert(pre[i] == es[i] && pre[j] == es[j]);
                }
            }
            assert forall|i: int, j: int| 0 <= i < j < w.len() implies key_less(
                #[trigger] w[i].key,
                #[trigger] w[j].key,
            ) by {
                if j < p.len() {
                    assert(w[i] == p[i] && w[j] == p[j]);
                } else {
                    assert(w[i] == p[i]);
                    let a = choose|a: int| 0 <= a < pre.len() && p[i].key == pre[a].key;
                    assert(es[a] == pre[a]);
                    assert(w[j].key == es[es.len() - 1].key);
                    assert(key_less(es[a].key, es[es.len() - 1].key));
                }
            }
        }
    }
}

/// A copy of a list of refresh rates without the pending ones.
fn settle_rates(rates: &Vec<RefreshRate>) -> (res: Vec<RefreshRate>)
    ensures
        res@ == settled_rates(rates@),
{
    let mut res: Vec<RefreshRate> = Vec::new();
    for i in 0..rates.len()
        invariant
            res@ == settled_rates(rates@.take(i as int)),
    {
        assert(rates@.take(i + 1).drop_last() =~= rates@.take(i as int));
        let r = rates[i];
        if !r.pending {
            res.push(r);
        }
    }
    assert(rates@.take(rates@.len() as int) =~= rates@);
    res
}

/// A copy of a list of refresh rates, all marked as applied.
fn accept_rates(rates: &Vec<RefreshRate>) -> (res: Vec<RefreshRate>)
    ensures
        res@ == accepted_rates(rates@),
{
    let mut res: Vec<RefreshRate> = Vec::new();
    for i in 0..rates.len()
        invariant
            res@ == accepted_rates(rates@.take(i as int)),
    {
        res.push(RefreshRate { rate: rates[i].rate, pending: false });
        assert(res@ =~= accepted_rates(rates@.take(i + 1)));
    }
    assert(rates@.take(rates@.len() as int) =~= rates@);
    res
}

/// The entries left once pending changes are dropped.
fn entries_without_pending(entries: &Vec<ModeEntry>) -> (res: Vec<ModeEntry>)
    ensures
        entries_view(res@) == without_pending(entries_view(entries@)),
{
    let ghost s = entries_view(entries@);
    let mut res: Vec<ModeEntry> = Vec::new();
    for i in 0..entries.len()
        invariant
            s == entries_view(entries@),
            entries_view(res@) == without_pending(s.take(i as int)),
    {
        assert(s.take(i + 1).drop_last() =~= s.take(i as int));
        assert(s.take(i + 1).last() == s[i as int]);
        let e = &entries[i];
        if !e.mode.pending {
            let rates = settle_rates(&e.mode.refresh_rates);
            let kept = ModeEntry {
                key: e.key.clone(),
                mode: MonitorMode {
                    width: e.mode.width,
                    height: e.mode.height,
                    refresh_rates: rates,
                    pending: e.mode.pending,
                },
            };
            let ghost before = res@;
            res.push(kept);
            assert(entries_view(res@) =~= entries_view(before).push(with_settled_rates(s[i as int])));
        }
    }
    assert(s.take(entries@.len() as int) =~= s);
    res
}

/// The entries with all pending changes applied.
fn entries_accepted(entries: &Vec<ModeEntry>) -> (res: Vec<ModeEntry>)
    ensures
        entries_view(res@) == all_accepted(entries_view(entries@)),
{
    let ghost s = entries_view(entries@);
    let mut res: Vec<ModeEntry> = Vec::new();
    for i in 0..entries.len()
        invariant
            s == entries_view(entries@),
            entries_view(res@) == all_accepted(s.take(i as int)),
    {
        let e = &entries[i];
        let rates = accept_rates(&e.mode.refresh_rates);
        let ghost before = res@;
        let done = ModeEntry {
            key: e.key.clone(),
            mode: MonitorMode { width: e.mode.width, height: e.mode.height, refresh_rates: rates, pending: false },
        };
        assert(done@ == accepted(s[i as int]));
        res.push(done);
        assert(entries_view(res@) =~= entries_view(before).push(accepted(s[i as int])));
        assert(all_accepted(s.take(i + 1)) =~= all_accepted(s.take(i as int)).push(accepted(s[i as int])));
    }
    assert(s.take(entries@.len() as int) =~= s);
    res
}

/// The pairs of a list of entries.
fn entries_properties(entries: &Vec<ModeEntry>) -> (res: Vec<MonitorProperties>)
    ensures
        res@ == settled_properties(entries_view(entries@)),
{
    let ghost s = entries_view(entries@);
    let mut res: Vec<MonitorProperties> = Vec::new();
    for i in 0..entries.len()
        invariant
            s == entries_view(entries@),
            res@ == settled_properties(s.take(i as int)),
    {
        assert(s.take(i + 1).drop_last() =~= s.take(i as int));
        assert(s.take(i + 1).last() == s[i as int]);
        let e = &entries[i];
        if !e.mode.pending {
            let rates = settle_rates(&e.mode.refresh_rates);
            let ghost before = res@;
            let ghost items = rate_properties(e.mode.width, e.mode.height, e.mode.refresh_rates@);
            for j in 0..rates.len()
                invariant
                    res@ == before + items.take(j as int),
                    items == rates@.map_values(
                        |r: RefreshRate| MonitorProperties { width: e.mode.width, height: e.mode.height, refresh_rate: r.rate },
                    ),
            {
                res.push(MonitorProperties { width: e.mode.width, height: e.mode.height, refresh_rate: rates[j].rate });
                assert(res@ =~= before + items.take(j + 1));
            }
            assert(items.take(rates@.len() as int) =~= items);
        }
    }
    assert(s.take(entries@.len() as int) =~= s);
    res
}

impl Monitor {
    /// Drops the pending modes and the pending refresh rates of the others.
    pub fn remove_pending(&mut self)
        ensures
            final(self).id == old(self).id,
            modes_spec(final(self).modes) == modes_without_pending(modes_spec(old(self).modes)),
            modes_sorted(modes_spec(old(self).modes)) ==> modes_sorted(modes_spec(final(self).modes)),
    {
        let kept = match &self.modes {
            Some(entries) => Some(entries_without_pending(entries)),
            None => None,
        };
        proof {
            if let Some(entries) = old(self).modes {
                lemma_without_pending_keys(entries_view(entries@));
            }
        }
        self.modes = kept;
    }

    /// Marks every mode and refresh rate as applied.
    pub fn clear_pending(&mut self)
        ensures
            final(self).id == old(self).id,
            modes_spec(final(self).modes) == modes_accepted(modes_spec(old(self).modes)),
            modes_sorted(modes_spec(old(self).modes)) ==> modes_sorted(modes_spec(final(self).modes)),
    {
        let accepted_modes = match &self.modes {
            Some(entries) => Some(entries_accepted(entries)),
            None => None,
        };
        self.modes = accepted_modes;
    }

    /// The monitor in the flat format: its id and the pairs of its modes
    /// that are not pending.
    pub fn to_ipc(&self) -> (res: FlatMonitor)
        ensures
            res@ == (MonitorSpec { id: self.id, properties: monitor_properties(modes_spec(self.modes)) }),
    {
        let properties = match &self.modes {
            Some(entries) => entries_properties(entries),
            None => Vec::new(),
        };
        FlatMonitor { id: self.id, properties }
    }
}

/// Settling a list of refresh rates twice settles it once.
pub proof fn lemma_settled_rates_idempotent(rs: Seq<RefreshRate>)
    ensures
        settled_rates(settled_rates(rs)) == settled_rates(rs),
        forall|k: int| 0 <= k < settled_rates(rs).len() ==> !(#[trigger] settled_rates(rs)[k]).pending,
    decreases rs.len(),
{
    if rs.len() > 0 {
        lemma_settled_rates_idempotent(rs.drop_last());
        let p = settled_rates(rs.drop_last());
        if !rs.last().pending {
            assert(p.push(rs.last()).drop_last() =~= p);
        }
    }
}

/// A list of refresh rates none of which is pending is already settled.
pub proof fn lemma_settled_rates_accepted(rs: Seq<RefreshRate>)
    ensures
        settled_rates(accepted_rates(rs)) == accepted_rates(rs),
    decreases rs.len(),
{
    if rs.len() > 0 {
        lemma_settled_rates_accepted(rs.drop_last());
        assert(accepted_rates(rs).drop_last() =~= accepted_rates(rs.drop_last()));
    }
}

/// Dropping the pending changes does not change what the driver is told:
/// the pairs sent for a monitor are the same before and after.
pub proof fn law_remove_pending_keeps_sent(modes: Option<Seq<EntrySpec>>)
    ensures
        monitor_properties(modes_without_pending(modes)) == monitor_properties(modes),
{
    if let Some(es) = modes {
        lemma_sent_without_pending(es);
    }
}

proof fn lemma_sent_without_pending(es: Seq<EntrySpec>)
    ensures
        settled_properties(without_pending(es)) == settled_properties(es),
    decreases es.len(),
{
    if es.len() > 0 {
        let pre = es.drop_last();
        lemma_sent_without_pending(pre);
        let e = es.last();
        if !e.pending {
            let w = without_pending(pre).push(with_settled_rates(e));
            assert(w.drop_last() =~= without_pending(pre));
            lemma_settled_rates_idempotent(e.rates);
        }
    }
}

/// Dropping the pending changes twice drops them once.
pub proof fn law_remove_pending_idempotent(modes: Option<Seq<EntrySpec>>)
    ensures
        modes_without_pending(modes_without_pending(modes)) == modes_without_pending(modes),
{
    if let Some(es) = modes {
        lemma_without_pending_idempotent(es);
    }
}

proof fn lemma_without_pending_idempotent(es: Seq<EntrySpec>)
    ensures
        without_pending(without_pending(es)) == without_pending(es),
    decreases es.len(),
{
    if es.len() > 0 {
        let pre = es.drop_last();
        lemma_without_pending_idempotent(pre);
        let e = es.last();
        if !e.pending {
            let w = without_pending(pre).push(with_settled_rates(e));
            assert(w.drop_last() =~= without_pending(pre));
            lemma_settled_rates_idempotent(e.rates);
            assert(with_settled_rates(with_settled_rates(e)) == with_settled_rates(e));
        }
    }
}

/// Once the pending changes are applied there is nothing left to drop.
pub proof fn law_accepted_has_no_pending(modes: Option<Seq<EntrySpec>>)
    ensures
        modes_without_pending(modes_accepted(modes)) == modes_accepted(modes),
{
    if let Some(es) = modes {
        lemma_without_pending_accepted(es);
    }
}

proof fn lemma_without_pending_accepted(es: Seq<EntrySpec>)
    ensures
        without_pending(all_accepted(es)) == all_accepted(es),
    decreases es.len(),
{
    if es.len() > 0 {
        let pre = es.drop_last();
        lemma_without_pending_accepted(pre);
        assert(all_accepted(es).drop_last() =~= all_accepted(pre));
        lemma_settled_rates_accepted(es.last().rates);
        assert(with_settled_rates(accepted(es.last())) == accepted(es.last()));
        assert(all_accepted(pre).push(accepted(es.last())) =~= all_accepted(es));
    }
}

/// The control panel's state of one monitor: its name, whether it is
/// switched on, the monitor itself, whether its window is open, and the
/// numbers typed into the window's input boxes (0 where a box is empty).
#[derive(Debug)]
pub struct MonitorState {
    pub name: String,
    pub enabled: bool,
    pub monitor: Monitor,
    pub monitor_window: bool,
    pub tmp_w: u32,
    pub tmp_h: u32,
    pub tmp_r: u32,
    pub tmp_add: u32,
}

/// What a monitor's state holds, as a mathematical value.
#[verifier::ext_equal]
pub struct StateSpec {
    pub name: Seq<char>,
    pub enabled: bool,
    pub id: u32,
    pub modes: Option<Seq<EntrySpec>>,
    pub monitor_window: bool,
    pub tmp_w: u32,
    pub tmp_h: u32,
    pub tmp_r: u32,
    pub tmp_add: u32,
}

impl View for MonitorState {
    type V = StateSpec;

    open spec fn view(&self) -> StateSpec {
        StateSpec {
            name: self.name@,
            enabled: self.enabled,
            id: self.monitor.id,
            modes: modes_spec(self.monitor.modes),
            monitor_window: self.monitor_window,
            tmp_w: self.tmp_w,
            tmp_h: self.tmp_h,
            tmp_r: self.tmp_r,
            tmp_add: self.tmp_add,
        }
    }
}

/// A state with other modes.
pub open spec fn with_modes(s: StateSpec, modes: Option<Seq<EntrySpec>>) -> StateSpec {
    StateSpec { modes: modes, ..s }
}

/// The entry the panel creates for a new resolution with one refresh rate,
/// both pending.
pub open spec fn new_entry(width: u32, height: u32, rate: u32) -> EntrySpec {
    EntrySpec {
        key: resolution_key(width, height),
        width: width,
        height: height,
        rates: seq![RefreshRate { rate: rate, pending: true }],
        pending: true,
    }
}

/// Whether some entry is of this resolution.
pub open spec fn resolution_in(es: Seq<EntrySpec>, width: u32, height: u32) -> bool {
    exists|i: int| 0 <= i < es.len() && es[i].width == width && es[i].height == height
}

/// Whether a monitor already has a mode of this resolution.
pub open spec fn has_resolution(modes: Option<Seq<EntrySpec>>, width: u32, height: u32) -> bool {
    match modes {
        Some(es) => resolution_in(es, width, height),
        None => false,
    }
}

/// The entries of a monitor's map, none where it has no map.
pub open spec fn entries_or_empty(modes: Option<Seq<EntrySpec>>) -> Seq<EntrySpec> {
    match modes {
        Some(es) => es,
        None => Seq::empty(),
    }
}

/// What pressing "add resolution" does: with width, height and refresh
/// rate all typed in and no mode of that resolution yet, the new mode is
/// stored under its key and the three boxes are emptied; otherwise nothing
/// changes.
pub open spec fn resolution_added(s: StateSpec, after: StateSpec) -> bool {
    if s.tmp_w > 0 && s.tmp_h > 0 && s.tmp_r > 0 && !has_resolution(s.modes, s.tmp_w, s.tmp_h) {
        match after.modes {
            Some(es) => {
                &&& stored_under_key(entries_or_empty(s.modes), es, new_entry(s.tmp_w, s.tmp_h, s.tmp_r))
                &&& after == StateSpec { modes: after.modes, tmp_w: 0, tmp_h: 0, tmp_r: 0, ..s }
            },
            None => false,
        }
    } else {
        after == s
    }
}

/// What a number box holds after the user edits its text: the number
/// typed, 0 for an empty box, and the old value for text that is not a
/// number.
pub open spec fn edited(text: Seq<char>, current: u32) -> u32 {
    match spec_parse_u32(text) {
        Some(v) => v,
        None => if text.len() == 0 {
            0
        } else {
            current
        },
    }
}

/// The text a number box shows: the number, or nothing for 0.
pub open spec fn box_text(value: u32) -> Seq<char> {
    if value > 0 {
        decimal(value as nat)
    } else {
        Seq::empty()
    }
}

/// The value of a number box after the user edits its text.
pub fn edited_value(text: &str, current: u32) -> (res: u32)
    ensures
        res == edited(text@, current),
{
    match parse_u32(text) {
        Some(v) => v,
        None => {
            if text.is_empty() {
                0
            } else {
                current
            }
        },
    }
}

/// The text a number box shows for a value.
pub fn field_text(value: u32) -> (res: String)
    ensures
        res@ == box_text(value),
{
    let mut out: Vec<char> = Vec::new();
    if value > 0 {
        push_decimal(&mut out, value);
    }
    assert(out@ =~= box_text(value));
    string_from_chars(out.as_slice())
}

/// Whether some entry is of this resolution.
fn has_resolution_entry(entries: &Vec<ModeEntry>, width: u32, height: u32) -> (res: bool)
    ensures
        res == resolution_in(entries_view(entries@), width, height),
{
    let ghost s = entries_view(entries@);
    for i in 0..entries.len()
        invariant
            s == entries_view(entries@),
            forall|j: int| 0 <= j < i ==> !(s[j].width == width && s[j].height == height),
    {
        if entries[i].mode.width == width && entries[i].mode.height == height {
            assert(s[i as int].width == width && s[i as int].height == height);
            return true;
        }
    }
    false
}

/// The window in which the user adds a resolution to a monitor.
pub struct AddResolutionWindow;

impl AddResolutionWindow {
    /// The window; what the user types lives in the monitor's state.
    pub fn new() -> Self {
        AddResolutionWindow
    }

    /// The "add resolution" button: stores a new pending mode of the typed
    /// resolution with the typed refresh rate, unless a box is empty or the
    /// monitor already has that resolution.
    pub fn add_resolution(state: &mut MonitorState)
        requires
            modes_sorted(old(state)@.modes),
        ensures
            resolution_added(old(state)@, final(state)@),
            modes_sorted(final(state)@.modes),
    {
        let w = state.tmp_w;
        let h = state.tmp_h;
        let r = state.tmp_r;
        if h > 0 && w > 0 && r > 0 {
            let exists = match &state.monitor.modes {
                Some(entries) => has_resolution_entry(entries, w, h),
                None => false,
            };
            if !exists {
                let mut rates: Vec<RefreshRate> = Vec::new();
                rates.push(RefreshRate { rate: r, pending: true });
                let entry = ModeEntry {
                    key: resolution_key_string(w, h),
                    mode: MonitorMode { width: w, height: h, refresh_rates: rates, pending: true },
                };
                assert(entry@ == new_entry(w, h, r)) by {
                    assert(entry@.rates =~= seq![RefreshRate { rate: r, pending: true }]);
                }
                let mut entries = match state.monitor.modes.take() {
                    Some(v) => v,
                    None => Vec::new(),
                };
                assert(entries_view(entries@) =~= entries_or_empty(old(state)@.modes));
                insert_entry(&mut entries, entry);
                state.monitor.modes = Some(entries);
                state.tmp_w = 0;
                state.tmp_h = 0;
                state.tmp_r = 0;
                assert(final(state)@ =~= StateSpec {
                    modes: final(state)@.modes,
                    tmp_w: 0,
                    tmp_h: 0,
                    tmp_r: 0,
                    ..old(state)@
                });
            }
        }
    }
}

/// Whether entry `i` of `es` is stored under `key`.
pub open spec fn key_at(es: Seq<EntrySpec>, key: Seq<char>, i: int) -> bool {
    0 <= i < es.len() && es[i].key == key
}

/// The index of the entry stored under `key`, where there is one.
pub open spec fn index_of_key(es: Seq<EntrySpec>, key: Seq<char>) -> int {
    choose|i: int| key_at(es, key, i)
}

/// An entry with other refresh rates.
pub open spec fn with_rates(e: EntrySpec, rates: Seq<RefreshRate>) -> EntrySpec {
    EntrySpec { rates: rates, ..e }
}

/// A state whose map of modes became `rest`: when no mode is left the
/// monitor is switched off and the driver must be told to remove it (the
/// flag is then true).
pub open spec fn after_mode_removal(s: StateSpec, rest: Seq<EntrySpec>) -> (StateSpec, bool) {
    if rest.len() > 0 {
        (with_modes(s, Some(rest)), false)
    } else {
        (StateSpec { enabled: false, modes: Some(rest), ..s }, true)
    }
}

/// What removing the mode under `key` does.
pub open spec fn mode_removed(s: StateSpec, key: Seq<char>) -> (StateSpec, bool) {
    match s.modes {
        Some(es) => if exists|i: int| key_at(es, key, i) {
            after_mode_removal(s, es.remove(index_of_key(es, key)))
        } else {
            after_mode_removal(s, es)
        },
        None => (s, false),
    }
}

/// What removing refresh rate `index` of the mode under `key` does: a mode
/// left without refresh rates is removed too.
pub open spec fn rate_removed(s: StateSpec, key: Seq<char>, index: int) -> (StateSpec, bool) {
    match s.modes {
        Some(es) => if exists|i: int| key_at(es, key, i) {
            let i = index_of_key(es, key);
            let rates = es[i].rates.remove(index);
            if rates.len() > 0 {
                (with_modes(s, Some(es.update(i, with_rates(es[i], rates)))), false)
            } else {
                after_mode_removal(s, es.remove(i))
            }
        } else {
            (s, false)
        },
        None => (s, false),
    }
}

/// What adding the typed refresh rate to the mode under `key` does: with a
/// rate typed in and a mode under `key` that lacks it, the rate is added as
/// pending and the box emptied; otherwise nothing changes.
pub open spec fn rate_added(s: StateSpec, key: Seq<char>) -> StateSpec {
    match s.modes {
        Some(es) => if s.tmp_add > 0 && exists|i: int| key_at(es, key, i) {
            let i = index_of_key(es, key);
            if exists|j: int| 0 <= j < es[i].rates.len() && es[i].rates[j].rate == s.tmp_add {
                s
            } else {
                let rates = es[i].rates.push(RefreshRate { rate: s.tmp_add, pending: true });
                StateSpec { modes: Some(es.update(i, with_rates(es[i], rates))), tmp_add: 0, ..s }
            }
        } else {
            s
        },
        None => s,
    }
}

/// Whether no entry is applied with an applied refresh rate.
pub open spec fn nothing_settled(es: Seq<EntrySpec>) -> bool {
    forall|i: int| 0 <= i < es.len() ==> (es[i].pending || forall|j: int|
        0 <= j < es[i].rates.len() ==> (#[trigger] es[i].rates[j]).pending)
}

/// A monitor needs setting up when it has no mode that is applied and has
/// an applied refresh rate.
pub open spec fn needs_setup_spec(modes: Option<Seq<EntrySpec>>) -> bool {
    match modes {
        Some(es) => nothing_settled(es),
        None => true,
    }
}

/// Whether a monitor has at least one mode.
pub open spec fn has_modes(modes: Option<Seq<EntrySpec>>) -> bool {
    match modes {
        Some(es) => es.len() > 0,
        None => false,
    }
}

/// The text "Monitor " that names a monitor without a name.
pub open spec fn monitor_word() -> Seq<char> {
    seq!['M', 'o', 'n', 'i', 't', 'o', 'r', ' ']
}

/// The title of a monitor: its name, or "Monitor" and its id.
pub open spec fn title_spec(s: StateSpec) -> Seq<char> {
    if s.name.len() > 0 {
        s.name
    } else {
        monitor_word() + decimal(s.id as nat)
    }
}

/// A mode's label: `WxH`, marked with a leading `*` while pending.
pub open spec fn mode_label_spec(e: EntrySpec) -> Seq<char> {
    let text = decimal(e.width as nat) + seq!['x'] + decimal(e.height as nat);
    if e.pending {
        seq!['*'] + text
    } else {
        text
    }
}

/// A refresh rate's label, marked with a leading `*` while pending.
pub open spec fn rate_label_spec(r: RefreshRate) -> Seq<char> {
    if r.pending {
        seq!['*'] + decimal(r.rate as nat)
    } else {
        decimal(r.rate as nat)
    }
}

/// Keys in order stay in order when an entry is removed.
proof fn lemma_sorted_remove(es: Seq<EntrySpec>, i: int)
    requires
        keys_sorted(es),
        0 <= i < es.len(),
    ensures
        keys_sorted(es.remove(i)),
{
    let r = es.remove(i);
    assert forall|a: int, b: int| 0 <= a < b < r.len() implies key_less(#[trigger] r[a].key, #[trigger] r[b].key) by {
        let a2 = if a < i { a } else { a + 1 };
        let b2 = if b < i { b } else { b + 1 };
        assert(r[a] == es[a2] && r[b] == es[b2]);
    }
}

/// Keys in order stay in order when an entry is replaced by one with the
/// same key.
proof fn lemma_sorted_update(es: Seq<EntrySpec>, i: int, e: EntrySpec)
    requires
        keys_sorted(es),
        0 <= i < es.len(),
        e.key == es[i].key,
    ensures
        keys_sorted(es.update(i, e)),
{
    let r = es.update(i, e);
    assert forall|a: int, b: int| 0 <= a < b < r.len() implies key_less(#[trigger] r[a].key, #[trigger] r[b].key) by {
        assert(r[a].key == es[a].key && r[b].key == es[b].key);
    }
}

/// In a map in key order, a key is stored at one index at most.
proof fn lemma_key_unique(es: Seq<EntrySpec>, key: Seq<char>, i: int)
    requires
        keys_sorted(es),
        key_at(es, key, i),
    ensures
        index_of_key(es, key) == i,
{
    let j = index_of_key(es, key);
    assert(key_at(es, key, j));
    if j < i {
        assert(key_less(es[j].key, es[i].key));
        lemma_key_less_irreflexive(key);
    } else if i < j {
        assert(key_less(es[i].key, es[j].key));
        lemma_key_less_irreflexive(key);
    }
}

/// The index of the first entry stored under `key`.
fn find_key(entries: &Vec<ModeEntry>, key: &[char]) -> (res: Option<usize>)
    ensures
        match res {
            Some(i) => key_at(entries_view(entries@), key@, i as int),
            None => !exists|i: int| key_at(entries_view(entries@), key@, i),
        },
{
    let ghost s = entries_view(entries@);
    for i in 0..entries.len()
        invariant
            s == entries_view(entries@),
            forall|j: int| 0 <= j < i ==> !key_at(s, key@, j),
    {
        let k = chars_of(entries[i].key.as_str());
        if chars_eq(k.as_slice(), key) {
            return Some(i);
        }
    }
    None
}

/// A list holding one monitor id.
fn one_id(id: u32) -> (res: Vec<u32>)
    ensures
        res@ == seq![id],
{
    let mut ids: Vec<u32> = Vec::new();
    ids.push(id);
    assert(ids@ =~= seq![id]);
    ids
}

impl MonitorState {
    /// The title of the monitor's window and row: its name, or "Monitor"
    /// followed by its id.
    pub fn title(&self) -> (res: String)
        ensures
            res@ == title_spec(self@),
    {
        if !self.name.as_str().is_empty() {
            self.name.clone()
        } else {
            let mut out: Vec<char> = Vec::new();
            out.push('M');
            out.push('o');
            out.push('n');
            out.push('i');
            out.push('t');
            out.push('o');
            out.push('r');
            out.push(' ');
            push_decimal(&mut out, self.monitor.id);
            assert(out@ =~= title_spec(self@));
            string_from_chars(out.as_slice())
        }
    }

    /// Whether the monitor still needs setting up: it has no mode that is
    /// applied and has an applied refresh rate.
    pub fn needs_setup(&self) -> (res: bool)
        ensures
            res == needs_setup_spec(self@.modes),
    {
        match &self.monitor.modes {
            None => true,
            Some(entries) => {
                let ghost s = entries_view(entries@);
                for i in 0..entries.len()
                    invariant
                        s == entries_view(entries@),
                        self@.modes == Some(s),
                        forall|a: int| 0 <= a < i ==> (s[a].pending || forall|j: int|
                            0 <= j < s[a].rates.len() ==> (#[trigger] s[a].rates[j]).pending),
                {
                    let e = &entries[i];
                    if !e.mode.pending {
                        for j in 0..e.mode.refresh_rates.len()
                            invariant
                                s == entries_view(entries@),
                                self@.modes == Some(s),
                                0 <= i < s.len(),
                                e.mode.refresh_rates@ == s[i as int].rates,
                                !s[i as int].pending,
                                forall|b: int| 0 <= b < j ==> (#[trigger] e.mode.refresh_rates@[b]).pending,
                        {
                            if !e.mode.refresh_rates[j].pending {
                                assert(!s[i as int].rates[j as int].pending);
                                assert(!(s[i as int].pending || forall|b: int|
                                    0 <= b < s[i as int].rates.len() ==> (#[trigger] s[i as int].rates[b]).pending));
                                return false;
                            }
                        }
                    }
                }
                true
            },
        }
    }

    /// The command the delete button sends: the driver is told to remove
    /// the monitor when it is switched on and has modes.
    pub fn delete_command(&self) -> (res: Option<DriverCommand>)
        ensures
            match res {
                Some(DriverCommand::Remove(ids)) => self.enabled && has_modes(self@.modes) && ids@
                    == seq![self.monitor.id],
                Some(_) => false,
                None => !(self.enabled && has_modes(self@.modes)),
            },
    {
        let set_up = match &self.monitor.modes {
            Some(entries) => entries.len() > 0,
            None => false,
        };
        if self.enabled && set_up {
            Some(DriverCommand::Remove(one_id(self.monitor.id)))
        } else {
            None
        }
    }

    /// The command the monitor's switch sends once flipped: for a monitor
    /// with modes, switched on while the driver is on, the driver is told
    /// to add it; switched off, to remove it.
    pub fn toggle_command(&self, driver_enabled: bool) -> (res: Option<DriverCommand>)
        ensures
            match res {
                Some(DriverCommand::Add(ms)) => has_modes(self@.modes) && self.enabled && driver_enabled
                    && ms@.len() == 1 && ms@[0]@ == (MonitorSpec {
                    id: self.monitor.id,
                    properties: monitor_properties(self@.modes),
                }),
                Some(DriverCommand::Remove(ids)) => has_modes(self@.modes) && !self.enabled && ids@
                    == seq![self.monitor.id],
                Some(_) => false,
                None => !has_modes(self@.modes) || (self.enabled && !driver_enabled),
            },
    {
        let set_up = match &self.monitor.modes {
            Some(entries) => entries.len() > 0,
            None => false,
        };
        if !set_up {
            None
        } else if self.enabled && driver_enabled {
            let mut ms: Vec<FlatMonitor> = Vec::new();
            ms.push(self.monitor.to_ipc());
            Some(DriverCommand::Add(ms))
        } else if !self.enabled {
            Some(DriverCommand::Remove(one_id(self.monitor.id)))
        } else {
            None
        }
    }

    /// Removes the mode under `key`; a monitor left without modes is
    /// switched off, and the command to remove it from the driver returned.
    pub fn remove_mode(&mut self, key: &str) -> (res: Option<DriverCommand>)
        requires
            modes_sorted(old(self)@.modes),
        ensures
            final(self)@ == mode_removed(old(self)@, key@).0,
            modes_sorted(final(self)@.modes),
            match res {
                Some(DriverCommand::Remove(ids)) => mode_removed(old(self)@, key@).1 && ids@ == seq![
                    old(self).monitor.id,
                ],
                Some(_) => false,
                None => !mode_removed(old(self)@, key@).1,
            },
    {
        let k = chars_of(key);
        let mut entries = match self.monitor.modes.take() {
            Some(v) => v,
            None => {
                return None;
            },
        };
        let ghost es = entries_view(entries@);
        match find_key(&entries, k.as_slice()) {
            Some(i) => {
                proof {
                    lemma_key_unique(es, key@, i as int);
                    lemma_sorted_remove(es, i as int);
                }
                entries.remove(i);
                assert(entries_view(entries@) =~= es.remove(i as int));
            },
            None => {},
        }
        let empty = entries.len() == 0;
        self.monitor.modes = Some(entries);
        if empty {
            self.enabled = false;
            Some(DriverCommand::Remove(one_id(self.monitor.id)))
        } else {
            None
        }
    }

    /// Removes refresh rate `index` of the mode under `key`; a mode left
    /// without refresh rates is removed as `remove_mode` does.
    pub fn remove_refresh_rate(&mut self, key: &str, index: usize) -> (res: Option<DriverCommand>)
        requires
            modes_sorted(old(self)@.modes),
            match old(self)@.modes {
                Some(es) => forall|i: int| key_at(es, key@, i) ==> index < (#[trigger] es[i]).rates.len(),
                None => true,
            },
        ensures
            final(self)@ == rate_removed(old(self)@, key@, index as int).0,
            modes_sorted(final(self)@.modes),
            match res {
                Some(DriverCommand::Remove(ids)) => rate_removed(old(self)@, key@, index as int).1
                    && ids@ == seq![old(self).monitor.id],
                Some(_) => false,
                None => !rate_removed(old(self)@, key@, index as int).1,
            },
    {
        let k = chars_of(key);
        let mut entries = match self.monitor.modes.take() {
            Some(v) => v,
            None => {
                return None;
            },
        };
        let ghost es = entries_view(entries@);
        match find_key(&entries, k.as_slice()) {
            None => {
                self.monitor.modes = Some(entries);
                None
            },
            Some(i) => {
                proof {
                    lemma_key_unique(es, key@, i as int);
                }
                let mut e = entries.remove(i);
                e.mode.refresh_rates.remove(index);
                if e.mode.refresh_rates.len() > 0 {
                    let ghost ev = e@;
                    entries.insert(i, e);
                    proof {
                        assert(ev == with_rates(es[i as int], es[i as int].rates.remove(index as int)));
                        assert(entries_view(entries@) =~= es.update(i as int, ev));
                        lemma_sorted_update(es, i as int, ev);
                    }
                    self.monitor.modes = Some(entries);
                    None
                } else {
                    proof {
                        assert(entries_view(entries@) =~= es.remove(i as int));
                        lemma_sorted_remove(es, i as int);
                    }
                    let empty = entries.len() == 0;
                    self.monitor.modes = Some(entries);
                    if empty {
                        self.enabled = false;
                        Some(DriverCommand::Remove(one_id(self.monitor.id)))
                    } else {
                        None
                    }
                }
            },
        }
    }

    /// Adds the refresh rate typed into the box to the mode under `key`,
    /// pending, unless the box is empty or the mode already has that rate.
    pub fn add_refresh_rate(&mut self, key: &str)
        requires
            modes_sorted(old(self)@.modes),
        ensures
            final(self)@ == rate_added(old(self)@, key@),
            modes_sorted(final(self)@.modes),
    {
        if self.tmp_add == 0 {
            return;
        }
        let rate = self.tmp_add;
        let k = chars_of(key);
        let mut entries = match self.monitor.modes.take() {
            Some(v) => v,
            None => {
                return;
            },
        };
        let ghost es = entries_view(entries@);
        match find_key(&entries, k.as_slice()) {
            None => {
                self.monitor.modes = Some(entries);
            },
            Some(i) => {
                proof {
                    lemma_key_unique(es, key@, i as int);
                }
                let mut present = false;
                let n = entries[i].mode.refresh_rates.len();
                for j in 0..n
                    invariant
                        es == entries_view(entries@),
                        0 <= i < entries@.len(),
                        n == es[i as int].rates.len(),
                        present <==> exists|b: int| 0 <= b < j && es[i as int].rates[b].rate == rate,
                {
                    if entries[i].mode.refresh_rates[j].rate == rate {
                        present = true;
                    }
                }
                if present {
                    self.monitor.modes = Some(entries);
                } else {
                    let mut e = entries.remove(i);
                    e.mode.refresh_rates.push(RefreshRate { rate, pending: true });
                    let ghost ev = e@;
                    entries.insert(i, e);
                    proof {
                        assert(entries_view(entries@) =~= es.update(i as int, ev));
                        lemma_sorted_update(es, i as int, ev);
                    }
                    self.monitor.modes = Some(entries);
                    self.tmp_add = 0;
                }
            },
        }
    }
}

impl ModeEntry {
    /// The label of the mode: `WxH`, with a leading `*` while pending.
    pub fn label(&self) -> (res: String)
        ensures
            res@ == mode_label_spec(self@),
    {
        let mut out: Vec<char> = Vec::new();
        if self.mode.pending {
            out.push('*');
        }
        push_decimal(&mut out, self.mode.width);
        out.push('x');
        push_decimal(&mut out, self.mode.height);
        assert(out@ =~= mode_label_spec(self@));
        string_from_chars(out.as_slice())
    }
}

impl RefreshRate {
    /// The label of the refresh rate, with a leading `*` while pending.
    pub fn label(&self) -> (res: String)
        ensures
            res@ == rate_label_spec(*self),
    {
        let mut out: Vec<char> = Vec::new();
        if self.pending {
            out.push('*');
        }
        push_decimal(&mut out, self.rate);
        assert(out@ =~= rate_label_spec(*self));
        string_from_chars(out.as_slice())
    }
}

/// The views of a list of monitor states.
pub open spec fn states_view(s: Seq<MonitorState>) -> Seq<StateSpec> {
    s.map_values(|m: MonitorState| m@)
}

/// What the driver is told of a monitor: its id and its settled pairs.
pub open spec fn sent_monitor(s: StateSpec) -> MonitorSpec {
    MonitorSpec { id: s.id, properties: monitor_properties(s.modes) }
}

/// What the driver is told of a list of monitors.
pub open spec fn sent_monitors(ss: Seq<StateSpec>) -> Seq<MonitorSpec> {
    ss.map_values(|s: StateSpec| sent_monitor(s))
}

/// A state with its pending changes dropped.
pub open spec fn state_without_pending(s: StateSpec) -> StateSpec {
    with_modes(s, modes_without_pending(s.modes))
}

/// The state of a monitor the panel has just added: no name, switched off,
/// no modes, empty boxes.
pub open spec fn fresh_state(id: u32) -> StateSpec {
    StateSpec {
        name: Seq::empty(),
        enabled: false,
        id: id,
        modes: None,
        monitor_window: false,
        tmp_w: 0,
        tmp_h: 0,
        tmp_r: 0,
        tmp_add: 0,
    }
}

/// Whether `k` is where a new monitor goes: the first position (counting
/// from 1) whose monitor does not have its position as id, or one past the
/// end when every monitor does.
pub open spec fn is_free_slot(s: Seq<StateSpec>, k: int) -> bool {
    &&& 1 <= k <= s.len() + 1
    &&& forall|j: int| 1 <= j < k ==> (#[trigger] s[j - 1]).id == j
    &&& k <= s.len() ==> s[k - 1].id != k
}

/// The most monitors the panel lets the user add.
pub const MAX_MONITORS: usize = 10;

/// The monitors in the flat format.
fn states_to_ipc(states: &[MonitorState]) -> (res: Vec<FlatMonitor>)
    ensures
        flat_monitors_view(res@) == sent_monitors(states_view(states@)),
{
    let mut res: Vec<FlatMonitor> = Vec::new();
    for i in 0..states.len()
        invariant
            flat_monitors_view(res@) == sent_monitors(states_view(states@.take(i as int))),
    {
        let ghost before = res@;
        let m = states[i].monitor.to_ipc();
        assert(m@ == sent_monitor(states@[i as int]@));
        res.push(m);
        let ghost t = states_view(states@.take(i + 1));
        assert(t =~= states_view(states@.take(i as int)).push(states@[i as int]@));
        assert(sent_monitors(t) =~= sent_monitors(states_view(states@.take(i as int))).push(
            sent_monitor(states@[i as int]@),
        ));
        assert(flat_monitors_view(res@) =~= flat_monitors_view(before).push(m@));
    }
    assert(states@.take(states@.len() as int) =~= states@);
    res
}

/// Dropping the pending changes of every monitor.
pub trait RemovePending: Sized {
    fn remove_pending(self) -> Self;
}

impl RemovePending for Vec<MonitorState> {
    fn remove_pending(self) -> (res: Self)
        ensures
            states_view(res@) == states_view(self@).map_values(|s: StateSpec| state_without_pending(s)),
    {
        let ghost orig = states_view(self@);
        let mut rest = self;
        let mut res: Vec<MonitorState> = Vec::new();
        while rest.len() > 0
            invariant
                res@.len() + rest@.len() == orig.len(),
                states_view(rest@) == orig.subrange(res@.len() as int, orig.len() as int),
                states_view(res@) == orig.take(res@.len() as int).map_values(
                    |s: StateSpec| state_without_pending(s),
                ),
            decreases rest@.len(),
        {
            let ghost k: int = res@.len() as int;
            let ghost before = rest@;
            let mut s = rest.remove(0);
            assert(s@ == orig[k as int]) by {
                assert(states_view(before)[0] == orig[k as int]);
            }
            let ghost done_before = res@;
            s.monitor.remove_pending();
            assert(s@ == state_without_pending(orig[k]));
            res.push(s);
            assert(states_view(rest@) =~= orig.subrange(k + 1, orig.len() as int)) by {
                assert(rest@ =~= before.subrange(1, before.len() as int));
                assert forall|j: int| 0 <= j < rest@.len() implies states_view(rest@)[j] == orig[k + 1 + j] by {
                    assert(states_view(before)[j + 1] == orig[k + 1 + j]);
                }
            }
            assert(states_view(res@) =~= states_view(done_before).push(state_without_pending(orig[k])));
            assert(orig.take(k + 1).map_values(|s: StateSpec| state_without_pending(s)) =~= orig.take(k).map_values(
                |s: StateSpec| state_without_pending(s),
            ).push(state_without_pending(orig[k])));
        }
        assert(orig.take(orig.len() as int) =~= orig);
        res
    }
}

/// Turning monitors into the flat format.
pub trait IntoIpc {
    fn into_monitors(self) -> Vec<FlatMonitor>;
}

impl IntoIpc for Vec<MonitorState> {
    fn into_monitors(self) -> (res: Vec<FlatMonitor>)
        ensures
            flat_monitors_view(res@) == sent_monitors(states_view(self@)),
    {
        states_to_ipc(self.as_slice())
    }
}

/// The "+" button: adds a new monitor, switched off and without modes, at
/// the first position whose monitor does not have its position as id (and
/// with that id), unless there are already ten monitors.
pub fn add_monitor(monitors: &mut Vec<MonitorState>) -> (added: bool)
    ensures
        added == (old(monitors)@.len() < MAX_MONITORS),
        added ==> exists|k: int|
            is_free_slot(states_view(old(monitors)@), k) && states_view(final(monitors)@) == states_view(
                old(monitors)@,
            ).insert(k - 1, fresh_state(k as u32)),
        !added ==> states_view(final(monitors)@) == states_view(old(monitors)@),
        old(monitors)@.len() <= MAX_MONITORS ==> final(monitors)@.len() <= MAX_MONITORS,
{
    if monitors.len() >= MAX_MONITORS {
        return false;
    }
    let ghost s = states_view(monitors@);
    let n = monitors.len();
    let mut id: usize = n + 1;
    let mut idx: usize = 0;
    let mut done = false;
    while idx < n && !done
        invariant
            n == monitors@.len(),
            n < MAX_MONITORS,
            s == states_view(monitors@),
            idx <= n,
            forall|j: int| 1 <= j <= idx ==> (#[trigger] s[j - 1]).id == j,
            done ==> idx < n && id == idx + 1 && s[idx as int].id != idx + 1,
            !done ==> id == n + 1,
        decreases n - idx + (if done { 0int } else { 1int }),
    {
        if monitors[idx].monitor.id != (idx + 1) as u32 {
            id = idx + 1;
            done = true;
        } else {
            idx = idx + 1;
        }
    }
    let fresh = MonitorState {
        name: String::new(),
        enabled: false,
        monitor: Monitor { id: id as u32, modes: None },
        monitor_window: false,
        tmp_w: 0,
        tmp_h: 0,
        tmp_r: 0,
        tmp_add: 0,
    };
    assert(fresh@ =~= fresh_state(id as u32));
    monitors.insert(id - 1, fresh);
    assert(is_free_slot(s, id as int));
    assert(states_view(monitors@) =~= s.insert(id - 1, fresh_state(id as u32)));
    true
}

/// The command the panel's main switch sends: with the driver switched off,
/// remove every monitor; switched on, add all of them.
pub fn driver_command(enabled: bool, monitors: &[MonitorState]) -> (res: DriverCommand)
    ensures
        match res {
            DriverCommand::RemoveAll => !enabled,
            DriverCommand::Add(ms) => enabled && flat_monitors_view(ms@) == sent_monitors(states_view(monitors@)),
            _ => false,
        },
{
    if !enabled {
        DriverCommand::RemoveAll
    } else {
        DriverCommand::Add(states_to_ipc(monitors))
    }
}

/// The monitors the driver finds in its settings when the panel saves: all
/// of them, without pending changes, while the driver is switched on, and
/// none while it is off.
pub fn registry_monitors(enabled: bool, monitors: &[MonitorState]) -> (res: Vec<FlatMonitor>)
    ensures
        flat_monitors_view(res@) == (if enabled {
            sent_monitors(states_view(monitors@).map_values(|s: StateSpec| state_without_pending(s)))
        } else {
            Seq::empty()
        }),
{
    if enabled {
        let res = states_to_ipc(monitors);
        proof {
            let ss = states_view(monitors@);
            let ws = ss.map_values(|s: StateSpec| state_without_pending(s));
            assert forall|i: int| 0 <= i < ss.len() implies sent_monitors(ws)[i] == sent_monitors(ss)[i] by {
                law_remove_pending_keeps_sent(ss[i].modes);
            }
            assert(sent_monitors(ws) =~= sent_monitors(ss));
        }
        res
    } else {
        let res: Vec<FlatMonitor> = Vec::new();
        assert(flat_monitors_view(res@) =~= Seq::<MonitorSpec>::empty());
        res
    }
}
/// Removing refresh rate `index` of a mode that keeps at least one rate
/// takes out exactly the rate at that position: the rates before it stay,
/// the ones after it move up by one, in order; every other mode, the mode's
/// key and resolution, and the rest of the state stay as they were, and the
/// driver is not told to remove the monitor.
pub proof fn law_remove_refresh_rate_at_index(s: StateSpec, key: Seq<char>, index: int, i: int)
    requires
        s.modes is Some,
        keys_sorted(s.modes->0),
        key_at(s.modes->0, key, i),
        0 <= index < s.modes->0[i].rates.len(),
        s.modes->0[i].rates.len() > 1,
    ensures
        ({
            let es = s.modes->0;
            let (t, told) = rate_removed(s, key, index);
            &&& !told
            &&& t.modes is Some
            &&& t == StateSpec { modes: t.modes, ..s }
            &&& t.modes->0.len() == es.len()
            &&& forall|q: int| 0 <= q < es.len() && q != i ==> t.modes->0[q] == es[q]
            &&& t.modes->0[i].key == es[i].key
            &&& t.modes->0[i].width == es[i].width
            &&& t.modes->0[i].height == es[i].height
            &&& t.modes->0[i].pending == es[i].pending
            &&& t.modes->0[i].rates.len() + 1 == es[i].rates.len()
            &&& forall|p: int| 0 <= p < index ==> t.modes->0[i].rates[p] == es[i].rates[p]
            &&& forall|p: int|
                index <= p < t.modes->0[i].rates.len() ==> t.modes->0[i].rates[p] == es[i].rates[p
                    + 1]
        }),
{
    let es = s.modes->0;
    lemma_key_unique(es, key, i);
}

/// Removing the only refresh rate of a mode removes the mode, the others
/// keeping their order; when no mode is left the monitor is switched off
/// and the driver is told to remove it, and otherwise the rest of the state
/// stays as it was. Removing a rate of a mode that is not there changes
/// nothing.
pub proof fn law_remove_last_refresh_rate(s: StateSpec, key: Seq<char>, index: int, i: int)
    requires
        s.modes is Some,
        keys_sorted(s.modes->0),
    ensures
        ({
            let es = s.modes->0;
            let (t, told) = rate_removed(s, key, index);
            &&& (key_at(es, key, i) && index == 0 && es[i].rates.len() == 1) ==> {
                &&& t.modes == Some(es.remove(i))
                &&& told == (es.len() == 1)
                &&& t.enabled == (s.enabled && es.len() > 1)
                &&& t == StateSpec { modes: t.modes, enabled: t.enabled, ..s }
            }
            &&& (forall|q: int| 0 <= q < es.len() ==> (#[trigger] es[q]).key != key) ==> t == s
                && !told
        }),
{
    let es = s.modes->0;
    if key_at(es, key, i) {
        lemma_key_unique(es, key, i);
    }
}

} // verus!
