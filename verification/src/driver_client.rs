//! The monitor state that a client edits before sending it to the driver,
//! and the queries that pick monitors by name or by id.

use vstd::prelude::*;

use crate::model::{
    copy_monitors, lemma_monitors_view_push, monitors_view, with_enabled, with_modes, Id, Mode,
    ModeView, Monitor, MonitorView,
};
use crate::text::{chars_of, spec_parse_u32, parse_u32_chars, chars_eq};
use crate::validation::{
    dup_result, id_in, mode_dup, mode_has_duplicates, mon_has_duplicates, mons_have_duplicates,
    monitor_dup, monitors_dup, resolution_in, same_resolution, DuplicateError, lemma_monitors_dup,
    monitors_valid,
};

verus! {

/// A query matched no monitor.
#[derive(Debug)]
pub struct QueryNotFound(pub String);

/// No monitor has the given id.
#[derive(Debug, Clone, Copy, PartialEq, Eq, Structural)]
pub struct MonNotFound(pub Id);

/// Error of [`DriverClient::add_mode`].
#[derive(Debug, Clone, Copy, PartialEq, Eq, Structural)]
pub enum AddModeError {
    /// No monitor has this id.
    MonNotFound(Id),
    /// The monitor already has this resolution: (monitor id, width, height).
    DupMode(Id, u32, u32),
    /// The new mode repeats a refresh rate: (rate, width, height, monitor id).
    DupRefreshRate(u32, u32, u32, Id),
}

/// Error of [`DriverClient::add_mode_query`].
#[derive(Debug)]
pub enum AddModeQueryError {
    /// The query matched no monitor.
    QueryNotFound(String),
    /// The monitor already has this resolution: (monitor id, width, height).
    DupMode(Id, u32, u32),
    /// The new mode repeats a refresh rate: (rate, width, height, monitor id).
    DupRefreshRate(u32, u32, u32, Id),
}

// ---------------------------------------------------------------------------
// Model of the state and of queries
// ---------------------------------------------------------------------------

/// `i` is the position of the first monitor with id `id`.
pub open spec fn is_first_id(s: Seq<MonitorView>, id: Id, i: int) -> bool {
    &&& 0 <= i < s.len()
    &&& s[i].id == id
    &&& forall|j: int| 0 <= j < i ==> (#[trigger] s[j]).id != id
}

/// Position of the first monitor with id `id` (meaningful when one exists).
pub open spec fn first_id_index(s: Seq<MonitorView>, id: Id) -> int {
    choose|i: int| is_first_id(s, id, i)
}

/// `i` is the position of the first monitor named `q`.
pub open spec fn is_first_name(s: Seq<MonitorView>, q: Seq<char>, i: int) -> bool {
    &&& 0 <= i < s.len()
    &&& s[i].name == Some(q)
    &&& forall|j: int| 0 <= j < i ==> (#[trigger] s[j]).name != Some(q)
}

/// Some monitor is named `q`.
pub open spec fn name_in(s: Seq<MonitorView>, q: Seq<char>) -> bool {
    exists|i: int| 0 <= i < s.len() && (#[trigger] s[i]).name == Some(q)
}

/// The id a query designates: the first monitor whose name is the query;
/// failing that, the id the query spells in decimal, if a monitor has it.
/// The name has precedence over the id.
pub open spec fn query_id(s: Seq<MonitorView>, q: Seq<char>) -> Option<Id> {
    if name_in(s, q) {
        Some(s[choose|i: int| is_first_name(s, q, i)].id)
    } else {
        match spec_parse_u32(q) {
            Some(n) => if id_in(s, n) {
                Some(n)
            } else {
                None
            },
            None => None,
        }
    }
}

/// The monitors of `s` whose id is not listed in `ids`, in order.
pub open spec fn without_ids(s: Seq<MonitorView>, ids: Seq<Id>) -> Seq<MonitorView>
    decreases s.len(),
{
    if s.len() == 0 {
        s
    } else {
        let r = without_ids(s.drop_last(), ids);
        if ids.contains(s.last().id) {
            r
        } else {
            r.push(s.last())
        }
    }
}

/// `s` with the enabled flag of every monitor whose id is listed set to `e`.
pub open spec fn enabled_for(s: Seq<MonitorView>, ids: Seq<Id>, e: bool) -> Seq<MonitorView> {
    s.map_values(
        |m: MonitorView|
            if ids.contains(m.id) {
                with_enabled(m, e)
            } else {
                m
            },
    )
}

/// The modes of `ms` whose resolution is not `w`x`h`, in order.
pub open spec fn without_resolution(ms: Seq<ModeView>, w: u32, h: u32) -> Seq<ModeView>
    decreases ms.len(),
{
    if ms.len() == 0 {
        ms
    } else {
        let r = without_resolution(ms.drop_last(), w, h);
        if ms.last().width == w && ms.last().height == h {
            r
        } else {
            r.push(ms.last())
        }
    }
}

/// The views of a list of query strings.
pub open spec fn queries_view(qs: Seq<&str>) -> Seq<Seq<char>> {
    qs.map_values(|q: &str| q@)
}

/// `i` is the position of the first query that designates no monitor.
pub open spec fn is_first_unresolved(s: Seq<MonitorView>, qs: Seq<Seq<char>>, i: int) -> bool {
    &&& 0 <= i < qs.len()
    &&& query_id(s, qs[i]) is None
    &&& forall|j: int| 0 <= j < i ==> query_id(s, #[trigger] qs[j]) is Some
}

/// Every query designates a monitor.
pub open spec fn all_resolved(s: Seq<MonitorView>, qs: Seq<Seq<char>>) -> bool {
    forall|j: int| 0 <= j < qs.len() ==> query_id(s, #[trigger] qs[j]) is Some
}

/// The ids designated by queries that all resolve.
pub open spec fn resolved_ids(s: Seq<MonitorView>, qs: Seq<Seq<char>>) -> Seq<Id> {
    qs.map_values(|q: Seq<char>| query_id(s, q)->0)
}

/// `s` with mode `m` appended to the monitor at position `k`.
pub open spec fn with_mode_added(s: Seq<MonitorView>, k: int, m: ModeView) -> Seq<MonitorView> {
    s.update(k, with_modes(s[k], s[k].modes.push(m)))
}

/// `s` with every mode of resolution `w`x`h` removed from the monitor at `k`.
pub open spec fn with_resolution_removed(s: Seq<MonitorView>, k: int, w: u32, h: u32) -> Seq<
    MonitorView,
> {
    s.update(k, with_modes(s[k], without_resolution(s[k].modes, w, h)))
}

/// The first monitor with a listed id exists exactly when some monitor has it.
pub proof fn lemma_first_id_exists(s: Seq<MonitorView>, id: Id)
    requires
        id_in(s, id),
    ensures
        is_first_id(s, id, first_id_index(s, id)),
    decreases s.len(),
{
    if s[0].id == id {
        assert(is_first_id(s, id, 0));
    } else {
        let t = s.drop_first();
        let j = choose|j: int| 0 <= j < s.len() && (#[trigger] s[j]).id == id;
        assert(t[j - 1].id == id);
        lemma_first_id_exists(t, id);
        let k = first_id_index(t, id);
        assert(is_first_id(s, id, k + 1)) by {
            assert forall|i: int| 0 <= i < k + 1 implies (#[trigger] s[i]).id != id by {
                if i > 0 {
                    assert(s[i] == t[i - 1]);
                }
            }
        }
    }
}

/// The first position found for an id is the one the model names.
pub proof fn lemma_first_id_is(s: Seq<MonitorView>, id: Id, i: int)
    requires
        is_first_id(s, id, i),
    ensures
        first_id_index(s, id) == i,
{
    let k = first_id_index(s, id);
    assert(is_first_id(s, id, k));
    if k < i {
        assert(s[k].id != id);
    } else if i < k {
        assert(s[i].id != id);
    }
}

/// The first position found for a name is the one the model names.
pub proof fn lemma_first_name_is(s: Seq<MonitorView>, q: Seq<char>, i: int)
    requires
        is_first_name(s, q, i),
    ensures
        query_id(s, q) == Some(s[i].id),
{
    assert(name_in(s, q));
    let k = choose|k: int| is_first_name(s, q, k);
    assert(is_first_name(s, q, k));
    if k < i {
        assert(s[k].name != Some(q));
    } else if i < k {
        assert(s[i].name != Some(q));
    }
}

/// A query that resolves designates a monitor of the state.
pub proof fn lemma_query_id_exists(s: Seq<MonitorView>, q: Seq<char>)
    ensures
        query_id(s, q) matches Some(id) ==> id_in(s, id),
    decreases s.len(),
{
    if name_in(s, q) {
        lemma_first_name_exists(s, q);
        let k = choose|k: int| is_first_name(s, q, k);
        assert(s[k].id == s[k].id);
    }
}

/// Some monitor is named `q` exactly when a first one is.
pub proof fn lemma_first_name_exists(s: Seq<MonitorView>, q: Seq<char>)
    requires
        name_in(s, q),
    ensures
        exists|k: int| is_first_name(s, q, k),
    decreases s.len(),
{
    if s[0].name == Some(q) {
        assert(is_first_name(s, q, 0));
    } else {
        let t = s.drop_first();
        let j = choose|j: int| 0 <= j < s.len() && (#[trigger] s[j]).name == Some(q);
        assert(t[j - 1].name == Some(q));
        lemma_first_name_exists(t, q);
        let k = choose|k: int| is_first_name(t, q, k);
        assert(is_first_name(s, q, k + 1)) by {
            assert forall|i: int| 0 <= i < k + 1 implies (#[trigger] s[i]).name != Some(q) by {
                if i > 0 {
                    assert(s[i] == t[i - 1]);
                }
            }
        }
    }
}

/// Whether id `k` is free: no monitor of `s` has it.
pub open spec fn id_free(s: Seq<MonitorView>, k: Id) -> bool {
    !id_in(s, k)
}

/// A state of at most `u32::MAX` monitors leaves some id free.
pub proof fn lemma_free_id_exists(s: Seq<MonitorView>)
    requires
        s.len() <= u32::MAX,
    ensures
        exists|k: Id| id_free(s, k),
{
    let ids = s.map_values(|m: MonitorView| m.id as int);
    let all = vstd::set_lib::set_int_range(0, u32::MAX as int + 1);
    if forall|k: Id| !id_free(s, k) {
        assert(all.subset_of(ids.to_set())) by {
            assert forall|x: int| all.contains(x) implies ids.to_set().contains(x) by {
                let k = x as u32;
                assert(!id_free(s, k));
                let j = choose|j: int| 0 <= j < s.len() && (#[trigger] s[j]).id == k;
                assert(ids[j] == x);
            }
        }
        vstd::set_lib::lemma_int_range(0, u32::MAX as int + 1);
        ids.lemma_cardinality_of_set();
        vstd::set_lib::lemma_len_subset(all, ids.to_set());
        assert(false);
    }
}

// ---------------------------------------------------------------------------
// Executable helpers
// ---------------------------------------------------------------------------

/// Whether `ids` lists `id`.
pub fn id_listed(ids: &[Id], id: Id) -> (res: bool)
    ensures
        res == ids@.contains(id),
{
    let mut i: usize = 0;
    while i < ids.len()
        invariant
            i <= ids@.len(),
            forall|j: int| 0 <= j < i ==> ids@[j] != id,
        decreases ids@.len() - i,
    {
        if ids[i] == id {
            assert(ids@[i as int] == id);
            return true;
        }
        i = i + 1;
    }
    false
}

/// Position of the first monitor with id `id`.
pub fn position_of_id(monitors: &[Monitor], id: Id) -> (res: Option<usize>)
    ensures
        match res {
            Some(i) => is_first_id(monitors_view(monitors@), id, i as int),
            None => !id_in(monitors_view(monitors@), id),
        },
{
    let ghost s = monitors_view(monitors@);
    let mut i: usize = 0;
    while i < monitors.len()
        invariant
            s == monitors_view(monitors@),
            i <= monitors@.len(),
            forall|j: int| 0 <= j < i ==> (#[trigger] s[j]).id != id,
        decreases monitors@.len() - i,
    {
        if monitors[i].id == id {
            return Some(i);
        }
        i = i + 1;
    }
    None
}

/// Whether mode list `modes` has a mode of resolution `w`x`h`.
fn has_resolution(modes: &[Mode], m: &Mode) -> (res: bool)
    ensures
        res == resolution_in(crate::model::modes_view(modes@), m@),
{
    let ghost ms = crate::model::modes_view(modes@);
    let mut i: usize = 0;
    while i < modes.len()
        invariant
            ms == crate::model::modes_view(modes@),
            i <= modes@.len(),
            forall|j: int| 0 <= j < i ==> !same_resolution(#[trigger] ms[j], m@),
        decreases modes@.len() - i,
    {
        if modes[i].width == m.width && modes[i].height == m.height {
            assert(same_resolution(ms[i as int], m@));
            return true;
        }
        i = i + 1;
    }
    false
}

/// Removes every mode of resolution `w`x`h`, keeping the others in order.
fn retain_other_resolutions(modes: Vec<Mode>, w: u32, h: u32) -> (res: Vec<Mode>)
    ensures
        crate::model::modes_view(res@) == without_resolution(
            crate::model::modes_view(modes@),
            w,
            h,
        ),
{
    let ghost olds = modes@;
    let mut res: Vec<Mode> = Vec::new();
    for m in it: modes
        invariant
            it.seq() == olds,
            crate::model::modes_view(res@) == without_resolution(
                crate::model::modes_view(olds.take(it.index() as int)),
                w,
                h,
            ),
    {
        let ghost k = it.index() as int;
        let ghost before = res@;
        proof {
            assert(olds.take(k + 1).drop_last() == olds.take(k));
            assert(crate::model::modes_view(olds.take(k + 1)).drop_last() =~= crate::model::modes_view(
                olds.take(k),
            ));
            assert(crate::model::modes_view(olds.take(k + 1)).last() == m@);
        }
        if !(m.width == w && m.height == h) {
            res.push(m);
            proof {
                crate::model::lemma_modes_view_push(before, m);
            }
        }
    }
    assert(olds.take(olds.len() as int) == olds);
    res
}

// ---------------------------------------------------------------------------
// The client state
// ---------------------------------------------------------------------------

/// The monitor state a client holds.
///
/// Changing this state does not affect the driver: the caller sends it
/// with a notify command when it is ready. The state is not synchronized
/// with the driver on its own; `refresh_state` takes the latest state the
/// driver reported.
pub struct DriverClient {
    state: Vec<Monitor>,
}

impl View for DriverClient {
    type V = Seq<MonitorView>;

    closed spec fn view(&self) -> Seq<MonitorView> {
        monitors_view(self.state@)
    }
}

impl DriverClient {
    /// A client whose state is the state the driver reported.
    pub fn new(current_state: Vec<Monitor>) -> (res: DriverClient)
        ensures
            res@ == monitors_view(current_state@),
    {
        DriverClient { state: current_state }
    }

    /// Takes the latest state reported by the driver, and returns it.
    pub fn refresh_state(&mut self, latest: Vec<Monitor>) -> (res: &[Monitor])
        ensures
            final(self)@ == monitors_view(latest@),
            monitors_view(res@) == monitors_view(latest@),
    {
        self.state = latest;
        self.state.as_slice()
    }

    /// The monitor state stored inside this client (possibly stale).
    pub fn monitors(&self) -> (res: &[Monitor])
        ensures
            monitors_view(res@) == self@,
    {
        self.state.as_slice()
    }

    /// The id of the monitor a query designates.
    ///
    /// The query can be a monitor name or an id. The name has precedence
    /// over the id.
    pub fn find_id(&self, query: &str) -> (res: Option<Id>)
        ensures
            res == query_id(self@, query@),
            res matches Some(id) ==> id_in(self@, id),
    {
        let ghost s = self@;
        let q = chars_of(query);
        let mut i: usize = 0;
        while i < self.state.len()
            invariant
                s == monitors_view(self.state@),
                q@ == query@,
                i <= self.state@.len(),
                forall|j: int| 0 <= j < i ==> (#[trigger] s[j]).name != Some(query@),
            decreases self.state@.len() - i,
        {
            let matches = match &self.state[i].name {
                Some(name) => {
                    let n = chars_of(name.as_str());
                    chars_eq(n.as_slice(), q.as_slice())
                },
                None => false,
            };
            if matches {
                proof {
                    assert(is_first_name(s, query@, i as int));
                    lemma_first_name_is(s, query@, i as int);
                    assert(id_in(s, s[i as int].id));
                }
                return Some(self.state[i].id);
            }
            i = i + 1;
        }
        assert(!name_in(s, query@));
        match parse_u32_chars(q.as_slice()) {
            Some(n) => {
                let pos = position_of_id(self.state.as_slice(), n);
                match pos {
                    Some(_) => Some(n),
                    None => None,
                }
            },
            None => None,
        }
    }

    /// Replaces all monitors, after checking them for duplicates.
    pub fn set_monitors(&mut self, monitors: &[Monitor]) -> (res: Result<(), DuplicateError>)
        ensures
            res == dup_result(monitors_dup(monitors_view(monitors@))),
            res is Ok <==> monitors_valid(monitors_view(monitors@)),
            res is Ok ==> final(self)@ == monitors_view(monitors@),
            res is Err ==> final(self)@ == old(self)@,
    {
        proof {
            lemma_monitors_dup(monitors_view(monitors@));
        }
        let r = mons_have_duplicates(monitors);
        if r.is_err() {
            return r;
        }
        self.state = copy_monitors(monitors);
        Ok(())
    }

    /// Replaces the first monitor with the id of `monitor`.
    pub fn replace_monitor(&mut self, monitor: Monitor) -> (res: Result<(), MonNotFound>)
        ensures
            res is Ok <==> id_in(old(self)@, monitor.id),
            res is Ok ==> final(self)@ == old(self)@.update(
                first_id_index(old(self)@, monitor.id),
                monitor@,
            ),
            res is Err ==> res == Err::<(), MonNotFound>(MonNotFound(monitor.id)) && final(self)@
                == old(self)@,
    {
        match position_of_id(self.state.as_slice(), monitor.id) {
            Some(k) => {
                proof {
                    lemma_first_id_is(self@, monitor.id, k as int);
                }
                let ghost before = self.state@;
                let ghost mv = monitor@;
                self.state.set(k, monitor);
                assert(monitors_view(self.state@) =~= monitors_view(before).update(k as int, mv));
                Ok(())
            },
            None => Err(MonNotFound(monitor.id)),
        }
    }

    /// The first monitor with id `id`.
    pub fn find_monitor(&self, id: Id) -> (res: Option<&Monitor>)
        ensures
            res is Some <==> id_in(self@, id),
            res matches Some(m) ==> m@ == self@[first_id_index(self@, id)],
    {
        match position_of_id(self.state.as_slice(), id) {
            Some(k) => {
                proof {
                    lemma_first_id_is(self@, id, k as int);
                }
                Some(&self.state[k])
            },
            None => None,
        }
    }

    /// The monitor a query designates.
    pub fn find_monitor_query(&self, query: &str) -> (res: Option<&Monitor>)
        ensures
            res is Some <==> query_id(self@, query@) is Some,
            res matches Some(m) ==> m@ == self@[first_id_index(
                self@,
                query_id(self@, query@)->0,
            )],
    {
        let id = self.find_id(query);
        match id {
            Some(id) => self.find_monitor(id),
            None => None,
        }
    }

    /// Changes the first monitor with id `id` by `cb`, then checks the state
    /// for duplicates: the result of `cb` when there is such a monitor and
    /// the state is still valid, `None` otherwise. The change stays in
    /// either case.
    pub fn find_monitor_mut<R, F: FnOnce(&mut Monitor) -> R>(&mut self, id: Id, cb: F) -> (res: Option<R>)
        requires
            forall|m: &mut Monitor| cb.requires((m,)),
        ensures
            !id_in(old(self)@, id) ==> res is None && final(self)@ == old(self)@,
            id_in(old(self)@, id) ==> exists|m: &mut Monitor, r: R|
                (*m)@ == old(self)@[first_id_index(old(self)@, id)]
                && cb.ensures((m,), r)
                && final(self)@ == old(self)@.update(first_id_index(old(self)@, id), (*final(m))@)
                && res == (if monitors_valid(final(self)@) { Some(r) } else { None }),
    {
        let m = match self.find_monitor_mut_unchecked(id) {
            Some(m) => m,
            None => {
                return None;
            },
        };
        let r = cb(m);
        match self.check_duplicates() {
            Ok(()) => Some(r),
            Err(_) => None,
        }
    }

    /// Changes the monitor a query designates by `cb`, then checks the
    /// state for duplicates, as `find_monitor_mut` does; `None` when the
    /// query designates no monitor.
    pub fn find_monitor_mut_query<R, F: FnOnce(&mut Monitor) -> R>(&mut self, query: &str, cb: F) -> (res:
        Option<R>)
        requires
            forall|m: &mut Monitor| cb.requires((m,)),
        ensures
            query_id(old(self)@, query@) is None ==> res is None && final(self)@ == old(self)@,
            query_id(old(self)@, query@) matches Some(id) ==> exists|m: &mut Monitor, r: R|
                (*m)@ == old(self)@[first_id_index(old(self)@, id)]
                && cb.ensures((m,), r)
                && final(self)@ == old(self)@.update(first_id_index(old(self)@, id), (*final(m))@)
                && res == (if monitors_valid(final(self)@) { Some(r) } else { None }),
    {
        proof {
            lemma_query_id_exists(self@, query@);
        }
        match self.find_id(query) {
            Some(id) => self.find_monitor_mut(id, cb),
            None => None,
        }
    }

    /// The first monitor with id `id`, to be changed in place. Nothing
    /// checks the state for duplicates afterwards.
    pub fn find_monitor_mut_unchecked(&mut self, id: Id) -> (res: Option<&mut Monitor>)
        ensures
            res is Some <==> id_in(old(self)@, id),
            res is None ==> final(self)@ == old(self)@,
            res matches Some(m) ==> (*m)@ == old(self)@[first_id_index(old(self)@, id)],
            res matches Some(m) ==> final(self)@ == old(self)@.update(
                first_id_index(old(self)@, id),
                (*final(m))@,
            ),
    {
        match position_of_id(self.state.as_slice(), id) {
            Some(k) => {
                proof {
                    lemma_first_id_is(self@, id, k as int);
                }
                Some(&mut self.state[k])
            },
            None => None,
        }
    }

    /// The monitor a query designates, to be changed in place. Nothing
    /// checks the state for duplicates afterwards.
    pub fn find_monitor_mut_query_unchecked(&mut self, query: &str) -> (res: Option<&mut Monitor>)
        ensures
            res is Some <==> query_id(old(self)@, query@) is Some,
            res is None ==> final(self)@ == old(self)@,
            res matches Some(m) ==> (*m)@ == old(self)@[first_id_index(
                old(self)@,
                query_id(old(self)@, query@)->0,
            )],
            res matches Some(m) ==> final(self)@ == old(self)@.update(
                first_id_index(old(self)@, query_id(old(self)@, query@)->0),
                (*final(m))@,
            ),
    {
        match self.find_id(query) {
            Some(id) => self.find_monitor_mut_unchecked(id),
            None => None,
        }
    }

    /// Checks the state for a repeated id, resolution or refresh rate; the
    /// check that follows an in-place change of a monitor.
    pub fn check_duplicates(&self) -> (res: Result<(), DuplicateError>)
        ensures
            res == dup_result(monitors_dup(self@)),
            res is Ok <==> monitors_valid(self@),
    {
        proof {
            lemma_monitors_dup(self@);
        }
        mons_have_duplicates(self.state.as_slice())
    }

    /// The closest free id.
    ///
    /// With a preferred id: that id if it is free, otherwise `None`.
    /// Without one: the smallest id that no monitor has. The state may be
    /// stale, so the driver may still know the id.
    pub fn new_id(&self, preferred_id: Option<Id>) -> (res: Option<Id>)
        requires
            preferred_id is None ==> exists|k: Id| id_free(self@, k),
        ensures
            preferred_id matches Some(p) ==> res == (if id_free(self@, p) {
                Some(p)
            } else {
                None::<Id>
            }),
            preferred_id is None ==> (res matches Some(k) && id_free(self@, k) && forall|j: Id|
                j < k ==> !id_free(self@, j)),
    {
        match preferred_id {
            Some(p) => {
                if position_of_id(self.state.as_slice(), p).is_some() {
                    None
                } else {
                    Some(p)
                }
            },
            None => {
                let mut c: Id = 0;
                loop
                    invariant
                        preferred_id is None,
                        exists|k: Id| id_free(self@, k),
                        forall|j: Id| j < c ==> !id_free(self@, j),
                    decreases u32::MAX - c,
                {
                    if position_of_id(self.state.as_slice(), c).is_none() {
                        return Some(c);
                    }
                    if c == u32::MAX {
                        proof {
                            let k = choose|k: Id| id_free(self@, k);
                            assert(k <= c);
                        }
                    }
                    c = c + 1;
                }
            },
        }
    }

    /// Removes the monitors whose id is listed, keeping the others in order.
    /// Ids that match no monitor are skipped.
    pub fn remove(&mut self, ids: &[Id])
        ensures
            final(self)@ == without_ids(old(self)@, ids@),
    {
        let mut olds: Vec<Monitor> = Vec::new();
        std::mem::swap(&mut self.state, &mut olds);
        let ghost o = olds@;
        for m in it: olds
            invariant
                it.seq() == o,
                monitors_view(self.state@) == without_ids(
                    monitors_view(o.take(it.index() as int)),
                    ids@,
                ),
        {
            let ghost k = it.index() as int;
            let ghost before = self.state@;
            proof {
                assert(o.take(k + 1).drop_last() == o.take(k));
                assert(monitors_view(o.take(k + 1)).drop_last() =~= monitors_view(o.take(k)));
                assert(monitors_view(o.take(k + 1)).last() == m@);
            }
            if !id_listed(ids, m.id) {
                self.state.push(m);
                proof {
                    lemma_monitors_view_push(before, m);
                }
            }
        }
        assert(o.take(o.len() as int) == o);
    }

    /// Resolves every query, in order; the first query that designates no
    /// monitor is the error.
    fn resolve_queries(&self, queries: &[&str]) -> (res: Result<Vec<Id>, QueryNotFound>)
        ensures
            match res {
                Ok(ids) => all_resolved(self@, queries_view(queries@)) && ids@ == resolved_ids(
                    self@,
                    queries_view(queries@),
                ),
                Err(e) => exists|i: int|
                    is_first_unresolved(self@, queries_view(queries@), i) && e.0@ == queries_view(
                        queries@,
                    )[i],
            },
    {
        let ghost qs = queries_view(queries@);
        let mut ids: Vec<Id> = Vec::new();
        let mut i: usize = 0;
        while i < queries.len()
            invariant
                qs == queries_view(queries@),
                i <= queries@.len(),
                forall|j: int| 0 <= j < i ==> query_id(self@, #[trigger] qs[j]) is Some,
                ids@ == resolved_ids(self@, qs.take(i as int)),
            decreases queries@.len() - i,
        {
            let q: &str = queries[i];
            assert(qs[i as int] == q@);
            match self.find_id(q) {
                Some(id) => {
                    ids.push(id);
                    assert(qs.take(i + 1).drop_last() == qs.take(i as int));
                    assert(ids@ =~= resolved_ids(self@, qs.take(i + 1)));
                },
                None => {
                    assert(is_first_unresolved(self@, qs, i as int));
                    return Err(QueryNotFound(q.to_owned()));
                },
            }
            i = i + 1;
        }
        assert(qs.take(queries.len() as int) == qs);
        Ok(ids)
    }

    /// Removes all monitors designated by the queries. Fails, changing
    /// nothing, on the first query that designates no monitor.
    pub fn remove_query(&mut self, queries: &[&str]) -> (res: Result<(), QueryNotFound>)
        ensures
            res is Ok <==> all_resolved(old(self)@, queries_view(queries@)),
            res is Ok ==> final(self)@ == without_ids(
                old(self)@,
                resolved_ids(old(self)@, queries_view(queries@)),
            ),
            res matches Err(e) ==> final(self)@ == old(self)@ && exists|i: int|
                is_first_unresolved(old(self)@, queries_view(queries@), i) && e.0@
                    == queries_view(queries@)[i],
    {
        match self.resolve_queries(queries) {
            Ok(ids) => {
                self.remove(ids.as_slice());
                Ok(())
            },
            Err(e) => Err(e),
        }
    }

    /// Removes all monitors.
    pub fn remove_all(&mut self)
        ensures
            final(self)@ == Seq::<MonitorView>::empty(),
    {
        self.state.clear();
        assert(monitors_view(self.state@) =~= Seq::<MonitorView>::empty());
    }

    /// Adds a new monitor at the end.
    ///
    /// Fails if a monitor with this id exists, or if the monitor has
    /// duplicate modes or a mode with duplicate refresh rates.
    pub fn add(&mut self, monitor: Monitor) -> (res: Result<(), DuplicateError>)
        ensures
            res == (if id_in(old(self)@, monitor.id) {
                Err(DuplicateError::Monitor(monitor.id))
            } else {
                dup_result(monitor_dup(monitor@))
            }),
            res is Ok ==> final(self)@ == old(self)@.push(monitor@),
            res is Err ==> final(self)@ == old(self)@,
    {
        if position_of_id(self.state.as_slice(), monitor.id).is_some() {
            return Err(DuplicateError::Monitor(monitor.id));
        }
        let r = mon_has_duplicates(&monitor);
        if r.is_err() {
            return r;
        }
        let ghost before = self.state@;
        self.state.push(monitor);
        proof {
            lemma_monitors_view_push(before, monitor);
        }
        Ok(())
    }

    /// Sets the enabled flag of every monitor whose id is listed. Ids that
    /// match no monitor are skipped.
    pub fn set_enabled(&mut self, ids: &[Id], enabled: bool)
        ensures
            final(self)@ == enabled_for(old(self)@, ids@, enabled),
    {
        let mut olds: Vec<Monitor> = Vec::new();
        std::mem::swap(&mut self.state, &mut olds);
        let ghost o = olds@;
        let ghost target = enabled_for(monitors_view(o), ids@, enabled);
        for m in it: olds
            invariant
                it.seq() == o,
                target == enabled_for(monitors_view(o), ids@, enabled),
                monitors_view(self.state@) == target.take(it.index() as int),
        {
            let ghost k = it.index() as int;
            let ghost before = self.state@;
            let mut m = m;
            if id_listed(ids, m.id) {
                m.enabled = enabled;
            }
            self.state.push(m);
            proof {
                lemma_monitors_view_push(before, m);
                assert(monitors_view(self.state@) =~= target.take(k + 1));
            }
        }
        assert(target.take(o.len() as int) =~= target);
    }

    /// Sets the enabled flag of every monitor designated by the queries.
    /// Fails, changing nothing, on the first query that designates no
    /// monitor.
    pub fn set_enabled_query(&mut self, queries: &[&str], enabled: bool) -> (res: Result<
        (),
        QueryNotFound,
    >)
        ensures
            res is Ok <==> all_resolved(old(self)@, queries_view(queries@)),
            res is Ok ==> final(self)@ == enabled_for(
                old(self)@,
                resolved_ids(old(self)@, queries_view(queries@)),
                enabled,
            ),
            res matches Err(e) ==> final(self)@ == old(self)@ && exists|i: int|
                is_first_unresolved(old(self)@, queries_view(queries@), i) && e.0@
                    == queries_view(queries@)[i],
    {
        match self.resolve_queries(queries) {
            Ok(ids) => {
                self.set_enabled(ids.as_slice(), enabled);
                Ok(())
            },
            Err(e) => Err(e),
        }
    }

    /// Adds a mode to the first monitor with id `id`.
    ///
    /// Fails if no monitor has this id, if the mode repeats a refresh rate,
    /// or if the monitor already has the mode's resolution (checked in that
    /// order).
    pub fn add_mode(&mut self, id: Id, mode: Mode) -> (res: Result<(), AddModeError>)
        ensures
            !id_in(old(self)@, id) ==> res == Err::<(), AddModeError>(AddModeError::MonNotFound(id)),
            id_in(old(self)@, id) ==> match mode_dup(mode@, id) {
                Some(DuplicateError::RefreshRate(rr, w, h, i)) => res == Err::<(), AddModeError>(
                    AddModeError::DupRefreshRate(rr, w, h, i),
                ),
                _ => if resolution_in(old(self)@[first_id_index(old(self)@, id)].modes, mode@) {
                    res == Err::<(), AddModeError>(
                        AddModeError::DupMode(id, mode.width, mode.height),
                    )
                } else {
                    res == Ok::<(), AddModeError>(())
                },
            },
            res is Ok ==> final(self)@ == with_mode_added(
                old(self)@,
                first_id_index(old(self)@, id),
                mode@,
            ),
            res is Err ==> final(self)@ == old(self)@,
    {
        let k = match position_of_id(self.state.as_slice(), id) {
            Some(k) => k,
            None => {
                return Err(AddModeError::MonNotFound(id));
            },
        };
        proof {
            lemma_first_id_is(self@, id, k as int);
        }
        match mode_has_duplicates(&mode, id) {
            Ok(_) => {},
            Err(DuplicateError::RefreshRate(rr, w, h, i)) => {
                return Err(AddModeError::DupRefreshRate(rr, w, h, i));
            },
            Err(_) => {
                proof {
                    assert(false);
                }
                return Err(AddModeError::MonNotFound(id));
            },
        }
        if has_resolution(self.state[k].modes.as_slice(), &mode) {
            return Err(AddModeError::DupMode(id, mode.width, mode.height));
        }
        let ghost before = self.state@;
        let ghost mv = mode@;
        let mon = &mut self.state[k];
        let ghost old_modes = mon.modes@;
        mon.modes.push(mode);
        proof {
            crate::model::lemma_modes_view_push(old_modes, mode);
        }
        assert(monitors_view(self.state@) =~= with_mode_added(monitors_view(before), k as int, mv));
        Ok(())
    }

    /// Adds a mode to the monitor a query designates.
    ///
    /// Fails if the query designates no monitor, if the mode repeats a
    /// refresh rate, or if the monitor already has the mode's resolution.
    pub fn add_mode_query(&mut self, query: &str, mode: Mode) -> (res: Result<
        (),
        AddModeQueryError,
    >)
        ensures
            query_id(old(self)@, query@) is None ==> final(self)@ == old(self)@,
            query_id(old(self)@, query@) is None ==> (res matches Err(
                AddModeQueryError::QueryNotFound(q),
            ) && q@ == query@),
            query_id(old(self)@, query@) matches Some(id) ==> {
                let k = first_id_index(old(self)@, id);
                match mode_dup(mode@, id) {
                    Some(DuplicateError::RefreshRate(rr, w, h, i)) => final(self)@ == old(self)@ && (
                    res matches Err(AddModeQueryError::DupRefreshRate(rr2, w2, h2, i2)) && rr2 == rr
                        && w2 == w && h2 == h && i2 == i),
                    _ => if resolution_in(old(self)@[k].modes, mode@) {
                        final(self)@ == old(self)@ && (res matches Err(
                            AddModeQueryError::DupMode(i2, w2, h2),
                        ) && i2 == id && w2 == mode.width && h2 == mode.height)
                    } else {
                        res is Ok && final(self)@ == with_mode_added(old(self)@, k, mode@)
                    },
                }
            },
    {
        let id = match self.find_id(query) {
            Some(id) => id,
            None => {
                return Err(AddModeQueryError::QueryNotFound(query.to_owned()));
            },
        };
        match self.add_mode(id, mode) {
            Ok(_) => Ok(()),
            Err(AddModeError::MonNotFound(_)) => {
                proof {
                    assert(false);
                }
                Ok(())
            },
            Err(AddModeError::DupMode(i, w, h)) => Err(AddModeQueryError::DupMode(i, w, h)),
            Err(AddModeError::DupRefreshRate(rr, w, h, i)) => Err(
                AddModeQueryError::DupRefreshRate(rr, w, h, i),
            ),
        }
    }

    /// Removes every mode of resolution `resolution` (width, height) from the
    /// first monitor with id `id`. Fails if no monitor has this id; a
    /// resolution the monitor lacks is skipped.
    pub fn remove_mode(&mut self, id: Id, resolution: (u32, u32)) -> (res: Result<(), MonNotFound>)
        ensures
            res is Ok <==> id_in(old(self)@, id),
            res is Ok ==> final(self)@ == with_resolution_removed(
                old(self)@,
                first_id_index(old(self)@, id),
                resolution.0,
                resolution.1,
            ),
            res is Err ==> res == Err::<(), MonNotFound>(MonNotFound(id)) && final(self)@ == old(
                self,
            )@,
    {
        let k = match position_of_id(self.state.as_slice(), id) {
            Some(k) => k,
            None => {
                return Err(MonNotFound(id));
            },
        };
        proof {
            lemma_first_id_is(self@, id, k as int);
        }
        let ghost before = self.state@;
        let mon = &mut self.state[k];
        let mut modes: Vec<Mode> = Vec::new();
        std::mem::swap(&mut mon.modes, &mut modes);
        mon.modes = retain_other_resolutions(modes, resolution.0, resolution.1);
        assert(monitors_view(self.state@) =~= with_resolution_removed(
            monitors_view(before),
            k as int,
            resolution.0,
            resolution.1,
        ));
        Ok(())
    }

    /// Removes every mode of resolution `resolution` from the monitor a
    /// query designates. Fails if the query designates no monitor.
    pub fn remove_mode_query(&mut self, query: &str, resolution: (u32, u32)) -> (res: Result<
        (),
        QueryNotFound,
    >)
        ensures
            res is Ok <==> query_id(old(self)@, query@) is Some,
            res is Ok ==> final(self)@ == with_resolution_removed(
                old(self)@,
                first_id_index(old(self)@, query_id(old(self)@, query@)->0),
                resolution.0,
                resolution.1,
            ),
            res matches Err(e) ==> e.0@ == query@ && final(self)@ == old(self)@,
    {
        let id = match self.find_id(query) {
            Some(id) => id,
            None => {
                return Err(QueryNotFound(query.to_owned()));
            },
        };
        let r = self.remove_mode(id, resolution);
        assert(r is Ok);
        Ok(())
    }

    /// A copy of this state, independent of it.
    pub fn duplicate(&self) -> (res: DriverClient)
        ensures
            res@ == self@,
    {
        DriverClient { state: copy_monitors(self.state.as_slice()) }
    }
}

} // verus!
