//! The monitor list the Python module keeps between calls: the monitors it
//! last learned of or was given, and the ids deleted since the driver was
//! last notified.

use vstd::prelude::*;

use crate::driver_client::{first_id_index, is_first_id, lemma_first_id_is, position_of_id, MonNotFound};
use crate::model::{
    lemma_modes_view_push, lemma_monitors_view_push, modes_view, monitors_view, name_view, Id, Mode,
    Monitor, MonitorView,
};
use crate::validation::id_in;

verus! {

/// The Python module's monitors and the ids waiting to be removed from
/// the driver.
pub struct MonitorSet {
    monitors: Vec<Monitor>,
    removal_queue: Vec<Id>,
}

/// Why a mode could not be reached.
#[derive(Debug, Clone, Copy, PartialEq, Eq, Structural)]
pub enum ModeAccessError {
    /// No monitor has this id.
    MonitorNotFound(Id),
    /// The monitor has no mode at this index.
    OutOfRange(usize),
}

/// The list without the monitor at position `i`.
pub open spec fn without_at(s: Seq<MonitorView>, i: int) -> Seq<MonitorView> {
    s.remove(i)
}

/// The list without the first monitor of each id, one id after the other,
/// as long as every id is found; `None` at the first id that is not.
pub open spec fn remove_each(s: Seq<MonitorView>, ids: Seq<Id>) -> Option<Seq<MonitorView>>
    decreases ids.len(),
{
    if ids.len() == 0 {
        Some(s)
    } else {
        match remove_each(s, ids.drop_last()) {
            Some(r) => if id_in(r, ids.last()) {
                Some(r.remove(first_id_index(r, ids.last())))
            } else {
                None
            },
            None => None,
        }
    }
}

/// The list after storing `m`: in place of the first monitor with its id,
/// or at the end.
pub open spec fn upserted(s: Seq<MonitorView>, m: MonitorView) -> Seq<MonitorView> {
    if id_in(s, m.id) {
        s.update(first_id_index(s, m.id), m)
    } else {
        s.push(m)
    }
}

/// The ids of a queue other than `id`, in order.
pub open spec fn without_id(q: Seq<Id>, id: Id) -> Seq<Id>
    decreases q.len(),
{
    if q.len() == 0 {
        q
    } else if q.last() == id {
        without_id(q.drop_last(), id)
    } else {
        without_id(q.drop_last(), id).push(q.last())
    }
}

impl MonitorSet {
    /// The monitors, in order.
    pub closed spec fn monitors_spec(&self) -> Seq<MonitorView> {
        monitors_view(self.monitors@)
    }

    /// The ids waiting to be removed from the driver, in order.
    pub closed spec fn queue_spec(&self) -> Seq<Id> {
        self.removal_queue@
    }

    /// A set holding the monitors the driver reported, with nothing queued.
    pub fn new(monitors: Vec<Monitor>) -> (res: Self)
        ensures
            res.monitors_spec() == monitors_view(monitors@),
            res.queue_spec() == Seq::<Id>::empty(),
    {
        MonitorSet { monitors, removal_queue: Vec::new() }
    }

    /// The monitors, in order.
    pub fn monitors(&self) -> (res: &[Monitor])
        ensures
            monitors_view(res@) == self.monitors_spec(),
    {
        self.monitors.as_slice()
    }

    /// How many monitors there are.
    pub fn len(&self) -> (res: usize)
        ensures
            res == self.monitors_spec().len(),
    {
        self.monitors.len()
    }

    /// Whether a monitor has this id.
    pub fn contains(&self, id: Id) -> (res: bool)
        ensures
            res == id_in(self.monitors_spec(), id),
    {
        position_of_id(self.monitors.as_slice(), id).is_some()
    }

    /// Stores a monitor under its id, in place of the first monitor with
    /// that id or at the end; the id is no longer queued for removal.
    pub fn set_item(&mut self, monitor: Monitor)
        ensures
            final(self).monitors_spec() == upserted(old(self).monitors_spec(), monitor@),
            final(self).queue_spec() == without_id(old(self).queue_spec(), monitor.id),
    {
        let id = monitor.id;
        let ghost q = self.removal_queue@;
        let mut kept: Vec<Id> = Vec::new();
        for i in 0..self.removal_queue.len()
            invariant
                q == self.removal_queue@,
                kept@ == without_id(q.take(i as int), id),
        {
            proof {
                assert(q.take(i + 1).drop_last() =~= q.take(i as int));
                assert(q.take(i + 1).last() == q[i as int]);
            }
            let x = self.removal_queue[i];
            if x != id {
                kept.push(x);
            }
        }
        assert(q.take(q.len() as int) =~= q);
        self.removal_queue = kept;
        let ghost s = monitors_view(self.monitors@);
        let ghost mv = monitor@;
        match position_of_id(self.monitors.as_slice(), id) {
            Some(p) => {
                proof {
                    lemma_first_id_is(s, id, p as int);
                }
                self.monitors.set(p, monitor);
                assert(monitors_view(self.monitors@) =~= s.update(p as int, mv));
            },
            None => {
                let ghost before = self.monitors@;
                self.monitors.push(monitor);
                proof {
                    lemma_monitors_view_push(before, monitor);
                }
            },
        }
    }

    /// Removes the first monitor with this id and returns it; an error when
    /// there is none.
    pub fn remove_monitor(&mut self, id: Id) -> (res: Result<Monitor, MonNotFound>)
        ensures
            final(self).queue_spec() == old(self).queue_spec(),
            match res {
                Ok(m) => id_in(old(self).monitors_spec(), id) && m@ == old(self).monitors_spec()[first_id_index(
                    old(self).monitors_spec(),
                    id,
                )] && final(self).monitors_spec() == without_at(
                    old(self).monitors_spec(),
                    first_id_index(old(self).monitors_spec(), id),
                ),
                Err(e) => !id_in(old(self).monitors_spec(), id) && e == MonNotFound(id)
                    && final(self).monitors_spec() == old(self).monitors_spec(),
            },
    {
        let ghost s = monitors_view(self.monitors@);
        match position_of_id(self.monitors.as_slice(), id) {
            Some(p) => {
                proof {
                    lemma_first_id_is(s, id, p as int);
                }
                let m = self.monitors.remove(p);
                assert(monitors_view(self.monitors@) =~= s.remove(p as int));
                Ok(m)
            },
            None => Err(MonNotFound(id)),
        }
    }

    /// Deletes the first monitor with this id and queues the id for removal
    /// from the driver; an error, and no change, when there is none.
    pub fn del_item(&mut self, id: Id) -> (res: Result<(), MonNotFound>)
        ensures
            match res {
                Ok(()) => id_in(old(self).monitors_spec(), id) && final(self).monitors_spec() == without_at(
                    old(self).monitors_spec(),
                    first_id_index(old(self).monitors_spec(), id),
                ) && final(self).queue_spec() == old(self).queue_spec().push(id),
                Err(e) => !id_in(old(self).monitors_spec(), id) && e == MonNotFound(id)
                    && final(self).monitors_spec() == old(self).monitors_spec()
                    && final(self).queue_spec() == old(self).queue_spec(),
            },
    {
        match self.remove_monitor(id) {
            Ok(_) => {
                self.removal_queue.push(id);
                Ok(())
            },
            Err(e) => Err(e),
        }
    }

    /// Removes the first monitor of each id in turn, stopping with an error
    /// at the first id that is not found (the removals before it stay).
    pub fn remove_ids(&mut self, ids: &[Id]) -> (res: Result<(), MonNotFound>)
        ensures
            final(self).queue_spec() == old(self).queue_spec(),
            remove_each(old(self).monitors_spec(), ids@) matches Some(r) ==> res is Ok
                && final(self).monitors_spec() == r,
            remove_each(old(self).monitors_spec(), ids@) is None ==> res is Err,
    {
        let ghost start = monitors_view(self.monitors@);
        for i in 0..ids.len()
            invariant
                self.removal_queue@ == old(self).removal_queue@,
                start == old(self).monitors_spec(),
                remove_each(start, ids@.take(i as int)) == Some(monitors_view(self.monitors@)),
        {
            proof {
                assert(ids@.take(i + 1).drop_last() =~= ids@.take(i as int));
            }
            match self.remove_monitor(ids[i]) {
                Ok(_) => {},
                Err(e) => {
                    proof {
                        lemma_remove_each_none(start, ids@, i + 1);
                    }
                    return Err(e);
                },
            }
        }
        assert(ids@.take(ids@.len() as int) =~= ids@);
        Ok(())
    }

    /// Removes every monitor.
    pub fn remove_all(&mut self)
        ensures
            final(self).monitors_spec() == Seq::<MonitorView>::empty(),
            final(self).queue_spec() == old(self).queue_spec(),
    {
        self.monitors.clear();
        assert(monitors_view(self.monitors@) =~= Seq::<MonitorView>::empty());
    }

    /// Takes the queued ids, to be removed from the driver; the queue is
    /// left empty.
    pub fn take_removals(&mut self) -> (res: Vec<Id>)
        ensures
            res@ == old(self).queue_spec(),
            final(self).queue_spec() == Seq::<Id>::empty(),
            final(self).monitors_spec() == old(self).monitors_spec(),
    {
        let mut taken: Vec<Id> = Vec::new();
        std::mem::swap(&mut taken, &mut self.removal_queue);
        taken
    }

    /// The modes of the first monitor with this id.
    pub fn modes_of(&self, id: Id) -> (res: Result<&[Mode], MonNotFound>)
        ensures
            match res {
                Ok(modes) => id_in(self.monitors_spec(), id) && modes_view(modes@) == self.monitors_spec()[first_id_index(
                    self.monitors_spec(),
                    id,
                )].modes,
                Err(e) => !id_in(self.monitors_spec(), id) && e == MonNotFound(id),
            },
    {
        match position_of_id(self.monitors.as_slice(), id) {
            Some(p) => {
                proof {
                    lemma_first_id_is(monitors_view(self.monitors@), id, p as int);
                }
                Ok(self.monitors[p].modes.as_slice())
            },
            None => Err(MonNotFound(id)),
        }
    }

    /// Replaces the first monitor with the given monitor's id by it; an
    /// error, and no change, when no monitor has that id.
    pub fn replace_monitor(&mut self, monitor: Monitor) -> (res: Result<(), MonNotFound>)
        ensures
            final(self).queue_spec() == old(self).queue_spec(),
            match res {
                Ok(()) => id_in(old(self).monitors_spec(), monitor.id) && final(self).monitors_spec()
                    == old(self).monitors_spec().update(
                    first_id_index(old(self).monitors_spec(), monitor.id),
                    monitor@,
                ),
                Err(e) => !id_in(old(self).monitors_spec(), monitor.id) && e == MonNotFound(monitor.id)
                    && final(self).monitors_spec() == old(self).monitors_spec(),
            },
    {
        let ghost s = monitors_view(self.monitors@);
        let ghost mv = monitor@;
        match position_of_id(self.monitors.as_slice(), monitor.id) {
            Some(p) => {
                proof {
                    lemma_first_id_is(s, monitor.id, p as int);
                }
                self.monitors.set(p, monitor);
                assert(monitors_view(self.monitors@) =~= s.update(p as int, mv));
                Ok(())
            },
            None => Err(MonNotFound(monitor.id)),
        }
    }
}

impl MonitorSet {
    /// The first monitor with this id.
    pub fn get(&self, id: Id) -> (res: Result<&Monitor, MonNotFound>)
        ensures
            match res {
                Ok(m) => id_in(self.monitors_spec(), id) && m@ == self.monitors_spec()[first_id_index(
                    self.monitors_spec(),
                    id,
                )],
                Err(e) => !id_in(self.monitors_spec(), id) && e == MonNotFound(id),
            },
    {
        match position_of_id(self.monitors.as_slice(), id) {
            Some(p) => {
                proof {
                    lemma_first_id_is(monitors_view(self.monitors@), id, p as int);
                }
                Ok(&self.monitors[p])
            },
            None => Err(MonNotFound(id)),
        }
    }

    /// Sets the name, the enabled flag or the modes of the first monitor
    /// with this id, each where given; an error, and no change, when no
    /// monitor has the id.
    pub fn set_fields(
        &mut self,
        id: Id,
        name: Option<Option<String>>,
        enabled: Option<bool>,
        modes: Option<Vec<Mode>>,
    ) -> (res: Result<(), MonNotFound>)
        ensures
            final(self).queue_spec() == old(self).queue_spec(),
            ({
                let s = old(self).monitors_spec();
                let p = first_id_index(s, id);
                match res {
                    Ok(()) => id_in(s, id) && final(self).monitors_spec() == s.update(
                        p,
                        MonitorView {
                            id: s[p].id,
                            name: match name {
                                Some(n) => name_view(n),
                                None => s[p].name,
                            },
                            enabled: match enabled {
                                Some(e) => e,
                                None => s[p].enabled,
                            },
                            modes: match modes {
                                Some(ms) => modes_view(ms@),
                                None => s[p].modes,
                            },
                        },
                    ),
                    Err(e) => !id_in(s, id) && e == MonNotFound(id) && final(self).monitors_spec() == s,
                }
            }),
    {
        let ghost s = monitors_view(self.monitors@);
        let p = match position_of_id(self.monitors.as_slice(), id) {
            Some(p) => p,
            None => {
                return Err(MonNotFound(id));
            },
        };
        proof {
            lemma_first_id_is(s, id, p as int);
        }
        let mut m = self.monitors.remove(p);
        if let Some(n) = name {
            m.name = n;
        }
        if let Some(e) = enabled {
            m.enabled = e;
        }
        if let Some(ms) = modes {
            m.modes = ms;
        }
        let ghost mv = m@;
        self.monitors.insert(p, m);
        assert(monitors_view(self.monitors@) =~= s.update(p as int, mv));
        Ok(())
    }
}

impl MonitorSet {
    /// Replaces mode `idx` of the first monitor with this id.
    pub fn set_mode(&mut self, id: Id, idx: usize, mode: Mode) -> (res: Result<(), ModeAccessError>)
        ensures
            final(self).queue_spec() == old(self).queue_spec(),
            ({
                let s = old(self).monitors_spec();
                let p = first_id_index(s, id);
                match res {
                    Ok(()) => id_in(s, id) && idx < s[p].modes.len() && final(self).monitors_spec()
                        == s.update(p, MonitorView { modes: s[p].modes.update(idx as int, mode@), ..s[p] }),
                    Err(ModeAccessError::MonitorNotFound(i)) => !id_in(s, id) && i == id
                        && final(self).monitors_spec() == s,
                    Err(ModeAccessError::OutOfRange(i)) => id_in(s, id) && idx >= s[p].modes.len() && i
                        == idx && final(self).monitors_spec() == s,
                }
            }),
    {
        let ghost s = monitors_view(self.monitors@);
        let p = match position_of_id(self.monitors.as_slice(), id) {
            Some(p) => p,
            None => {
                return Err(ModeAccessError::MonitorNotFound(id));
            },
        };
        proof {
            lemma_first_id_is(s, id, p as int);
        }
        if idx >= self.monitors[p].modes.len() {
            return Err(ModeAccessError::OutOfRange(idx));
        }
        let mut m = self.monitors.remove(p);
        let ghost mode_view = mode@;
        m.modes.set(idx, mode);
        let ghost mv = m@;
        self.monitors.insert(p, m);
        assert(mv.modes =~= s[p as int].modes.update(idx as int, mode_view));
        assert(monitors_view(self.monitors@) =~= s.update(p as int, mv));
        Ok(())
    }

    /// Removes mode `idx` of the first monitor with this id and returns it.
    pub fn remove_mode(&mut self, id: Id, idx: usize) -> (res: Result<Mode, ModeAccessError>)
        requires
            id_in(old(self).monitors_spec(), id) ==> old(self).monitors_spec()[first_id_index(
                old(self).monitors_spec(),
                id,
            )].modes.len() > 0,
        ensures
            final(self).queue_spec() == old(self).queue_spec(),
            ({
                let s = old(self).monitors_spec();
                let p = first_id_index(s, id);
                match res {
                    Ok(m) => id_in(s, id) && idx < s[p].modes.len() && m@ == s[p].modes[idx as int]
                        && final(self).monitors_spec() == s.update(
                        p,
                        MonitorView { modes: s[p].modes.remove(idx as int), ..s[p] },
                    ),
                    Err(ModeAccessError::MonitorNotFound(i)) => !id_in(s, id) && i == id
                        && final(self).monitors_spec() == s,
                    Err(ModeAccessError::OutOfRange(i)) => id_in(s, id) && idx >= s[p].modes.len() && i
                        == idx && final(self).monitors_spec() == s,
                }
            }),
    {
        let ghost s = monitors_view(self.monitors@);
        let p = match position_of_id(self.monitors.as_slice(), id) {
            Some(p) => p,
            None => {
                return Err(ModeAccessError::MonitorNotFound(id));
            },
        };
        proof {
            lemma_first_id_is(s, id, p as int);
        }
        if idx > self.monitors[p].modes.len() - 1 {
            return Err(ModeAccessError::OutOfRange(idx));
        }
        let mut m = self.monitors.remove(p);
        let removed = m.modes.remove(idx);
        let ghost mv = m@;
        self.monitors.insert(p, m);
        assert(mv.modes =~= s[p as int].modes.remove(idx as int));
        assert(monitors_view(self.monitors@) =~= s.update(p as int, mv));
        Ok(removed)
    }

    /// Appends modes, in order, to the first monitor with this id.
    pub fn push_modes(&mut self, id: Id, modes: Vec<Mode>) -> (res: Result<(), MonNotFound>)
        ensures
            final(self).queue_spec() == old(self).queue_spec(),
            ({
                let s = old(self).monitors_spec();
                let p = first_id_index(s, id);
                match res {
                    Ok(()) => id_in(s, id) && final(self).monitors_spec() == s.update(
                        p,
                        MonitorView { modes: s[p].modes + modes_view(modes@), ..s[p] },
                    ),
                    Err(e) => !id_in(s, id) && e == MonNotFound(id) && final(self).monitors_spec() == s,
                }
            }),
    {
        let ghost s = monitors_view(self.monitors@);
        let p = match position_of_id(self.monitors.as_slice(), id) {
            Some(p) => p,
            None => {
                return Err(MonNotFound(id));
            },
        };
        proof {
            lemma_first_id_is(s, id, p as int);
        }
        let mut m = self.monitors.remove(p);
        let ghost start = m@.modes;
        let ghost added = modes_view(modes@);
        for mode in it: modes
            invariant
                it.seq() == modes@,
                added == modes_view(modes@),
                m@.modes == start + added.take(it.index() as int),
                m@.id == s[p as int].id,
                m@.name == s[p as int].name,
                m@.enabled == s[p as int].enabled,
        {
            let ghost k = it.index() as int;
            let ghost mode_view = mode@;
            assert(added[k] == mode_view);
            let ghost before = m.modes@;
            proof {
                lemma_modes_view_push(before, mode);
            }
            m.modes.push(mode);
            assert(added.take(k + 1) =~= added.take(k).push(mode_view));
            assert(m@.modes =~= start + added.take(k + 1));
        }
        assert(added.take(added.len() as int) =~= added);
        let ghost mv = m@;
        self.monitors.insert(p, m);
        assert(monitors_view(self.monitors@) =~= s.update(p as int, mv));
        Ok(())
    }
}

/// Once an id is not found, removing the later ids does not help.
proof fn lemma_remove_each_none(s: Seq<MonitorView>, ids: Seq<Id>, k: int)
    requires
        0 < k <= ids.len(),
        remove_each(s, ids.take(k)) is None,
    ensures
        remove_each(s, ids) is None,
    decreases ids.len() - k,
{
    if k < ids.len() {
        assert(ids.take(k + 1).drop_last() =~= ids.take(k));
        lemma_remove_each_none(s, ids, k + 1);
    } else {
        assert(ids.take(k) =~= ids);
    }
}

} // verus!
