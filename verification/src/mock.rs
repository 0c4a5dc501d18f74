//! A stand-in for the driver's side of the pipe, used to exercise clients:
//! it keeps a monitor state and answers commands the way the driver does.

use vstd::prelude::*;

use crate::driver_client::{id_listed, without_ids};
use crate::laws::law_remove_removes;
use crate::model::{
    copy_monitors, lemma_monitors_view_push, monitors_equal, monitors_view, DriverCommand, Id, Monitor,
    MonitorView, RequestCommand, ServerCommand,
};

verus! {

/// A stand-in server holding the monitor state.
pub struct MockServer {
    state: Vec<Monitor>,
}

/// What the server sends after handling a command: a reply with the state,
/// and whether a change event with the new state follows.
pub struct PumpOutcome {
    pub reply: Option<Vec<Monitor>>,
    pub changed: bool,
}

impl View for MockServer {
    type V = Seq<MonitorView>;

    closed spec fn view(&self) -> Seq<MonitorView> {
        monitors_view(self.state@)
    }
}

/// The server's state after a command: a request leaves it, a notify
/// replaces it, a remove drops the listed ids, a remove-all clears it.
pub open spec fn state_after(s: Seq<MonitorView>, command: ServerCommand) -> Seq<MonitorView> {
    match command {
        ServerCommand::Request(RequestCommand::State) => s,
        ServerCommand::Driver(DriverCommand::Notify(ms)) => monitors_view(ms@),
        ServerCommand::Driver(DriverCommand::Remove(ids)) => without_ids(s, ids@),
        ServerCommand::Driver(DriverCommand::RemoveAll) => Seq::empty(),
    }
}

/// The server's reply to a command: a state request is answered with the
/// state; the other commands get no reply.
pub open spec fn reply_to(s: Seq<MonitorView>, command: ServerCommand) -> Option<Seq<MonitorView>> {
    match command {
        ServerCommand::Request(RequestCommand::State) => Some(s),
        _ => None,
    }
}

/// A state request answers with the monitors last notified, whatever the
/// state was before the notify.
pub proof fn law_request_after_notify(s: Seq<MonitorView>, ms: Vec<Monitor>)
    ensures
        reply_to(
            state_after(s, ServerCommand::Driver(DriverCommand::Notify(ms))),
            ServerCommand::Request(RequestCommand::State),
        ) == Some(monitors_view(ms@)),
{
}

/// After a remove, the state holds no monitor with a listed id, and a state
/// request says so.
pub proof fn law_request_after_remove(s: Seq<MonitorView>, ids: Vec<Id>)
    ensures
        ({
            let after = state_after(s, ServerCommand::Driver(DriverCommand::Remove(ids)));
            &&& reply_to(after, ServerCommand::Request(RequestCommand::State)) == Some(after)
            &&& forall|i: int| 0 <= i < after.len() ==> !ids@.contains(#[trigger] after[i].id)
        }),
{
    law_remove_removes(s, ids@);
}

impl MockServer {
    /// A server with no monitor.
    pub fn new() -> (res: MockServer)
        ensures
            res@ == Seq::<MonitorView>::empty(),
    {
        let res = MockServer { state: Vec::new() };
        assert(res@ =~= Seq::<MonitorView>::empty());
        res
    }

    /// The monitors the server holds.
    pub fn state(&self) -> (res: &[Monitor])
        ensures
            monitors_view(res@) == self@,
    {
        self.state.as_slice()
    }

    /// Replaces the state; returns whether it differs from the old one (a
    /// change event is then due).
    pub fn set_state(&mut self, state: Vec<Monitor>) -> (changed: bool)
        ensures
            final(self)@ == monitors_view(state@),
            changed == (old(self)@ != monitors_view(state@)),
    {
        let changed = !monitors_equal(self.state.as_slice(), state.as_slice());
        self.state = state;
        changed
    }

    /// Handles one command: a state request is answered with the state; a
    /// notify replaces the state, a remove drops the listed ids, a remove-all
    /// clears it, and each of these is followed by a change event.
    pub fn pump(&mut self, command: ServerCommand) -> (res: PumpOutcome)
        ensures
            final(self)@ == state_after(old(self)@, command),
            res.reply matches Some(r) ==> reply_to(old(self)@, command) == Some(monitors_view(r@)),
            res.reply is None ==> reply_to(old(self)@, command) is None,
            res.changed == !(command matches ServerCommand::Request(_)),
    {
        match command {
            ServerCommand::Request(RequestCommand::State) => {
                PumpOutcome { reply: Some(copy_monitors(self.state.as_slice())), changed: false }
            },
            ServerCommand::Driver(DriverCommand::Notify(ms)) => {
                self.state = ms;
                PumpOutcome { reply: None, changed: true }
            },
            ServerCommand::Driver(DriverCommand::Remove(ids)) => {
                let mut olds: Vec<Monitor> = Vec::new();
                std::mem::swap(&mut self.state, &mut olds);
                let ghost o = olds@;
                for m in it: olds
                    invariant
                        it.seq() == o,
                        monitors_view(self.state@) == without_ids(
                            monitors_view(o.take(it.index() as int)),
                            ids@,
                        ),
                {
                    let ghost k = it.index() as int;
                    let ghost before = self.state@;
                    proof {
                        assert(o.take(k + 1).drop_last() == o.take(k));
                        assert(monitors_view(o.take(k + 1)).drop_last() =~= monitors_view(
                            o.take(k),
                        ));
                        assert(monitors_view(o.take(k + 1)).last() == m@);
                    }
                    if !id_listed(ids.as_slice(), m.id) {
                        self.state.push(m);
                        proof {
                            lemma_monitors_view_push(before, m);
                        }
                    }
                }
                assert(o.take(o.len() as int) == o);
                PumpOutcome { reply: None, changed: true }
            },
            ServerCommand::Driver(DriverCommand::RemoveAll) => {
                self.state.clear();
                assert(monitors_view(self.state@) =~= Seq::<MonitorView>::empty());
                PumpOutcome { reply: None, changed: true }
            },
        }
    }
}

} // verus!
