//! The user session service's decisions: on a logon, a remote connection or
//! an unlock of a session it has not handled yet, it restores the user's
//! saved monitors; on a logoff it removes them all; a stop request shuts it
//! down.

use vstd::prelude::*;

verus! {

/// A control event the service receives.
#[derive(Debug, Clone, Copy, PartialEq, Eq, Structural)]
pub enum ServiceEvent {
    Stop,
    SessionLogon(u32),
    RemoteConnect(u32),
    SessionUnlock(u32),
    SessionLogoff(u32),
    /// Another session change.
    OtherSessionChange(u32),
    Interrogate,
    /// Any other control.
    Other,
}

/// What the service does about an event.
#[derive(Debug, Clone, Copy, PartialEq, Eq, Structural)]
pub enum ServiceAction {
    /// Stop the service.
    Shutdown,
    /// Load the saved monitors of this session's user and send them.
    Restore(u32),
    /// Remove every monitor.
    RemoveAll,
    /// Nothing to do.
    Nothing,
    /// The control is not handled.
    NotImplemented,
}

/// The service's memory: the last session whose monitors it restored (0
/// before any).
#[derive(Debug, Clone, Copy, PartialEq, Eq, Structural)]
pub struct SessionTracker {
    pub latest_session: u32,
}

/// What an event does: (the tracker after it, the action).
pub open spec fn session_step(t: SessionTracker, e: ServiceEvent) -> (SessionTracker, ServiceAction) {
    match e {
        ServiceEvent::Stop => (t, ServiceAction::Shutdown),
        ServiceEvent::SessionLogon(s) | ServiceEvent::RemoteConnect(s) | ServiceEvent::SessionUnlock(s) => {
            if s == t.latest_session {
                (t, ServiceAction::Nothing)
            } else {
                (SessionTracker { latest_session: s }, ServiceAction::Restore(s))
            }
        },
        ServiceEvent::SessionLogoff(_) => (t, ServiceAction::RemoveAll),
        ServiceEvent::OtherSessionChange(_) => (t, ServiceAction::Nothing),
        ServiceEvent::Interrogate => (t, ServiceAction::Nothing),
        ServiceEvent::Other => (t, ServiceAction::NotImplemented),
    }
}

impl SessionTracker {
    /// A tracker that has handled no session.
    pub fn new() -> (res: Self)
        ensures
            res.latest_session == 0,
    {
        SessionTracker { latest_session: 0 }
    }

    /// Decides what to do about an event, and remembers a session whose
    /// monitors are to be restored.
    pub fn on_event(&mut self, event: ServiceEvent) -> (res: ServiceAction)
        ensures
            (*final(self), res) == session_step(*old(self), event),
    {
        match event {
            ServiceEvent::Stop => ServiceAction::Shutdown,
            ServiceEvent::SessionLogon(s) | ServiceEvent::RemoteConnect(s) | ServiceEvent::SessionUnlock(s) => {
                if s == self.latest_session {
                    ServiceAction::Nothing
                } else {
                    self.latest_session = s;
                    ServiceAction::Restore(s)
                }
            },
            ServiceEvent::SessionLogoff(_) => ServiceAction::RemoveAll,
            ServiceEvent::OtherSessionChange(_) => ServiceAction::Nothing,
            ServiceEvent::Interrogate => ServiceAction::Nothing,
            ServiceEvent::Other => ServiceAction::NotImplemented,
        }
    }
}

/// A session's monitors are restored once: the same session showing up
/// again right after does nothing.
pub proof fn law_restore_once(t: SessionTracker, e: ServiceEvent, again: ServiceEvent)
    requires
        session_step(t, e).1 matches ServiceAction::Restore(s) && (again == ServiceEvent::SessionLogon(s)
            || again == ServiceEvent::RemoteConnect(s) || again == ServiceEvent::SessionUnlock(s)),
    ensures
        session_step(session_step(t, e).0, again).1 == ServiceAction::Nothing,
{
}

/// Only a logoff removes the monitors; a session change that is not a
/// logon, a remote connection, an unlock or a logoff does nothing and
/// leaves the service's memory as it was; and the memory changes only when
/// a session's monitors are restored, to that session.
pub proof fn law_only_logoff_removes(t: SessionTracker, e: ServiceEvent)
    ensures
        (session_step(t, e).1 == ServiceAction::RemoveAll) <==> (e is SessionLogoff),
        e is OtherSessionChange ==> session_step(t, e).0 == t && session_step(t, e).1
            == ServiceAction::Nothing,
        e is SessionLogoff ==> session_step(t, e).0 == t,
        session_step(t, e).0 != t ==> session_step(t, e).1 == ServiceAction::Restore(
            session_step(t, e).0.latest_session,
        ),
{
}

/// A logon, remote connection or unlock restores the monitors of its
/// session exactly when that session is not the last one restored, and
/// the service then remembers it; otherwise it does nothing. A stop shuts
/// the service down, and no other event restores or removes anything.
pub proof fn law_restore_new_session(t: SessionTracker, e: ServiceEvent, s: u32)
    ensures
        (e == ServiceEvent::SessionLogon(s) || e == ServiceEvent::RemoteConnect(s) || e
            == ServiceEvent::SessionUnlock(s)) ==> if s != t.latest_session {
            session_step(t, e) == (SessionTracker { latest_session: s }, ServiceAction::Restore(s))
        } else {
            session_step(t, e) == (t, ServiceAction::Nothing)
        },
        (session_step(t, e).1 == ServiceAction::Shutdown) <==> (e == ServiceEvent::Stop),
        (e == ServiceEvent::Interrogate || e is OtherSessionChange) ==> session_step(t, e) == (
            t,
            ServiceAction::Nothing,
        ),
{
}

} // verus!
