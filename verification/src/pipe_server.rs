//! How the driver's pipe server spreads changes: each connected client has
//! an id; a change caused by one client's command is broadcast with that
//! client's id, and every connection forwards it to its own client except
//! the connection of the client that caused it, which already knows.

use vstd::prelude::*;

use crate::model::{monitors_view, Monitor};

verus! {

/// What a connection takes from the broadcast of changes.
#[derive(Debug)]
pub enum Broadcast {
    /// A change caused by the client with this id, and the monitors to
    /// announce.
    Changed(usize, Vec<Monitor>),
    /// Changes were missed because the connection fell behind.
    Lagged,
    /// The broadcast ended.
    Closed,
}

/// What a connection does with what it took from the broadcast.
#[derive(Debug)]
pub enum ChangeStep {
    /// Send a change event with these monitors to the connection's client.
    Send(Vec<Monitor>),
    /// Send nothing.
    Skip,
    /// Stop serving the client.
    Stop,
}

/// Whether the connection of client `client` forwards a change caused by
/// client `sender`: every connection but the sender's does.
pub fn forwards_change(client: usize, sender: usize) -> (b: bool)
    ensures
        b == (client != sender),
{
    client != sender
}

/// What the connection of client `client` does with a broadcast item: a
/// change caused by another client is sent as a change event, one caused by
/// its own client is skipped, as are missed changes; the end of the
/// broadcast stops the connection.
pub fn change_step(client: usize, item: Broadcast) -> (res: ChangeStep)
    ensures
        match item {
            Broadcast::Changed(sender, data) => if sender == client {
                res is Skip
            } else {
                res matches ChangeStep::Send(d) && monitors_view(d@) == monitors_view(data@)
            },
            Broadcast::Lagged => res is Skip,
            Broadcast::Closed => res is Stop,
        },
{
    match item {
        Broadcast::Changed(sender, data) => {
            if forwards_change(client, sender) {
                ChangeStep::Send(data)
            } else {
                ChangeStep::Skip
            }
        },
        Broadcast::Lagged => ChangeStep::Skip,
        Broadcast::Closed => ChangeStep::Stop,
    }
}

/// The clients other than `sender`, in order.
pub open spec fn others(clients: Seq<usize>, sender: usize) -> Seq<usize>
    decreases clients.len(),
{
    if clients.len() == 0 {
        clients
    } else if clients.last() == sender {
        others(clients.drop_last(), sender)
    } else {
        others(clients.drop_last(), sender).push(clients.last())
    }
}

/// The connected clients that receive a change caused by `sender`, in
/// order.
pub fn change_recipients(clients: &[usize], sender: usize) -> (res: Vec<usize>)
    ensures
        res@ == others(clients@, sender),
{
    let mut res: Vec<usize> = Vec::new();
    for i in 0..clients.len()
        invariant
            res@ == others(clients@.take(i as int), sender),
    {
        proof {
            assert(clients@.take(i + 1).drop_last() =~= clients@.take(i as int));
            assert(clients@.take(i + 1).last() == clients@[i as int]);
        }
        if forwards_change(clients[i], sender) {
            res.push(clients[i]);
        }
    }
    assert(clients@.take(clients@.len() as int) =~= clients@);
    res
}

/// What a sequence holds after a push.
proof fn lemma_push_contains(s: Seq<usize>, x: usize, c: usize)
    ensures
        s.push(x).contains(c) <==> (s.contains(c) || c == x),
{
    if s.contains(c) {
        let j = choose|j: int| 0 <= j < s.len() && s[j] == c;
        assert(s.push(x)[j] == c);
    }
    if c == x {
        assert(s.push(x)[s.len() as int] == c);
    }
    if s.push(x).contains(c) {
        let j = choose|j: int| 0 <= j < s.push(x).len() && s.push(x)[j] == c;
        if j < s.len() {
            assert(s[j] == c);
        }
    }
}

/// A change reaches every connected client but the one that caused it, and
/// never that one.
pub proof fn law_change_reaches_others(clients: Seq<usize>, sender: usize)
    ensures
        forall|c: usize| #[trigger] others(clients, sender).contains(c) <==> (clients.contains(c) && c != sender),
    decreases clients.len(),
{
    if clients.len() == 0 {
        assert forall|c: usize| #[trigger] others(clients, sender).contains(c) <==> (clients.contains(c) && c
            != sender) by {
        }
    } else {
        let pre = clients.drop_last();
        let x = clients.last();
        law_change_reaches_others(pre, sender);
        assert(clients =~= pre.push(x));
        assert forall|c: usize| #[trigger] others(clients, sender).contains(c) <==> (clients.contains(c) && c
            != sender) by {
            lemma_push_contains(pre, x, c);
            lemma_push_contains(others(pre, sender), x, c);
            assert(others(pre, sender).contains(c) <==> (pre.contains(c) && c != sender));
        }
    }
}

} // verus!
