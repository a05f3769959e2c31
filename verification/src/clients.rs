//! How many clients are being served.
use vstd::prelude::*;

verus! {

/// The number of clients that are connected.
pub struct ClientCount {
    count: u32,
}

impl View for ClientCount {
    type V = nat;

    closed spec fn view(&self) -> nat {
        self.count as nat
    }
}

/// Whom a change of the number of clients wakes up.
#[derive(Clone, Copy, Debug, PartialEq, Eq, Structural)]
pub enum Wakeup {
    /// Everyone who waits for a client.
    Everyone,
    /// No one.
    Nobody,
}

impl ClientCount {
    /// No client yet.
    pub fn new() -> (clients: ClientCount)
        ensures
            clients@ == 0,
    {
        ClientCount { count: 0 }
    }

    /// The number of clients.
    pub fn get(&self) -> (count: u32)
        ensures
            count == self@,
    {
        self.count
    }
}

/// The number of clients once one more has connected.
pub open spec fn one_more(clients: nat) -> nat {
    clients + 1
}

/// The number of clients once one of them has gone.
pub open spec fn one_less(clients: nat) -> nat {
    (clients - 1) as nat
}

/// A client has connected. Whoever waits for one is to be woken up.
pub fn client_connected(clients: &mut ClientCount) -> (wakeup: Wakeup)
    requires
        old(clients)@ < u32::MAX,
    ensures
        final(clients)@ == one_more(old(clients)@),
        final(clients)@ == old(clients)@ + 1,
        wakeup == Wakeup::Everyone,
{
    clients.count = clients.count + 1;
    Wakeup::Everyone
}

/// A client has gone. No one waits for that.
pub fn client_disconnected(clients: &mut ClientCount) -> (wakeup: Wakeup)
    requires
        old(clients)@ > 0,
    ensures
        final(clients)@ == one_less(old(clients)@),
        final(clients)@ + 1 == old(clients)@,
        wakeup == Wakeup::Nobody,
{
    clients.count = clients.count - 1;
    Wakeup::Nobody
}

/// A client that comes and goes leaves the count as it was, and it makes no difference which of
/// two clients comes or goes first.
pub proof fn law_coming_and_going_cancel(clients: nat)
    ensures
        one_less(one_more(clients)) == clients,
        clients > 0 ==> one_more(one_less(clients)) == clients,
        clients > 0 ==> one_less(one_more(clients)) == one_more(one_less(clients)),
{
}

/// Each client counts for one: after some have come and fewer have gone, the count is how many came
/// less how many went.
pub proof fn law_each_client_counts_for_one(clients: nat)
    ensures
        one_more(clients) == clients + 1,
        clients > 0 ==> one_less(clients) + 1 == clients,
{
}

} // verus!
