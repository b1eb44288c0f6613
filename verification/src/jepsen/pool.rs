//! A fixed pool of shared clients handed out in turn.

use vstd::prelude::*;
use std::sync::Arc;

verus! {

/// Clients handed out round-robin.
pub struct ClientPool<C> {
    clients: Vec<Arc<C>>,
    current_index: usize,
}

impl<C> ClientPool<C> {
    /// The clients, in the order they are handed out.
    pub closed spec fn clients(&self) -> Seq<Arc<C>> {
        self.clients@
    }

    /// The turn counter (wrapping).
    pub closed spec fn next_index(&self) -> usize {
        self.current_index
    }

    /// A pool of the given clients, starting with the first.
    pub fn from_clients(clients: Vec<Arc<C>>) -> (r: Self)
        ensures
            r.clients() == clients@,
            r.next_index() == 0,
    {
        ClientPool { clients, current_index: 0 }
    }

    /// Number of clients.
    pub fn len(&self) -> (r: usize)
        ensures
            r == self.clients().len(),
    {
        self.clients.len()
    }

    /// The client whose turn it is; the counter moves on by one.
    pub fn get_client(&mut self) -> (r: Arc<C>)
        requires
            old(self).clients().len() > 0,
        ensures
            r == old(self).clients()[(old(self).next_index() as int) % (old(self).clients().len() as int)],
            final(self).clients() == old(self).clients(),
            final(self).next_index() == old(self).next_index().wrapping_add(1),
    {
        let index = self.current_index;
        self.current_index = self.current_index.wrapping_add(1);
        self.clients[index % self.clients.len()].clone()
    }
}

/// Away from the counter's wrap-around, successive turns go to successive
/// clients, cycling.
pub proof fn lemma_round_robin(i: usize, n: usize)
    requires
        n > 0,
        i < usize::MAX,
    ensures
        (i.wrapping_add(1) as int) % (n as int) == ((i as int) % (n as int) + 1) % (n as int),
{
    assert(i.wrapping_add(1) == i + 1);
    vstd::arithmetic::div_mod::lemma_add_mod_noop(i as int, 1, n as int);
    assert(1int % (n as int) == if n == 1 { 0int } else { 1int }) by {
        if n > 1 {
            vstd::arithmetic::div_mod::lemma_small_mod(1, n as nat);
        }
    }
}

} // verus!
