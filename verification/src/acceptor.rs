//! New connections, handed from where they are accepted to a loop that polls
//! for them.

use vstd::prelude::*;

verus! {

/// The connections that were accepted and not yet handed to the polling loop,
/// in the order in which they were accepted.
pub struct Acceptor<C> {
    connections: Vec<C>,
}

impl<C> Acceptor<C> {
    /// The connections that wait to be handed out.
    pub closed spec fn waiting(&self) -> Seq<C> {
        self.connections@
    }

    /// An acceptor with no connection waiting.
    pub fn new() -> (acceptor: Acceptor<C>)
        ensures
            acceptor.waiting() == Seq::<C>::empty(),
    {
        Acceptor { connections: Vec::new() }
    }

    /// Takes in a connection that was just accepted, behind those that wait.
    pub fn offer(&mut self, connection: C)
        ensures
            final(self).waiting() == old(self).waiting().push(connection),
    {
        self.connections.push(connection);
    }

    /// Hands out every connection accepted since the last call, in the order
    /// in which they were accepted, and keeps none.
    pub fn accept(&mut self) -> (connections: Vec<C>)
        ensures
            connections@ == old(self).waiting(),
            final(self).waiting() == Seq::<C>::empty(),
    {
        let mut connections: Vec<C> = Vec::new();
        core::mem::swap(&mut self.connections, &mut connections);
        connections
    }
}

} // verus!
