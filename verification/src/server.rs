//! The server side of a network connection: a remote reactor connects under
//! its identity, is registered with the broker and announced to the welcoming
//! reactor; when the connection drops, it is unregistered.
use vstd::prelude::*;
use crate::reactor::ReactorId;

verus! {

/// What the server does when a remote reactor connects.
#[derive(Clone, Copy, Debug, PartialEq, Eq, Structural)]
pub struct ConnectOutcome {
    /// Registers the remote reactor with the broker, reachable through this
    /// connection.
    pub register: ReactorId,
    /// Tells the welcoming reactor that the remote reactor joined.
    pub joined: ReactorId,
    /// Tells the remote side which reactor welcomes it.
    pub connected: ReactorId,
}

pub struct ServerHandler {
    welcomer_id: ReactorId,
    connecting_id: Option<ReactorId>,
}

impl ServerHandler {
    pub closed spec fn welcomer_view(&self) -> ReactorId { self.welcomer_id }
    pub closed spec fn connecting_view(&self) -> Option<ReactorId> { self.connecting_id }

    /// A connection welcomed by `welcomer_id`, before anyone connected.
    pub fn new(welcomer_id: ReactorId) -> (r: Self)
        ensures
            r.welcomer_view() == welcomer_id,
            r.connecting_view() is None,
    {
        ServerHandler { welcomer_id, connecting_id: None }
    }

    /// The remote reactor `id` connected.
    pub fn handle_connect(&mut self, id: ReactorId) -> (r: ConnectOutcome)
        ensures
            final(self).connecting_view() == Some(id),
            final(self).welcomer_view() == old(self).welcomer_view(),
            r == (ConnectOutcome { register: id, joined: id, connected: old(self).welcomer_view() }),
    {
        self.connecting_id = Some(id);
        ConnectOutcome { register: id, joined: id, connected: self.welcomer_id }
    }

    /// The connection dropped: the reactor to unregister, if one connected.
    pub fn handle_disconnected(&self) -> (r: Option<ReactorId>)
        ensures
            r == self.connecting_view(),
    {
        self.connecting_id
    }
}

} // verus!
