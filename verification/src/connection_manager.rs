//! The connection manager that spawns a client controller for every expected
//! client, and the links that pass a client through to its controller.
//!
//! The manager creates a controller per key and listens for connections; each
//! connecting client identifies itself with its key and is handed to the
//! controller with that key, which forwards the host's messages to it (keeping
//! them while it is away).
use vstd::prelude::*;
use std::collections::VecDeque;
use crate::reactor::ReactorId;
use crate::ids::{Identifier, PlayerId};
use crate::server_reactor::{texts_view, drain_queue};

verus! {

/// The controller of one client: keeps the host's messages while the client
/// is away and hands them over, in order, while it is connected.
pub struct CCReactor {
    connected: bool,
    queue: VecDeque<String>,
    id: PlayerId,
    connection_manager: ReactorId,
    host: ReactorId,
}

impl CCReactor {
    pub closed spec fn connected_view(&self) -> bool { self.connected }
    pub closed spec fn queue_view(&self) -> Seq<Seq<char>> { texts_view(self.queue@) }
    pub closed spec fn id_view(&self) -> PlayerId { self.id }
    pub closed spec fn connection_manager_view(&self) -> ReactorId { self.connection_manager }
    pub closed spec fn host_view(&self) -> ReactorId { self.host }

    pub open spec fn same_identity(&self, other: &CCReactor) -> bool {
        &&& self.id_view() == other.id_view()
        &&& self.connection_manager_view() == other.connection_manager_view()
        &&& self.host_view() == other.host_view()
    }

    /// A controller for player `id`, whose client is away.
    pub fn params(id: PlayerId, connection_manager: ReactorId, host: ReactorId) -> (r: Self)
        ensures
            !r.connected_view(),
            r.queue_view() == Seq::<Seq<char>>::empty(),
            r.id_view() == id,
            r.connection_manager_view() == connection_manager,
            r.host_view() == host,
    {
        let r = CCReactor { connected: false, queue: VecDeque::new(), id, connection_manager, host };
        proof {
            assert(texts_view(r.queue@) =~= Seq::<Seq<char>>::empty());
        }
        r
    }

    fn empty_queue(&mut self) -> (r: Vec<String>)
        ensures
            final(self).same_identity(&*old(self)),
            final(self).connected_view() == old(self).connected_view(),
            old(self).connected_view() ==> texts_view(r@) == old(self).queue_view()
                && final(self).queue_view() == Seq::<Seq<char>>::empty(),
            !old(self).connected_view() ==> r@.len() == 0 && final(self).queue_view() == old(self).queue_view(),
    {
        if self.connected {
            let r = drain_queue(&mut self.queue);
            proof {
                assert(texts_view(self.queue@) =~= Seq::<Seq<char>>::empty());
            }
            r
        } else {
            Vec::new()
        }
    }

    /// The client joined as reactor `id`: returns the reactor to open a link
    /// to and everything queued, in order, for it.
    pub fn handle_connect(&mut self, id: ReactorId) -> (r: (ReactorId, Vec<String>))
        ensures
            final(self).same_identity(&*old(self)),
            final(self).connected_view(),
            final(self).queue_view() == Seq::<Seq<char>>::empty(),
            r.0 == id,
            texts_view(r.1@) == old(self).queue_view(),
    {
        self.connected = true;
        let out = self.empty_queue();
        (id, out)
    }

    /// The client went away: messages are kept until it is back.
    pub fn handle_disconnect(&mut self)
        ensures
            final(self).same_identity(&*old(self)),
            !final(self).connected_view(),
            final(self).queue_view() == old(self).queue_view(),
    {
        self.connected = false;
    }

    /// A message of the host: kept, and handed over with everything kept
    /// before it while the client is connected.
    pub fn handle_host_msg(&mut self, msg: String) -> (r: Vec<String>)
        ensures
            final(self).same_identity(&*old(self)),
            final(self).connected_view() == old(self).connected_view(),
            old(self).connected_view() ==> texts_view(r@) == old(self).queue_view().push(msg@)
                && final(self).queue_view() == Seq::<Seq<char>>::empty(),
            !old(self).connected_view() ==> r@.len() == 0 && final(self).queue_view() == old(self).queue_view().push(msg@),
    {
        let ghost mv = msg@;
        self.queue.push_back(msg);
        proof {
            assert(texts_view(self.queue@) =~= texts_view(old(self).queue@).push(mv));
        }
        self.empty_queue()
    }
}

/// The controller's link with the host: passes on the host's messages meant
/// for everybody or for the controller's player.
pub struct HostLink {
    client_id: PlayerId,
}

impl HostLink {
    pub closed spec fn client_id_view(&self) -> PlayerId { self.client_id }

    pub fn params(client_id: PlayerId) -> (r: Self)
        ensures
            r.client_id_view() == client_id,
    {
        HostLink { client_id }
    }

    /// A message of the host for player `id`: passed on only for this
    /// controller's player.
    pub fn e_handle_to_client(&self, id: u64, msg: String) -> (r: Option<String>)
        ensures
            id == self.client_id_view().value_view() ==> r == Some(msg),
            id != self.client_id_view().value_view() ==> r is None,
    {
        if id == self.client_id.value() { Some(msg) } else { None }
    }

    /// A message of the client, for the host, under the player's number.
    pub fn i_handle_message(&self, msg: String) -> (r: (u64, String))
        ensures
            r.0 == self.client_id_view().value_view(),
            r.1 == msg,
    {
        (self.client_id.value(), msg)
    }
}

/// The manager's link with the controller of one key.
pub struct ClientControllerLink {
    key: Identifier,
}

impl ClientControllerLink {
    pub closed spec fn key_view(&self) -> Identifier { self.key }

    pub fn params(key: Identifier) -> (r: Self)
        ensures
            r.key_view() == key,
    {
        ClientControllerLink { key }
    }

    /// The client with `key` connected as reactor `id`: when it is this
    /// link's key, the controller learns the client's reactor and the manager
    /// learns the controller (`remote`) of that key.
    pub fn i_handle_connected(&self, key: u64, id: ReactorId, remote: ReactorId) -> (r: Option<(ReactorId, (u64, ReactorId))>)
        ensures
            key == self.key_view().value_view() ==> r == Some((id, (key, remote))),
            key != self.key_view().value_view() ==> r is None,
    {
        if key == self.key.value() { Some((id, (key, remote))) } else { None }
    }

    /// The client with `key` disconnected: the controller learns it when it
    /// is this link's key.
    pub fn i_handle_disconnected(&self, key: u64) -> (r: bool)
        ensures
            r == (key == self.key_view().value_view()),
    {
        key == self.key.value()
    }
}

/// The manager's link with a connecting client.
pub struct ClientLink {
    key: Option<Identifier>,
}

impl ClientLink {
    pub closed spec fn key_view(&self) -> Option<Identifier> { self.key }

    pub fn params() -> (r: Self)
        ensures
            r.key_view() is None,
    {
        ClientLink { key: None }
    }

    /// The client identified itself with `key`: the manager learns that the
    /// client with that key connected as reactor `remote`.
    pub fn e_handle_identify(&mut self, key: u64, remote: ReactorId) -> (r: (u64, ReactorId))
        ensures
            r == (key, remote),
            final(self).key_view() == Some(Identifier::from_u64_spec(key)),
    {
        self.key = Some(Identifier::from_u64(key));
        (key, remote)
    }

    /// The client disconnected: the manager learns it when the client had
    /// identified itself; the link closes in any case.
    pub fn e_handle_disconnect(&self) -> (r: Option<u64>)
        ensures
            match self.key_view() {
                Some(k) => r == Some(k.value_view()),
                None => r is None,
            },
    {
        match self.key {
            Some(k) => Some(k.value()),
            None => None,
        }
    }

    /// The controller of `key` is reactor `id`: the client learns it when it
    /// is the one with that key.
    pub fn i_handle_host_connected(&self, key: u64, id: ReactorId) -> (r: Option<ReactorId>)
        ensures
            (self.key_view() matches Some(k) && k.value_view() == key) ==> r == Some(id),
            !(self.key_view() matches Some(k) && k.value_view() == key) ==> r is None,
    {
        match self.key {
            Some(k) => if k.value() == key { Some(id) } else { None },
            None => None,
        }
    }
}

/// Creates a controller for every expected client of a game.
pub struct ConnectionManager {
    ids: Vec<(Identifier, PlayerId)>,
    host: ReactorId,
}

impl ConnectionManager {
    pub closed spec fn ids_view(&self) -> Seq<(Identifier, PlayerId)> { self.ids@ }
    pub closed spec fn host_view(&self) -> ReactorId { self.host }

    /// A manager for the clients `ids` (key and player, one entry per key) of
    /// the host `host`.
    pub fn params(ids: Vec<(Identifier, PlayerId)>, host: ReactorId) -> (r: Self)
        requires
            forall|i: int, j: int| 0 <= i < j < ids@.len() ==> (#[trigger] ids@[i]).0 != (#[trigger] ids@[j]).0,
        ensures
            r.ids_view() == ids@,
            r.host_view() == host,
    {
        ConnectionManager { ids, host }
    }

    /// Starts up as reactor `me`: one controller per expected client (each
    /// with the link for its key), after which no client is expected any
    /// more; the identities of the controllers go to the host.
    pub fn handle_initialize(&mut self, me: ReactorId) -> (r: Vec<(ClientControllerLink, CCReactor)>)
        ensures
            r@.len() == old(self).ids_view().len(),
            forall|i: int| 0 <= i < r@.len() ==> {
                let (link, cc) = #[trigger] r@[i];
                &&& link.key_view() == old(self).ids_view()[i].0
                &&& cc.id_view() == old(self).ids_view()[i].1
                &&& cc.connection_manager_view() == me
                &&& cc.host_view() == old(self).host_view()
                &&& !cc.connected_view()
                &&& cc.queue_view() == Seq::<Seq<char>>::empty()
            },
            final(self).ids_view().len() == 0,
            final(self).host_view() == old(self).host_view(),
    {
        let mut ids: Vec<(Identifier, PlayerId)> = Vec::new();
        std::mem::swap(&mut ids, &mut self.ids);
        let mut out: Vec<(ClientControllerLink, CCReactor)> = Vec::new();
        let mut i: usize = 0;
        while i < ids.len()
            invariant
                i <= ids@.len(),
                out@.len() == i,
                self.host == old(self).host,
                ids@ == old(self).ids@,
                forall|j: int| 0 <= j < i ==> {
                    let (link, cc) = #[trigger] out@[j];
                    &&& link.key_view() == ids@[j].0
                    &&& cc.id_view() == ids@[j].1
                    &&& cc.connection_manager_view() == me
                    &&& cc.host_view() == self.host
                    &&& !cc.connected_view()
                    &&& cc.queue_view() == Seq::<Seq<char>>::empty()
                },
            decreases ids.len() - i,
        {
            let (key, id) = ids[i];
            out.push((ClientControllerLink::params(key), CCReactor::params(id, me, self.host)));
            i = i + 1;
        }
        out
    }
}

} // verus!
