//! The client controller of one player: forwards the game's data to the
//! player's client, buffering it while the client is away, and the client's
//! data to the game.
use vstd::prelude::*;
use std::collections::VecDeque;
use crate::reactor::{ReactorId, TargetReactor, LinkParams, MsgKind, link_params};
use crate::types::{PlayerId, Data, PlayerMsg, PlayerMsgView, HostMsg, ClientState, ClientStateUpdate};
use crate::request::{Req, Res, Connect, ConnectView, random_u64};
use crate::aggregator::InitConnect;
use crate::net::types::Accepted;

verus! {

/// The view of a queue of data.
pub open spec fn data_queue_view(v: Seq<Data>) -> Seq<Seq<u8>> {
    v.map_values(|d: Data| d@)
}

/// The link to a client closed.
#[derive(Clone, Copy, Debug, PartialEq, Eq, Structural)]
pub struct ClientClosed(pub PlayerId);

/// What the controller does with a message of the game.
#[derive(Debug)]
pub enum HostMsgOutcome {
    /// Sends the data to the client's link.
    Forward(Data, ReactorId),
    /// Keeps the data until the client is back.
    Buffered,
    /// The player was kicked: the controller closes.
    Close,
}

/// What the controller does when its client connects.
#[derive(Debug)]
pub struct ConnOutcome {
    /// On the first connection: the name the player connected with, for the game.
    pub init: Option<InitConnect>,
    /// The player is connected, for the game.
    pub update: ClientStateUpdate,
    /// The client's link to open; closing it reports `ClientClosed` of the player.
    pub link: ReactorId,
    pub closer: ClientClosed,
    /// The buffered data, in order, for the client.
    pub flushed: Vec<Data>,
}

/// What the controller does when its client goes away.
#[derive(Debug)]
pub struct DiscOutcome {
    /// The player is disconnected, for the game.
    pub update: ClientStateUpdate,
    /// The controller closes (it does not wait for the client to come back).
    pub close: bool,
}

/// The status a controller reports.
pub open spec fn connect_status(client_id: PlayerId, name: Option<Seq<char>>, connected: bool, key: u64) -> ConnectView {
    match name {
        Some(n) => if connected {
            ConnectView::Connected(client_id, n)
        } else {
            ConnectView::Reconnecting(client_id, n)
        },
        None => ConnectView::Waiting(client_id, key),
    }
}

pub struct ClientController {
    client_manager: ReactorId,
    host: ReactorId,
    client_id: PlayerId,
    client: Option<ReactorId>,
    client_name: Option<String>,
    buffer: VecDeque<Data>,
    key: u64,
    try_reconnect: bool,
}

impl ClientController {
    /// The links the controller opens when it starts, both kept open: to the
    /// game's side, which gets the player's turns, connection changes, status
    /// answers and first connection, and whose status requests and messages
    /// come to the controller; and to the client manager, whose acceptances
    /// come to the controller.
    pub fn init(&self) -> (r: Vec<(LinkParams<MsgKind>, bool)>)
        ensures
            r@.len() == 2,
            r@[0].0.remote == self.host_view(),
            r@[0].0.internal@ == seq![MsgKind::PlayerMsg, MsgKind::ClientStateUpdate, MsgKind::ConnectRes, MsgKind::InitConnect],
            r@[0].0.external@ == seq![(MsgKind::ConnectReq, TargetReactor::Reactor), (MsgKind::HostMsg, TargetReactor::Reactor)],
            r@[0].1,
            r@[1].0.remote == self.client_manager_view(),
            r@[1].0.internal@ == Seq::<MsgKind>::empty(),
            r@[1].0.external@ == seq![(MsgKind::Accepted, TargetReactor::Reactor)],
            r@[1].1,
    {
        let mut hi: Vec<MsgKind> = Vec::new();
        hi.push(MsgKind::PlayerMsg);
        hi.push(MsgKind::ClientStateUpdate);
        hi.push(MsgKind::ConnectRes);
        hi.push(MsgKind::InitConnect);
        let mut he: Vec<(MsgKind, TargetReactor)> = Vec::new();
        he.push((MsgKind::ConnectReq, TargetReactor::Reactor));
        he.push((MsgKind::HostMsg, TargetReactor::Reactor));
        let mi: Vec<MsgKind> = Vec::new();
        let mut me: Vec<(MsgKind, TargetReactor)> = Vec::new();
        me.push((MsgKind::Accepted, TargetReactor::Reactor));
        proof {
            assert(hi@ =~= seq![MsgKind::PlayerMsg, MsgKind::ClientStateUpdate, MsgKind::ConnectRes, MsgKind::InitConnect]);
            assert(he@ =~= seq![(MsgKind::ConnectReq, TargetReactor::Reactor), (MsgKind::HostMsg, TargetReactor::Reactor)]);
            assert(mi@ =~= Seq::<MsgKind>::empty());
            assert(me@ =~= seq![(MsgKind::Accepted, TargetReactor::Reactor)]);
        }
        let mut out: Vec<(LinkParams<MsgKind>, bool)> = Vec::new();
        out.push((link_params(self.host, hi, he), true));
        out.push((link_params(self.client_manager, mi, me), true));
        out
    }

    /// The link to a connected client: sends data to it and passes its data
    /// to the controller; it does not stay open when the client goes away.
    pub fn client_link(client_id: ReactorId) -> (r: (LinkParams<MsgKind>, bool))
        ensures
            r.0.remote == client_id,
            r.0.internal@ == seq![MsgKind::Data],
            r.0.external@ == seq![(MsgKind::Data, TargetReactor::Reactor)],
            !r.1,
    {
        let mut ci: Vec<MsgKind> = Vec::new();
        ci.push(MsgKind::Data);
        let mut ce: Vec<(MsgKind, TargetReactor)> = Vec::new();
        ce.push((MsgKind::Data, TargetReactor::Reactor));
        proof {
            assert(ci@ =~= seq![MsgKind::Data]);
            assert(ce@ =~= seq![(MsgKind::Data, TargetReactor::Reactor)]);
        }
        (link_params(client_id, ci, ce), false)
    }

    pub closed spec fn client_manager_view(&self) -> ReactorId { self.client_manager }
    pub closed spec fn host_view(&self) -> ReactorId { self.host }
    pub closed spec fn client_id_view(&self) -> PlayerId { self.client_id }
    /// The link to the client, while it is connected.
    pub closed spec fn client_view(&self) -> Option<ReactorId> { self.client }
    /// The name the client connected with, once it has.
    pub closed spec fn name_view(&self) -> Option<Seq<char>> {
        match self.client_name {
            Some(n) => Some(n@),
            None => None,
        }
    }
    /// The data kept for the client while it is away.
    pub closed spec fn buffer_view(&self) -> Seq<Seq<u8>> { data_queue_view(self.buffer@) }
    pub closed spec fn key_view(&self) -> u64 { self.key }
    pub closed spec fn try_reconnect_view(&self) -> bool { self.try_reconnect }

    /// Everything but the connection and the buffer.
    pub open spec fn same_identity(&self, other: &ClientController) -> bool {
        &&& self.client_manager_view() == other.client_manager_view()
        &&& self.host_view() == other.host_view()
        &&& self.client_id_view() == other.client_id_view()
        &&& self.key_view() == other.key_view()
        &&& self.try_reconnect_view() == other.try_reconnect_view()
    }

    /// A controller for player `client_id`, whose client has not connected yet.
    pub fn params(client_manager: ReactorId, host: ReactorId, client_id: PlayerId, key: u64, try_reconnect: bool) -> (r: Self)
        ensures
            r.client_manager_view() == client_manager,
            r.host_view() == host,
            r.client_id_view() == client_id,
            r.key_view() == key,
            r.try_reconnect_view() == try_reconnect,
            r.client_view() is None,
            r.name_view() is None,
            r.buffer_view() == Seq::<Seq<u8>>::empty(),
    {
        let r = ClientController {
            client_manager,
            host,
            client_id,
            client_name: None,
            client: None,
            buffer: VecDeque::new(),
            key,
            try_reconnect,
        };
        proof {
            assert(data_queue_view(r.buffer@) =~= Seq::<Seq<u8>>::empty());
        }
        r
    }

    /// A message of the game: data goes to the client when it is connected and
    /// is kept otherwise; a kick closes the controller.
    pub fn handle_host_msg(&mut self, m: &HostMsg) -> (r: HostMsgOutcome)
        ensures
            final(self).same_identity(&*old(self)),
            final(self).client_view() == old(self).client_view(),
            final(self).name_view() == old(self).name_view(),
            match m {
                HostMsg::Data(d, _) => match old(self).client_view() {
                    Some(t) => (r matches HostMsgOutcome::Forward(x, u) && x@ == d@ && u == t)
                        && final(self).buffer_view() == old(self).buffer_view(),
                    None => r is Buffered && final(self).buffer_view() == old(self).buffer_view().push(d@),
                },
                HostMsg::Kick(_) => r is Close && final(self).buffer_view() == old(self).buffer_view(),
            },
    {
        match m {
            HostMsg::Data(data, _) => {
                if let Some(target) = self.client {
                    HostMsgOutcome::Forward(data.clone(), target)
                } else {
                    self.buffer.push_back(data.clone());
                    proof {
                        assert(data_queue_view(self.buffer@) =~= data_queue_view(old(self).buffer@).push(data@));
                    }
                    HostMsgOutcome::Buffered
                }
            },
            HostMsg::Kick(_) => HostMsgOutcome::Close,
        }
    }

    /// Data of the client becomes a message of the player for the game.
    pub fn handle_client_msg(&self, m: &Data) -> (r: PlayerMsg)
        ensures
            r@ == (PlayerMsgView { id: self.client_id_view(), data: Some(m@) }),
    {
        PlayerMsg { id: self.client_id, data: Some(m.clone()) }
    }

    /// Answers a status request of the game (see `connect_status`).
    pub fn handle_conn_req(&self, req: &Req<Connect>) -> (r: Res<Connect>)
        ensures
            r.0 == req.0,
            r.1@ == connect_status(self.client_id_view(), self.name_view(), self.client_view() is Some, self.key_view()),
    {
        let status = match &self.client_name {
            Some(name) => if self.client.is_some() {
                Connect::Connected(self.client_id, name.clone())
            } else {
                Connect::Reconnecting(self.client_id, name.clone())
            },
            None => Connect::Waiting(self.client_id, self.key),
        };
        req.res(status)
    }

    /// Hands over the buffered data, in order, when the client is connected.
    fn flush_msgs(&mut self) -> (r: Vec<Data>)
        ensures
            final(self).same_identity(&*old(self)),
            final(self).client_view() == old(self).client_view(),
            final(self).name_view() == old(self).name_view(),
            old(self).client_view() is Some ==> data_queue_view(r@) == old(self).buffer_view()
                && final(self).buffer_view() == Seq::<Seq<u8>>::empty(),
            old(self).client_view() is None ==> r@.len() == 0 && final(self).buffer_view() == old(self).buffer_view(),
    {
        let mut out: Vec<Data> = Vec::new();
        if self.client.is_some() {
            let ghost b = data_queue_view(self.buffer@);
            while self.buffer.len() > 0
                invariant
                    self.client_manager == old(self).client_manager,
                    self.host == old(self).host,
                    self.client_id == old(self).client_id,
                    self.key == old(self).key,
                    self.try_reconnect == old(self).try_reconnect,
                    self.client == old(self).client,
                    self.client_name == old(self).client_name,
                    b == data_queue_view(out@) + data_queue_view(self.buffer@),
                decreases self.buffer@.len(),
            {
                let ghost before = self.buffer@;
                let d = self.buffer.pop_front();
                match d {
                    Some(d) => {
                        out.push(d);
                        proof {
                            assert(before == seq![d].add(self.buffer@)) by {
                                assert(before =~= seq![d].add(self.buffer@));
                            }
                            assert(data_queue_view(out@) =~= data_queue_view(out@.drop_last()).push(d@));
                            assert(data_queue_view(before) =~= seq![d@].add(data_queue_view(self.buffer@)));
                            assert(data_queue_view(out@) + data_queue_view(self.buffer@) =~= data_queue_view(out@.drop_last()) + data_queue_view(before));
                        }
                    },
                    None => {},
                }
            }
            proof {
                assert(data_queue_view(self.buffer@) =~= Seq::<Seq<u8>>::empty());
                assert(b =~= data_queue_view(out@));
            }
        }
        out
    }

    /// The client connected: on the first connection the game learns the
    /// player's name; the game learns that the player is connected; the
    /// client's link is opened and everything buffered is sent to it.
    pub fn handle_conn(&mut self, accept: &Accepted) -> (r: ConnOutcome)
        ensures
            final(self).same_identity(&*old(self)),
            final(self).client_view() == Some(accept.client_id),
            final(self).name_view() == Some(accept.name@),
            final(self).buffer_view() == Seq::<Seq<u8>>::empty(),
            old(self).name_view() is None ==> (r.init matches Some(ic) && ic.0 == old(self).client_id_view() && ic.1@ == accept.name@),
            old(self).name_view() is Some ==> r.init is None,
            r.update == (ClientStateUpdate { id: accept.player, state: ClientState::Connected }),
            r.link == accept.client_id,
            r.closer == ClientClosed(accept.player),
            data_queue_view(r.flushed@) == old(self).buffer_view(),
    {
        let init = if self.client_name.is_none() {
            Some(InitConnect(self.client_id, accept.name.clone()))
        } else {
            None
        };
        let update = ClientStateUpdate { id: accept.player, state: ClientState::Connected };
        self.client = Some(accept.client_id);
        self.client_name = Some(accept.name.clone());
        let flushed = self.flush_msgs();
        ConnOutcome { init, update, link: accept.client_id, closer: ClientClosed(accept.player), flushed }
    }

    /// The client's link closed: the game learns that the player is
    /// disconnected, and the controller closes unless it waits for the client
    /// to come back.
    pub fn handle_disc(&mut self, closed: &ClientClosed) -> (r: DiscOutcome)
        ensures
            final(self).same_identity(&*old(self)),
            final(self).client_view() is None,
            final(self).name_view() == old(self).name_view(),
            final(self).buffer_view() == old(self).buffer_view(),
            r.update == (ClientStateUpdate { id: closed.0, state: ClientState::Disconnected }),
            r.close == !old(self).try_reconnect_view(),
    {
        self.client = None;
        DiscOutcome {
            update: ClientStateUpdate { id: closed.0, state: ClientState::Disconnected },
            close: !self.try_reconnect,
        }
    }
}

/// Makes spawners of client controllers for players that join a running game.
#[derive(Clone, Copy, Debug)]
pub struct SpawnerBuilder {
    try_reconnect: bool,
}

impl SpawnerBuilder {
    pub closed spec fn try_reconnect_view(&self) -> bool { self.try_reconnect }

    pub fn new(try_reconnect: bool) -> (r: Self)
        ensures
            r.try_reconnect_view() == try_reconnect,
    {
        Self { try_reconnect }
    }

    /// The spawner for the game whose aggregator is `agg_id`.
    pub fn into_spawner(self, agg_id: ReactorId) -> (r: Spawner)
        ensures
            r.agg_id_view() == agg_id,
            r.try_reconnect_view() == self.try_reconnect_view(),
    {
        Spawner { agg_id, try_reconnect: self.try_reconnect }
    }
}

/// Spawns a client controller for each player that joins a running game.
#[derive(Clone, Copy, Debug)]
pub struct Spawner {
    agg_id: ReactorId,
    try_reconnect: bool,
}

impl Spawner {
    pub closed spec fn agg_id_view(&self) -> ReactorId { self.agg_id }
    pub closed spec fn try_reconnect_view(&self) -> bool { self.try_reconnect }

    /// A new player with a random key and a random player identity, and the
    /// controller to spawn for it under the client manager `cm_id`; also
    /// returns the aggregator the controller reports to.
    pub fn build(&self, cm_id: ReactorId) -> (r: (u64, PlayerId, ClientController, ReactorId))
        ensures
            r.2.client_manager_view() == cm_id,
            r.2.host_view() == self.agg_id_view(),
            r.2.client_id_view() == r.1,
            r.2.key_view() == r.0,
            r.2.try_reconnect_view() == self.try_reconnect_view(),
            r.2.client_view() is None,
            r.2.name_view() is None,
            r.2.buffer_view() == Seq::<Seq<u8>>::empty(),
            r.3 == self.agg_id_view(),
    {
        let key = random_u64();
        let player: PlayerId = random_u64();
        let params = ClientController::params(cm_id, self.agg_id, player, key, self.try_reconnect);
        (key, player, params, self.agg_id)
    }
}

/// The buffer after the messages `ds` arrived, one after the other, while no
/// client was connected (each is pushed at the end).
pub open spec fn buffered_after<A>(buffer: Seq<A>, ds: Seq<A>) -> Seq<A>
    decreases ds.len(),
{
    if ds.len() == 0 {
        buffer
    } else {
        buffered_after(buffer.push(ds[0]), ds.drop_first())
    }
}

/// No message for a client is lost or reordered while the client is away:
/// what arrives while it is disconnected is kept after what was kept before,
/// in the order it came, and is what the client gets when it connects. This
/// holds of the client controllers' data buffers and of the queues of the
/// connection managers' controllers alike.
pub proof fn law_buffer_keeps_order<A>(buffer: Seq<A>, ds: Seq<A>)
    ensures
        buffered_after(buffer, ds) == buffer + ds,
    decreases ds.len(),
{
    if ds.len() == 0 {
        assert(buffer + ds =~= buffer);
    } else {
        law_buffer_keeps_order(buffer.push(ds[0]), ds.drop_first());
        assert(buffer.push(ds[0]) + ds.drop_first() =~= buffer + ds);
    }
}

} // verus!
