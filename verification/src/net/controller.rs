//! A client controller that runs as a future of its own: it reacts to the
//! operations arriving from the client side and from the host side, then sends
//! what it buffered to the client and, once closed, closes its links.
use vstd::prelude::*;
use std::collections::VecDeque;
use crate::reactor::ReactorId;
use crate::types::{PlayerId, Data, PlayerMsg, PlayerMsgView};
use crate::net::client_controller::data_queue_view;

verus! {

/// What reaches the controller, from its client side or from its host side.
#[derive(Debug)]
pub enum ControllerEvent {
    /// The connection manager accepted a client, now reachable as the reactor.
    Accepted(ReactorId),
    /// The connection manager sent something else.
    OtherConnMsg,
    /// The client sent a message; `None` when it could not be read as data.
    ClientData(Option<Data>),
    /// The link to the client closed.
    ClientClosed,
    /// The link to the connection manager closed.
    ConnManClosed,
    /// The client side channel ended: the controller's poll then keeps
    /// reading the ended channel and never returns.
    ClientChannelEnded,
    /// The host sent data for the client.
    HostData(Data),
    /// The host kicked the player.
    HostKick,
    /// The host closed its link.
    HostClosed,
    /// The host side channel ended: the controller's poll then keeps reading
    /// the ended channel and never returns.
    HostChannelEnded,
}

/// The links a closing controller closes.
#[derive(Clone, Copy, Debug, PartialEq, Eq, Structural)]
pub struct CloseLinks {
    pub host: ReactorId,
    pub conn_man: ReactorId,
    pub client: Option<ReactorId>,
}

/// What the controller does at the end of a poll.
#[derive(Debug)]
pub struct PollOutcome {
    /// The buffered data, in order, for the client (sent until a send fails).
    pub flushed: Vec<Data>,
    /// When closed: the links to close; the future then completes.
    pub close: Option<CloseLinks>,
}

pub struct ClientController {
    id: ReactorId,
    host: ReactorId,
    conn_man: ReactorId,
    client: Option<ReactorId>,
    client_id: PlayerId,
    closed: bool,
    stalled: bool,
    buffer: VecDeque<Data>,
}

impl ClientController {
    pub closed spec fn id_view(&self) -> ReactorId { self.id }
    pub closed spec fn host_view(&self) -> ReactorId { self.host }
    pub closed spec fn conn_man_view(&self) -> ReactorId { self.conn_man }
    pub closed spec fn client_view(&self) -> Option<ReactorId> { self.client }
    pub closed spec fn client_id_view(&self) -> PlayerId { self.client_id }
    pub closed spec fn closed_view(&self) -> bool { self.closed }
    /// Whether one of its channels ended, after which its poll never returns.
    pub closed spec fn stalled_view(&self) -> bool { self.stalled }
    pub closed spec fn buffer_view(&self) -> Seq<Seq<u8>> { data_queue_view(self.buffer@) }

    pub open spec fn same_identity(&self, other: &ClientController) -> bool {
        &&& self.id_view() == other.id_view()
        &&& self.host_view() == other.host_view()
        &&& self.conn_man_view() == other.conn_man_view()
        &&& self.client_id_view() == other.client_id_view()
    }

    /// A controller `id` for player `client_id` between the host and the
    /// connection manager, with no client yet.
    pub fn new(id: ReactorId, host: ReactorId, connection_manager: ReactorId, client_id: PlayerId) -> (r: Self)
        ensures
            r.id_view() == id,
            r.host_view() == host,
            r.conn_man_view() == connection_manager,
            r.client_id_view() == client_id,
            r.client_view() is None,
            !r.closed_view(),
            !r.stalled_view(),
            r.buffer_view() == Seq::<Seq<u8>>::empty(),
    {
        let r = ClientController {
            id,
            host,
            conn_man: connection_manager,
            client: None,
            client_id,
            closed: false,
            stalled: false,
            buffer: VecDeque::new(),
        };
        proof {
            assert(data_queue_view(r.buffer@) =~= Seq::<Seq<u8>>::empty());
        }
        r
    }

    /// Reacts to one event; returns the player's message for the host when the
    /// client sent data. An ended channel marks the controller closed and
    /// stalls it: its poll keeps reading that channel, so no later event is
    /// handled.
    pub fn handle_event(&mut self, ev: ControllerEvent) -> (r: Option<PlayerMsg>)
        ensures
            final(self).same_identity(&*old(self)),
            old(self).stalled_view() ==> final(self).client_view() == old(self).client_view()
                && final(self).closed_view() == old(self).closed_view()
                && final(self).buffer_view() == old(self).buffer_view()
                && final(self).stalled_view() && r is None,
            !old(self).stalled_view() ==> final(self).stalled_view()
                == (ev is ClientChannelEnded || ev is HostChannelEnded),
            !old(self).stalled_view() ==> match ev {
                ControllerEvent::Accepted(c) => final(self).client_view() == Some(c)
                    && final(self).closed_view() == old(self).closed_view()
                    && final(self).buffer_view() == old(self).buffer_view() && r is None,
                ControllerEvent::OtherConnMsg => final(self).client_view() == old(self).client_view()
                    && final(self).closed_view() == old(self).closed_view()
                    && final(self).buffer_view() == old(self).buffer_view() && r is None,
                ControllerEvent::ClientData(d) => final(self).client_view() == old(self).client_view()
                    && final(self).closed_view() == old(self).closed_view()
                    && final(self).buffer_view() == old(self).buffer_view()
                    && match d {
                        Some(x) => (r matches Some(m) && m@ == (PlayerMsgView { id: old(self).client_id_view(), data: Some(x@) })),
                        None => r is None,
                    },
                ControllerEvent::ClientClosed => final(self).client_view() is None
                    && final(self).closed_view() == old(self).closed_view()
                    && final(self).buffer_view() == old(self).buffer_view() && r is None,
                ControllerEvent::HostData(d) => final(self).client_view() == old(self).client_view()
                    && final(self).closed_view() == old(self).closed_view()
                    && final(self).buffer_view() == old(self).buffer_view().push(d@) && r is None,
                _ => final(self).client_view() == old(self).client_view()
                    && final(self).closed_view()
                    && final(self).buffer_view() == old(self).buffer_view() && r is None,
            },
    {
        if self.stalled {
            return None;
        }
        match ev {
            ControllerEvent::Accepted(c) => {
                self.client = Some(c);
                None
            },
            ControllerEvent::OtherConnMsg => None,
            ControllerEvent::ClientData(d) => match d {
                Some(data) => Some(PlayerMsg { id: self.client_id, data: Some(data) }),
                None => None,
            },
            ControllerEvent::ClientClosed => {
                self.client = None;
                None
            },
            ControllerEvent::HostData(d) => {
                let ghost dv = d@;
                self.buffer.push_back(d);
                proof {
                    assert(data_queue_view(self.buffer@) =~= data_queue_view(old(self).buffer@).push(dv));
                }
                None
            },
            ControllerEvent::ClientChannelEnded | ControllerEvent::HostChannelEnded => {
                self.closed = true;
                self.stalled = true;
                None
            },
            _ => {
                self.closed = true;
                None
            },
        }
    }

    /// Ends a poll: when a client is connected everything buffered goes to
    /// it, in order; when the controller is closed, it closes its links to the
    /// host, the connection manager and the client. A stalled controller's
    /// poll never gets here: nothing is sent and no link is closed.
    pub fn finish_poll(&mut self) -> (r: PollOutcome)
        ensures
            final(self).same_identity(&*old(self)),
            final(self).client_view() == old(self).client_view(),
            final(self).closed_view() == old(self).closed_view(),
            final(self).stalled_view() == old(self).stalled_view(),
            old(self).stalled_view() ==> r.flushed@.len() == 0 && r.close is None
                && final(self).buffer_view() == old(self).buffer_view(),
            !old(self).stalled_view() && old(self).client_view() is Some ==> data_queue_view(r.flushed@) == old(self).buffer_view()
                && final(self).buffer_view() == Seq::<Seq<u8>>::empty(),
            !old(self).stalled_view() && old(self).client_view() is None ==> r.flushed@.len() == 0
                && final(self).buffer_view() == old(self).buffer_view(),
            !old(self).stalled_view() ==> r.close == (if old(self).closed_view() {
                Some(CloseLinks { host: old(self).host_view(), conn_man: old(self).conn_man_view(), client: old(self).client_view() })
            } else {
                None
            }),
    {
        let mut out: Vec<Data> = Vec::new();
        if self.stalled {
            return PollOutcome { flushed: out, close: None };
        }
        if self.client.is_some() {
            let ghost b = data_queue_view(self.buffer@);
            while self.buffer.len() > 0
                invariant
                    self.id == old(self).id,
                    self.host == old(self).host,
                    self.conn_man == old(self).conn_man,
                    self.client_id == old(self).client_id,
                    self.client == old(self).client,
                    self.closed == old(self).closed,
                    self.stalled == old(self).stalled,
                    b == data_queue_view(out@) + data_queue_view(self.buffer@),
                decreases self.buffer@.len(),
            {
                let ghost before = self.buffer@;
                match self.buffer.pop_front() {
                    Some(d) => {
                        out.push(d);
                        proof {
                            assert(before =~= seq![d].add(self.buffer@));
                            assert(data_queue_view(out@) =~= data_queue_view(out@.drop_last()).push(d@));
                            assert(data_queue_view(before) =~= seq![d@].add(data_queue_view(self.buffer@)));
                            assert(data_queue_view(out@) + data_queue_view(self.buffer@) =~= data_queue_view(out@.drop_last()) + data_queue_view(before));
                        }
                    },
                    None => {},
                }
            }
            proof {
                assert(data_queue_view(self.buffer@) =~= Seq::<Seq<u8>>::empty());
                assert(b =~= data_queue_view(out@));
            }
        }
        let close = if self.closed {
            Some(CloseLinks { host: self.host, conn_man: self.conn_man, client: self.client })
        } else {
            None
        };
        PollOutcome { flushed: out, close }
    }
}

} // verus!
