//! The decisions of the endpoints that accept the players' connections: the
//! accepting loop, the registration of a new client, and a client's session.
use vstd::prelude::*;
use crate::types::Data;
use crate::formats::{socket_line, line_bytes};
use crate::reactor::ReactorId;
use crate::assoc::{keys_distinct, has_key, assoc_map, lemma_has_key_dom, lemma_assoc_value, assoc_insert, lemma_assoc_insert, lemma_assoc_remove};

verus! {

/// What reaches an endpoint's accepting loop.
#[derive(Clone, Copy, Debug, PartialEq, Eq, Structural)]
pub enum AcceptEvent {
    /// A client connected.
    Socket,
    /// Accepting a client failed.
    SocketError,
    /// The listener ended.
    ListenerEnded,
    /// The endpoint's own link closed.
    ControlClosed,
    /// The endpoint got a message, which it does not expect.
    ControlMessage,
}

/// What the accepting loop does.
#[derive(Clone, Copy, Debug, PartialEq, Eq, Structural)]
pub enum AcceptAction {
    /// Starts a session for the new client.
    Spawn,
    /// Goes on (an unexpected message is reported).
    Continue,
    /// Stops; cleanly when asked to, abnormally when the listener fails.
    Stop { clean: bool },
}

/// A new client starts a session; an accepting failure or the end of the
/// listener stops the loop abnormally; a closed link stops it cleanly; any
/// other message is reported and ignored.
pub fn accept_step(ev: AcceptEvent) -> (r: AcceptAction)
    ensures
        r == (match ev {
            AcceptEvent::Socket => AcceptAction::Spawn,
            AcceptEvent::SocketError => AcceptAction::Stop { clean: false },
            AcceptEvent::ListenerEnded => AcceptAction::Stop { clean: false },
            AcceptEvent::ControlClosed => AcceptAction::Stop { clean: true },
            AcceptEvent::ControlMessage => AcceptAction::Continue,
        }),
{
    match ev {
        AcceptEvent::Socket => AcceptAction::Spawn,
        AcceptEvent::SocketError => AcceptAction::Stop { clean: false },
        AcceptEvent::ListenerEnded => AcceptAction::Stop { clean: false },
        AcceptEvent::ControlClosed => AcceptAction::Stop { clean: true },
        AcceptEvent::ControlMessage => AcceptAction::Continue,
    }
}

/// What reaches a client's session.
#[derive(Debug)]
pub enum SessionEvent {
    /// The session's channel ended.
    ControlEnded,
    /// The client controller closed the link.
    ControlClosed,
    /// Data from the client controller, for the client.
    ControlData(Data),
    /// Something else from the client controller.
    ControlOther,
    /// A line (or frame) from the client.
    Line(Vec<u8>),
    /// Reading from the client failed.
    LineError,
    /// The client's stream ended.
    LinesEnded,
}

/// What a session does.
#[derive(Debug)]
pub enum SessionAction {
    /// Writes the bytes to the client.
    Write(Vec<u8>),
    /// Sends the client's data to its controller.
    Forward(Data),
    /// Stops; cleanly or abnormally.
    Stop { clean: bool },
}

/// One step of a line-based session: data for the client is written as a
/// line; a line of the client goes to its controller; a closed link or a
/// failing read stops the session cleanly; an ended channel or stream, or an
/// unexpected message, stops it abnormally.
pub fn session_step(ev: SessionEvent) -> (r: SessionAction)
    ensures
        match ev {
            SessionEvent::ControlEnded => r == SessionAction::Stop { clean: false },
            SessionEvent::ControlClosed => r == SessionAction::Stop { clean: true },
            SessionEvent::ControlData(d) => (r matches SessionAction::Write(b) && b@ == line_bytes(d@)),
            SessionEvent::ControlOther => r == SessionAction::Stop { clean: false },
            SessionEvent::Line(l) => (r matches SessionAction::Forward(d) && d@ == l@),
            SessionEvent::LineError => r == SessionAction::Stop { clean: true },
            SessionEvent::LinesEnded => r == SessionAction::Stop { clean: false },
        },
{
    match ev {
        SessionEvent::ControlEnded => SessionAction::Stop { clean: false },
        SessionEvent::ControlClosed => SessionAction::Stop { clean: true },
        SessionEvent::ControlData(d) => SessionAction::Write(socket_line(&d)),
        SessionEvent::ControlOther => SessionAction::Stop { clean: false },
        SessionEvent::Line(l) => SessionAction::Forward(Data { value: l }),
        SessionEvent::LineError => SessionAction::Stop { clean: true },
        SessionEvent::LinesEnded => SessionAction::Stop { clean: false },
    }
}

/// A frame of a web socket.
#[derive(Debug)]
pub enum WsFrame {
    /// A text frame, by the UTF-8 bytes of its text.
    Text(Vec<u8>),
    Binary(Vec<u8>),
    /// A control frame (ping, pong, close).
    Other,
}

/// The data of a frame: the bytes of a text or binary frame; control frames
/// carry none.
pub fn ws_payload(frame: &WsFrame) -> (r: Option<Vec<u8>>)
    ensures
        match frame {
            WsFrame::Text(t) => (r matches Some(b) && b@ == t@),
            WsFrame::Binary(b) => (r matches Some(x) && x@ == b@),
            WsFrame::Other => r is None,
        },
{
    match frame {
        WsFrame::Text(t) => Some(crate::types::clone_bytes(t)),
        WsFrame::Binary(b) => Some(crate::types::clone_bytes(b)),
        WsFrame::Other => None,
    }
}

/// A client's network address, by the parts that tell two socket addresses
/// apart.
#[derive(Clone, Copy, Debug, PartialEq, Eq, Structural, Hash)]
pub struct UdpAddr {
    pub v6: bool,
    pub ip: u128,
    pub port: u16,
    pub flowinfo: u32,
    pub scope_id: u32,
}

/// What a UDP endpoint does with a datagram.
#[derive(Debug)]
pub enum DatagramRoute<'a, C> {
    /// It comes from a known client: its data goes to the client's session
    /// `session` through `chan`.
    Forward { chan: &'a C, session: ReactorId, data: Data },
    /// It comes from an unknown address: it must be the client's
    /// registration.
    Register(Vec<u8>),
}

/// What a client session tells the UDP endpoint.
#[derive(Debug)]
pub enum ClientMsg<C> {
    /// Data for the client at the address.
    Data(Data, UdpAddr),
    /// The session `session`, reached through the channel, serves the
    /// client at the address from now on.
    Start(UdpAddr, C, ReactorId),
    /// The client at the address is gone.
    Stop(UdpAddr),
}

/// The clients a UDP endpoint knows, by address: each with the channel of
/// its session and the session's identity.
pub struct UdpClients<C> {
    clients: Vec<(UdpAddr, (C, ReactorId))>,
}

/// The position of address `a` in the table, if any.
fn find_addr<V>(v: &Vec<(UdpAddr, V)>, a: UdpAddr) -> (r: Option<usize>)
    ensures
        match r {
            Some(i) => i < v@.len() && v@[i as int].0 == a,
            None => !has_key(v@, a),
        },
{
    let mut i: usize = 0;
    while i < v.len()
        invariant
            i <= v@.len(),
            forall|j: int| 0 <= j < i ==> #[trigger] v@[j].0 != a,
        decreases v.len() - i,
    {
        if v[i].0 == a {
            return Some(i);
        }
        i = i + 1;
    }
    None
}

impl<C> UdpClients<C> {
    #[verifier::type_invariant]
    spec fn inv(self) -> bool {
        keys_distinct(self.clients@)
    }

    /// Every known client, by address.
    pub closed spec fn clients_view(&self) -> Map<UdpAddr, (C, ReactorId)> {
        assoc_map(self.clients@)
    }

    /// No client known yet.
    pub fn new() -> (r: Self)
        ensures
            r.clients_view() == Map::<UdpAddr, (C, ReactorId)>::empty(),
    {
        let r = UdpClients { clients: Vec::new() };
        proof {
            assert(assoc_map(r.clients@) =~= Map::<UdpAddr, (C, ReactorId)>::empty());
        }
        r
    }

    /// A datagram from `addr`: the data of a known client goes to its
    /// session; anything from an unknown address is a registration.
    pub fn route_datagram(&self, addr: UdpAddr, payload: Vec<u8>) -> (r: DatagramRoute<'_, C>)
        ensures
            self.clients_view().dom().contains(addr) ==> (r matches DatagramRoute::Forward { chan, session, data }
                && *chan == self.clients_view()[addr].0 && session == self.clients_view()[addr].1
                && data@ == payload@),
            !self.clients_view().dom().contains(addr) ==> (r matches DatagramRoute::Register(b) && b@ == payload@),
    {
        proof {
            use_type_invariant(self);
            lemma_has_key_dom(self.clients@, addr);
        }
        match find_addr(&self.clients, addr) {
            Some(i) => {
                proof {
                    lemma_assoc_value(self.clients@, i as int);
                }
                DatagramRoute::Forward { chan: &self.clients[i].1.0, session: self.clients[i].1.1, data: Data { value: payload } }
            },
            None => DatagramRoute::Register(payload),
        }
    }

    /// A message of a session: a starting session makes its client known
    /// (replacing an earlier one at the address), a stopping one forgets it,
    /// and data is handed back to be sent to the client's address.
    pub fn handle_client_msg(&mut self, msg: ClientMsg<C>) -> (r: Option<(Data, UdpAddr)>)
        ensures
            match msg {
                ClientMsg::Data(d, a) => (r matches Some(x) && x.0@ == d@ && x.1 == a)
                    && final(self).clients_view() == old(self).clients_view(),
                ClientMsg::Start(a, c, s) => r is None
                    && final(self).clients_view() == old(self).clients_view().insert(a, (c, s)),
                ClientMsg::Stop(a) => r is None
                    && final(self).clients_view() == old(self).clients_view().remove(a),
            },
    {
        match msg {
            ClientMsg::Data(d, a) => Some((d, a)),
            ClientMsg::Start(a, c, s) => {
                self.insert(a, (c, s));
                None
            },
            ClientMsg::Stop(a) => {
                self.forget(a);
                None
            },
        }
    }

    /// Sending to the client at `addr` failed: the client is forgotten.
    pub fn send_failed(&mut self, addr: UdpAddr)
        ensures
            final(self).clients_view() == old(self).clients_view().remove(addr),
    {
        self.forget(addr);
    }

    fn insert(&mut self, a: UdpAddr, e: (C, ReactorId))
        ensures
            final(self).clients_view() == old(self).clients_view().insert(a, e),
    {
        proof {
            use_type_invariant(&*self);
        }
        let mut clients: Vec<(UdpAddr, (C, ReactorId))> = Vec::new();
        std::mem::swap(&mut clients, &mut self.clients);
        let ghost before = clients@;
        let found = find_addr(&clients, a);
        proof {
            lemma_assoc_insert(before, a, e, found);
        }
        match found {
            Some(i) => {
                clients.set(i, (a, e));
            },
            None => {
                clients.push((a, e));
            },
        }
        proof {
            assert(clients@ =~= assoc_insert(before, a, e, found));
        }
        self.clients = clients;
    }

    fn forget(&mut self, a: UdpAddr)
        ensures
            final(self).clients_view() == old(self).clients_view().remove(a),
    {
        proof {
            use_type_invariant(&*self);
        }
        let mut clients: Vec<(UdpAddr, (C, ReactorId))> = Vec::new();
        std::mem::swap(&mut clients, &mut self.clients);
        let ghost before = clients@;
        match find_addr(&clients, a) {
            Some(i) => {
                clients.remove(i);
                proof {
                    lemma_assoc_remove(before, i as int);
                }
            },
            None => {
                proof {
                    lemma_has_key_dom(before, a);
                    assert(assoc_map(before).remove(a) =~= assoc_map(before));
                }
            },
        }
        self.clients = clients;
    }
}

} // verus!
