//! Requests and responses between reactors, matched by a request identity.
use vstd::prelude::*;
use crate::types::PlayerId;
use crate::text::{append_str, append_string, append_decimal, decimal};

verus! {

/// A random number.
///
/// Trusted: calls `rand::random::<u64>()`; nothing is claimed of the value.
#[verifier::external_body]
pub(crate) fn random_u64() -> u64 {
    rand::random::<u64>()
}

/// Sixteen random bytes.
///
/// Trusted: calls `rand::random::<[u8; 16]>()`; nothing is claimed of the value.
#[verifier::external_body]
fn random_bytes16() -> [u8; 16] {
    rand::random::<[u8; 16]>()
}

/// The number whose big-endian bytes are `b`.
pub open spec fn big_endian(b: Seq<u8>) -> nat
    decreases b.len(),
{
    if b.len() == 0 {
        0
    } else {
        big_endian(b.drop_last()) * 256 + b.last() as nat
    }
}

/// Builds a UUID from its sixteen bytes and returns its 128-bit value.
///
/// Trusted: calls `uuid::Builder::from_bytes(bytes).build()` and reads the
/// value with `Uuid::as_u128`; the crate keeps the bytes as given and packs
/// them big-endian, so the value is the big-endian number of the bytes.
#[verifier::external_body]
fn uuid_from_bytes(bytes: [u8; 16]) -> (r: u128)
    ensures
        r as nat == big_endian(bytes@),
{
    uuid::Builder::from_bytes(bytes).build().as_u128()
}

/// A UUID, held by its 128-bit value.
pub type Uuid = u128;

/// A fresh random key that identifies a player when it connects.
pub fn gen_identification_key() -> (r: Uuid) {
    let random_bytes = random_bytes16();
    uuid_from_bytes(random_bytes)
}

/// The identity that ties a response to its request.
#[derive(Clone, Copy, Debug, Hash, PartialEq, Eq, Structural)]
pub struct RequestID(pub u64);

impl RequestID {
    /// A fresh random request identity.
    pub fn new() -> (r: Self) {
        RequestID(random_u64())
    }

    /// The number of this identity.
    pub fn into_u64(self) -> (r: u64)
        ensures
            r == self.0,
    {
        self.0
    }
}

/// A request carrying `T`.
#[derive(Debug)]
pub struct Req<T>(pub RequestID, pub T);

impl<T> Req<T> {
    /// A request with a fresh random identity.
    pub fn new(t: T) -> (r: Self)
        ensures
            r.1 == t,
    {
        Req(RequestID(random_u64()), t)
    }

    /// The response to this request, carrying `r`.
    pub fn res<R>(&self, r: R) -> (out: Res<R>)
        ensures
            out.0 == self.0,
            out.1 == r,
    {
        Res(self.0, r)
    }
}

/// A response carrying `T`, for the request with the same identity.
#[derive(Debug)]
pub struct Res<T>(pub RequestID, pub T);

impl<T> Res<T> {
    /// The response with identity `uuid` carrying `t`.
    pub fn new(uuid: RequestID, t: T) -> (r: Self)
        ensures
            r.0 == uuid,
            r.1 == t,
    {
        Res(uuid, t)
    }
}

/// Asks a game to stop.
#[derive(Default, Clone, Copy, Debug, PartialEq, Eq, Structural)]
pub struct Kill;

impl Req<Kill> {
    /// A kill request with a fresh random identity.
    pub fn default() -> (r: Self) {
        Req(RequestID(random_u64()), Kill)
    }
}

impl Res<Kill> {
    /// The answer to the kill request `uuid`.
    pub fn default(uuid: RequestID) -> (r: Self)
        ensures
            r.0 == uuid,
    {
        Res(uuid, Kill)
    }
}

pub enum ConnectView {
    Connected(PlayerId, Seq<char>),
    Reconnecting(PlayerId, Seq<char>),
    Waiting(PlayerId, u64),
    Request,
}

/// The connection status of one player.
#[derive(Debug)]
pub enum Connect {
    /// The player is connected under the given name.
    Connected(PlayerId, String),
    /// The player was connected under the given name and is away now.
    Reconnecting(PlayerId, String),
    /// The player has not connected yet; it has to present the key.
    Waiting(PlayerId, u64),
    /// Asks for the connection status.
    Request,
}

impl View for Connect {
    type V = ConnectView;

    open spec fn view(&self) -> ConnectView {
        match self {
            Connect::Connected(p, n) => ConnectView::Connected(*p, n@),
            Connect::Reconnecting(p, n) => ConnectView::Reconnecting(*p, n@),
            Connect::Waiting(p, k) => ConnectView::Waiting(*p, *k),
            Connect::Request => ConnectView::Request,
        }
    }
}

impl Clone for Connect {
    fn clone(&self) -> (r: Self)
        ensures
            r@ == self@,
    {
        match self {
            Connect::Connected(p, n) => Connect::Connected(*p, n.clone()),
            Connect::Reconnecting(p, n) => Connect::Reconnecting(*p, n.clone()),
            Connect::Waiting(p, k) => Connect::Waiting(*p, *k),
            Connect::Request => Connect::Request,
        }
    }
}

/// The text shown for a connection status.
pub open spec fn describe_connect(c: ConnectView) -> Seq<char> {
    match c {
        ConnectView::Connected(_, name) => "Connected "@ + name,
        ConnectView::Reconnecting(_, name) => "Reconnecting "@ + name,
        ConnectView::Waiting(_, key) => "Key to connect "@ + decimal(key as nat),
        ConnectView::Request => "Request"@,
    }
}

impl Connect {
    /// The text shown for this connection status.
    pub fn describe(&self) -> (r: String)
        ensures
            r@ == describe_connect(self@),
    {
        let mut s = String::new();
        match self {
            Connect::Connected(_, name) => {
                append_str(&mut s, "Connected ");
                append_string(&mut s, name);
            },
            Connect::Reconnecting(_, name) => {
                append_str(&mut s, "Reconnecting ");
                append_string(&mut s, name);
            },
            Connect::Waiting(_, key) => {
                append_str(&mut s, "Key to connect ");
                append_decimal(&mut s, *key);
            },
            Connect::Request => {
                append_str(&mut s, "Request");
            },
        }
        s
    }
}

/// The view of a list of connection statuses.
pub open spec fn connects_view(v: Seq<Connect>) -> Seq<ConnectView> {
    v.map_values(|c: Connect| c@)
}

pub enum StateView {
    Request,
    Response(Seq<ConnectView>),
}

/// The state of a game's players: a request for it, or the answer.
#[derive(Debug)]
pub enum State {
    Request,
    Response(Vec<Connect>),
}

impl View for State {
    type V = StateView;

    open spec fn view(&self) -> StateView {
        match self {
            State::Request => StateView::Request,
            State::Response(v) => StateView::Response(connects_view(v@)),
        }
    }
}

impl State {
    /// The statuses of a response.
    pub fn res(&self) -> (r: &Vec<Connect>)
        requires
            self is Response,
        ensures
            self == State::Response(*r),
    {
        match self {
            State::Response(s) => s,
            State::Request => {
                proof {
                    assert(false);
                }
                unreached()
            },
        }
    }

    /// Checks that this is a request.
    pub fn req(self)
        requires
            self is Request,
    {
    }
}

} // verus!
