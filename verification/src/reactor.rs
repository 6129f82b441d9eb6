//! Identities and routing targets shared by all reactors.
use vstd::prelude::*;

verus! {

/// The identity of a reactor (or of a reactor-like endpoint) in a broker.
#[derive(Clone, Copy, Debug, PartialEq, Eq, Structural, Hash)]
pub struct ReactorId {
    pub id: u64,
}

impl ReactorId {
    /// A reactor identity made from a plain number.
    pub fn from_u64(id: u64) -> (r: ReactorId)
        ensures
            r.id == id,
    {
        ReactorId { id }
    }

    /// A fresh random reactor identity.
    pub fn rand() -> (r: ReactorId) {
        ReactorId { id: crate::request::random_u64() }
    }
}

/// Where an internal message is routed to.
#[derive(Clone, Copy, Debug, PartialEq, Eq, Structural)]
pub enum TargetReactor {
    /// The reactor's own handlers.
    Reactor,
    /// Every link of the reactor.
    Links,
    /// The link to one reactor.
    Link(ReactorId),
    /// The reactor and all its links.
    All,
}


/// How a link to a remote reactor handles messages: the kinds of internal
/// messages it sends to the remote reactor, and the kinds of the remote
/// reactor's messages it passes on, each with where it passes them.
#[derive(Debug)]
pub struct LinkParams<K> {
    pub remote: ReactorId,
    pub internal: Vec<K>,
    pub external: Vec<(K, TargetReactor)>,
}


/// The kinds of messages between the reactors of a game.
#[derive(Clone, Copy, Debug, PartialEq, Eq, Structural)]
pub enum MsgKind {
    /// One player's turn.
    PlayerMsg,
    /// A batch of turns.
    PlayerMsgs,
    /// A message of the game for the players.
    HostMsg,
    /// The game starts.
    Start,
    /// A player's connection changed.
    ClientStateUpdate,
    /// A request for the state of the players.
    StateReq,
    /// The answer with the state of the players.
    StateRes,
    /// A request for a player's status.
    ConnectReq,
    /// The answer with a player's status.
    ConnectRes,
    /// A player connected for the first time, with its name.
    InitConnect,
    /// A new client controller serves a player.
    NewClientController,
    /// A client was accepted.
    Accepted,
    /// Raw data of a client.
    Data,
    /// A request to stop a game.
    KillReq,
    /// The answer to a kill request.
    KillRes,
    /// A game's number with its final state.
    Finished,
    /// A final state, for the log.
    FinalState,
    /// A game registers its players.
    RegisterGame,
    /// An endpoint registers.
    RegisterEndpoint,
    /// An endpoint hands over a registering client.
    SpawnPlayer,
    /// The keys of a game's players.
    PlayerUUIDs,
}

/// A link's settings from its parts.
pub fn link_params<K>(remote: ReactorId, internal: Vec<K>, external: Vec<(K, TargetReactor)>) -> (r: LinkParams<K>)
    ensures
        r.remote == remote,
        r.internal@ == internal@,
        r.external@ == external@,
{
    LinkParams { remote, internal, external }
}

} // verus!
