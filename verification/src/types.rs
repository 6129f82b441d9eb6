//! The messages exchanged between players, client controllers and games.
use vstd::prelude::*;
use crate::reactor::ReactorId;

verus! {

pub type PlayerId = u64;

pub type DataType = Vec<u8>;

/// Copies a byte vector.
pub fn clone_bytes(v: &Vec<u8>) -> (r: Vec<u8>)
    ensures
        r@ == v@,
{
    let mut r: Vec<u8> = Vec::new();
    let mut i: usize = 0;
    while i < v.len()
        invariant
            i <= v.len(),
            r@ == v@.subrange(0, i as int),
        decreases v.len() - i,
    {
        r.push(v[i]);
        i = i + 1;
        proof {
            assert(r@ =~= v@.subrange(0, i as int));
        }
    }
    proof {
        assert(r@ =~= v@);
    }
    r
}

/// Raw data sent by or to a player.
#[derive(Debug)]
pub struct Data {
    pub value: DataType,
}

impl View for Data {
    type V = Seq<u8>;

    open spec fn view(&self) -> Seq<u8> {
        self.value@
    }
}

impl Clone for Data {
    fn clone(&self) -> (r: Self)
        ensures
            r@ == self@,
    {
        Data { value: clone_bytes(&self.value) }
    }
}

/// The view of an optional piece of data.
pub open spec fn opt_data_view(d: Option<Data>) -> Option<Seq<u8>> {
    match d {
        Some(x) => Some(x@),
        None => None,
    }
}

/// Copies an optional piece of data.
pub fn clone_opt_data(d: &Option<Data>) -> (r: Option<Data>)
    ensures
        opt_data_view(r) == opt_data_view(*d),
{
    match d {
        Some(x) => Some(x.clone()),
        None => None,
    }
}

pub struct PlayerMsgView {
    pub id: PlayerId,
    pub data: Option<Seq<u8>>,
}

/// A message of a player, as it reaches the game.
#[derive(Debug)]
pub struct PlayerMsg {
    pub id: PlayerId,
    pub data: Option<Data>,
}

impl View for PlayerMsg {
    type V = PlayerMsgView;

    open spec fn view(&self) -> PlayerMsgView {
        PlayerMsgView { id: self.id, data: opt_data_view(self.data) }
    }
}

impl Clone for PlayerMsg {
    fn clone(&self) -> (r: Self)
        ensures
            r@ == self@,
    {
        PlayerMsg { id: self.id, data: clone_opt_data(&self.data) }
    }
}

pub enum HostMsgView {
    Data(Seq<u8>, Option<PlayerId>),
    Kick(PlayerId),
}

/// A message of the game (the host) to one player or to all of them.
#[derive(Debug)]
pub enum HostMsg {
    /// Data for one player, or for every player when no player is given.
    Data(Data, Option<PlayerId>),
    /// Remove a player from the game.
    Kick(PlayerId),
}

impl View for HostMsg {
    type V = HostMsgView;

    open spec fn view(&self) -> HostMsgView {
        match self {
            HostMsg::Data(d, p) => HostMsgView::Data(d@, *p),
            HostMsg::Kick(p) => HostMsgView::Kick(*p),
        }
    }
}

impl Clone for HostMsg {
    fn clone(&self) -> (r: Self)
        ensures
            r@ == self@,
    {
        match self {
            HostMsg::Data(d, p) => HostMsg::Data(d.clone(), *p),
            HostMsg::Kick(p) => HostMsg::Kick(*p),
        }
    }
}

impl HostMsg {
    /// Data for `player`, or for every player when `player` is `None`.
    pub fn new(value: DataType, player: Option<PlayerId>) -> (r: Self)
        ensures
            r@ == HostMsgView::Data(value@, player),
    {
        HostMsg::Data(Data { value }, player)
    }

    /// Kicks `player` out of the game.
    pub fn kick(player: PlayerId) -> (r: Self)
        ensures
            r@ == HostMsgView::Kick(player),
    {
        HostMsg::Kick(player)
    }
}

/// Asks a link to close.
#[derive(Clone, Copy, Debug)]
pub struct Close {}

/// Starts a game with the given players and their names.
#[derive(Debug)]
pub struct Start {
    pub players: Vec<(PlayerId, String)>,
}

/// The view of a list of players with their names.
pub open spec fn named_players_view(v: Seq<(PlayerId, String)>) -> Seq<(PlayerId, Seq<char>)> {
    v.map_values(|p: (PlayerId, String)| (p.0, p.1@))
}

impl View for Start {
    type V = Seq<(PlayerId, Seq<char>)>;

    open spec fn view(&self) -> Seq<(PlayerId, Seq<char>)> {
        named_players_view(self.players@)
    }
}

/// Whether a player's connection is up or down.
#[derive(Clone, Copy, Debug, PartialEq, Eq, Structural)]
pub enum ClientState {
    Connected,
    Disconnected,
}

/// Tells the game that a player's connection changed.
#[derive(Clone, Copy, Debug, PartialEq, Eq, Structural)]
pub struct ClientStateUpdate {
    pub id: PlayerId,
    pub state: ClientState,
}

/// Announces the client controller that now serves a player.
#[derive(Clone, Copy, Debug, PartialEq, Eq, Structural)]
pub struct NewClientController(pub PlayerId, pub ReactorId);

/// Announces that the client controller of a player went away.
#[derive(Clone, Copy, Debug, PartialEq, Eq, Structural)]
pub struct ClientControllerDisconnect(pub PlayerId);

} // verus!
