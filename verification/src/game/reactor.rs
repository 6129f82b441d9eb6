//! The game reactor: hands the players' turns to a game controller and sends
//! the updates it returns, to everybody or to one player.
use vstd::prelude::*;
use crate::ids::PlayerId;
use crate::types::clone_bytes;

verus! {

/// The turn of a player: what it sent, or nothing because it timed out.
#[derive(Debug)]
pub enum Turn {
    Timeout,
    Action(Vec<u8>),
}

/// A player with its turn.
pub type PlayerTurn = (PlayerId, Turn);

pub enum TurnView {
    Timeout,
    Action(Seq<u8>),
}

impl View for Turn {
    type V = TurnView;

    open spec fn view(&self) -> TurnView {
        match self {
            Turn::Timeout => TurnView::Timeout,
            Turn::Action(d) => TurnView::Action(d@),
        }
    }
}

/// The view of a list of players' turns.
pub open spec fn player_turns_view(v: Seq<PlayerTurn>) -> Seq<(PlayerId, TurnView)> {
    v.map_values(|t: PlayerTurn| (t.0, t.1@))
}

pub enum UpdateView {
    Global(Seq<u8>),
    Player(PlayerId, Seq<u8>),
}

/// What the game sends: data for every player, or for one.
#[derive(Debug)]
pub enum Update {
    Global(Vec<u8>),
    Player(PlayerId, Vec<u8>),
}

impl View for Update {
    type V = UpdateView;

    open spec fn view(&self) -> UpdateView {
        match self {
            Update::Global(d) => UpdateView::Global(d@),
            Update::Player(p, d) => UpdateView::Player(*p, d@),
        }
    }
}

/// The view of a list of updates.
pub open spec fn updates_view(v: Seq<Update>) -> Seq<UpdateView> {
    v.map_values(|u: Update| u@)
}

/// A game, driven turn by turn.
pub trait GameController {
    /// Whether `updates` is an answer of this game, in this state, to the
    /// turns `turns` of a step. A game that does not define it admits every
    /// answer.
    open spec fn answers_step(&self, turns: Seq<(PlayerId, TurnView)>, updates: Seq<UpdateView>) -> bool {
        true
    }

    /// Takes the turns of one step; returns the updates to send.
    fn step(&mut self, turns: Vec<PlayerTurn>) -> (r: Vec<Update>)
        ensures
            old(self).answers_step(player_turns_view(turns@), updates_view(r@)),
    ;
}

pub enum GameOutView {
    HostMessage(Seq<u8>),
    ToClient(Seq<u8>, u64),
    SetTimeout,
}

/// A message the game reactor sends to its clients' side.
#[derive(Debug)]
pub enum GameOut {
    /// Data for every player.
    HostMessage(Vec<u8>),
    /// Data for the player with the given number.
    ToClient(Vec<u8>, u64),
    /// Starts the timer of the next step.
    SetTimeout,
}

impl View for GameOut {
    type V = GameOutView;

    open spec fn view(&self) -> GameOutView {
        match self {
            GameOut::HostMessage(d) => GameOutView::HostMessage(d@),
            GameOut::ToClient(d, p) => GameOutView::ToClient(d@, *p),
            GameOut::SetTimeout => GameOutView::SetTimeout,
        }
    }
}

/// The message that carries an update.
pub open spec fn update_message(u: UpdateView) -> GameOutView {
    match u {
        UpdateView::Global(d) => GameOutView::HostMessage(d),
        UpdateView::Player(p, d) => GameOutView::ToClient(d, p.value_view()),
    }
}

/// The view of a list of messages to the clients' side.
pub open spec fn game_outs_view(v: Seq<GameOut>) -> Seq<GameOutView> {
    v.map_values(|m: GameOut| m@)
}

/// The messages for a step's updates: one per update, in order, then the
/// timer of the next step.
pub open spec fn step_messages(u: Seq<UpdateView>) -> Seq<GameOutView> {
    Seq::new(u.len(), |j: int| update_message(u[j])).push(GameOutView::SetTimeout)
}

/// The messages for a step's updates: one per update, in order, then the
/// timer of the next step.
pub fn updates_to_messages(updates: &Vec<Update>) -> (r: Vec<GameOut>)
    ensures
        r@.len() == updates@.len() + 1,
        forall|i: int| 0 <= i < updates@.len() ==> (#[trigger] r@[i])@ == update_message(updates@[i]@),
        r@[updates@.len() as int]@ == GameOutView::SetTimeout,
{
    let mut out: Vec<GameOut> = Vec::new();
    let mut i: usize = 0;
    while i < updates.len()
        invariant
            i <= updates@.len(),
            out@.len() == i,
            forall|j: int| 0 <= j < i ==> (#[trigger] out@[j])@ == update_message(updates@[j]@),
        decreases updates.len() - i,
    {
        let m = match &updates[i] {
            Update::Global(d) => GameOut::HostMessage(clone_bytes(d)),
            Update::Player(p, d) => GameOut::ToClient(clone_bytes(d), p.value()),
        };
        out.push(m);
        i = i + 1;
    }
    out.push(GameOut::SetTimeout);
    out
}

/// The turns handed to the game for one player's action: that player with a
/// copy of its data.
pub fn action_turn(id: PlayerId, data: &Vec<u8>) -> (r: Vec<PlayerTurn>)
    ensures
        r@.len() == 1,
        r@[0].0 == id,
        r@[0].1 matches Turn::Action(d) && d@ == data@,
        player_turns_view(r@) == seq![(id, TurnView::Action(data@))],
{
    let mut turns: Vec<PlayerTurn> = Vec::new();
    turns.push((id, Turn::Action(clone_bytes(data))));
    proof {
        assert(player_turns_view(turns@) =~= seq![(id, TurnView::Action(data@))]);
    }
    turns
}

pub struct GameReactor<C> {
    game_controller: C,
    clients_id: crate::reactor::ReactorId,
}

impl<C: GameController> GameReactor<C> {
    pub closed spec fn clients_id_view(&self) -> crate::reactor::ReactorId { self.clients_id }
    /// The game it drives.
    pub closed spec fn game_view(&self) -> C { self.game_controller }

    /// A reactor driving `game_controller`, whose clients are behind `clients_id`.
    pub fn params(clients_id: crate::reactor::ReactorId, game_controller: C) -> (r: Self)
        ensures
            r.clients_id_view() == clients_id,
    {
        GameReactor { clients_id, game_controller }
    }

    /// One player's turn: the game takes a step with it.
    pub fn handle_turn(&mut self, id: PlayerId, data: &Vec<u8>) -> (r: Vec<GameOut>)
        ensures
            final(self).clients_id_view() == old(self).clients_id_view(),
            exists|u: Seq<UpdateView>|
                #[trigger] old(self).game_view().answers_step(seq![(id, TurnView::Action(data@))], u)
                && game_outs_view(r@) == step_messages(u),
            r@.len() >= 1,
            r@[r@.len() - 1]@ == GameOutView::SetTimeout,
            forall|i: int| 0 <= i < r@.len() - 1 ==> !((#[trigger] r@[i])@ is SetTimeout),
    {
        self.step(action_turn(id, data))
    }

    /// The turns of a step: the game takes a step with all of them.
    pub fn handle_turns(&mut self, turns: Vec<PlayerTurn>) -> (r: Vec<GameOut>)
        ensures
            final(self).clients_id_view() == old(self).clients_id_view(),
            exists|u: Seq<UpdateView>|
                #[trigger] old(self).game_view().answers_step(player_turns_view(turns@), u)
                && game_outs_view(r@) == step_messages(u),
            r@.len() >= 1,
            r@[r@.len() - 1]@ == GameOutView::SetTimeout,
            forall|i: int| 0 <= i < r@.len() - 1 ==> !((#[trigger] r@[i])@ is SetTimeout),
    {
        self.step(turns)
    }

    fn step(&mut self, msgs: Vec<PlayerTurn>) -> (r: Vec<GameOut>)
        ensures
            final(self).clients_id_view() == old(self).clients_id_view(),
            exists|u: Seq<UpdateView>|
                #[trigger] old(self).game_view().answers_step(player_turns_view(msgs@), u)
                && game_outs_view(r@) == step_messages(u),
            r@.len() >= 1,
            r@[r@.len() - 1]@ == GameOutView::SetTimeout,
            forall|i: int| 0 <= i < r@.len() - 1 ==> !((#[trigger] r@[i])@ is SetTimeout),
    {
        let ghost tv = player_turns_view(msgs@);
        let updates = self.game_controller.step(msgs);
        let r = updates_to_messages(&updates);
        proof {
            let u = updates_view(updates@);
            assert(game_outs_view(r@) =~= step_messages(u));
            assert(old(self).game_view().answers_step(tv, u));
        }
        r
    }
}

} // verus!
