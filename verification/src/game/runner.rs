//! The runner: the reactor that drives a game controller.
use vstd::prelude::*;
use serde_json::Value;
use crate::reactor::{ReactorId, TargetReactor, LinkParams, MsgKind, link_params};
use crate::types::{PlayerMsg, HostMsg, Start};
use crate::steplock::player_msgs_view;
use crate::request::{Req, Res, Kill};
use crate::game::{Controller, clone_value};

verus! {

/// The final state of a finished game, for the game manager (with the game's
/// number) and for the logger.
#[derive(Debug)]
pub struct Finished {
    pub to_manager: (u64, Value),
    pub to_logger: Value,
}

/// What the runner does after the game handled an event.
#[derive(Debug)]
pub struct RunnerOutcome {
    /// The game's messages, for every link (the players' side).
    pub to_clients: Vec<HostMsg>,
    /// When the game is finished: its final state; the runner then closes.
    pub finished: Option<Finished>,
}

/// `r` is the report of game `game_id` whose answer to "are you done?" was
/// `done`: nothing while it runs, else its final state for the manager
/// (with the game's number) and for the logger.
pub open spec fn reports(r: Option<Finished>, game_id: u64, done: Option<Value>) -> bool {
    match done {
        Some(v) => (r matches Some(f) && f.to_manager == (game_id, v) && f.to_logger == v),
        None => r is None,
    }
}

/// What the runner reports of the game's answer to "are you done?": nothing
/// while the game runs; once it is done, its final state, for the manager
/// under the game's number `game_id` and for the logger.
pub fn finished_of(game_id: u64, done: Option<Value>) -> (r: Option<Finished>)
    ensures
        reports(r, game_id, done),
{
    match done {
        Some(v) => {
            let copy = clone_value(&v);
            Some(Finished { to_manager: (game_id, copy), to_logger: v })
        },
        None => None,
    }
}

/// The turns handed to the game for a batch: a copy of every message, in order.
pub fn turns_of(msgs: &Vec<PlayerMsg>) -> (r: Vec<PlayerMsg>)
    ensures
        player_msgs_view(r@) == player_msgs_view(msgs@),
{
    let mut turns: Vec<PlayerMsg> = Vec::new();
    let mut i: usize = 0;
    while i < msgs.len()
        invariant
            i <= msgs@.len(),
            player_msgs_view(turns@) == player_msgs_view(msgs@.subrange(0, i as int)),
        decreases msgs.len() - i,
    {
        let m = msgs[i].clone();
        proof {
            assert(player_msgs_view(turns@.push(m)) =~= player_msgs_view(turns@).push(m@));
            assert(player_msgs_view(msgs@.subrange(0, i + 1)) =~= player_msgs_view(msgs@.subrange(0, i as int)).push(msgs@[i as int]@));
        }
        turns.push(m);
        i = i + 1;
    }
    proof {
        assert(msgs@.subrange(0, msgs@.len() as int) =~= msgs@);
    }
    turns
}

/// The turns handed to the game for one player's message: a copy of it.
pub fn turn_of(msg: &PlayerMsg) -> (r: Vec<PlayerMsg>)
    ensures
        player_msgs_view(r@) == seq![msg@],
{
    let mut turns: Vec<PlayerMsg> = Vec::new();
    turns.push(msg.clone());
    proof {
        assert(player_msgs_view(turns@) =~= seq![msg@]);
    }
    turns
}

pub struct Runner<G> {
    clients_id: ReactorId,
    gm_id: ReactorId,
    logger_id: ReactorId,
    game: G,
    game_id: u64,
}

impl<G: Controller> Runner<G> {
    pub closed spec fn clients_id_view(&self) -> ReactorId { self.clients_id }
    pub closed spec fn gm_id_view(&self) -> ReactorId { self.gm_id }
    pub closed spec fn logger_id_view(&self) -> ReactorId { self.logger_id }
    pub closed spec fn game_id_view(&self) -> u64 { self.game_id }
    /// The game it drives.
    pub closed spec fn game_view(&self) -> G { self.game }

    pub open spec fn same_wiring(&self, other: &Runner<G>) -> bool {
        &&& self.clients_id_view() == other.clients_id_view()
        &&& self.gm_id_view() == other.gm_id_view()
        &&& self.logger_id_view() == other.logger_id_view()
        &&& self.game_id_view() == other.game_id_view()
    }

    /// A runner for `game`, number `game_id`, talking to the players through
    /// `clients_id`, to the game manager `gm_id` and to the logger `logger_id`.
    pub fn params(clients_id: ReactorId, gm_id: ReactorId, logger_id: ReactorId, game: G, game_id: u64) -> (r: Self)
        ensures
            r.clients_id_view() == clients_id,
            r.gm_id_view() == gm_id,
            r.logger_id_view() == logger_id,
            r.game_id_view() == game_id,
    {
        Runner { clients_id, gm_id, game, logger_id, game_id }
    }

    /// All players are connected: the game starts, its messages go to the
    /// players, and the runner asks the game whether it is done.
    pub fn handle_start(&mut self, _msg: &Start) -> (r: RunnerOutcome)
        ensures
            final(self).same_wiring(&*old(self)),
            exists|mid: G, done: Option<Value>|
                #![trigger old(self).game_view().answers_start(r.to_clients@, &mid), mid.answers_done(done)]
                old(self).game_view().answers_start(r.to_clients@, &mid) && mid.answers_done(done)
                && reports(r.finished, old(self).game_id_view(), done),
    {
        let to_clients = self.game.on_start();
        let ghost mid = self.game;
        let done = self.game.is_done();
        let ghost d = done;
        let finished = finished_of(self.game_id, done);
        let r = RunnerOutcome { to_clients, finished };
        proof {
            assert(old(self).game_view().answers_start(r.to_clients@, &mid) && mid.answers_done(d)
                && reports(r.finished, old(self).game_id_view(), d));
        }
        r
    }

    /// One player's turn: the game takes a step with it, its messages go to
    /// the players, and the runner asks the game whether it is done.
    pub fn handle_client_msg(&mut self, msg: &PlayerMsg) -> (r: RunnerOutcome)
        ensures
            final(self).same_wiring(&*old(self)),
            exists|mid: G, done: Option<Value>|
                #![trigger old(self).game_view().answers_step(seq![msg@], r.to_clients@, &mid), mid.answers_done(done)]
                old(self).game_view().answers_step(seq![msg@], r.to_clients@, &mid) && mid.answers_done(done)
                && reports(r.finished, old(self).game_id_view(), done),
    {
        self.step(turn_of(msg))
    }

    /// A batch of turns: the game takes a step with all of them, its messages
    /// go to the players, and the runner asks the game whether it is done.
    pub fn handle_client_msgs(&mut self, msgs: &Vec<PlayerMsg>) -> (r: RunnerOutcome)
        ensures
            final(self).same_wiring(&*old(self)),
            exists|mid: G, done: Option<Value>|
                #![trigger old(self).game_view().answers_step(player_msgs_view(msgs@), r.to_clients@, &mid), mid.answers_done(done)]
                old(self).game_view().answers_step(player_msgs_view(msgs@), r.to_clients@, &mid) && mid.answers_done(done)
                && reports(r.finished, old(self).game_id_view(), done),
    {
        self.step(turns_of(msgs))
    }

    fn step(&mut self, turns: Vec<PlayerMsg>) -> (r: RunnerOutcome)
        ensures
            final(self).same_wiring(&*old(self)),
            exists|mid: G, done: Option<Value>|
                #![trigger old(self).game_view().answers_step(player_msgs_view(turns@), r.to_clients@, &mid), mid.answers_done(done)]
                old(self).game_view().answers_step(player_msgs_view(turns@), r.to_clients@, &mid) && mid.answers_done(done)
                && reports(r.finished, old(self).game_id_view(), done),
    {
        let ghost tv = player_msgs_view(turns@);
        let to_clients = self.game.on_step(turns);
        let ghost mid = self.game;
        let done = self.game.is_done();
        let ghost d = done;
        let finished = finished_of(self.game_id, done);
        let r = RunnerOutcome { to_clients, finished };
        proof {
            assert(old(self).game_view().answers_step(tv, r.to_clients@, &mid) && mid.answers_done(d)
                && reports(r.finished, old(self).game_id_view(), d));
        }
        r
    }

    /// The game manager kills the game: returns the answer for the manager;
    /// the runner then closes.
    pub fn handle_kill(&self, req: &Req<Kill>) -> (r: (Res<Kill>, ReactorId))
        ensures
            r.0.0 == req.0,
            r.1 == self.gm_id_view(),
    {
        (Res::<Kill>::default(req.0), self.gm_id)
    }
}


impl<G: Controller> Runner<G> {
    /// The links the runner opens when it starts, with whether each stays
    /// open: to the players' side (kept open), which gets the game's messages
    /// and state requests and whose turns, batches and start come to the
    /// runner while state answers go to the manager; to the game manager,
    /// which gets state answers, kill answers and the final state, and whose
    /// state requests go to the players' side while kill requests come to the
    /// runner; and to the logger, which gets the final state.
    pub fn init(&self) -> (r: Vec<(LinkParams<MsgKind>, bool)>)
        ensures
            r@.len() == 3,
            r@[0].0.remote == self.clients_id_view(),
            r@[0].0.internal@ == seq![MsgKind::HostMsg, MsgKind::StateReq],
            r@[0].0.external@ == seq![(MsgKind::PlayerMsg, TargetReactor::Reactor), (MsgKind::Start, TargetReactor::Reactor),
                (MsgKind::PlayerMsgs, TargetReactor::Reactor), (MsgKind::StateRes, TargetReactor::Link(self.gm_id_view()))],
            r@[0].1,
            r@[1].0.remote == self.gm_id_view(),
            r@[1].0.internal@ == seq![MsgKind::StateRes, MsgKind::KillRes, MsgKind::Finished],
            r@[1].0.external@ == seq![(MsgKind::StateReq, TargetReactor::Link(self.clients_id_view())),
                (MsgKind::KillReq, TargetReactor::Reactor)],
            !r@[1].1,
            r@[2].0.remote == self.logger_id_view(),
            r@[2].0.internal@ == seq![MsgKind::FinalState],
            r@[2].0.external@ == Seq::<(MsgKind, TargetReactor)>::empty(),
            !r@[2].1,
    {
        let mut ci: Vec<MsgKind> = Vec::new();
        ci.push(MsgKind::HostMsg);
        ci.push(MsgKind::StateReq);
        let mut ce: Vec<(MsgKind, TargetReactor)> = Vec::new();
        ce.push((MsgKind::PlayerMsg, TargetReactor::Reactor));
        ce.push((MsgKind::Start, TargetReactor::Reactor));
        ce.push((MsgKind::PlayerMsgs, TargetReactor::Reactor));
        ce.push((MsgKind::StateRes, TargetReactor::Link(self.gm_id)));
        let mut gi: Vec<MsgKind> = Vec::new();
        gi.push(MsgKind::StateRes);
        gi.push(MsgKind::KillRes);
        gi.push(MsgKind::Finished);
        let mut ge: Vec<(MsgKind, TargetReactor)> = Vec::new();
        ge.push((MsgKind::StateReq, TargetReactor::Link(self.clients_id)));
        ge.push((MsgKind::KillReq, TargetReactor::Reactor));
        let mut li: Vec<MsgKind> = Vec::new();
        li.push(MsgKind::FinalState);
        let le: Vec<(MsgKind, TargetReactor)> = Vec::new();
        proof {
            assert(ci@ =~= seq![MsgKind::HostMsg, MsgKind::StateReq]);
            assert(ce@ =~= seq![(MsgKind::PlayerMsg, TargetReactor::Reactor), (MsgKind::Start, TargetReactor::Reactor),
                (MsgKind::PlayerMsgs, TargetReactor::Reactor), (MsgKind::StateRes, TargetReactor::Link(self.gm_id))]);
            assert(gi@ =~= seq![MsgKind::StateRes, MsgKind::KillRes, MsgKind::Finished]);
            assert(ge@ =~= seq![(MsgKind::StateReq, TargetReactor::Link(self.clients_id)), (MsgKind::KillReq, TargetReactor::Reactor)]);
            assert(li@ =~= seq![MsgKind::FinalState]);
            assert(le@ =~= Seq::<(MsgKind, TargetReactor)>::empty());
        }
        let mut out: Vec<(LinkParams<MsgKind>, bool)> = Vec::new();
        out.push((link_params(self.clients_id, ci, ce), true));
        out.push((link_params(self.gm_id, gi, ge), false));
        out.push((link_params(self.logger_id, li, le), false));
        out
    }
}

} // verus!
