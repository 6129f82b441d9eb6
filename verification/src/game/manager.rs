//! The game manager's bookkeeping: the games it started, with their reactor
//! while they run or their final state once finished, and the requests of its
//! front end that still wait for an answer.
use vstd::prelude::*;
use serde_json::Value;
use crate::assoc::{keys_distinct, assoc_map, find_key, lemma_has_key_dom, lemma_assoc_value, assoc_insert, lemma_assoc_insert};
use crate::reactor::ReactorId;
use crate::types::PlayerId;
use crate::request::{Req, Res, RequestID, Kill, State, StateView, Connect, connects_view, random_u64};
use crate::net::client_manager::RegisterGame;
use crate::game::clone_value;

verus! {

/// Tells the logger to listen to a new game.
#[derive(Clone, Copy, Debug, PartialEq, Eq, Structural)]
pub struct GameJoin(pub ReactorId);

/// A game the manager started.
#[derive(Debug)]
pub enum GameEntry {
    /// The game runs as the given reactor.
    Running(ReactorId),
    /// The game finished with the given final state.
    Finished(Value),
}

/// The answer to a request of the front end.
#[derive(Debug)]
pub enum GameOpRes {
    /// The number of the game that was started.
    Built(Option<u64>),
    /// The state of a running game with its players' statuses, or the final
    /// state of a finished game; `None` for an unknown or unreachable game.
    State(Option<Result<(Value, Vec<Connect>), Value>>),
    /// The game was killed; `None` for an unknown, finished or unreachable game.
    Kill(Option<()>),
}

/// What the manager does with a request about a game.
#[derive(Debug)]
pub enum GameStep<Q> {
    /// Asks the game's reactor.
    Ask(ReactorId, Q),
    /// Answers at once (`None` when the request was already answered).
    Reply(Option<(u64, GameOpRes)>),
}

/// What the manager does once a new game's reactors are spawned.
#[derive(Debug)]
pub struct BuildOutcome {
    /// The game's players, for the client manager.
    pub register: RegisterGame,
    /// The game's reactor, for the logger.
    pub join: GameJoin,
    /// The answer to the request.
    pub reply: Option<(u64, GameOpRes)>,
}

pub struct ManagerCore {
    games: Vec<(u64, GameEntry)>,
    requests: Vec<u64>,
    id: ReactorId,
    cm_id: ReactorId,
    logger_id: ReactorId,
}

impl ManagerCore {
    #[verifier::type_invariant]
    spec fn inv(self) -> bool {
        &&& keys_distinct(self.games@)
        &&& self.requests@.no_duplicates()
    }

    /// The games, by number.
    pub closed spec fn games_view(&self) -> Map<u64, GameEntry> {
        assoc_map(self.games@)
    }

    /// The requests that wait for an answer.
    pub closed spec fn requests_view(&self) -> Set<u64> {
        self.requests@.to_set()
    }

    pub closed spec fn id_view(&self) -> ReactorId { self.id }
    pub closed spec fn cm_id_view(&self) -> ReactorId { self.cm_id }
    pub closed spec fn logger_id_view(&self) -> ReactorId { self.logger_id }

    pub open spec fn same_wiring(&self, other: &ManagerCore) -> bool {
        &&& self.id_view() == other.id_view()
        &&& self.cm_id_view() == other.cm_id_view()
        &&& self.logger_id_view() == other.logger_id_view()
    }

    /// A manager `self_id` with no games and no requests.
    pub fn new(self_id: ReactorId, cm_id: ReactorId, logger_id: ReactorId) -> (r: Self)
        ensures
            r.games_view() == Map::<u64, GameEntry>::empty(),
            r.requests_view() == Set::<u64>::empty(),
            r.id_view() == self_id,
            r.cm_id_view() == cm_id,
            r.logger_id_view() == logger_id,
    {
        let r = ManagerCore { games: Vec::new(), requests: Vec::new(), id: self_id, cm_id, logger_id };
        proof {
            assert(r.games@ =~= Seq::<(u64, GameEntry)>::empty());
            assert(assoc_map(r.games@) =~= Map::<u64, GameEntry>::empty());
            assert(r.requests@.to_set() =~= Set::<u64>::empty());
        }
        r
    }

    /// Opens a request of the front end under a fresh random identity.
    pub fn open_request(&mut self) -> (uuid: u64)
        ensures
            final(self).requests_view() == old(self).requests_view().insert(uuid),
            final(self).games_view() == old(self).games_view(),
            final(self).same_wiring(&*old(self)),
    {
        proof {
            use_type_invariant(&*self);
        }
        let uuid = random_u64();
        let mut requests: Vec<u64> = Vec::new();
        std::mem::swap(&mut requests, &mut self.requests);
        let mut i: usize = 0;
        let mut present = false;
        while i < requests.len()
            invariant
                i <= requests@.len(),
                present <==> requests@.subrange(0, i as int).contains(uuid),
            decreases requests.len() - i,
        {
            proof {
                assert(requests@.subrange(0, i + 1) =~= requests@.subrange(0, i as int).push(requests@[i as int]));
                crate::assoc::lemma_push_contains(requests@.subrange(0, i as int), requests@[i as int], uuid);
            }
            if requests[i] == uuid {
                present = true;
            }
            i = i + 1;
        }
        proof {
            assert(requests@.subrange(0, requests@.len() as int) =~= requests@);
        }
        if !present {
            let ghost before = requests@;
            requests.push(uuid);
            proof {
                assert(requests@.to_set() =~= before.to_set().insert(uuid)) by {
                    assert forall|x: u64| requests@.contains(x) <==> before.contains(x) || x == uuid by {
                        if requests@.contains(x) {
                            let j = choose|j: int| 0 <= j < requests@.len() && requests@[j] == x;
                            if j < before.len() {
                                assert(before[j] == x);
                            }
                        }
                        if before.contains(x) {
                            let j = choose|j: int| 0 <= j < before.len() && before[j] == x;
                            assert(requests@[j] == x);
                        }
                        if x == uuid {
                            assert(requests@[before.len() as int] == x);
                        }
                    }
                }
            }
        } else {
            proof {
                assert(requests@.to_set() =~= requests@.to_set().insert(uuid));
            }
        }
        self.requests = requests;
        uuid
    }

    /// Answers request `uuid` with `res`: returns the answer to deliver when
    /// the request still waits (and closes it), nothing when it was already
    /// answered.
    pub fn send_msg(&mut self, uuid: u64, res: GameOpRes) -> (r: Option<(u64, GameOpRes)>)
        ensures
            final(self).requests_view() == old(self).requests_view().remove(uuid),
            old(self).requests_view().contains(uuid) ==> (r matches Some(x) && x.0 == uuid && x.1 == res),
            !old(self).requests_view().contains(uuid) ==> r is None,
            final(self).games_view() == old(self).games_view(),
            final(self).same_wiring(&*old(self)),
    {
        proof {
            use_type_invariant(&*self);
        }
        let mut requests: Vec<u64> = Vec::new();
        std::mem::swap(&mut requests, &mut self.requests);
        let ghost before = requests@;
        let mut i: usize = 0;
        let mut found: Option<usize> = None;
        while i < requests.len()
            invariant
                i <= requests@.len(),
                match found {
                    Some(j) => j < requests@.len() && requests@[j as int] == uuid,
                    None => !requests@.subrange(0, i as int).contains(uuid),
                },
            decreases requests.len() - i,
        {
            proof {
                assert(requests@.subrange(0, i + 1) =~= requests@.subrange(0, i as int).push(requests@[i as int]));
                crate::assoc::lemma_push_contains(requests@.subrange(0, i as int), requests@[i as int], uuid);
            }
            if found.is_none() && requests[i] == uuid {
                found = Some(i);
            }
            i = i + 1;
        }
        proof {
            assert(requests@.subrange(0, requests@.len() as int) =~= requests@);
        }
        match found {
            Some(j) => {
                requests.remove(j);
                proof {
                    assert(requests@ == before.remove(j as int));
                    assert(requests@.to_set() =~= before.to_set().remove(uuid)) by {
                        assert forall|x: u64| requests@.contains(x) <==> before.contains(x) && x != uuid by {
                            if requests@.contains(x) {
                                let k = choose|k: int| 0 <= k < requests@.len() && requests@[k] == x;
                                let k2 = if k < j { k } else { k + 1 };
                                assert(before[k2] == x);
                                assert(k2 != j as int);
                            }
                            if before.contains(x) && x != uuid {
                                let k = choose|k: int| 0 <= k < before.len() && before[k] == x;
                                assert(k != j as int);
                                let k2 = if k < j { k } else { k - 1 };
                                assert(requests@[k2] == x);
                            }
                        }
                    }
                    assert(before.contains(uuid)) by {
                        assert(before[j as int] == uuid);
                    }
                }
                self.requests = requests;
                Some((uuid, res))
            },
            None => {
                proof {
                    assert(before.to_set().remove(uuid) =~= before.to_set());
                }
                self.requests = requests;
                None
            },
        }
    }

    /// A fresh random number for a new game.
    pub fn new_game_number() -> (r: u64) {
        random_u64()
    }

    /// The reactors of game `game_uuid` are spawned, the game's reactor being
    /// `game_id` and its players' keys `players`: records the running game,
    /// registers the players with the client manager, tells the logger, and
    /// answers request `uuid` with the game's number.
    pub fn handle_gamebuilder(&mut self, uuid: u64, game_uuid: u64, game_id: ReactorId,
        players: Vec<(u64, (PlayerId, ReactorId))>) -> (r: BuildOutcome)
        ensures
            final(self).games_view() == old(self).games_view().insert(game_uuid, GameEntry::Running(game_id)),
            final(self).requests_view() == old(self).requests_view().remove(uuid),
            r.register.game == game_uuid,
            r.register.players@ == players@,
            r.join == GameJoin(game_id),
            old(self).requests_view().contains(uuid) ==> (r.reply matches Some(x) && x.0 == uuid
                && x.1 == GameOpRes::Built(Some(game_uuid))),
            !old(self).requests_view().contains(uuid) ==> r.reply is None,
            final(self).same_wiring(&*old(self)),
    {
        proof {
            use_type_invariant(&*self);
        }
        let mut games: Vec<(u64, GameEntry)> = Vec::new();
        std::mem::swap(&mut games, &mut self.games);
        let ghost before = games@;
        let found = find_key(&games, game_uuid);
        match found {
            Some(i) => {
                games[i] = (game_uuid, GameEntry::Running(game_id));
            },
            None => {
                games.push((game_uuid, GameEntry::Running(game_id)));
            },
        }
        proof {
            lemma_assoc_insert(before, game_uuid, GameEntry::Running(game_id), found);
            assert(games@ =~= assoc_insert(before, game_uuid, GameEntry::Running(game_id), found));
        }
        self.games = games;
        let reply = self.send_msg(uuid, GameOpRes::Built(Some(game_uuid)));
        BuildOutcome {
            register: RegisterGame { game: game_uuid, players },
            join: GameJoin(game_id),
            reply,
        }
    }

    /// The game `game`, if known.
    fn lookup(&self, game: u64) -> (r: Option<&GameEntry>)
        ensures
            match r {
                Some(e) => self.games_view().dom().contains(game) && *e == self.games_view()[game],
                None => !self.games_view().dom().contains(game),
            },
    {
        proof {
            use_type_invariant(self);
        }
        match find_key(&self.games, game) {
            Some(i) => {
                proof {
                    lemma_assoc_value(self.games@, i as int);
                }
                Some(&self.games[i].1)
            },
            None => {
                proof {
                    lemma_has_key_dom(self.games@, game);
                }
                None
            },
        }
    }

    /// The front end asks for the state of `game` (request `uuid`): a running
    /// game is asked; a finished game's final state is the answer; an unknown
    /// game gets `None`.
    pub fn handle_state(&mut self, uuid: u64, game: u64) -> (r: GameStep<Req<State>>)
        ensures
            state_reply(old(self).games_view(), game) is None <==> r is Ask,
            state_reply(old(self).games_view(), game) matches Some(res) ==> (old(self).requests_view().contains(uuid)
                ==> (r matches GameStep::Reply(Some(x)) && x.0 == uuid && x.1 == res)),
            final(self).games_view() == old(self).games_view(),
            final(self).same_wiring(&*old(self)),
            match (if old(self).games_view().dom().contains(game) { Some(old(self).games_view()[game]) } else { None }) {
                Some(GameEntry::Running(ch)) => (r matches GameStep::Ask(t, q) && t == ch && q.0 == RequestID(uuid)
                    && q.1@ == StateView::Request)
                    && final(self).requests_view() == old(self).requests_view(),
                Some(GameEntry::Finished(v)) => final(self).requests_view() == old(self).requests_view().remove(uuid)
                    && (old(self).requests_view().contains(uuid) ==> (r matches GameStep::Reply(Some(x))
                        && x.0 == uuid && (x.1 matches GameOpRes::State(Some(Err(w))) && w == v)))
                    && (!old(self).requests_view().contains(uuid) ==> r matches GameStep::Reply(None)),
                None => final(self).requests_view() == old(self).requests_view().remove(uuid)
                    && (old(self).requests_view().contains(uuid) ==> (r matches GameStep::Reply(Some(x))
                        && x.0 == uuid && x.1 == GameOpRes::State(None)))
                    && (!old(self).requests_view().contains(uuid) ==> r matches GameStep::Reply(None)),
            },
    {
        let res = match self.lookup(game) {
            Some(GameEntry::Running(ch)) => {
                return GameStep::Ask(*ch, Req(RequestID(uuid), State::Request));
            },
            Some(GameEntry::Finished(v)) => GameOpRes::State(Some(Err(clone_value(v)))),
            None => GameOpRes::State(None),
        };
        GameStep::Reply(self.send_msg(uuid, res))
    }

    /// The front end asks to kill `game` (request `uuid`): a running game is
    /// asked to stop; any other gets `None`.
    pub fn handle_kill(&mut self, uuid: u64, game: u64) -> (r: GameStep<Req<Kill>>)
        ensures
            kill_reply(old(self).games_view(), game) is None <==> r is Ask,
            kill_reply(old(self).games_view(), game) matches Some(res) ==> (old(self).requests_view().contains(uuid)
                ==> (r matches GameStep::Reply(Some(x)) && x.0 == uuid && x.1 == res)),
            final(self).games_view() == old(self).games_view(),
            final(self).same_wiring(&*old(self)),
            match (if old(self).games_view().dom().contains(game) { Some(old(self).games_view()[game]) } else { None }) {
                Some(GameEntry::Running(ch)) => (r matches GameStep::Ask(t, q) && t == ch && q.0 == RequestID(uuid))
                    && final(self).requests_view() == old(self).requests_view(),
                _ => final(self).requests_view() == old(self).requests_view().remove(uuid)
                    && (old(self).requests_view().contains(uuid) ==> (r matches GameStep::Reply(Some(x))
                        && x.0 == uuid && x.1 == GameOpRes::Kill(None)))
                    && (!old(self).requests_view().contains(uuid) ==> r matches GameStep::Reply(None)),
            },
    {
        match self.lookup(game) {
            Some(GameEntry::Running(ch)) => {
                return GameStep::Ask(*ch, Req(RequestID(uuid), Kill));
            },
            _ => {},
        }
        GameStep::Reply(self.send_msg(uuid, GameOpRes::Kill(None)))
    }

    /// Asking the game for its state failed: request `uuid` gets `None`.
    pub fn handle_state_unreachable(&mut self, uuid: u64) -> (r: Option<(u64, GameOpRes)>)
        ensures
            final(self).requests_view() == old(self).requests_view().remove(uuid),
            old(self).requests_view().contains(uuid) ==> (r matches Some(x) && x.0 == uuid && x.1 == GameOpRes::State(None)),
            !old(self).requests_view().contains(uuid) ==> r is None,
            final(self).games_view() == old(self).games_view(),
            final(self).same_wiring(&*old(self)),
    {
        self.send_msg(uuid, GameOpRes::State(None))
    }

    /// Asking the game to stop failed: request `uuid` gets `None`.
    pub fn handle_kill_unreachable(&mut self, uuid: u64) -> (r: Option<(u64, GameOpRes)>)
        ensures
            final(self).requests_view() == old(self).requests_view().remove(uuid),
            old(self).requests_view().contains(uuid) ==> (r matches Some(x) && x.0 == uuid && x.1 == GameOpRes::Kill(None)),
            !old(self).requests_view().contains(uuid) ==> r is None,
            final(self).games_view() == old(self).games_view(),
            final(self).same_wiring(&*old(self)),
    {
        self.send_msg(uuid, GameOpRes::Kill(None))
    }

    /// A game answered a state request with its state and its players'
    /// statuses: the request gets both.
    pub fn handle_state_res(&mut self, res: Res<(Value, State)>) -> (r: Option<(u64, GameOpRes)>)
        requires
            res.1.1 is Response,
        ensures
            final(self).requests_view() == old(self).requests_view().remove(res.0.0),
            old(self).requests_view().contains(res.0.0) ==> (r matches Some(x) && x.0 == res.0.0
                && (x.1 matches GameOpRes::State(Some(Ok((v, list))))
                    && v == res.1.0 && res.1.1@ == StateView::Response(connects_view(list@)))),
            !old(self).requests_view().contains(res.0.0) ==> r is None,
            final(self).games_view() == old(self).games_view(),
            final(self).same_wiring(&*old(self)),
    {
        let Res(id, (value, state)) = res;
        let list = match state {
            State::Response(l) => l,
            State::Request => Vec::new(),
        };
        self.send_msg(id.0, GameOpRes::State(Some(Ok((value, list)))))
    }

    /// A game finished with its final state.
    pub fn handle_finished(&mut self, done: (u64, Value))
        ensures
            final(self).games_view() == old(self).games_view().insert(done.0, GameEntry::Finished(done.1)),
            final(self).requests_view() == old(self).requests_view(),
            final(self).same_wiring(&*old(self)),
    {
        proof {
            use_type_invariant(&*self);
        }
        let (id, value) = done;
        let mut games: Vec<(u64, GameEntry)> = Vec::new();
        std::mem::swap(&mut games, &mut self.games);
        let ghost before = games@;
        let ghost entry = GameEntry::Finished(value);
        let found = find_key(&games, id);
        match found {
            Some(i) => {
                games[i] = (id, GameEntry::Finished(value));
            },
            None => {
                games.push((id, GameEntry::Finished(value)));
            },
        }
        proof {
            lemma_assoc_insert(before, id, entry, found);
            assert(games@ =~= assoc_insert(before, id, entry, found));
        }
        self.games = games;
    }

    /// A game answered a kill request: the request gets `Some(())`.
    pub fn handle_kill_res(&mut self, res: &Res<Kill>) -> (r: Option<(u64, GameOpRes)>)
        ensures
            final(self).requests_view() == old(self).requests_view().remove(res.0.0),
            old(self).requests_view().contains(res.0.0) ==> (r matches Some(x) && x.0 == res.0.0
                && x.1 == GameOpRes::Kill(Some(()))),
            !old(self).requests_view().contains(res.0.0) ==> r is None,
            final(self).games_view() == old(self).games_view(),
            final(self).same_wiring(&*old(self)),
    {
        self.send_msg(res.0.0, GameOpRes::Kill(Some(())))
    }
}

/// A request of the front end is answered once: after its answer is sent it
/// no longer waits, so a second answer for it is dropped; the other requests
/// still wait.
pub proof fn law_request_answered_once(requests: Set<u64>, uuid: u64, other: u64)
    requires
        requests.contains(uuid),
    ensures
        !requests.remove(uuid).contains(uuid),
        other != uuid ==> (requests.remove(uuid).contains(other) == requests.contains(other)),
{
}

/// What a call of the game manager's bookkeeping does to its games.
pub enum ManagerEvent {
    /// `handle_gamebuilder` recorded game `game` running as the reactor.
    Built(u64, ReactorId),
    /// `handle_finished` recorded game `game` finished with the state.
    Finished(u64, Value),
    /// Any other call (opening or answering a request, asking a game, or a
    /// game's answer), which leaves the games as they are.
    Other,
}

/// The games after a call.
pub open spec fn games_after(g: Map<u64, GameEntry>, e: ManagerEvent) -> Map<u64, GameEntry> {
    match e {
        ManagerEvent::Built(game, r) => g.insert(game, GameEntry::Running(r)),
        ManagerEvent::Finished(game, v) => g.insert(game, GameEntry::Finished(v)),
        ManagerEvent::Other => g,
    }
}

/// The games after calls, in order.
pub open spec fn games_after_all(g: Map<u64, GameEntry>, es: Seq<ManagerEvent>) -> Map<u64, GameEntry>
    decreases es.len(),
{
    if es.len() == 0 {
        g
    } else {
        games_after_all(games_after(g, es[0]), es.drop_first())
    }
}

/// The answer the manager gives at once to a state request about `game`;
/// `None` when it asks the running game instead.
pub open spec fn state_reply(g: Map<u64, GameEntry>, game: u64) -> Option<GameOpRes> {
    if !g.dom().contains(game) {
        Some(GameOpRes::State(None))
    } else {
        match g[game] {
            GameEntry::Running(_) => None,
            GameEntry::Finished(v) => Some(GameOpRes::State(Some(Err(v)))),
        }
    }
}

/// The answer the manager gives at once to a kill request about `game`;
/// `None` when it asks the running game instead.
pub open spec fn kill_reply(g: Map<u64, GameEntry>, game: u64) -> Option<GameOpRes> {
    if g.dom().contains(game) && g[game] is Running {
        None
    } else {
        Some(GameOpRes::Kill(None))
    }
}

/// A finished game answers with its final state from then on: once
/// `handle_finished` recorded `(game, v)`, whatever calls follow (none of
/// them building or finishing `game` again), a state request about the game
/// is answered with `v` and a kill request with nothing.
pub proof fn law_finished_game_keeps_its_state(g: Map<u64, GameEntry>, game: u64, v: Value, es: Seq<ManagerEvent>)
    requires
        forall|j: int| 0 <= j < es.len() ==> !(#[trigger] es[j] matches ManagerEvent::Built(x, _) && x == game)
            && !(es[j] matches ManagerEvent::Finished(x, _) && x == game),
    ensures
        games_after_all(games_after(g, ManagerEvent::Finished(game, v)), es)[game] == GameEntry::Finished(v),
        games_after_all(games_after(g, ManagerEvent::Finished(game, v)), es).dom().contains(game),
        state_reply(games_after_all(games_after(g, ManagerEvent::Finished(game, v)), es), game)
            == Some(GameOpRes::State(Some(Err(v)))),
        kill_reply(games_after_all(games_after(g, ManagerEvent::Finished(game, v)), es), game)
            == Some(GameOpRes::Kill(None)),
    decreases es.len(),
{
    let g1 = games_after(g, ManagerEvent::Finished(game, v));
    if es.len() > 0 {
        let rest = es.drop_first();
        assert forall|j: int| 0 <= j < rest.len() implies !(#[trigger] rest[j] matches ManagerEvent::Built(x, _) && x == game)
            && !(rest[j] matches ManagerEvent::Finished(x, _) && x == game) by {
            assert(rest[j] == es[j + 1]);
        }
        assert(!(es[0] matches ManagerEvent::Built(x, _) && x == game));
        assert(!(es[0] matches ManagerEvent::Finished(x, _) && x == game));
        let g2 = games_after(g1, es[0]);
        assert(g2 == g2.insert(game, GameEntry::Finished(v)) && g2[game] == GameEntry::Finished(v)) by {
            assert(g2.insert(game, GameEntry::Finished(v)) =~= g2);
        }
        law_finished_game_keeps_its_state(g2, game, v, rest);
        assert(games_after(g2, ManagerEvent::Finished(game, v)) =~= g2);
    }
}

} // verus!
