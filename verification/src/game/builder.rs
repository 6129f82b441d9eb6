//! Building a game: which reactors make up a game and how they are wired.
//!
//! A game consists of a runner (driving the game), an aggregator (between the
//! runner and the players' client controllers), optionally a step lock
//! (between the runner and the aggregator) and one client controller per
//! player.
use vstd::prelude::*;
use crate::assoc::{keys_distinct, assoc_map, find_key, assoc_insert, lemma_assoc_insert};
use crate::reactor::ReactorId;
use crate::types::PlayerId;
use crate::request::random_u64;
use crate::steplock::StepLock;
use crate::aggregator::Aggregator;
use crate::net::client_controller::{ClientController, SpawnerBuilder, Spawner};
use crate::game::Controller;
use crate::game::runner::Runner;

verus! {

/// The reactors of a new game, ready to be spawned under their identities.
pub struct GamePlan<G> {
    pub game_id: ReactorId,
    pub step_id: ReactorId,
    pub agg_id: ReactorId,
    /// One client controller per player, in the order of the players, with
    /// the identity to spawn it under.
    pub controllers: Vec<(ReactorId, ClientController)>,
    /// For every key, the player and its controller.
    pub players: Vec<(u64, (PlayerId, ReactorId))>,
    pub runner: Runner<G>,
    pub aggregator: Aggregator,
    pub steplock: Option<StepLock>,
    /// The key and spawner for players that join later, when enabled.
    pub free_client: Option<(u64, Spawner)>,
}

/// Every link of the plan is matched by one in the opposite direction: the
/// runner (spawned as `game_id`) and the reactor it talks to point at each
/// other; with a step lock, the step lock also points back at the runner and
/// at the aggregator, which points at the step lock; every controller talks
/// to the aggregator.
pub open spec fn links_paired<G: Controller>(p: GamePlan<G>) -> bool {
    &&& match p.steplock {
        Some(l) => p.runner.clients_id_view() == p.step_id && l.host_view() == p.game_id
            && l.player_id_view() == p.agg_id && p.aggregator.host_view() == p.step_id,
        None => p.runner.clients_id_view() == p.agg_id && p.aggregator.host_view() == p.game_id,
    }
    &&& forall|i: int| 0 <= i < p.controllers@.len() ==> (#[trigger] p.controllers@[i]).1.host_view() == p.agg_id
}

/// The key table of a list of controllers.
pub open spec fn key_entries(c: Seq<(ReactorId, ClientController)>) -> Seq<(u64, (PlayerId, ReactorId))> {
    c.map_values(|e: (ReactorId, ClientController)| (e.1.key_view(), (e.1.client_id_view(), e.0)))
}

/// The players with their controllers, from a key table.
pub open spec fn player_pairs(t: Seq<(u64, (PlayerId, ReactorId))>) -> Seq<(PlayerId, ReactorId)> {
    t.map_values(|e: (u64, (PlayerId, ReactorId))| e.1)
}

pub struct Builder<G> {
    steplock: Option<StepLock>,
    players: Vec<PlayerId>,
    game: G,
    free_client: Option<(u64, SpawnerBuilder)>,
}

impl<G: Controller> Builder<G> {
    pub closed spec fn players_view(&self) -> Seq<PlayerId> { self.players@ }
    pub closed spec fn has_steplock(&self) -> bool { self.steplock is Some }
    pub closed spec fn steplock_view(&self) -> Option<StepLock> { self.steplock }
    pub closed spec fn free_client_view(&self) -> Option<(u64, SpawnerBuilder)> { self.free_client }

    /// A game for `players`, without a step lock and without later players.
    pub fn new(players: Vec<PlayerId>, game: G) -> (r: Self)
        ensures
            r.players_view() == players@,
            r.steplock_view() is None,
            r.free_client_view() is None,
    {
        Builder { players, steplock: None, game, free_client: None }
    }

    /// Puts a step lock between the game and its players.
    pub fn with_step_lock(self, lock: StepLock) -> (r: Self)
        ensures
            r.players_view() == self.players_view(),
            r.steplock_view() == Some(lock),
            r.free_client_view() == self.free_client_view(),
    {
        Builder { steplock: Some(lock), ..self }
    }

    /// Lets players join later, with key `id`, through controllers from `spawner`.
    pub fn with_free_client(self, id: u64, spawner: SpawnerBuilder) -> (r: Self)
        ensures
            r.players_view() == self.players_view(),
            r.steplock_view() == self.steplock_view(),
            r.free_client_view() == Some((id, spawner)),
    {
        Builder { free_client: Some((id, spawner)), ..self }
    }

    /// Plans game number `id` under the game manager `gm_id`, the client
    /// manager `cm_id` and the logger `logger_id`: each player gets a random
    /// key and a controller reporting to the aggregator; the runner talks to
    /// the step lock when there is one and to the aggregator otherwise; the
    /// aggregator talks to the step lock when there is one and to the runner
    /// otherwise; the step lock sits between the runner and the aggregator.
    pub fn build(self, gm_id: ReactorId, cm_id: ReactorId, logger_id: ReactorId, id: u64) -> (r: GamePlan<G>)
        ensures
            r.controllers@.len() == self.players_view().len(),
            forall|i: int| 0 <= i < r.controllers@.len() ==> {
                let c = (#[trigger] r.controllers@[i]).1;
                &&& c.client_manager_view() == cm_id
                &&& c.host_view() == r.agg_id
                &&& c.client_id_view() == self.players_view()[i]
                &&& c.try_reconnect_view()
                &&& c.client_view() is None
                &&& c.name_view() is None
                &&& c.buffer_view() == Seq::<Seq<u8>>::empty()
            },
            keys_distinct(r.players@),
            assoc_map(r.players@) == assoc_map(key_entries(r.controllers@)),
            r.runner.clients_id_view() == (if self.has_steplock() { r.step_id } else { r.agg_id }),
            r.runner.gm_id_view() == gm_id,
            r.runner.logger_id_view() == logger_id,
            r.runner.game_id_view() == id,
            r.aggregator.host_view() == (if self.has_steplock() { r.step_id } else { r.game_id }),
            r.aggregator.cm_view() == cm_id,
            r.aggregator.clients_view() == assoc_map(player_pairs(r.players@)),
            r.aggregator.requests_view().dom().len() == 0,
            links_paired(r),
            r.steplock is Some == self.has_steplock(),
            r.steplock matches Some(l) ==> l.host_view() == r.game_id && l.player_id_view() == r.agg_id
                && l.step_view() == self.steplock_view()->0.step_view()
                && l.players_view() == self.steplock_view()->0.players_view()
                && l.timeout_view() == self.steplock_view()->0.timeout_view()
                && l.init_timeout_view() == self.steplock_view()->0.init_timeout_view(),
            match self.free_client_view() {
                Some((k, s)) => (r.free_client matches Some((k2, sp)) && k2 == k && sp.agg_id_view() == r.agg_id
                    && sp.try_reconnect_view() == s.try_reconnect_view()),
                None => r.free_client is None,
            },
    {
        let game_id = ReactorId::rand();
        let step_id = ReactorId::rand();
        let agg_id = ReactorId::rand();
        let Builder { steplock, players, game, free_client } = self;
        let has_lock = steplock.is_some();

        let mut controllers: Vec<(ReactorId, ClientController)> = Vec::new();
        let mut table: Vec<(u64, (PlayerId, ReactorId))> = Vec::new();
        let mut i: usize = 0;
        proof {
            assert(key_entries(controllers@) =~= Seq::<(u64, (PlayerId, ReactorId))>::empty());
            assert(assoc_map(table@) =~= assoc_map(key_entries(controllers@)));
        }
        while i < players.len()
            invariant
                i <= players@.len(),
                controllers@.len() == i,
                forall|j: int| 0 <= j < i ==> {
                    let c = (#[trigger] controllers@[j]).1;
                    &&& c.client_manager_view() == cm_id
                    &&& c.host_view() == agg_id
                    &&& c.client_id_view() == players@[j]
                    &&& c.try_reconnect_view()
                    &&& c.client_view() is None
                    &&& c.name_view() is None
                    &&& c.buffer_view() == Seq::<Seq<u8>>::empty()
                },
                keys_distinct(table@),
                assoc_map(table@) == assoc_map(key_entries(controllers@)),
            decreases players.len() - i,
        {
            let x = players[i];
            let key = random_u64();
            let params = ClientController::params(cm_id, agg_id, x, key, true);
            let cc_id = ReactorId::rand();
            let ghost before = table@;
            let ghost before_c = controllers@;
            controllers.push((cc_id, params));
            let found = find_key(&table, key);
            match found {
                Some(j) => {
                    table[j] = (key, (x, cc_id));
                },
                None => {
                    table.push((key, (x, cc_id)));
                },
            }
            proof {
                lemma_assoc_insert(before, key, (x, cc_id), found);
                assert(table@ =~= assoc_insert(before, key, (x, cc_id), found));
                assert(key_entries(controllers@).drop_last() =~= key_entries(before_c));
                assert(key_entries(controllers@).last() == (key, (x, cc_id)));
            }
            i = i + 1;
        }

        let clients_id = if has_lock { step_id } else { agg_id };
        let runner = Runner::params(clients_id, gm_id, logger_id, game, id);

        let mut pairs: Vec<(PlayerId, ReactorId)> = Vec::new();
        let mut j: usize = 0;
        while j < table.len()
            invariant
                j <= table@.len(),
                pairs@ == player_pairs(table@).subrange(0, j as int),
            decreases table.len() - j,
        {
            pairs.push(table[j].1);
            j = j + 1;
            proof {
                assert(pairs@ =~= player_pairs(table@).subrange(0, j as int));
            }
        }
        proof {
            assert(pairs@ =~= player_pairs(table@));
        }
        let host = if has_lock { step_id } else { game_id };
        let aggregator = Aggregator::params(host, cm_id, pairs);
        proof {
            assert(aggregator.requests_view().dom() =~= Set::<u64>::empty());
        }

        let steplock = match steplock {
            Some(lock) => Some(lock.params(game_id, agg_id)),
            None => None,
        };
        let free_client = match free_client {
            Some((k, fc)) => Some((k, fc.into_spawner(agg_id))),
            None => None,
        };
        GamePlan { game_id, step_id, agg_id, controllers, players: table, runner, aggregator, steplock, free_client }
    }
}

} // verus!
