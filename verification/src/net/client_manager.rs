//! The client manager: knows, for every key handed out to a player, the
//! player and its client controller, and hands registering clients over to
//! their controllers.
use vstd::prelude::*;
use crate::assoc::{keys_distinct, has_key, assoc_map, assoc_keep, lemma_assoc_dom, lemma_assoc_push, find_key, lemma_assoc_len, lemma_assoc_value, lemma_assoc_prefix_step, lemma_has_key_dom, lists_values, lemma_lists_values, assoc_insert, lemma_assoc_insert};
use crate::reactor::{ReactorId, TargetReactor, LinkParams, MsgKind, link_params};
use crate::types::PlayerId;
use crate::net::types::{Register, Accepted};

verus! {

/// A game registers the keys of its players with their client controllers.
#[derive(Debug)]
pub struct RegisterGame {
    pub game: u64,
    pub players: Vec<(u64, (PlayerId, ReactorId))>,
}

/// The keys of the players of a game.
#[derive(Debug)]
pub struct PlayerUUIDs {
    game: u64,
    ids: Vec<u64>,
}

/// An endpoint announces itself to the client manager.
#[derive(Clone, Copy, Debug, PartialEq, Eq, Structural)]
pub struct RegisterEndpoint(pub ReactorId);

/// What removing a closed client controller found.
#[derive(Clone, Copy, Debug, PartialEq, Eq, Structural)]
pub enum CcCloseOutcome {
    /// There were no controllers at all.
    NoControllers,
    /// The controller was not known.
    NotFound,
    /// The controller served one key, which is forgotten.
    Removed,
    /// The controller served several keys, which are all forgotten.
    RemovedMany,
}

/// The keys whose controller is not `id`.
pub open spec fn without_controller(m: Map<u64, (PlayerId, ReactorId)>, id: ReactorId) -> Map<u64, (PlayerId, ReactorId)> {
    assoc_keep(m, |k: u64, v: (PlayerId, ReactorId)| v.1 != id)
}

pub struct ClientManager {
    clients: Vec<(u64, (PlayerId, ReactorId))>,
    game_manager: ReactorId,
    endpoints: Vec<RegisterEndpoint>,
}

impl ClientManager {
    #[verifier::type_invariant]
    spec fn inv(self) -> bool {
        keys_distinct(self.clients@)
    }

    /// For every key handed out, the player and its client controller.
    pub closed spec fn clients_view(&self) -> Map<u64, (PlayerId, ReactorId)> {
        assoc_map(self.clients@)
    }

    pub closed spec fn game_manager_view(&self) -> ReactorId {
        self.game_manager
    }

    /// The endpoints the manager listens to.
    pub closed spec fn endpoints_view(&self) -> Seq<ReactorId> {
        self.endpoints@.map_values(|e: RegisterEndpoint| e.0)
    }

    /// A manager with no players yet, listening to `endpoints`.
    pub fn new(game_manager: ReactorId, endpoints: Vec<ReactorId>) -> (r: Self)
        ensures
            r.clients_view() == Map::<u64, (PlayerId, ReactorId)>::empty(),
            r.game_manager_view() == game_manager,
            r.endpoints_view() == endpoints@,
    {
        let mut eps: Vec<RegisterEndpoint> = Vec::new();
        let mut i: usize = 0;
        while i < endpoints.len()
            invariant
                i <= endpoints@.len(),
                eps@.len() == i,
                forall|j: int| 0 <= j < i ==> (#[trigger] eps@[j]).0 == endpoints@[j],
            decreases endpoints.len() - i,
        {
            eps.push(RegisterEndpoint(endpoints[i]));
            i = i + 1;
        }
        let r = ClientManager { clients: Vec::new(), game_manager, endpoints: eps };
        proof {
            assert(r.clients@ =~= Seq::<(u64, (PlayerId, ReactorId))>::empty());
            assert(assoc_map(r.clients@) =~= Map::<u64, (PlayerId, ReactorId)>::empty());
            assert(r.endpoints_view() =~= endpoints@);
        }
        r
    }

    /// A game registers its players: their keys are added (replacing older
    /// entries with the same key); returns the client controllers to open a
    /// link to, one for each key (closing such a link reports the
    /// controller's identity back to the manager).
    pub fn handle_spawn_game(&mut self, cs: &RegisterGame) -> (links: Vec<ReactorId>)
        requires
            keys_distinct(cs.players@),
        ensures
            final(self).clients_view() == old(self).clients_view().union_prefer_right(assoc_map(cs.players@)),
            lists_values(links@, Map::new(|k: u64| assoc_map(cs.players@).dom().contains(k),
                |k: u64| assoc_map(cs.players@)[k].1)),
            final(self).game_manager_view() == old(self).game_manager_view(),
            final(self).endpoints_view() == old(self).endpoints_view(),
    {
        proof {
            use_type_invariant(&*self);
        }
        let mut clients: Vec<(u64, (PlayerId, ReactorId))> = Vec::new();
        std::mem::swap(&mut clients, &mut self.clients);
        let ghost start = assoc_map(clients@);
        let ghost p = cs.players@;
        let mut links: Vec<ReactorId> = Vec::new();
        let mut i: usize = 0;
        proof {
            assert(p.subrange(0, 0) =~= Seq::<(u64, (PlayerId, ReactorId))>::empty());
            assert(start.union_prefer_right(assoc_map(p.subrange(0, 0))) =~= start);
        }
        while i < cs.players.len()
            invariant
                i <= p.len(),
                p == cs.players@,
                keys_distinct(clients@),
                assoc_map(clients@) == start.union_prefer_right(assoc_map(p.subrange(0, i as int))),
                links@.len() == i,
                forall|j: int| 0 <= j < i ==> #[trigger] links@[j] == p[j].1.1,
            decreases p.len() - i,
        {
            let (key, entry) = cs.players[i];
            let found = find_key(&clients, key);
            let ghost s = clients@;
            match found {
                Some(x) => {
                    clients[x] = (key, entry);
                },
                None => {
                    clients.push((key, entry));
                },
            }
            proof {
                lemma_assoc_insert(s, key, entry, found);
                assert(clients@ =~= assoc_insert(s, key, entry, found));
                lemma_assoc_prefix_step(p, i as int);
                assert(assoc_map(clients@) =~= start.union_prefer_right(assoc_map(p.subrange(0, i + 1))));
            }
            links.push(entry.1);
            i = i + 1;
        }
        proof {
            assert(p.subrange(0, p.len() as int) =~= p);
            let pm = p.map_values(|e: (u64, (PlayerId, ReactorId))| (e.0, e.1.1));
            let f = |v: (PlayerId, ReactorId)| v.1;
            assert forall|j: int| 0 <= j < p.len() implies #[trigger] pm[j] == (p[j].0, f(p[j].1)) by {}
            crate::assoc::lemma_assoc_map_vals(p, pm, f);
            assert forall|j: int| 0 <= j < pm.len() implies #[trigger] links@[j] == pm[j].1 by {}
            lemma_lists_values(pm, links@);
            assert(assoc_map(pm) =~= Map::new(|k: u64| assoc_map(cs.players@).dom().contains(k),
                |k: u64| assoc_map(cs.players@)[k].1));
        }
        self.clients = clients;
        links
    }

    /// A client controller closed: forgets every key it served and reports
    /// what it found.
    pub fn handle_cc_close(&mut self, id: &ReactorId) -> (r: CcCloseOutcome)
        ensures
            final(self).clients_view() == without_controller(old(self).clients_view(), *id),
            r == (if old(self).clients_view().dom().len() == 0 {
                CcCloseOutcome::NoControllers
            } else if final(self).clients_view().dom().len() == old(self).clients_view().dom().len() {
                CcCloseOutcome::NotFound
            } else if final(self).clients_view().dom().len() + 1 == old(self).clients_view().dom().len() {
                CcCloseOutcome::Removed
            } else {
                CcCloseOutcome::RemovedMany
            }),
            final(self).game_manager_view() == old(self).game_manager_view(),
            final(self).endpoints_view() == old(self).endpoints_view(),
    {
        proof {
            use_type_invariant(&*self);
            lemma_assoc_len(self.clients@);
        }
        let orig_len = self.clients.len();
        if orig_len == 0 {
            proof {
                lemma_assoc_dom(self.clients@);
                assert(without_controller(assoc_map(self.clients@), *id) =~= assoc_map(self.clients@));
            }
            return CcCloseOutcome::NoControllers;
        }
        let mut clients: Vec<(u64, (PlayerId, ReactorId))> = Vec::new();
        std::mem::swap(&mut clients, &mut self.clients);
        let ghost s = clients@;
        let mut kept: Vec<(u64, (PlayerId, ReactorId))> = Vec::new();
        let mut i: usize = 0;
        proof {
            assert(s.subrange(0, 0) =~= Seq::<(u64, (PlayerId, ReactorId))>::empty());
            assert(assoc_map(kept@) =~= without_controller(assoc_map(s.subrange(0, 0)), *id));
        }
        while i < clients.len()
            invariant
                i <= s.len(),
                s == clients@,
                keys_distinct(s),
                keys_distinct(kept@),
                kept@.len() <= i,
                forall|j: int| 0 <= j < kept@.len() ==> has_key(s.subrange(0, i as int), (#[trigger] kept@[j]).0),
                assoc_map(kept@) == without_controller(assoc_map(s.subrange(0, i as int)), *id),
            decreases s.len() - i,
        {
            let e = clients[i];
            let ghost pre = s.subrange(0, i as int);
            proof {
                lemma_assoc_prefix_step(s, i as int);
                lemma_has_key_dom(pre, e.0);
                assert(!has_key(pre, e.0)) by {
                    if has_key(pre, e.0) {
                        let x = choose|x: int| 0 <= x < pre.len() && #[trigger] pre[x].0 == e.0;
                        assert(s[x].0 == s[i as int].0);
                    }
                }
            }
            if e.1.1 != *id {
                proof {
                    assert(!has_key(kept@, e.0)) by {
                        if has_key(kept@, e.0) {
                            let j = choose|j: int| 0 <= j < kept@.len() && #[trigger] kept@[j].0 == e.0;
                            assert(has_key(pre, kept@[j].0));
                            let x = choose|x: int| 0 <= x < pre.len() && #[trigger] pre[x].0 == e.0;
                            assert(s[x].0 == s[i as int].0);
                        }
                    }
                    lemma_assoc_push(kept@, e.0, e.1);
                }
                kept.push(e);
            }
            i = i + 1;
            proof {
                let post = s.subrange(0, i as int);
                assert forall|j: int| 0 <= j < kept@.len() implies has_key(post, (#[trigger] kept@[j]).0) by {
                    if j < kept@.len() - 1 || !(e.1.1 != *id) {
                        assert(has_key(pre, kept@[j].0));
                        let x = choose|x: int| 0 <= x < pre.len() && #[trigger] pre[x].0 == kept@[j].0;
                        assert(post[x] == pre[x]);
                    } else {
                        assert(post[i - 1] == e);
                    }
                }
                assert(assoc_map(kept@) =~= without_controller(assoc_map(post), *id));
            }
        }
        proof {
            assert(s.subrange(0, s.len() as int) =~= s);
            lemma_assoc_len(kept@);
        }
        let new_len = kept.len();
        self.clients = kept;
        if orig_len == new_len {
            CcCloseOutcome::NotFound
        } else if orig_len - 1 == new_len {
            CcCloseOutcome::Removed
        } else {
            CcCloseOutcome::RemovedMany
        }
    }

    /// An endpoint registers: returns the endpoint to open a link to.
    pub fn handle_register_endpoint(&self, reg: &RegisterEndpoint) -> (r: ReactorId)
        ensures
            r == reg.0,
    {
        reg.0
    }

    /// A client registers with its key: when the key is known, returns the
    /// acceptance for the key's controller, naming the player, the client's
    /// name, the fresh identity `client_id` of the client's reactor and the
    /// controller; unknown keys are ignored.
    pub fn handle_player_register(&self, reg: &Register, client_id: ReactorId) -> (r: Option<Accepted>)
        ensures
            match r {
                Some(a) => self.clients_view().dom().contains(reg.id)
                    && a.player == self.clients_view()[reg.id].0
                    && a.contr_id == self.clients_view()[reg.id].1
                    && a.name@ == reg.name@
                    && a.client_id == client_id,
                None => !self.clients_view().dom().contains(reg.id),
            },
    {
        proof {
            use_type_invariant(self);
        }
        match find_key(&self.clients, reg.id) {
            Some(i) => {
                proof {
                    lemma_assoc_value(self.clients@, i as int);
                }
                let (player, cc) = self.clients[i].1;
                Some(Accepted { player, name: reg.name.clone(), client_id, contr_id: cc })
            },
            None => {
                proof {
                    lemma_has_key_dom(self.clients@, reg.id);
                }
                None
            },
        }
    }
}


/// The link to an endpoint: the clients it hands over come to the manager.
pub fn endpoint_link(ep: ReactorId) -> (r: (LinkParams<MsgKind>, bool))
    ensures
        r.0.remote == ep,
        r.0.internal@ == Seq::<MsgKind>::empty(),
        r.0.external@ == seq![(MsgKind::SpawnPlayer, TargetReactor::Reactor)],
        !r.1,
{
    let i: Vec<MsgKind> = Vec::new();
    let mut e: Vec<(MsgKind, TargetReactor)> = Vec::new();
    e.push((MsgKind::SpawnPlayer, TargetReactor::Reactor));
    proof {
        assert(i@ =~= Seq::<MsgKind>::empty());
        assert(e@ =~= seq![(MsgKind::SpawnPlayer, TargetReactor::Reactor)]);
    }
    (link_params(ep, i, e), false)
}

/// The link to a game's client controller: acceptances go to it.
pub fn controller_link(cc: ReactorId) -> (r: (LinkParams<MsgKind>, bool))
    ensures
        r.0.remote == cc,
        r.0.internal@ == seq![MsgKind::Accepted],
        r.0.external@ == Seq::<(MsgKind, TargetReactor)>::empty(),
        !r.1,
{
    let mut i: Vec<MsgKind> = Vec::new();
    i.push(MsgKind::Accepted);
    let e: Vec<(MsgKind, TargetReactor)> = Vec::new();
    proof {
        assert(i@ =~= seq![MsgKind::Accepted]);
        assert(e@ =~= Seq::<(MsgKind, TargetReactor)>::empty());
    }
    (link_params(cc, i, e), false)
}

impl ClientManager {
    /// The links the manager opens when it starts: one to each endpoint, in
    /// order, and then one to the game manager, which gets the players' keys
    /// and whose game and endpoint registrations come to the manager.
    pub fn init(&self) -> (r: Vec<(LinkParams<MsgKind>, bool)>)
        ensures
            r@.len() == self.endpoints_view().len() + 1,
            forall|i: int| 0 <= i < self.endpoints_view().len() ==> (#[trigger] r@[i]).0.remote == self.endpoints_view()[i]
                && r@[i].0.internal@ == Seq::<MsgKind>::empty()
                && r@[i].0.external@ == seq![(MsgKind::SpawnPlayer, TargetReactor::Reactor)]
                && !r@[i].1,
            r@[self.endpoints_view().len() as int].0.remote == self.game_manager_view(),
            r@[self.endpoints_view().len() as int].0.internal@ == seq![MsgKind::PlayerUUIDs],
            r@[self.endpoints_view().len() as int].0.external@ == seq![(MsgKind::RegisterGame, TargetReactor::Reactor),
                (MsgKind::RegisterEndpoint, TargetReactor::Reactor)],
            !r@[self.endpoints_view().len() as int].1,
    {
        let mut out: Vec<(LinkParams<MsgKind>, bool)> = Vec::new();
        let mut i: usize = 0;
        while i < self.endpoints.len()
            invariant
                i <= self.endpoints@.len(),
                out@.len() == i,
                forall|j: int| 0 <= j < i ==> (#[trigger] out@[j]).0.remote == self.endpoints_view()[j]
                    && out@[j].0.internal@ == Seq::<MsgKind>::empty()
                    && out@[j].0.external@ == seq![(MsgKind::SpawnPlayer, TargetReactor::Reactor)]
                    && !out@[j].1,
            decreases self.endpoints.len() - i,
        {
            out.push(endpoint_link(self.endpoints[i].0));
            i = i + 1;
        }
        let mut gi: Vec<MsgKind> = Vec::new();
        gi.push(MsgKind::PlayerUUIDs);
        let mut ge: Vec<(MsgKind, TargetReactor)> = Vec::new();
        ge.push((MsgKind::RegisterGame, TargetReactor::Reactor));
        ge.push((MsgKind::RegisterEndpoint, TargetReactor::Reactor));
        proof {
            assert(gi@ =~= seq![MsgKind::PlayerUUIDs]);
            assert(ge@ =~= seq![(MsgKind::RegisterGame, TargetReactor::Reactor), (MsgKind::RegisterEndpoint, TargetReactor::Reactor)]);
        }
        out.push((link_params(self.game_manager, gi, ge), false));
        out
    }
}

} // verus!
