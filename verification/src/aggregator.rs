//! The aggregator: sits between a game and the client controllers of its
//! players, routes the game's messages, gathers the players' connection
//! statuses and starts the game once every player has connected.
use vstd::prelude::*;
use crate::assoc::{keys_distinct, has_key, assoc_map, find_key, lemma_assoc_same_keys_const, lemma_assoc_lookup, lemma_assoc_value, lemma_assoc_update, lemma_assoc_remove, lists_entries, lists_values, lemma_lists_entries, lemma_lists_values, lemma_assoc_map_vals, lemma_has_key_dom, assoc_insert, lemma_assoc_insert};
use crate::reactor::{ReactorId, TargetReactor, LinkParams, MsgKind, link_params};
use crate::types::{PlayerId, HostMsg, HostMsgView, Start, NewClientController, ClientControllerDisconnect};
use crate::request::{Req, Res, State, StateView, Connect, ConnectView, connects_view};

verus! {

/// A client controller tells the aggregator the name its player connected with.
#[derive(Debug)]
pub struct InitConnect(pub PlayerId, pub String);

/// Each player with the name it connected with, once it has.
pub type NameTable = Map<PlayerId, Option<Seq<char>>>;

/// Each player with the status it reported for one state request, once it has.
pub type ConnTable = Map<PlayerId, Option<ConnectView>>;

pub open spec fn opt_string_view(o: Option<String>) -> Option<Seq<char>> {
    match o {
        Some(s) => Some(s@),
        None => None,
    }
}

pub open spec fn opt_connect_view(o: Option<Connect>) -> Option<ConnectView> {
    match o {
        Some(c) => Some(c@),
        None => None,
    }
}

pub open spec fn name_seq(v: Seq<(PlayerId, Option<String>)>) -> Seq<(PlayerId, Option<Seq<char>>)> {
    v.map_values(|e: (PlayerId, Option<String>)| (e.0, opt_string_view(e.1)))
}

pub open spec fn conn_seq(v: Seq<(PlayerId, Option<Connect>)>) -> Seq<(PlayerId, Option<ConnectView>)> {
    v.map_values(|e: (PlayerId, Option<Connect>)| (e.0, opt_connect_view(e.1)))
}

pub open spec fn request_seq(v: Seq<(u64, Vec<(PlayerId, Option<Connect>)>)>) -> Seq<(u64, ConnTable)> {
    v.map_values(|e: (u64, Vec<(PlayerId, Option<Connect>)>)| (e.0, assoc_map(conn_seq(e.1@))))
}

/// Every player has connected.
pub open spec fn all_named(n: NameTable) -> bool {
    forall|k: PlayerId| #[trigger] n.dom().contains(k) ==> n[k] is Some
}

/// The name of every player.
pub open spec fn names_of(n: NameTable) -> Map<PlayerId, Seq<char>> {
    Map::new(|k: PlayerId| n.dom().contains(k), |k: PlayerId| n[k]->0)
}

/// Every player has reported its status.
pub open spec fn all_reported(t: ConnTable) -> bool {
    forall|k: PlayerId| #[trigger] t.dom().contains(k) ==> t[k] is Some
}

/// The status of every player.
pub open spec fn reports_of(t: ConnTable) -> Map<PlayerId, ConnectView> {
    Map::new(|k: PlayerId| t.dom().contains(k), |k: PlayerId| t[k]->0)
}

/// The player a status is about.
pub open spec fn connect_player(c: ConnectView) -> PlayerId {
    match c {
        ConnectView::Connected(id, _) => id,
        ConnectView::Reconnecting(id, _) => id,
        ConnectView::Waiting(id, _) => id,
        ConnectView::Request => 0,
    }
}

/// Where the aggregator sends a message of the game: to every client when it
/// names no player, to the client of the player it names when that player has
/// one, and nowhere otherwise.
pub open spec fn host_msg_route(clients: Map<PlayerId, ReactorId>, msg: HostMsgView) -> Option<TargetReactor> {
    let target = match msg {
        HostMsgView::Data(_, p) => p,
        HostMsgView::Kick(p) => Some(p),
    };
    match target {
        None => Some(TargetReactor::Links),
        Some(p) => if clients.dom().contains(p) {
            Some(TargetReactor::Link(clients[p]))
        } else {
            None
        },
    }
}

pub struct Aggregator {
    host_id: ReactorId,
    cm_id: ReactorId,
    clients: Vec<(PlayerId, ReactorId)>,
    init_connected: Vec<(PlayerId, Option<String>)>,
    current_requests: Vec<(u64, Vec<(PlayerId, Option<Connect>)>)>,
}

impl Aggregator {
    #[verifier::type_invariant]
    spec fn inv(self) -> bool {
        &&& keys_distinct(self.clients@)
        &&& keys_distinct(name_seq(self.init_connected@))
        &&& keys_distinct(request_seq(self.current_requests@))
        &&& forall|i: int| 0 <= i < self.current_requests@.len()
            ==> keys_distinct(conn_seq((#[trigger] self.current_requests@[i]).1@))
    }

    /// The game (or step lock) the aggregator serves.
    pub closed spec fn host_view(&self) -> ReactorId {
        self.host_id
    }

    /// The client manager.
    pub closed spec fn cm_view(&self) -> ReactorId {
        self.cm_id
    }

    /// The client controller of each player.
    pub closed spec fn clients_view(&self) -> Map<PlayerId, ReactorId> {
        assoc_map(self.clients@)
    }

    /// The players the game waits for, with their names once connected.
    pub closed spec fn names_view(&self) -> NameTable {
        assoc_map(name_seq(self.init_connected@))
    }

    /// The open state requests, by request identity.
    pub closed spec fn requests_view(&self) -> Map<u64, ConnTable> {
        assoc_map(request_seq(self.current_requests@))
    }

    /// An aggregator for the game `host_id` whose players are served by the
    /// client controllers `clients` (for a player listed twice, the later
    /// controller counts); no player has connected yet.
    pub fn params(host_id: ReactorId, cm_id: ReactorId, clients: Vec<(PlayerId, ReactorId)>) -> (r: Self)
        ensures
            r.host_view() == host_id,
            r.cm_view() == cm_id,
            r.clients_view() == assoc_map(clients@),
            r.names_view() == (Map::new(|k: PlayerId| assoc_map(clients@).dom().contains(k), |k: PlayerId| None::<Seq<char>>)),
            r.requests_view() == (Map::<u64, ConnTable>::empty()),
    {
        let mut table: Vec<(PlayerId, ReactorId)> = Vec::new();
        let mut i: usize = 0;
        proof {
            assert(clients@.subrange(0, 0) =~= Seq::<(PlayerId, ReactorId)>::empty());
            assert(assoc_map(table@) =~= assoc_map(clients@.subrange(0, 0)));
        }
        while i < clients.len()
            invariant
                i <= clients@.len(),
                keys_distinct(table@),
                assoc_map(table@) == assoc_map(clients@.subrange(0, i as int)),
            decreases clients.len() - i,
        {
            let (p, c) = clients[i];
            let ghost before = table@;
            let found = find_key(&table, p);
            match found {
                Some(x) => {
                    table[x] = (p, c);
                },
                None => {
                    table.push((p, c));
                },
            }
            proof {
                lemma_assoc_insert(before, p, c, found);
                assert(table@ =~= assoc_insert(before, p, c, found));
                crate::assoc::lemma_assoc_prefix_step(clients@, i as int);
            }
            i = i + 1;
        }
        proof {
            assert(clients@.subrange(0, clients@.len() as int) =~= clients@);
        }
        let mut init_connected: Vec<(PlayerId, Option<String>)> = Vec::new();
        let mut i: usize = 0;
        while i < table.len()
            invariant
                i <= table@.len(),
                init_connected@.len() == i,
                forall|j: int| 0 <= j < i ==> (#[trigger] init_connected@[j]).0 == table@[j].0 && init_connected@[j].1 is None,
            decreases table.len() - i,
        {
            init_connected.push((table[i].0, None));
            i = i + 1;
        }
        let current_requests: Vec<(u64, Vec<(PlayerId, Option<Connect>)>)> = Vec::new();
        proof {
            let ns = name_seq(init_connected@);
            assert forall|j: int| 0 <= j < table@.len() implies #[trigger] ns[j] == (table@[j].0, None::<Seq<char>>) by {
                assert(init_connected@[j].1 is None);
            }
            lemma_assoc_same_keys_const(table@, ns, None::<Seq<char>>);
            assert(request_seq(current_requests@) =~= Seq::empty());
            assert(assoc_map(request_seq(current_requests@)) =~= Map::<u64, ConnTable>::empty());
        }
        Aggregator { host_id, cm_id, clients: table, init_connected, current_requests }
    }
}


/// What an `InitConnect` does to the name table: a known player gets its name.
pub open spec fn names_after(n: NameTable, player: PlayerId, name: Seq<char>) -> NameTable {
    if n.dom().contains(player) {
        n.insert(player, Some(name))
    } else {
        n
    }
}

/// Checks that every entry of a table holds a value.
fn all_some_names(v: &Vec<(PlayerId, Option<String>)>) -> (r: bool)
    requires
        keys_distinct(name_seq(v@)),
    ensures
        r == all_named(assoc_map(name_seq(v@))),
{
    let ghost t = name_seq(v@);
    let mut all = true;
    let mut j: usize = 0;
    while j < v.len()
        invariant
            j <= v@.len(),
            t == name_seq(v@),
            all <==> (forall|x: int| 0 <= x < j ==> (#[trigger] t[x]).1 is Some),
        decreases v.len() - j,
    {
        if v[j].1.is_none() {
            all = false;
        }
        j = j + 1;
        proof {
            assert(t[j - 1].1 == opt_string_view(v@[j - 1].1));
        }
    }
    proof {
        if all {
            assert forall|k: PlayerId| #[trigger] assoc_map(t).dom().contains(k) implies assoc_map(t)[k] is Some by {
                let x = lemma_assoc_lookup(t, k);
                assert(t[x].1 is Some);
            }
        } else {
            let x = choose|x: int| 0 <= x < v@.len() && !((#[trigger] t[x]).1 is Some);
            lemma_assoc_value(t, x);
        }
    }
    all
}

impl Aggregator {
    /// A client controller reports the name its player connected with. Once
    /// every player has connected, returns the `Start` for the game, listing
    /// every player with its name.
    pub fn handle_init_connect(&mut self, con: &InitConnect) -> (r: Option<Start>)
        ensures
            final(self).names_view() == names_after(old(self).names_view(), con.0, con.1@),
            final(self).names_view().dom() == old(self).names_view().dom(),
            old(self).names_view().dom().contains(con.0) ==> final(self).names_view()[con.0] == Some(con.1@),
            r is Some <==> all_named(final(self).names_view()),
            r matches Some(st) ==> lists_entries(st@, names_of(final(self).names_view())),
            final(self).clients_view() == old(self).clients_view(),
            final(self).requests_view() == old(self).requests_view(),
            final(self).host_view() == old(self).host_view(),
            final(self).cm_view() == old(self).cm_view(),
    {
        proof {
            use_type_invariant(&*self);
        }
        let mut init: Vec<(PlayerId, Option<String>)> = Vec::new();
        std::mem::swap(&mut init, &mut self.init_connected);
        let ghost s = name_seq(init@);
        match find_key(&init, con.0) {
            Some(i) => {
                init[i] = (con.0, Some(con.1.clone()));
                proof {
                    lemma_assoc_update(s, i as int, Some(con.1@));
                    assert(name_seq(init@) =~= s.update(i as int, (s[i as int].0, Some(con.1@))));
                    lemma_has_key_dom(s, con.0);
                    assert(s[i as int].0 == con.0);
                }
            },
            None => {
                proof {
                    lemma_has_key_dom(s, con.0);
                    assert(!has_key(s, con.0)) by {
                        if has_key(s, con.0) {
                            let j = choose|j: int| 0 <= j < s.len() && #[trigger] s[j].0 == con.0;
                            assert(init@[j].0 == con.0);
                        }
                    }
                }
            },
        }
        let ghost t = name_seq(init@);
        let all = all_some_names(&init);
        let result = if all {
            proof {
                assert forall|x: int| 0 <= x < init@.len() implies (#[trigger] t[x]).1 is Some by {
                    lemma_assoc_value(t, x);
                }
            }
            let mut players: Vec<(PlayerId, String)> = Vec::new();
            let mut j: usize = 0;
            while j < init.len()
                invariant
                    j <= init@.len(),
                    t == name_seq(init@),
                    forall|x: int| 0 <= x < init@.len() ==> (#[trigger] t[x]).1 is Some,
                    players@.len() == j,
                    forall|x: int| 0 <= x < j ==> (#[trigger] players@[x]).0 == t[x].0 && players@[x].1@ == t[x].1->0,
                decreases init.len() - j,
            {
                proof {
                    assert(t[j as int].1 is Some);
                    assert(t[j as int].1 == opt_string_view(init@[j as int].1));
                }
                let name = match &init[j].1 {
                    Some(n) => n.clone(),
                    None => String::new(),
                };
                players.push((init[j].0, name));
                j = j + 1;
            }
            proof {
                lemma_all_sent_names(t);
                let u = crate::types::named_players_view(players@);
                let f = |o: Option<Seq<char>>| o->0;
                assert forall|x: int| 0 <= x < t.len() implies #[trigger] u[x] == (t[x].0, f(t[x].1)) by {
                    assert(u[x] == (players@[x].0, players@[x].1@));
                }
                lemma_assoc_map_vals(t, u, f);
                lemma_lists_entries(u);
                assert(assoc_map(u) =~= names_of(assoc_map(t)));
            }
            Some(Start { players })
        } else {
            None
        };
        self.init_connected = init;
        result
    }

    /// Routes a message of the game (see `host_msg_route`).
    pub fn handle_host_msg(&self, msg: &HostMsg) -> (r: Option<(HostMsg, TargetReactor)>)
        ensures
            match host_msg_route(self.clients_view(), msg@) {
                None => r is None,
                Some(t) => (r matches Some(x) && x.0@ == msg@ && x.1 == t),
            },
    {
        proof {
            use_type_invariant(self);
        }
        let target = match msg {
            HostMsg::Data(_, id) => *id,
            HostMsg::Kick(id) => Some(*id),
        };
        match target {
            Some(player_id) => match find_key(&self.clients, player_id) {
                Some(i) => {
                    proof {
                        lemma_assoc_value(self.clients@, i as int);
                    }
                    Some((msg.clone(), TargetReactor::Link(self.clients[i].1)))
                },
                None => {
                    proof {
                        lemma_has_key_dom(self.clients@, player_id);
                    }
                    None
                },
            },
            None => Some((msg.clone(), TargetReactor::Links)),
        }
    }

    /// A new client controller serves `player`: records it and returns the
    /// reactor to open a link to, with the message that link's closer sends
    /// back to the aggregator.
    pub fn handle_register_client_controller(&mut self, n: &NewClientController) -> (r: (ReactorId, ClientControllerDisconnect))
        ensures
            final(self).clients_view() == old(self).clients_view().insert(n.0, n.1),
            r.0 == n.1,
            r.1 == ClientControllerDisconnect(n.0),
            final(self).names_view() == old(self).names_view(),
            final(self).requests_view() == old(self).requests_view(),
            final(self).host_view() == old(self).host_view(),
            final(self).cm_view() == old(self).cm_view(),
    {
        proof {
            use_type_invariant(&*self);
        }
        let mut clients: Vec<(PlayerId, ReactorId)> = Vec::new();
        std::mem::swap(&mut clients, &mut self.clients);
        let ghost s = clients@;
        let found = find_key(&clients, n.0);
        match found {
            Some(i) => {
                clients[i] = (n.0, n.1);
            },
            None => {
                clients.push((n.0, n.1));
            },
        }
        proof {
            lemma_assoc_insert(s, n.0, n.1, found);
            assert(clients@ =~= assoc_insert(s, n.0, n.1, found));
        }
        self.clients = clients;
        (n.1, ClientControllerDisconnect(n.0))
    }

    /// The client controller of `player` went away.
    pub fn handle_disconnect_client_controller(&mut self, d: &ClientControllerDisconnect)
        ensures
            final(self).clients_view() == old(self).clients_view().remove(d.0),
            final(self).names_view() == old(self).names_view(),
            final(self).requests_view() == old(self).requests_view(),
            final(self).host_view() == old(self).host_view(),
            final(self).cm_view() == old(self).cm_view(),
    {
        proof {
            use_type_invariant(&*self);
        }
        let mut clients: Vec<(PlayerId, ReactorId)> = Vec::new();
        std::mem::swap(&mut clients, &mut self.clients);
        let ghost s = clients@;
        match find_key(&clients, d.0) {
            Some(i) => {
                clients.remove(i);
                proof {
                    lemma_assoc_remove(s, i as int);
                }
            },
            None => {
                proof {
                    lemma_has_key_dom(s, d.0);
                    assert(assoc_map(s).remove(d.0) =~= assoc_map(s));
                }
            },
        }
        self.clients = clients;
    }
}

/// With distinct keys, every player is named exactly when every entry holds a
/// name.
proof fn lemma_all_sent_names(t: Seq<(PlayerId, Option<Seq<char>>)>)
    requires
        keys_distinct(t),
        forall|x: int| 0 <= x < t.len() ==> (#[trigger] t[x]).1 is Some,
    ensures
        all_named(assoc_map(t)),
{
    assert forall|k: PlayerId| #[trigger] assoc_map(t).dom().contains(k) implies assoc_map(t)[k] is Some by {
        let x = lemma_assoc_lookup(t, k);
        assert(t[x].1 is Some);
    }
}


/// The table of a new state request: every client's player, none reported.
pub open spec fn fresh_request(clients: Map<PlayerId, ReactorId>) -> ConnTable {
    Map::new(|k: PlayerId| clients.dom().contains(k), |k: PlayerId| None::<ConnectView>)
}

/// The reactors of a list of addressed requests.
pub open spec fn request_targets(v: Seq<(Req<Connect>, ReactorId)>) -> Seq<ReactorId> {
    v.map_values(|e: (Req<Connect>, ReactorId)| e.1)
}

/// The view of a table of requests after entry `i` is replaced by `(k, inner)`.
proof fn lemma_request_seq_update(v: Seq<(u64, Vec<(PlayerId, Option<Connect>)>)>, i: int, k: u64, inner: Vec<(PlayerId, Option<Connect>)>)
    requires
        0 <= i < v.len(),
    ensures
        request_seq(v.update(i, (k, inner))) == request_seq(v).update(i, (k, assoc_map(conn_seq(inner@)))),
{
    assert(request_seq(v.update(i, (k, inner))) =~= request_seq(v).update(i, (k, assoc_map(conn_seq(inner@)))));
}

/// Checks that every player of a request table has reported.
fn all_reported_vec(v: &Vec<(PlayerId, Option<Connect>)>) -> (r: bool)
    requires
        keys_distinct(conn_seq(v@)),
    ensures
        r == all_reported(assoc_map(conn_seq(v@))),
{
    let ghost t = conn_seq(v@);
    let mut all = true;
    let mut j: usize = 0;
    while j < v.len()
        invariant
            j <= v@.len(),
            t == conn_seq(v@),
            all <==> (forall|x: int| 0 <= x < j ==> (#[trigger] t[x]).1 is Some),
        decreases v.len() - j,
    {
        if v[j].1.is_none() {
            all = false;
        }
        j = j + 1;
        proof {
            assert(t[j - 1].1 == opt_connect_view(v@[j - 1].1));
        }
    }
    proof {
        if all {
            assert forall|k: PlayerId| #[trigger] assoc_map(t).dom().contains(k) implies assoc_map(t)[k] is Some by {
                let x = lemma_assoc_lookup(t, k);
                assert(t[x].1 is Some);
            }
        } else {
            let x = choose|x: int| 0 <= x < v@.len() && !((#[trigger] t[x]).1 is Some);
            lemma_assoc_value(t, x);
        }
    }
    all
}

impl Aggregator {
    /// The game asks for the state of its players: opens a request that waits
    /// for a status from every current client, and returns one status request
    /// for each client, addressed to its controller.
    pub fn handle_state_req(&mut self, req: &Req<State>) -> (out: Vec<(Req<Connect>, ReactorId)>)
        ensures
            final(self).requests_view() == old(self).requests_view().insert(req.0.0, fresh_request(old(self).clients_view())),
            lists_values(request_targets(out@), old(self).clients_view()),
            forall|i: int| 0 <= i < out@.len() ==> (#[trigger] out@[i]).0.0 == req.0 && out@[i].0.1@ == ConnectView::Request,
            final(self).clients_view() == old(self).clients_view(),
            final(self).names_view() == old(self).names_view(),
            final(self).host_view() == old(self).host_view(),
            final(self).cm_view() == old(self).cm_view(),
    {
        proof {
            use_type_invariant(&*self);
        }
        let rid = req.0.0;
        let mut inner: Vec<(PlayerId, Option<Connect>)> = Vec::new();
        let mut out: Vec<(Req<Connect>, ReactorId)> = Vec::new();
        let mut j: usize = 0;
        while j < self.clients.len()
            invariant
                j <= self.clients@.len(),
                inner@.len() == j,
                out@.len() == j,
                forall|x: int| 0 <= x < j ==> (#[trigger] inner@[x]).0 == self.clients@[x].0 && inner@[x].1 is None,
                forall|x: int| 0 <= x < j ==> (#[trigger] out@[x]).1 == self.clients@[x].1
                    && out@[x].0.0 == req.0 && out@[x].0.1@ == ConnectView::Request,
            decreases self.clients.len() - j,
        {
            inner.push((self.clients[j].0, None));
            out.push((Req(req.0, Connect::Request), self.clients[j].1));
            j = j + 1;
        }
        proof {
            let cs = conn_seq(inner@);
            assert forall|x: int| 0 <= x < self.clients@.len() implies #[trigger] cs[x] == (self.clients@[x].0, None::<ConnectView>) by {
                assert(inner@[x].1 is None);
            }
            lemma_assoc_same_keys_const(self.clients@, cs, None::<ConnectView>);
            assert(assoc_map(cs) =~= fresh_request(assoc_map(self.clients@)));
            let tg = request_targets(out@);
            assert forall|x: int| 0 <= x < self.clients@.len() implies #[trigger] tg[x] == self.clients@[x].1 by {
                assert(tg[x] == out@[x].1);
            }
            lemma_lists_values(self.clients@, tg);
        }
        let mut reqs: Vec<(u64, Vec<(PlayerId, Option<Connect>)>)> = Vec::new();
        std::mem::swap(&mut reqs, &mut self.current_requests);
        let ghost v = reqs@;
        let ghost rs = request_seq(reqs@);
        let ghost fresh = assoc_map(conn_seq(inner@));
        let found = find_key(&reqs, rid);
        proof {
            match found {
                Some(i) => {
                    assert(rs[i as int].0 == rid);
                },
                None => {
                    assert(!has_key(rs, rid)) by {
                        if has_key(rs, rid) {
                            let x = choose|x: int| 0 <= x < rs.len() && #[trigger] rs[x].0 == rid;
                            assert(reqs@[x].0 == rid);
                        }
                    }
                },
            }
            lemma_assoc_insert(rs, rid, fresh, found);
        }
        match found {
            Some(i) => {
                reqs[i] = (rid, inner);
                proof {
                    lemma_request_seq_update(v, i as int, rid, inner);
                }
            },
            None => {
                reqs.push((rid, inner));
                proof {
                    assert(request_seq(reqs@) =~= rs.push((rid, fresh)));
                }
            },
        }
        proof {
            assert(request_seq(reqs@) == assoc_insert(rs, rid, fresh, found));
            assert forall|x: int| 0 <= x < reqs@.len() implies keys_distinct(conn_seq((#[trigger] reqs@[x]).1@)) by {
                if x < v.len() && !(found == Some(x as usize)) {
                    assert(reqs@[x] == v[x]);
                }
            }
        }
        self.current_requests = reqs;
        out
    }
}


/// What a reported status does to the open requests, and whether it
/// completes its request.
pub open spec fn requests_after_report(reqs: Map<u64, ConnTable>, rid: u64, c: ConnectView) -> Map<u64, ConnTable> {
    if reqs.dom().contains(rid) {
        let t = reqs[rid].insert(connect_player(c), Some(c));
        if all_reported(t) {
            reqs.remove(rid)
        } else {
            reqs.insert(rid, t)
        }
    } else {
        reqs
    }
}

/// The statuses of a request once `c` is reported, when that completes it.
pub open spec fn completed_report(reqs: Map<u64, ConnTable>, rid: u64, c: ConnectView) -> Option<Map<PlayerId, ConnectView>> {
    if reqs.dom().contains(rid) && all_reported(reqs[rid].insert(connect_player(c), Some(c))) {
        Some(reports_of(reqs[rid].insert(connect_player(c), Some(c))))
    } else {
        None
    }
}

impl Aggregator {
    /// A client controller answers a state request. Once every player of the
    /// request has answered, closes the request and returns the state response
    /// for the game, listing every player's status once.
    pub fn handle_conn(&mut self, res: &Res<Connect>) -> (r: Option<Res<State>>)
        requires
            !(res.1 is Request),
        ensures
            final(self).requests_view() == requests_after_report(old(self).requests_view(), res.0.0, res.1@),
            match completed_report(old(self).requests_view(), res.0.0, res.1@) {
                Some(reports) => (r matches Some(x) && x.0 == res.0
                    && (x.1@ matches StateView::Response(list) && lists_values(list, reports))),
                None => r is None,
            },
            final(self).clients_view() == old(self).clients_view(),
            final(self).names_view() == old(self).names_view(),
            final(self).host_view() == old(self).host_view(),
            final(self).cm_view() == old(self).cm_view(),
    {
        proof {
            use_type_invariant(&*self);
        }
        let rid = res.0.0;
        let p = match &res.1 {
            Connect::Connected(id, _) => *id,
            Connect::Reconnecting(id, _) => *id,
            Connect::Waiting(id, _) => *id,
            Connect::Request => 0,
        };
        let mut reqs: Vec<(u64, Vec<(PlayerId, Option<Connect>)>)> = Vec::new();
        std::mem::swap(&mut reqs, &mut self.current_requests);
        let ghost v = reqs@;
        let ghost rs = request_seq(reqs@);
        match find_key(&reqs, rid) {
            None => {
                proof {
                    assert(!has_key(rs, rid)) by {
                        if has_key(rs, rid) {
                            let x = choose|x: int| 0 <= x < rs.len() && #[trigger] rs[x].0 == rid;
                            assert(reqs@[x].0 == rid);
                        }
                    }
                    lemma_has_key_dom(rs, rid);
                }
                self.current_requests = reqs;
                None
            },
            Some(i) => {
                let (k, mut inner) = reqs.remove(i);
                let ghost w = conn_seq(inner@);
                proof {
                    assert(rs[i as int] == (k, assoc_map(w)));
                    lemma_assoc_value(rs, i as int);
                    assert(keys_distinct(conn_seq(v[i as int].1@)));
                    assert(w == conn_seq(v[i as int].1@));
                }
                let found = find_key(&inner, p);
                proof {
                    match found {
                        Some(j) => {
                            assert(w[j as int].0 == p);
                        },
                        None => {
                            assert(!has_key(w, p)) by {
                                if has_key(w, p) {
                                    let x = choose|x: int| 0 <= x < w.len() && #[trigger] w[x].0 == p;
                                    assert(inner@[x].0 == p);
                                }
                            }
                        },
                    }
                    lemma_assoc_insert(w, p, Some(res.1@), found);
                }
                match found {
                    Some(j) => {
                        inner[j] = (p, Some(res.1.clone()));
                    },
                    None => {
                        inner.push((p, Some(res.1.clone())));
                    },
                }
                let ghost u = conn_seq(inner@);
                proof {
                    assert(u =~= assoc_insert(w, p, Some(res.1@), found));
                }
                if all_reported_vec(&inner) {
                    let mut list: Vec<Connect> = Vec::new();
                    let mut j: usize = 0;
                    proof {
                        assert forall|x: int| 0 <= x < u.len() implies (#[trigger] u[x]).1 is Some by {
                            lemma_assoc_value(u, x);
                        }
                    }
                    while j < inner.len()
                        invariant
                            j <= inner@.len(),
                            u == conn_seq(inner@),
                            forall|x: int| 0 <= x < u.len() ==> (#[trigger] u[x]).1 is Some,
                            list@.len() == j,
                            forall|x: int| 0 <= x < j ==> (#[trigger] list@[x])@ == u[x].1->0,
                        decreases inner.len() - j,
                    {
                        proof {
                            assert(u[j as int].1 is Some);
                            assert(u[j as int].1 == opt_connect_view(inner@[j as int].1));
                        }
                        let c = match &inner[j].1 {
                            Some(c) => c.clone(),
                            None => Connect::Request,
                        };
                        list.push(c);
                        j = j + 1;
                    }
                    proof {
                        let f = |o: Option<ConnectView>| o->0;
                        let e = u.map_values(|x: (PlayerId, Option<ConnectView>)| (x.0, f(x.1)));
                        assert forall|x: int| 0 <= x < u.len() implies #[trigger] e[x] == (u[x].0, f(u[x].1)) by {}
                        lemma_assoc_map_vals(u, e, f);
                        assert(assoc_map(e) =~= reports_of(assoc_map(u)));
                        let lv = connects_view(list@);
                        assert forall|x: int| 0 <= x < e.len() implies #[trigger] lv[x] == e[x].1 by {
                            assert(lv[x] == list@[x]@);
                        }
                        lemma_lists_values(e, lv);
                        lemma_assoc_remove(rs, i as int);
                        assert(request_seq(reqs@) =~= rs.remove(i as int));
                        assert forall|x: int| 0 <= x < reqs@.len() implies keys_distinct(conn_seq((#[trigger] reqs@[x]).1@)) by {
                            let y = if x < i { x } else { x + 1 };
                            assert(reqs@[x] == v[y]);
                        }
                    }
                    self.current_requests = reqs;
                    Some(Res(res.0, State::Response(list)))
                } else {
                    reqs.insert(i, (k, inner));
                    proof {
                        assert(reqs@ =~= v.update(i as int, (k, inner)));
                        lemma_request_seq_update(v, i as int, k, inner);
                        lemma_assoc_update(rs, i as int, assoc_map(u));
                        assert forall|x: int| 0 <= x < reqs@.len() implies keys_distinct(conn_seq((#[trigger] reqs@[x]).1@)) by {
                            if x != i {
                                assert(reqs@[x] == v[x]);
                            }
                        }
                    }
                    self.current_requests = reqs;
                    None
                }
            },
        }
    }
}


/// The link to a client controller: sends the game's messages and status
/// requests; passes the player's turns and connection changes to the game
/// `host_id`, and status answers and first connections to the aggregator.
pub fn client_link(cc: ReactorId, host_id: ReactorId) -> (r: LinkParams<MsgKind>)
    ensures
        r.remote == cc,
        r.internal@ == seq![MsgKind::HostMsg, MsgKind::ConnectReq],
        r.external@ == seq![(MsgKind::PlayerMsg, TargetReactor::Link(host_id)),
            (MsgKind::ClientStateUpdate, TargetReactor::Link(host_id)),
            (MsgKind::ConnectRes, TargetReactor::Reactor), (MsgKind::InitConnect, TargetReactor::Reactor)],
{
    let mut i: Vec<MsgKind> = Vec::new();
    i.push(MsgKind::HostMsg);
    i.push(MsgKind::ConnectReq);
    let mut e: Vec<(MsgKind, TargetReactor)> = Vec::new();
    e.push((MsgKind::PlayerMsg, TargetReactor::Link(host_id)));
    e.push((MsgKind::ClientStateUpdate, TargetReactor::Link(host_id)));
    e.push((MsgKind::ConnectRes, TargetReactor::Reactor));
    e.push((MsgKind::InitConnect, TargetReactor::Reactor));
    proof {
        assert(i@ =~= seq![MsgKind::HostMsg, MsgKind::ConnectReq]);
        assert(e@ =~= seq![(MsgKind::PlayerMsg, TargetReactor::Link(host_id)),
            (MsgKind::ClientStateUpdate, TargetReactor::Link(host_id)),
            (MsgKind::ConnectRes, TargetReactor::Reactor), (MsgKind::InitConnect, TargetReactor::Reactor)]);
    }
    link_params(cc, i, e)
}

impl Aggregator {
    /// The links the aggregator opens when it starts, with whether each stays
    /// open: one to each client controller (not kept), in the order of the
    /// table; then to the game (kept), which gets connection changes, turns,
    /// the start and state answers, and whose messages and state requests
    /// come to the aggregator; then to the client manager (kept), whose new
    /// client controllers come to the aggregator.
    pub fn init(&self) -> (r: Vec<(LinkParams<MsgKind>, bool)>)
        ensures
            lists_values(r@.subrange(0, r@.len() - 2).map_values(|l: (LinkParams<MsgKind>, bool)| l.0.remote), self.clients_view()),
            r@.len() >= 2,
            forall|i: int| 0 <= i < r@.len() - 2 ==> (#[trigger] r@[i]).0.internal@ == seq![MsgKind::HostMsg, MsgKind::ConnectReq]
                && r@[i].0.external@ == seq![(MsgKind::PlayerMsg, TargetReactor::Link(self.host_view())),
                    (MsgKind::ClientStateUpdate, TargetReactor::Link(self.host_view())),
                    (MsgKind::ConnectRes, TargetReactor::Reactor), (MsgKind::InitConnect, TargetReactor::Reactor)]
                && !r@[i].1,
            r@[r@.len() - 2].0.remote == self.host_view(),
            r@[r@.len() - 2].0.internal@ == seq![MsgKind::ClientStateUpdate, MsgKind::PlayerMsg, MsgKind::Start, MsgKind::StateRes],
            r@[r@.len() - 2].0.external@ == seq![(MsgKind::HostMsg, TargetReactor::Reactor), (MsgKind::StateReq, TargetReactor::Reactor)],
            r@[r@.len() - 2].1,
            r@[r@.len() - 1].0.remote == self.cm_view(),
            r@[r@.len() - 1].0.internal@ == Seq::<MsgKind>::empty(),
            r@[r@.len() - 1].0.external@ == seq![(MsgKind::NewClientController, TargetReactor::Reactor)],
            r@[r@.len() - 1].1,
    {
        proof {
            use_type_invariant(self);
        }
        let mut out: Vec<(LinkParams<MsgKind>, bool)> = Vec::new();
        let mut i: usize = 0;
        while i < self.clients.len()
            invariant
                i <= self.clients@.len(),
                out@.len() == i,
                forall|j: int| 0 <= j < i ==> (#[trigger] out@[j]).0.remote == self.clients@[j].1
                    && out@[j].0.internal@ == seq![MsgKind::HostMsg, MsgKind::ConnectReq]
                    && out@[j].0.external@ == seq![(MsgKind::PlayerMsg, TargetReactor::Link(self.host_id)),
                        (MsgKind::ClientStateUpdate, TargetReactor::Link(self.host_id)),
                        (MsgKind::ConnectRes, TargetReactor::Reactor), (MsgKind::InitConnect, TargetReactor::Reactor)]
                    && !out@[j].1,
            decreases self.clients.len() - i,
        {
            out.push((client_link(self.clients[i].1, self.host_id), false));
            i = i + 1;
        }
        let ghost clients_part = out@;
        let mut hi: Vec<MsgKind> = Vec::new();
        hi.push(MsgKind::ClientStateUpdate);
        hi.push(MsgKind::PlayerMsg);
        hi.push(MsgKind::Start);
        hi.push(MsgKind::StateRes);
        let mut he: Vec<(MsgKind, TargetReactor)> = Vec::new();
        he.push((MsgKind::HostMsg, TargetReactor::Reactor));
        he.push((MsgKind::StateReq, TargetReactor::Reactor));
        let ci: Vec<MsgKind> = Vec::new();
        let mut ce: Vec<(MsgKind, TargetReactor)> = Vec::new();
        ce.push((MsgKind::NewClientController, TargetReactor::Reactor));
        proof {
            assert(hi@ =~= seq![MsgKind::ClientStateUpdate, MsgKind::PlayerMsg, MsgKind::Start, MsgKind::StateRes]);
            assert(he@ =~= seq![(MsgKind::HostMsg, TargetReactor::Reactor), (MsgKind::StateReq, TargetReactor::Reactor)]);
            assert(ci@ =~= Seq::<MsgKind>::empty());
            assert(ce@ =~= seq![(MsgKind::NewClientController, TargetReactor::Reactor)]);
        }
        out.push((link_params(self.host_id, hi, he), true));
        out.push((link_params(self.cm_id, ci, ce), true));
        proof {
            let rem = out@.subrange(0, out@.len() - 2).map_values(|l: (LinkParams<MsgKind>, bool)| l.0.remote);
            assert(out@.subrange(0, out@.len() - 2) =~= clients_part);
            assert forall|j: int| 0 <= j < self.clients@.len() implies #[trigger] rem[j] == self.clients@[j].1 by {
                assert(clients_part[j] == out@[j]);
            }
            lemma_lists_values(self.clients@, rem);
            assert forall|j: int| 0 <= j < out@.len() - 2 implies (#[trigger] out@[j]).0.internal@ == seq![MsgKind::HostMsg, MsgKind::ConnectReq]
                && out@[j].0.external@ == seq![(MsgKind::PlayerMsg, TargetReactor::Link(self.host_id)),
                    (MsgKind::ClientStateUpdate, TargetReactor::Link(self.host_id)),
                    (MsgKind::ConnectRes, TargetReactor::Reactor), (MsgKind::InitConnect, TargetReactor::Reactor)]
                && !out@[j].1 by {
                assert(out@[j] == clients_part[j]);
            }
        }
        out
    }
}

/// A state request is answered once: after the status that completes it, the
/// request is closed, and later statuses for it change nothing and answer
/// nothing.
pub proof fn law_state_answered_once(reqs: Map<u64, ConnTable>, rid: u64, c: ConnectView, later: ConnectView)
    requires
        completed_report(reqs, rid, c) is Some,
    ensures
        !requests_after_report(reqs, rid, c).dom().contains(rid),
        completed_report(requests_after_report(reqs, rid, c), rid, later) is None,
        requests_after_report(requests_after_report(reqs, rid, c), rid, later) == requests_after_report(reqs, rid, c),
{
}

/// A status is filed under the player it names: after player `p` reports on
/// an open request, either the request is complete and the answer gives `p`
/// that status, or the request still waits with that status recorded for `p`;
/// the statuses of the other players of the request stay as they were.
pub proof fn law_status_filed_under_its_player(reqs: Map<u64, ConnTable>, rid: u64, c: ConnectView, p: PlayerId, q: PlayerId)
    requires
        reqs.dom().contains(rid),
        (c matches ConnectView::Connected(x, _) && x == p)
            || (c matches ConnectView::Reconnecting(x, _) && x == p)
            || (c matches ConnectView::Waiting(x, _) && x == p),
        q != p,
    ensures
        match completed_report(reqs, rid, c) {
            Some(rep) => rep.dom().contains(p) && rep[p] == c
                && (reqs[rid].dom().contains(q) ==> rep.dom().contains(q) && Some(rep[q]) == reqs[rid][q])
                && !requests_after_report(reqs, rid, c).dom().contains(rid),
            None => requests_after_report(reqs, rid, c).dom().contains(rid)
                && requests_after_report(reqs, rid, c)[rid].dom().contains(p)
                && requests_after_report(reqs, rid, c)[rid][p] == Some(c)
                && (reqs[rid].dom().contains(q) ==> requests_after_report(reqs, rid, c)[rid][q] == reqs[rid][q]),
        },
{
}

/// A name report never changes who the game waits for: the players stay the
/// same; a player of the game gets the name it reported, and the others keep
/// theirs; a report from anyone else changes nothing.
pub proof fn law_names_keep_the_players(n: NameTable, player: PlayerId, name: Seq<char>, other: PlayerId)
    requires
        other != player,
    ensures
        names_after(n, player, name).dom() == n.dom(),
        n.dom().contains(player) ==> names_after(n, player, name)[player] == Some(name),
        n.dom().contains(other) ==> names_after(n, player, name)[other] == n[other],
        !n.dom().contains(player) ==> names_after(n, player, name) == n,
{
    assert(n.dom().contains(player) ==> n.insert(player, Some(name)).dom() =~= n.dom());
}

/// The game gets no answer while a player of the request has not reported:
/// one status does not complete a fresh request with another player in it.
pub proof fn law_state_waits_for_all(reqs: Map<u64, ConnTable>, clients: Map<PlayerId, ReactorId>, rid: u64, c: ConnectView, other: PlayerId)
    requires
        clients.dom().contains(other),
        other != connect_player(c),
    ensures
        completed_report(reqs.insert(rid, fresh_request(clients)), rid, c) is None,
        requests_after_report(reqs.insert(rid, fresh_request(clients)), rid, c).dom().contains(rid),
{
    let t = fresh_request(clients).insert(connect_player(c), Some(c));
    assert(t.dom().contains(other));
    assert(t[other] is None);
    assert(!all_reported(t));
}

} // verus!
