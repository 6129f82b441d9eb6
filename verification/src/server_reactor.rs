//! The connection manager of a game with a fixed set of clients: one client
//! controller per key, each keeping the game's messages queued while its
//! client is away, and the links to the connecting clients, which pass only
//! what belongs to the identified client.
use vstd::prelude::*;
use std::collections::VecDeque;
use crate::assoc::{keys_distinct, has_key, assoc_map, find_key, lemma_has_key_dom, lemma_assoc_value, lemma_assoc_dom,
    lemma_assoc_update, lemma_assoc_lookup, assoc_insert, lemma_assoc_insert, lists_entries, lemma_lists_entries};
use crate::reactor::ReactorId;
use crate::ids::{Identifier, PlayerId};

verus! {

/// The view of a queue of texts.
pub open spec fn texts_view(v: Seq<String>) -> Seq<Seq<char>> {
    v.map_values(|s: String| s@)
}

/// Takes every text out of a queue, in order.
pub fn drain_queue(queue: &mut VecDeque<String>) -> (r: Vec<String>)
    ensures
        texts_view(r@) == texts_view(old(queue)@),
        final(queue)@.len() == 0,
{
    let mut out: Vec<String> = Vec::new();
    let ghost b = texts_view(queue@);
    while queue.len() > 0
        invariant
            b == texts_view(out@) + texts_view(queue@),
        decreases queue@.len(),
    {
        let ghost before = queue@;
        match queue.pop_front() {
            Some(s) => {
                out.push(s);
                proof {
                    assert(before =~= seq![s].add(queue@));
                    assert(texts_view(out@) =~= texts_view(out@.drop_last()).push(s@));
                    assert(texts_view(before) =~= seq![s@].add(texts_view(queue@)));
                    assert(texts_view(out@) + texts_view(queue@) =~= texts_view(out@.drop_last()) + texts_view(before));
                }
            },
            None => {},
        }
    }
    proof {
        assert(texts_view(queue@) =~= Seq::<Seq<char>>::empty());
        assert(b =~= texts_view(out@));
    }
    out
}

/// Texts for a client that may be away: kept in order while it is away and
/// handed over, in order, while it is connected.
pub struct ClientController {
    connected: bool,
    queue: VecDeque<String>,
    id: PlayerId,
    key: Identifier,
}

impl ClientController {
    pub closed spec fn connected_view(&self) -> bool { self.connected }
    pub closed spec fn queue_view(&self) -> Seq<Seq<char>> { texts_view(self.queue@) }
    pub closed spec fn id_view(&self) -> PlayerId { self.id }
    pub closed spec fn key_view(&self) -> Identifier { self.key }

    /// A controller for player `id` with key `key`, whose client is away.
    pub fn new(id: PlayerId, key: Identifier) -> (r: Self)
        ensures
            !r.connected_view(),
            r.queue_view() == Seq::<Seq<char>>::empty(),
            r.id_view() == id,
            r.key_view() == key,
    {
        let r = ClientController { connected: false, queue: VecDeque::new(), id, key };
        proof {
            assert(texts_view(r.queue@) =~= Seq::<Seq<char>>::empty());
        }
        r
    }

    /// While connected, hands over everything queued, in order.
    fn empty_queue(&mut self) -> (r: Vec<String>)
        ensures
            final(self).connected_view() == old(self).connected_view(),
            final(self).id_view() == old(self).id_view(),
            final(self).key_view() == old(self).key_view(),
            old(self).connected_view() ==> texts_view(r@) == old(self).queue_view()
                && final(self).queue_view() == Seq::<Seq<char>>::empty(),
            !old(self).connected_view() ==> r@.len() == 0 && final(self).queue_view() == old(self).queue_view(),
    {
        if self.connected {
            let r = drain_queue(&mut self.queue);
            proof {
                assert(texts_view(self.queue@) =~= Seq::<Seq<char>>::empty());
            }
            r
        } else {
            Vec::new()
        }
    }

    /// A text for the client: queued, and handed over with everything queued
    /// before it while the client is connected.
    pub fn handle_message(&mut self, state: String) -> (r: Vec<String>)
        ensures
            final(self).connected_view() == old(self).connected_view(),
            final(self).id_view() == old(self).id_view(),
            final(self).key_view() == old(self).key_view(),
            old(self).connected_view() ==> texts_view(r@) == old(self).queue_view().push(state@)
                && final(self).queue_view() == Seq::<Seq<char>>::empty(),
            !old(self).connected_view() ==> r@.len() == 0 && final(self).queue_view() == old(self).queue_view().push(state@),
    {
        let ghost sv = state@;
        self.queue.push_back(state);
        proof {
            assert(texts_view(self.queue@) =~= texts_view(old(self).queue@).push(sv));
        }
        self.empty_queue()
    }

    /// The client connected: everything queued is handed over, in order.
    pub fn client_connected(&mut self) -> (r: Vec<String>)
        ensures
            final(self).connected_view(),
            final(self).id_view() == old(self).id_view(),
            final(self).key_view() == old(self).key_view(),
            texts_view(r@) == old(self).queue_view(),
            final(self).queue_view() == Seq::<Seq<char>>::empty(),
    {
        self.connected = true;
        self.empty_queue()
    }

    /// The client went away: texts are queued until it is back.
    pub fn client_disconnected(&mut self)
        ensures
            !final(self).connected_view(),
            final(self).queue_view() == old(self).queue_view(),
            final(self).id_view() == old(self).id_view(),
            final(self).key_view() == old(self).key_view(),
    {
        self.connected = false;
    }

    /// The player the controller serves.
    pub fn player_id(&self) -> (r: PlayerId)
        ensures
            r == self.id_view(),
    {
        self.id
    }
}


/// What a controller hands over when `msg` arrives for every client.
pub open spec fn handed_over(c: ClientController, msg: Seq<char>) -> Seq<Seq<char>> {
    if c.connected_view() { c.queue_view().push(msg) } else { Seq::empty() }
}

/// A controller after `msg` arrived for every client.
pub open spec fn after_broadcast(old_c: ClientController, new_c: ClientController, msg: Seq<char>) -> bool {
    &&& new_c.connected_view() == old_c.connected_view()
    &&& new_c.id_view() == old_c.id_view()
    &&& new_c.key_view() == old_c.key_view()
    &&& new_c.queue_view() == (if old_c.connected_view() { Seq::empty() } else { old_c.queue_view().push(msg) })
}

/// The view of handed-over texts, by key.
pub open spec fn outputs_view(v: Seq<(u64, Vec<String>)>) -> Seq<(u64, Seq<Seq<char>>)> {
    v.map_values(|e: (u64, Vec<String>)| (e.0, texts_view(e.1@)))
}

/// Keeps, for every key, the controller of its client; the host can always
/// send to every client.
pub struct ConnectionManager {
    runtime_id: ReactorId,
    client_controllers: Vec<(u64, ClientController)>,
    foreign_id: ReactorId,
}

impl ConnectionManager {
    #[verifier::type_invariant]
    spec fn inv(self) -> bool {
        keys_distinct(self.client_controllers@)
    }

    /// The controller of every key.
    pub closed spec fn controllers_view(&self) -> Map<u64, ClientController> {
        assoc_map(self.client_controllers@)
    }

    pub closed spec fn runtime_id_view(&self) -> ReactorId { self.runtime_id }
    pub closed spec fn foreign_id_view(&self) -> ReactorId { self.foreign_id }

    /// A manager for the clients `ids` (key and player; for a key listed
    /// twice the later entry counts), none of which is connected, serving the
    /// host `foreign_id`.
    pub fn params(runtime_id: ReactorId, ids: Vec<(Identifier, PlayerId)>, foreign_id: ReactorId) -> (r: Self)
        ensures
            r.runtime_id_view() == runtime_id,
            r.foreign_id_view() == foreign_id,
            forall|k: u64| #[trigger] r.controllers_view().dom().contains(k) <==>
                exists|i: int| 0 <= i < ids@.len() && (#[trigger] ids@[i]).0.value_view() == k,
            forall|k: u64| #[trigger] r.controllers_view().dom().contains(k) ==> {
                let c = r.controllers_view()[k];
                &&& !c.connected_view()
                &&& c.queue_view() == Seq::<Seq<char>>::empty()
                &&& c.key_view().value_view() == k
            },
    {
        let mut table: Vec<(u64, ClientController)> = Vec::new();
        let mut i: usize = 0;
        while i < ids.len()
            invariant
                i <= ids@.len(),
                keys_distinct(table@),
                forall|k: u64| #[trigger] has_key(table@, k) <==>
                    exists|j: int| 0 <= j < i && (#[trigger] ids@[j]).0.value_view() == k,
                forall|j: int| 0 <= j < table@.len() ==> {
                    let c = (#[trigger] table@[j]).1;
                    &&& !c.connected_view()
                    &&& c.queue_view() == Seq::<Seq<char>>::empty()
                    &&& c.key_view().value_view() == table@[j].0
                },
            decreases ids.len() - i,
        {
            let (key, player) = ids[i];
            let k = key.value();
            let cc = ClientController::new(player, key);
            let ghost before = table@;
            let found = find_key(&table, k);
            proof {
                lemma_assoc_insert(before, k, cc, found);
            }
            match found {
                Some(x) => {
                    table.set(x, (k, cc));
                },
                None => {
                    table.push((k, cc));
                },
            }
            i = i + 1;
            proof {
                assert(table@ =~= assoc_insert(before, k, cc, found));
                assert forall|q: u64| #[trigger] has_key(table@, q) <==>
                    exists|j: int| 0 <= j < i && (#[trigger] ids@[j]).0.value_view() == q by {
                    if has_key(table@, q) {
                        let x = choose|x: int| 0 <= x < table@.len() && #[trigger] table@[x].0 == q;
                        if q != k {
                            if x < before.len() {
                                assert(before[x].0 == q);
                                assert(has_key(before, q));
                            }
                        } else {
                            assert(ids@[i - 1].0.value_view() == q);
                        }
                    }
                    if exists|j: int| 0 <= j < i && (#[trigger] ids@[j]).0.value_view() == q {
                        let j = choose|j: int| 0 <= j < i && (#[trigger] ids@[j]).0.value_view() == q;
                        if j < i - 1 {
                            assert(has_key(before, q));
                            let x = choose|x: int| 0 <= x < before.len() && #[trigger] before[x].0 == q;
                            assert(table@[x].0 == q);
                        } else {
                            match found {
                                Some(x) => assert(table@[x as int].0 == q),
                                None => assert(table@[table@.len() - 1].0 == q),
                            }
                        }
                    }
                }
            }
        }
        proof {
            lemma_assoc_dom(table@);
            assert forall|k: u64| #[trigger] assoc_map(table@).dom().contains(k) implies {
                let c = assoc_map(table@)[k];
                &&& !c.connected_view()
                &&& c.queue_view() == Seq::<Seq<char>>::empty()
                &&& c.key_view().value_view() == k
            } by {
                let x = lemma_assoc_lookup(table@, k);
            }
        }
        ConnectionManager { runtime_id, client_controllers: table, foreign_id }
    }

    /// The client with key `id` connected: everything queued for it is handed
    /// over, in order; an unknown key is ignored.
    pub fn handle_connect(&mut self, id: Identifier) -> (r: Vec<String>)
        ensures
            final(self).controllers_view().dom() == old(self).controllers_view().dom(),
            forall|k: u64| k != id.value_view() && #[trigger] old(self).controllers_view().dom().contains(k)
                ==> final(self).controllers_view()[k] == old(self).controllers_view()[k],
            old(self).controllers_view().dom().contains(id.value_view()) ==> {
                let o = old(self).controllers_view()[id.value_view()];
                let n = final(self).controllers_view()[id.value_view()];
                &&& n.connected_view()
                &&& n.queue_view() == Seq::<Seq<char>>::empty()
                &&& n.id_view() == o.id_view()
                &&& n.key_view() == o.key_view()
                &&& texts_view(r@) == o.queue_view()
            },
            !old(self).controllers_view().dom().contains(id.value_view()) ==> r@.len() == 0,
            final(self).runtime_id_view() == old(self).runtime_id_view(),
            final(self).foreign_id_view() == old(self).foreign_id_view(),
    {
        proof {
            use_type_invariant(&*self);
        }
        let k = id.value();
        let mut table: Vec<(u64, ClientController)> = Vec::new();
        std::mem::swap(&mut table, &mut self.client_controllers);
        let ghost before = table@;
        match find_key(&table, k) {
            Some(i) => {
                let (key, mut cc) = table.remove(i);
                let out = cc.client_connected();
                table.insert(i, (key, cc));
                proof {
                    assert(table@ =~= before.update(i as int, (before[i as int].0, cc)));
                    lemma_assoc_update(before, i as int, cc);
                    lemma_assoc_value(before, i as int);
                }
                self.client_controllers = table;
                out
            },
            None => {
                proof {
                    lemma_has_key_dom(before, k);
                }
                self.client_controllers = table;
                Vec::new()
            },
        }
    }

    /// The client with key `id` went away; an unknown key is ignored.
    pub fn handle_disconnect(&mut self, id: Identifier)
        ensures
            final(self).controllers_view().dom() == old(self).controllers_view().dom(),
            forall|k: u64| k != id.value_view() && #[trigger] old(self).controllers_view().dom().contains(k)
                ==> final(self).controllers_view()[k] == old(self).controllers_view()[k],
            old(self).controllers_view().dom().contains(id.value_view()) ==> {
                let o = old(self).controllers_view()[id.value_view()];
                let n = final(self).controllers_view()[id.value_view()];
                &&& !n.connected_view()
                &&& n.queue_view() == o.queue_view()
                &&& n.id_view() == o.id_view()
                &&& n.key_view() == o.key_view()
            },
            final(self).runtime_id_view() == old(self).runtime_id_view(),
            final(self).foreign_id_view() == old(self).foreign_id_view(),
    {
        proof {
            use_type_invariant(&*self);
        }
        let k = id.value();
        let mut table: Vec<(u64, ClientController)> = Vec::new();
        std::mem::swap(&mut table, &mut self.client_controllers);
        let ghost before = table@;
        match find_key(&table, k) {
            Some(i) => {
                let (key, mut cc) = table.remove(i);
                cc.client_disconnected();
                table.insert(i, (key, cc));
                proof {
                    assert(table@ =~= before.update(i as int, (before[i as int].0, cc)));
                    lemma_assoc_update(before, i as int, cc);
                    lemma_assoc_value(before, i as int);
                }
            },
            None => {
                proof {
                    lemma_has_key_dom(before, k);
                }
            },
        }
        self.client_controllers = table;
    }

    /// The host sends `msg` to every client: every controller takes it in;
    /// returns, for every key, what its controller hands over to its client.
    pub fn handle_host_msg(&mut self, msg: &String) -> (r: Vec<(u64, Vec<String>)>)
        ensures
            final(self).controllers_view().dom() == old(self).controllers_view().dom(),
            forall|k: u64| #[trigger] old(self).controllers_view().dom().contains(k)
                ==> after_broadcast(old(self).controllers_view()[k], final(self).controllers_view()[k], msg@),
            lists_entries(outputs_view(r@), Map::new(|k: u64| old(self).controllers_view().dom().contains(k),
                |k: u64| handed_over(old(self).controllers_view()[k], msg@))),
            final(self).runtime_id_view() == old(self).runtime_id_view(),
            final(self).foreign_id_view() == old(self).foreign_id_view(),
    {
        proof {
            use_type_invariant(&*self);
        }
        let mut table: Vec<(u64, ClientController)> = Vec::new();
        std::mem::swap(&mut table, &mut self.client_controllers);
        let ghost before = table@;
        let mut done: Vec<(u64, ClientController)> = Vec::new();
        let mut out: Vec<(u64, Vec<String>)> = Vec::new();
        let mut i: usize = 0;
        let n = table.len();
        while table.len() > 0
            invariant
                keys_distinct(before),
                n == before.len(),
                i + table@.len() == n,
                table@ == before.subrange(i as int, before.len() as int),
                done@.len() == i,
                out@.len() == i,
                forall|j: int| 0 <= j < i ==> (#[trigger] done@[j]).0 == before[j].0
                    && after_broadcast(before[j].1, done@[j].1, msg@),
                forall|j: int| 0 <= j < i ==> (#[trigger] outputs_view(out@)[j]) == (before[j].0, handed_over(before[j].1, msg@)),
            decreases table@.len(),
        {
            let (key, mut cc) = table.remove(0);
            let ghost c0 = cc;
            let handed = cc.handle_message(msg.clone());
            proof {
                assert(before[i as int] == (key, c0));
                assert(texts_view(handed@) == handed_over(c0, msg@)) by {
                    if !c0.connected_view() {
                        assert(texts_view(handed@) =~= Seq::<Seq<char>>::empty());
                    }
                }
            }
            let ghost hv = texts_view(handed@);
            let ghost old_out = out@;
            done.push((key, cc));
            out.push((key, handed));
            i = i + 1;
            proof {
                assert(table@ =~= before.subrange(i as int, before.len() as int));
                assert forall|j: int| 0 <= j < i implies (#[trigger] outputs_view(out@)[j]) == (before[j].0, handed_over(before[j].1, msg@)) by {
                    if j < i - 1 {
                        assert(out@[j] == old_out[j]);
                        assert(outputs_view(out@)[j] == outputs_view(old_out)[j]);
                    } else {
                        assert(outputs_view(out@)[j] == (key, hv));
                    }
                }
            }
        }
        proof {
            let f = |k: u64| handed_over(assoc_map(before)[k], msg@);
            let e = outputs_view(out@);
            let target = before.map_values(|x: (u64, ClientController)| (x.0, handed_over(x.1, msg@)));
            assert(e =~= target);
            crate::assoc::lemma_assoc_map_vals(before, target, |c: ClientController| handed_over(c, msg@));
            lemma_lists_entries(target);
            assert(assoc_map(target) =~= Map::new(|k: u64| assoc_map(before).dom().contains(k),
                |k: u64| handed_over(assoc_map(before)[k], msg@)));
            assert(keys_distinct(done@)) by {
                assert forall|a: int, b: int| 0 <= a < done@.len() && 0 <= b < done@.len() && a != b
                    implies #[trigger] done@[a].0 != #[trigger] done@[b].0 by {
                    assert(done@[a].0 == before[a].0);
                    assert(done@[b].0 == before[b].0);
                }
            }
            lemma_assoc_dom(before);
            lemma_assoc_dom(done@);
            assert forall|k: u64| has_key(done@, k) <==> has_key(before, k) by {
                if has_key(done@, k) {
                    let x = choose|x: int| 0 <= x < done@.len() && #[trigger] done@[x].0 == k;
                    assert(before[x].0 == k);
                }
                if has_key(before, k) {
                    let x = choose|x: int| 0 <= x < before.len() && #[trigger] before[x].0 == k;
                    assert(done@[x].0 == k);
                }
            }
            assert(assoc_map(done@).dom() =~= assoc_map(before).dom());
            assert forall|k: u64| #[trigger] assoc_map(before).dom().contains(k)
                implies after_broadcast(assoc_map(before)[k], assoc_map(done@)[k], msg@) by {
                let x = lemma_assoc_lookup(done@, k);
                lemma_assoc_value(before, x);
            }
        }
        self.client_controllers = done;
        out
    }
}


/// The link with a connecting client: once the client identified itself with
/// its key, it passes the client's messages on under that key and only the
/// messages for that key back to the client.
pub struct ClientLink {
    key: Option<Identifier>,
}

impl ClientLink {
    pub closed spec fn key_view(&self) -> Option<Identifier> { self.key }

    /// A link with a client that has not identified itself yet.
    pub fn params() -> (r: Self)
        ensures
            r.key_view() is None,
    {
        ClientLink { key: None }
    }

    /// The client identified itself with `id`: the manager learns that the
    /// client with that key connected.
    pub fn e_handle_identify(&mut self, id: u64) -> (r: Identifier)
        ensures
            r.value_view() == id,
            final(self).key_view() == Some(r),
    {
        let key = Identifier::from_u64(id);
        self.key = Some(key);
        key
    }

    /// A message of the client: passed on under its key once identified.
    pub fn e_handle_message(&self, msg: String) -> (r: Option<(u64, String)>)
        ensures
            match self.key_view() {
                Some(k) => (r matches Some(x) && x.0 == k.value_view() && x.1 == msg),
                None => r is None,
            },
    {
        match self.key {
            Some(key) => Some((key.value(), msg)),
            None => None,
        }
    }

    /// The client disconnected: the manager learns it when the client had
    /// identified itself; the link closes in any case.
    pub fn e_handle_disconnect(&self) -> (r: Option<u64>)
        ensures
            match self.key_view() {
                Some(k) => r == Some(k.value_view()),
                None => r is None,
            },
    {
        match self.key {
            Some(key) => Some(key.value()),
            None => None,
        }
    }

    /// A message for the client with key `client_id`: sent to this client only
    /// when it is the one.
    pub fn i_handle_msg(&self, client_id: u64, msg: String) -> (r: Option<String>)
        ensures
            (self.key_view() matches Some(k) && k.value_view() == client_id) ==> r == Some(msg),
            !(self.key_view() matches Some(k) && k.value_view() == client_id) ==> r is None,
    {
        match self.key {
            Some(key) => if key.value() == client_id { Some(msg) } else { None },
            None => None,
        }
    }
}

} // verus!
