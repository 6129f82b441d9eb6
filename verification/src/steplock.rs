//! The step lock: collects one turn of every player before handing them to the
//! game as one batch, or hands over what it has when the turn times out.
use vstd::prelude::*;
use std::time::Duration;
use crate::assoc::{keys_distinct, has_key, assoc_map, lemma_assoc_dom, lemma_assoc_push, find_key,
    lemma_assoc_len, lemma_assoc_same_keys_const, lemma_assoc_lookup, lemma_assoc_value,
    lemma_assoc_update, lemma_assoc_remove};
use crate::reactor::{ReactorId, TargetReactor, LinkParams};
use crate::types::{PlayerId, Data, PlayerMsg, PlayerMsgView, HostMsg, HostMsgView, opt_data_view, clone_opt_data};

verus! {

/// The view of a step: each player with the turn it has sent, if any.
pub type StepView = Map<PlayerId, Option<Seq<u8>>>;

/// Every player of the step has sent a turn.
pub open spec fn all_sent(m: StepView) -> bool {
    forall|k: PlayerId| #[trigger] m.dom().contains(k) ==> m[k] is Some
}

/// The same players, none of which has sent a turn.
pub open spec fn cleared(m: StepView) -> StepView {
    Map::new(|k: PlayerId| m.dom().contains(k), |k: PlayerId| None::<Seq<u8>>)
}

/// `batch` holds exactly one message for each player of `m`, carrying that
/// player's turn.
pub open spec fn is_batch_of(batch: Seq<PlayerMsgView>, m: StepView) -> bool {
    &&& batch.len() == m.dom().len()
    &&& forall|i: int| 0 <= i < batch.len() ==> #[trigger] m.dom().contains(batch[i].id)
        && batch[i].data == m[batch[i].id]
    &&& forall|i: int, j: int| 0 <= i < batch.len() && 0 <= j < batch.len() && i != j
        ==> #[trigger] batch[i].id != #[trigger] batch[j].id
    &&& forall|k: PlayerId| #[trigger] m.dom().contains(k)
        ==> exists|i: int| 0 <= i < batch.len() && #[trigger] batch[i].id == k
}

/// The view of a list of player messages.
pub open spec fn player_msgs_view(v: Seq<PlayerMsg>) -> Seq<PlayerMsgView> {
    v.map_values(|m: PlayerMsg| m@)
}

/// The view of the step table.
pub open spec fn step_seq(s: Seq<(PlayerId, Option<Data>)>) -> Seq<(PlayerId, Option<Seq<u8>>)> {
    s.map_values(|e: (PlayerId, Option<Data>)| (e.0, opt_data_view(e.1)))
}

/// What a step lock sends when it hands a step over, in this order: first a
/// reset of the time-out (to every link, so the generator restarts its
/// timer), then the batch of turns (to the game).
#[derive(Debug)]
pub struct Flush {
    pub reset_to: TargetReactor,
    pub batch: Vec<PlayerMsg>,
    pub batch_to: TargetReactor,
}

/// Buffers the turns of the players of one game step.
pub struct StepLock {
    step: Vec<(PlayerId, Option<Data>)>,
    players: Vec<PlayerId>,
    host: ReactorId,
    player_id: ReactorId,
    timeout_ms: Option<Duration>,
    init_timeout_ms: Option<Duration>,
}

impl StepLock {
    #[verifier::type_invariant]
    spec fn inv(self) -> bool {
        keys_distinct(step_seq(self.step@))
    }

    /// Each player of the current step with the turn it has sent, if any.
    pub closed spec fn step_view(&self) -> StepView {
        assoc_map(step_seq(self.step@))
    }

    /// The players the lock was made for.
    pub closed spec fn players_view(&self) -> Seq<PlayerId> {
        self.players@
    }

    /// The reactor the batches go to.
    pub closed spec fn host_view(&self) -> ReactorId {
        self.host
    }

    /// The reactor that forwards the players' messages.
    pub closed spec fn player_id_view(&self) -> ReactorId {
        self.player_id
    }

    /// The time a step may take, if limited.
    pub closed spec fn timeout_view(&self) -> Option<Duration> {
        self.timeout_ms
    }

    /// The time the first step may take, if limited.
    pub closed spec fn init_timeout_view(&self) -> Option<Duration> {
        self.init_timeout_ms
    }

    /// A lock for `players`, none of which has sent a turn, with no time limits.
    pub fn new(players: Vec<PlayerId>) -> (r: Self)
        ensures
            r.step_view() == (Map::new(|k: PlayerId| players@.contains(k), |k: PlayerId| None::<Seq<u8>>)),
            r.players_view() == players@,
            r.host_view().id == 0,
            r.player_id_view().id == 0,
            r.timeout_view() == (None::<Duration>),
            r.init_timeout_view() == (None::<Duration>),
    {
        let mut step: Vec<(PlayerId, Option<Data>)> = Vec::new();
        let mut i: usize = 0;
        proof {
            assert(step_seq(step@) =~= Seq::empty());
            assert(assoc_map(step_seq(step@)) =~= Map::empty());
        }
        while i < players.len()
            invariant
                i <= players@.len(),
                keys_distinct(step_seq(step@)),
                assoc_map(step_seq(step@)) == Map::new(
                    |k: PlayerId| players@.subrange(0, i as int).contains(k),
                    |k: PlayerId| None::<Seq<u8>>,
                ),
            decreases players.len() - i,
        {
            let id = players[i];
            let found = find_key(&step, id);
            let ghost before = step_seq(step@);
            proof {
                lemma_assoc_dom(before);
            }
            if found.is_none() {
                proof {
                    assert(!has_key(before, id)) by {
                        if has_key(before, id) {
                            let j = choose|j: int| 0 <= j < before.len() && #[trigger] before[j].0 == id;
                            assert(step@[j].0 == id);
                        }
                    }
                    lemma_assoc_push(before, id, None::<Seq<u8>>);
                    assert(step_seq(step@.push((id, None::<Data>))) =~= before.push((id, None::<Seq<u8>>)));
                }
                step.push((id, None));
            } else {
                proof {
                    let j = found->0 as int;
                    assert(before[j].0 == id);
                    assert(has_key(before, id));
                    assert(assoc_map(before).dom().contains(id));
                }
            }
            i = i + 1;
            proof {
                let sub = players@.subrange(0, i as int);
                let prev = players@.subrange(0, i - 1);
                assert(sub =~= prev.push(id));
                assert forall|k: PlayerId| sub.contains(k) <==> (prev.contains(k) || k == id) by {
                    if sub.contains(k) {
                        let j = choose|j: int| 0 <= j < sub.len() && sub[j] == k;
                        if j < prev.len() {
                            assert(prev[j] == k);
                        }
                    }
                    if prev.contains(k) {
                        let j = choose|j: int| 0 <= j < prev.len() && prev[j] == k;
                        assert(sub[j] == k);
                    }
                    if k == id {
                        assert(sub[i - 1] == k);
                    }
                }
                assert(assoc_map(step_seq(step@)) =~= Map::new(
                    |k: PlayerId| players@.subrange(0, i as int).contains(k),
                    |k: PlayerId| None::<Seq<u8>>,
                ));
            }
        }
        proof {
            assert(players@.subrange(0, players@.len() as int) =~= players@);
        }
        StepLock {
            step,
            players,
            host: ReactorId { id: 0 },
            player_id: ReactorId { id: 0 },
            timeout_ms: None,
            init_timeout_ms: None,
        }
    }
}


/// A table with distinct keys whose entries are turned one for one into
/// messages gives a batch of its map.
proof fn lemma_batch(s: Seq<(PlayerId, Option<Seq<u8>>)>, b: Seq<PlayerMsgView>)
    requires
        keys_distinct(s),
        b.len() == s.len(),
        forall|j: int| 0 <= j < s.len() ==> #[trigger] b[j] == (PlayerMsgView { id: s[j].0, data: s[j].1 }),
    ensures
        is_batch_of(b, assoc_map(s)),
{
    let m = assoc_map(s);
    lemma_assoc_len(s);
    assert forall|i: int| 0 <= i < b.len() implies #[trigger] m.dom().contains(b[i].id) && b[i].data == m[b[i].id] by {
        assert(b[i] == (PlayerMsgView { id: s[i].0, data: s[i].1 }));
        lemma_assoc_value(s, i);
    }
    assert forall|i: int, j: int| 0 <= i < b.len() && 0 <= j < b.len() && i != j implies #[trigger] b[i].id != #[trigger] b[j].id by {
        assert(b[i] == (PlayerMsgView { id: s[i].0, data: s[i].1 }));
        assert(b[j] == (PlayerMsgView { id: s[j].0, data: s[j].1 }));
    }
    assert forall|k: PlayerId| #[trigger] m.dom().contains(k) implies exists|i: int| 0 <= i < b.len() && #[trigger] b[i].id == k by {
        let i = lemma_assoc_lookup(s, k);
        assert(b[i] == (PlayerMsgView { id: s[i].0, data: s[i].1 }));
        assert(b[i].id == k);
    }
}

/// With distinct keys, every player has sent a turn exactly when every entry
/// holds one.
proof fn lemma_all_sent(s: Seq<(PlayerId, Option<Seq<u8>>)>)
    requires
        keys_distinct(s),
    ensures
        all_sent(assoc_map(s)) <==> (forall|j: int| 0 <= j < s.len() ==> (#[trigger] s[j]).1 is Some),
{
    if all_sent(assoc_map(s)) {
        assert forall|j: int| 0 <= j < s.len() implies (#[trigger] s[j]).1 is Some by {
            lemma_assoc_value(s, j);
        }
    }
    if forall|j: int| 0 <= j < s.len() ==> (#[trigger] s[j]).1 is Some {
        assert forall|k: PlayerId| #[trigger] assoc_map(s).dom().contains(k) implies assoc_map(s)[k] is Some by {
            let j = lemma_assoc_lookup(s, k);
            assert(s[j].1 is Some);
        }
    }
}

/// The settings of a lock other than its step.
pub open spec fn same_settings(a: &StepLock, b: &StepLock) -> bool {
    &&& a.players_view() == b.players_view()
    &&& a.host_view() == b.host_view()
    &&& a.player_id_view() == b.player_id_view()
    &&& a.timeout_view() == b.timeout_view()
    &&& a.init_timeout_view() == b.init_timeout_view()
}

/// What a host message does to a step: a kicked player is no longer waited for.
pub open spec fn step_after_host_msg(m: StepView, msg: HostMsgView) -> StepView {
    match msg {
        HostMsgView::Kick(id) => m.remove(id),
        HostMsgView::Data(_, _) => m,
    }
}

impl StepLock {
    /// Limits the time a step may take.
    pub fn with_timeout(self, timeout: Duration) -> (r: Self)
        ensures
            r.timeout_view() == Some(timeout),
            r.step_view() == self.step_view(),
            r.players_view() == self.players_view(),
            r.host_view() == self.host_view(),
            r.player_id_view() == self.player_id_view(),
            r.init_timeout_view() == self.init_timeout_view(),
    {
        proof {
            use_type_invariant(&self);
        }
        StepLock { timeout_ms: Some(timeout), ..self }
    }

    /// Limits the time the first step may take.
    pub fn with_init_timeout(self, timeout: Duration) -> (r: Self)
        ensures
            r.init_timeout_view() == Some(timeout),
            r.step_view() == self.step_view(),
            r.players_view() == self.players_view(),
            r.host_view() == self.host_view(),
            r.player_id_view() == self.player_id_view(),
            r.timeout_view() == self.timeout_view(),
    {
        proof {
            use_type_invariant(&self);
        }
        StepLock { init_timeout_ms: Some(timeout), ..self }
    }

    /// Places the lock between the game `host` and the reactor `player_id`
    /// that forwards the players' messages.
    pub fn params(self, host: ReactorId, player_id: ReactorId) -> (r: Self)
        ensures
            r.host_view() == host,
            r.player_id_view() == player_id,
            r.step_view() == self.step_view(),
            r.players_view() == self.players_view(),
            r.timeout_view() == self.timeout_view(),
            r.init_timeout_view() == self.init_timeout_view(),
    {
        proof {
            use_type_invariant(&self);
        }
        StepLock { host, player_id, ..self }
    }

    /// Resets the time-out and hands every buffered turn over as one batch to
    /// the game; starts a new step for the same players.
    fn flush_msgs(&mut self) -> (r: Flush)
        ensures
            r.reset_to == TargetReactor::Links,
            r.batch_to == TargetReactor::Link(old(self).host_view()),
            is_batch_of(player_msgs_view(r.batch@), old(self).step_view()),
            final(self).step_view() == cleared(old(self).step_view()),
            same_settings(&*final(self), &*old(self)),
    {
        proof {
            use_type_invariant(&*self);
        }
        let mut old_step: Vec<(PlayerId, Option<Data>)> = Vec::new();
        std::mem::swap(&mut old_step, &mut self.step);
        let ghost s = step_seq(old_step@);
        let mut batch: Vec<PlayerMsg> = Vec::new();
        let mut new_step: Vec<(PlayerId, Option<Data>)> = Vec::new();
        let mut i: usize = 0;
        while i < old_step.len()
            invariant
                i <= old_step@.len(),
                s == step_seq(old_step@),
                batch@.len() == i,
                new_step@.len() == i,
                forall|j: int| 0 <= j < i ==> #[trigger] batch@[j]@ == (PlayerMsgView { id: s[j].0, data: s[j].1 }),
                forall|j: int| 0 <= j < i ==> (#[trigger] new_step@[j]).0 == s[j].0 && new_step@[j].1 is None,
            decreases old_step.len() - i,
        {
            let id = old_step[i].0;
            let d = clone_opt_data(&old_step[i].1);
            batch.push(PlayerMsg { id, data: d });
            new_step.push((id, None));
            i = i + 1;
        }
        proof {
            let b = player_msgs_view(batch@);
            assert forall|j: int| 0 <= j < s.len() implies #[trigger] b[j] == (PlayerMsgView { id: s[j].0, data: s[j].1 }) by {
                assert(b[j] == batch@[j]@);
            }
            lemma_batch(s, b);
            assert forall|j: int| 0 <= j < s.len() implies #[trigger] step_seq(new_step@)[j] == (s[j].0, None::<Seq<u8>>) by {
                assert(new_step@[j].1 is None);
            }
            lemma_assoc_same_keys_const(s, step_seq(new_step@), None::<Seq<u8>>);
            assert(assoc_map(step_seq(new_step@)) =~= cleared(assoc_map(s)));
        }
        self.step = new_step;
        Flush { reset_to: TargetReactor::Links, batch, batch_to: TargetReactor::Link(self.host) }
    }

    /// Takes in the turn of a player. Once every player of the step has sent a
    /// turn, resets the time-out, hands the batch of all turns to the game and
    /// starts a new step.
    pub fn player_msg(&mut self, e: &PlayerMsg) -> (r: Option<Flush>)
        requires
            e.data is Some,
        ensures
            ({
                let m = old(self).step_view().insert(e.id, e@.data);
                if all_sent(m) {
                    &&& r is Some
                    &&& r->0.reset_to == TargetReactor::Links
                    &&& r->0.batch_to == TargetReactor::Link(old(self).host_view())
                    &&& is_batch_of(player_msgs_view(r->0.batch@), m)
                    &&& final(self).step_view() == cleared(m)
                } else {
                    &&& r is None
                    &&& final(self).step_view() == m
                }
            }),
            same_settings(&*final(self), &*old(self)),
    {
        proof {
            use_type_invariant(&*self);
        }
        let mut step: Vec<(PlayerId, Option<Data>)> = Vec::new();
        std::mem::swap(&mut step, &mut self.step);
        let ghost s = step_seq(step@);
        let data = clone_opt_data(&e.data);
        let found = find_key(&step, e.id);
        match found {
            Some(i) => {
                step[i] = (e.id, data);
                proof {
                    lemma_assoc_update(s, i as int, e@.data);
                    assert(step_seq(step@) =~= s.update(i as int, (s[i as int].0, e@.data)));
                }
            },
            None => {
                proof {
                    assert(!has_key(s, e.id)) by {
                        if has_key(s, e.id) {
                            let j = choose|j: int| 0 <= j < s.len() && #[trigger] s[j].0 == e.id;
                            assert(step@[j].0 == e.id);
                        }
                    }
                    lemma_assoc_push(s, e.id, e@.data);
                }
                step.push((e.id, data));
                proof {
                    assert(step_seq(step@) =~= s.push((e.id, e@.data)));
                }
            },
        }
        let ghost t = step_seq(step@);
        let mut all = true;
        let mut j: usize = 0;
        while j < step.len()
            invariant
                j <= step@.len(),
                t == step_seq(step@),
                all <==> (forall|x: int| 0 <= x < j ==> (#[trigger] t[x]).1 is Some),
            decreases step.len() - j,
        {
            if step[j].1.is_none() {
                all = false;
            }
            j = j + 1;
            proof {
                assert(t[j - 1].1 == opt_data_view(step@[j - 1].1));
            }
        }
        proof {
            lemma_all_sent(t);
        }
        self.step = step;
        if all {
            Some(self.flush_msgs())
        } else {
            None
        }
    }

    /// Takes in a message of the game: a kicked player is no longer waited for.
    pub fn host_msg(&mut self, m: &HostMsg)
        ensures
            final(self).step_view() == step_after_host_msg(old(self).step_view(), m@),
            same_settings(&*final(self), &*old(self)),
    {
        proof {
            use_type_invariant(&*self);
        }
        if let HostMsg::Kick(id) = m {
            let mut step: Vec<(PlayerId, Option<Data>)> = Vec::new();
            std::mem::swap(&mut step, &mut self.step);
            let ghost s = step_seq(step@);
            match find_key(&step, *id) {
                Some(i) => {
                    step.remove(i);
                    proof {
                        lemma_assoc_remove(s, i as int);
                        assert(step_seq(step@) =~= s.remove(i as int));
                    }
                },
                None => {
                    proof {
                        lemma_assoc_dom(s);
                        assert(!has_key(s, *id)) by {
                            if has_key(s, *id) {
                                let j = choose|j: int| 0 <= j < s.len() && #[trigger] s[j].0 == *id;
                                assert(step@[j].0 == *id);
                            }
                        }
                        assert(assoc_map(s).remove(*id) =~= assoc_map(s));
                    }
                },
            }
            self.step = step;
        }
    }

    /// The step took too long: resets the time-out, hands the turns sent so
    /// far to the game and starts a new step.
    pub fn timeout(&mut self) -> (r: Flush)
        ensures
            r.reset_to == TargetReactor::Links,
            r.batch_to == TargetReactor::Link(old(self).host_view()),
            is_batch_of(player_msgs_view(r.batch@), old(self).step_view()),
            final(self).step_view() == cleared(old(self).step_view()),
            same_settings(&*final(self), &*old(self)),
    {
        self.flush_msgs()
    }
}


/// The kinds of messages that pass a step lock's links.
#[derive(Clone, Copy, Debug, PartialEq, Eq, Structural)]
pub enum StepLockMsgKind {
    PlayerMsg,
    PlayerMsgs,
    StateRes,
    ClientStateUpdate,
    Start,
    HostMsg,
    StateReq,
    ResetTimeOut,
    TimeOut,
}

/// A link's settings from its parts.
fn link(remote: ReactorId, internal: Vec<StepLockMsgKind>, external: Vec<(StepLockMsgKind, TargetReactor)>) -> (r: LinkParams<StepLockMsgKind>)
    ensures
        r.remote == remote,
        r.internal@ == internal@,
        r.external@ == external@,
{
    LinkParams { remote, internal, external }
}

impl StepLock {
    /// The links the lock opens when it starts, all kept open: to the game,
    /// which gets the players' messages, statuses, start and state answers,
    /// and whose messages go everywhere (state requests to the players'
    /// side); to the players' side, which gets the game's messages and state
    /// requests, and whose turns come to the lock (the rest going to the
    /// game); and to its time-out generator `timeout_id`, which gets timer
    /// resets and whose time-outs come to the lock.
    pub fn init_links(&self, timeout_id: ReactorId) -> (r: Vec<(LinkParams<StepLockMsgKind>, bool)>)
        ensures
            r@.len() == 3,
            r@[0].1 && r@[1].1 && r@[2].1,
            r@[0].0.remote == self.host_view(),
            r@[0].0.internal@ == seq![StepLockMsgKind::PlayerMsg, StepLockMsgKind::PlayerMsgs,
                StepLockMsgKind::StateRes, StepLockMsgKind::ClientStateUpdate, StepLockMsgKind::Start],
            r@[0].0.external@ == seq![(StepLockMsgKind::HostMsg, TargetReactor::All),
                (StepLockMsgKind::StateReq, TargetReactor::Link(self.player_id_view()))],
            r@[1].0.remote == self.player_id_view(),
            r@[1].0.internal@ == seq![StepLockMsgKind::HostMsg, StepLockMsgKind::StateReq],
            r@[1].0.external@ == seq![(StepLockMsgKind::PlayerMsg, TargetReactor::Reactor),
                (StepLockMsgKind::Start, TargetReactor::Link(self.host_view())),
                (StepLockMsgKind::StateRes, TargetReactor::Link(self.host_view())),
                (StepLockMsgKind::ClientStateUpdate, TargetReactor::Link(self.host_view()))],
            r@[2].0.remote == timeout_id,
            r@[2].0.internal@ == seq![StepLockMsgKind::ResetTimeOut],
            r@[2].0.external@ == seq![(StepLockMsgKind::TimeOut, TargetReactor::Reactor)],
    {
        let host = self.host;
        let player_id = self.player_id;

        let mut hi: Vec<StepLockMsgKind> = Vec::new();
        hi.push(StepLockMsgKind::PlayerMsg);
        hi.push(StepLockMsgKind::PlayerMsgs);
        hi.push(StepLockMsgKind::StateRes);
        hi.push(StepLockMsgKind::ClientStateUpdate);
        hi.push(StepLockMsgKind::Start);
        let mut he: Vec<(StepLockMsgKind, TargetReactor)> = Vec::new();
        he.push((StepLockMsgKind::HostMsg, TargetReactor::All));
        he.push((StepLockMsgKind::StateReq, TargetReactor::Link(player_id)));

        let mut ci: Vec<StepLockMsgKind> = Vec::new();
        ci.push(StepLockMsgKind::HostMsg);
        ci.push(StepLockMsgKind::StateReq);
        let mut ce: Vec<(StepLockMsgKind, TargetReactor)> = Vec::new();
        ce.push((StepLockMsgKind::PlayerMsg, TargetReactor::Reactor));
        ce.push((StepLockMsgKind::Start, TargetReactor::Link(host)));
        ce.push((StepLockMsgKind::StateRes, TargetReactor::Link(host)));
        ce.push((StepLockMsgKind::ClientStateUpdate, TargetReactor::Link(host)));

        let mut ti: Vec<StepLockMsgKind> = Vec::new();
        ti.push(StepLockMsgKind::ResetTimeOut);
        let mut te: Vec<(StepLockMsgKind, TargetReactor)> = Vec::new();
        te.push((StepLockMsgKind::TimeOut, TargetReactor::Reactor));

        proof {
            assert(hi@ =~= seq![StepLockMsgKind::PlayerMsg, StepLockMsgKind::PlayerMsgs,
                StepLockMsgKind::StateRes, StepLockMsgKind::ClientStateUpdate, StepLockMsgKind::Start]);
            assert(he@ =~= seq![(StepLockMsgKind::HostMsg, TargetReactor::All),
                (StepLockMsgKind::StateReq, TargetReactor::Link(player_id))]);
            assert(ci@ =~= seq![StepLockMsgKind::HostMsg, StepLockMsgKind::StateReq]);
            assert(ce@ =~= seq![(StepLockMsgKind::PlayerMsg, TargetReactor::Reactor),
                (StepLockMsgKind::Start, TargetReactor::Link(host)),
                (StepLockMsgKind::StateRes, TargetReactor::Link(host)),
                (StepLockMsgKind::ClientStateUpdate, TargetReactor::Link(host))]);
            assert(ti@ =~= seq![StepLockMsgKind::ResetTimeOut]);
            assert(te@ =~= seq![(StepLockMsgKind::TimeOut, TargetReactor::Reactor)]);
        }

        let mut out: Vec<(LinkParams<StepLockMsgKind>, bool)> = Vec::new();
        out.push((link(host, hi, he), true));
        out.push((link(player_id, ci, ce), true));
        out.push((link(timeout_id, ti, te), true));
        out
    }
}

/// Where the time-out generator of a step lock is: waiting for the first
/// step, timing the steps, or stopped.
#[derive(Clone, Copy, Debug, PartialEq, Eq, Structural)]
pub enum TimerPhase {
    First,
    Steps,
    Stopped,
}

/// What the time-out generator observes.
#[derive(Clone, Copy, Debug, PartialEq, Eq, Structural)]
pub enum TimerEvent {
    /// The lock reset the timer (it flushed a step).
    Reset,
    /// The lock closed the link.
    LinkClosed,
    /// The generator's channel ended.
    ChannelEnded,
    /// The running timer elapsed.
    Elapsed,
}

/// A timer runs in `phase` when the lock has a limit for it.
pub open spec fn timer_armed(phase: TimerPhase, init_timeout: bool, timeout: bool) -> bool {
    match phase {
        TimerPhase::First => init_timeout,
        TimerPhase::Steps => timeout,
        TimerPhase::Stopped => false,
    }
}

/// The time-out generator's next phase, and whether it sends a time-out to
/// the lock. The first step waits for a reset (or, with a limit for the first
/// step, for that limit to pass, which sends a time-out); later steps restart
/// their timer on each reset and send a time-out whenever the timer elapses;
/// without a limit for later steps, every reset is answered with a time-out
/// at once. A closed link or an ended channel stops the generator.
pub open spec fn timer_next(phase: TimerPhase, timeout: bool, ev: TimerEvent) -> (TimerPhase, bool) {
    match ev {
        TimerEvent::LinkClosed => (TimerPhase::Stopped, false),
        TimerEvent::ChannelEnded => (TimerPhase::Stopped, false),
        TimerEvent::Elapsed => (TimerPhase::Steps, true),
        TimerEvent::Reset => match phase {
            TimerPhase::First => (TimerPhase::Steps, false),
            _ => (TimerPhase::Steps, !timeout),
        },
    }
}

/// The time-out generator sends a time-out exactly when it should: whenever
/// its running timer elapses, in the first step or any later one, it sends a
/// time-out and goes on timing steps; a reset in the first step sends none;
/// a later reset sends one at once exactly when there is no limit for the
/// steps; a closed link or an ended channel stops it without a time-out.
pub proof fn law_timer_times_out(phase: TimerPhase, timeout: bool)
    ensures
        timer_next(phase, timeout, TimerEvent::Elapsed).1,
        timer_next(phase, timeout, TimerEvent::Elapsed).0 == TimerPhase::Steps,
        !timer_next(TimerPhase::First, timeout, TimerEvent::Reset).1,
        timer_next(TimerPhase::Steps, timeout, TimerEvent::Reset).1 == !timeout,
        timer_next(phase, timeout, TimerEvent::Reset).0 == TimerPhase::Steps,
        timer_next(phase, timeout, TimerEvent::LinkClosed) == (TimerPhase::Stopped, false),
        timer_next(phase, timeout, TimerEvent::ChannelEnded) == (TimerPhase::Stopped, false),
{
}

/// One step of the time-out generator (see `timer_next`); the timer only
/// elapses while it runs.
pub fn timer_step(phase: TimerPhase, init_timeout: bool, timeout: bool, ev: TimerEvent) -> (r: (TimerPhase, bool))
    requires
        phase != TimerPhase::Stopped,
        ev == TimerEvent::Elapsed ==> timer_armed(phase, init_timeout, timeout),
    ensures
        r == timer_next(phase, timeout, ev),
        ev == TimerEvent::Elapsed ==> r == (TimerPhase::Steps, true),
        ev == TimerEvent::Reset ==> r.0 == TimerPhase::Steps && r.1 == (phase == TimerPhase::Steps && !timeout),
        (ev == TimerEvent::LinkClosed || ev == TimerEvent::ChannelEnded) ==> r == (TimerPhase::Stopped, false),
{
    match ev {
        TimerEvent::LinkClosed => (TimerPhase::Stopped, false),
        TimerEvent::ChannelEnded => (TimerPhase::Stopped, false),
        TimerEvent::Elapsed => (TimerPhase::Steps, true),
        TimerEvent::Reset => match phase {
            TimerPhase::First => (TimerPhase::Steps, false),
            _ => (TimerPhase::Steps, !timeout),
        },
    }
}

/// After a batch the lock waits for every player again: the new step has the
/// same players, and one turn does not complete it while another player of
/// the step is still to send.
pub proof fn law_batch_starts_new_step(m: StepView, id: PlayerId, turn: Seq<u8>, other: PlayerId)
    requires
        m.dom().contains(other),
        other != id,
    ensures
        cleared(m).dom() == m.dom(),
        !all_sent(cleared(m).insert(id, Some(turn))),
{
    assert(cleared(m).dom() =~= m.dom());
    assert(cleared(m).insert(id, Some(turn)).dom().contains(other));
}

/// A step that times out before any turn came hands the game one message for
/// each player, none carrying a turn.
pub proof fn law_empty_step_times_out_empty(batch: Seq<PlayerMsgView>, m: StepView)
    requires
        is_batch_of(batch, cleared(m)),
    ensures
        forall|i: int| 0 <= i < batch.len() ==> (#[trigger] batch[i]).data is None,
{
    assert forall|i: int| 0 <= i < batch.len() implies (#[trigger] batch[i]).data is None by {
        assert(cleared(m).dom().contains(batch[i].id));
    }
}

/// A kicked player is no longer waited for: when every other player of the
/// step has sent its turn, the kick completes the step.
pub proof fn law_kick_completes_step(m: StepView, id: PlayerId)
    requires
        forall|k: PlayerId| #[trigger] m.dom().contains(k) && k != id ==> m[k] is Some,
    ensures
        all_sent(step_after_host_msg(m, HostMsgView::Kick(id))),
{
    assert forall|k: PlayerId| #[trigger] step_after_host_msg(m, HostMsgView::Kick(id)).dom().contains(k)
        implies step_after_host_msg(m, HostMsgView::Kick(id))[k] is Some by {
        assert(m.dom().contains(k) && k != id);
    }
}

} // verus!
