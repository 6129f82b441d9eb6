//! The message resolver: numbers the messages sent to players, keeps track of
//! the requests that wait for an answer and of their deadlines, matches the
//! players' answers to the requests and reports the requests that timed out.
//!
//! Time is counted in ticks (a plain number); the wire encoding of payloads is
//! done by the caller.
use vstd::prelude::*;
use crate::assoc::{keys_distinct, has_key, assoc_map, find_key, lemma_has_key_dom, lemma_assoc_value, lemma_assoc_remove, assoc_insert, lemma_assoc_insert};
use crate::types::{PlayerId};

verus! {

/// The number of a message sent to a player.
#[derive(Clone, Copy, Debug, PartialEq, Eq, Structural, Hash)]
pub struct MessageId(pub u64);

impl MessageId {
    /// The number of the message.
    pub fn as_u64(&self) -> (r: u64)
        ensures
            r == self.0,
    {
        let MessageId(num) = *self;
        num
    }
}

/// A message a player sent, numbered by that player.
#[derive(Clone, Copy, Debug, PartialEq, Eq, Structural, Hash)]
pub struct ForeignMessageId {
    pub player_id: PlayerId,
    pub message_id: u64,
}

/// Why a request got no answer.
#[derive(Clone, Copy, Debug, PartialEq, Eq, Structural)]
pub enum ResponseError {
    /// The answer did not arrive in time.
    Timeout,
}

/// The answer to a request: the player's data, or why there is none.
pub type ResponseValue = Result<Vec<u8>, ResponseError>;

#[allow(inconsistent_fields)]
pub enum MessageContentView {
    Message { message_id: ForeignMessageId, data: Seq<u8> },
    Response { message_id: MessageId, value: Result<Seq<u8>, ResponseError> },
}

/// What a player sent, or what became of a request to it.
#[derive(Debug)]
#[allow(inconsistent_fields)]
pub enum MessageContent {
    /// A message of the player.
    Message { message_id: ForeignMessageId, data: Vec<u8> },
    /// The answer to one of our requests, or its time-out.
    Response { message_id: MessageId, value: ResponseValue },
}

impl View for MessageContent {
    type V = MessageContentView;

    open spec fn view(&self) -> MessageContentView {
        match self {
            MessageContent::Message { message_id, data } => MessageContentView::Message { message_id: *message_id, data: data@ },
            MessageContent::Response { message_id, value } => MessageContentView::Response {
                message_id: *message_id,
                value: match value {
                    Ok(d) => Ok(d@),
                    Err(e) => Err(*e),
                },
            },
        }
    }
}

/// A player with what it sent, or with what became of a request to it.
#[derive(Debug)]
pub struct PlayerMessage {
    pub player_id: PlayerId,
    pub content: MessageContent,
}

pub enum PayloadView {
    Message { message_id: u64, data: Seq<u8> },
    Response { message_id: u64, data: Seq<u8> },
}

/// What goes over the wire between the server and a player.
#[derive(Debug)]
pub enum Payload {
    Message { message_id: u64, data: Vec<u8> },
    Response { message_id: u64, data: Vec<u8> },
}

impl View for Payload {
    type V = PayloadView;

    open spec fn view(&self) -> PayloadView {
        match self {
            Payload::Message { message_id, data } => PayloadView::Message { message_id: *message_id, data: data@ },
            Payload::Response { message_id, data } => PayloadView::Response { message_id: *message_id, data: data@ },
        }
    }
}

/// A payload for a player.
#[derive(Debug)]
pub struct Outgoing {
    pub player_id: PlayerId,
    pub payload: Payload,
}

/// The deadline of a request.
#[derive(Clone, Copy, Debug, PartialEq, Eq, Structural)]
pub struct Deadline {
    pub message_id: MessageId,
    pub instant: u64,
}

/// `d` is among the deadlines with the earliest instant (the one the
/// deadline queue offers first).
pub open spec fn is_earliest(v: Seq<Deadline>, d: Deadline) -> bool {
    &&& v.contains(d)
    &&& forall|j: int| 0 <= j < v.len() ==> d.instant <= (#[trigger] v[j]).instant
}

/// `d` is no later than the deadline of any open request in `q`.
pub open spec fn first_open_deadline(q: Seq<Deadline>, reqs: Map<u64, PlayerId>, d: Deadline) -> bool {
    forall|j: int| 0 <= j < q.len() && reqs.dom().contains(q[j].message_id.0) ==> d.instant <= (#[trigger] q[j]).instant
}

/// At `now`, no open request's deadline in `q` has passed.
pub open spec fn no_open_deadline_passed(q: Seq<Deadline>, reqs: Map<u64, PlayerId>, now: u64) -> bool {
    forall|j: int| 0 <= j < q.len() && reqs.dom().contains(q[j].message_id.0) ==> now < (#[trigger] q[j]).instant
}

/// `player` is to answer the open request `id`.
pub open spec fn expects(reqs: Map<u64, PlayerId>, player: PlayerId, id: u64) -> bool {
    reqs.dom().contains(id) && reqs[id] == player
}

/// A request is resolved once: after its answer (or its time-out) closes it,
/// no further answer to it is expected from anyone, and the other requests
/// are expected as before.
pub proof fn law_request_resolved_once(reqs: Map<u64, PlayerId>, id: u64, player: PlayerId, other: u64)
    requires
        expects(reqs, player, id),
    ensures
        forall|p: PlayerId| !#[trigger] expects(reqs.remove(id), p, id),
        other != id ==> forall|p: PlayerId| #[trigger] expects(reqs.remove(id), p, other) == expects(reqs, p, other),
{
}

/// Only deadlines of requests that are no longer open left the queue: every
/// deadline that `q` holds fewer times than `old_q` belongs to no request of
/// `reqs`.
pub open spec fn dropped_only_closed(old_q: Seq<Deadline>, q: Seq<Deadline>, reqs: Map<u64, PlayerId>) -> bool {
    forall|d: Deadline| #[trigger] q.to_multiset().count(d) < old_q.to_multiset().count(d)
        ==> !reqs.dom().contains(d.message_id.0)
}


/// A request is resolved at most once over any run of the resolver's calls.
/// Each call that yields a request's answer (`get_message_content`,
/// `receive`) or its time-out (`poll_timeout`) appends the request's number
/// to `resolved_view`, the other calls leave it as it is, and every call
/// leaves a resolver that keeps `resolved_once`. So in any resolver the calls
/// reach, each number occurs at most once among the resolutions, and a
/// resolved request is no longer open: no answer or time-out for it can come
/// again.
pub proof fn law_resolved_at_most_once(r: MessageResolver, id: u64)
    requires
        r.resolved_once(),
    ensures
        r.resolved_view().to_multiset().count(id) <= 1,
        r.resolved_view().contains(id) ==> !r.requests_view().dom().contains(id),
{
    r.resolved_view().lemma_multiset_has_no_duplicates();
    broadcast use vstd::multiset::group_multiset_axioms;
    if r.resolved_view().to_multiset().count(id) > 1 {
        assert(r.resolved_view().to_multiset().contains(id));
    }
}

pub struct MessageResolver {
    requests: Vec<(u64, PlayerId)>,
    deadlines: Vec<Deadline>,
    message_counter: u64,
    delay: u64,
    resolved: Ghost<Seq<u64>>,
}

impl MessageResolver {
    #[verifier::type_invariant]
    spec fn inv(self) -> bool {
        &&& keys_distinct(self.requests@)
        &&& forall|i: int| 0 <= i < self.requests@.len() ==> (#[trigger] self.requests@[i]).0 <= self.message_counter
        &&& forall|i: int| 0 <= i < self.deadlines@.len() ==> self.delay <= (#[trigger] self.deadlines@[i]).instant
        &&& forall|i: int| 0 <= i < self.resolved@.len() ==> (#[trigger] self.resolved@[i]) <= self.message_counter
            && !has_key(self.requests@, self.resolved@[i])
        &&& self.resolved@.no_duplicates()
    }

    /// For every open request (by message number), the player that has to answer.
    pub closed spec fn requests_view(&self) -> Map<u64, PlayerId> { assoc_map(self.requests@) }
    /// The deadlines of the requests, in queue order.
    pub closed spec fn deadlines_view(&self) -> Seq<Deadline> { self.deadlines@ }
    /// The number of the last message sent.
    pub closed spec fn counter_view(&self) -> u64 { self.message_counter }
    /// The instant the timer fires.
    pub closed spec fn delay_view(&self) -> u64 { self.delay }
    /// The numbers of the requests resolved so far (answered or timed out),
    /// in the order they were resolved.
    pub closed spec fn resolved_view(&self) -> Seq<u64> { self.resolved@ }

    /// No request was resolved twice, and none that was resolved is open.
    pub open spec fn resolved_once(&self) -> bool {
        &&& self.resolved_view().no_duplicates()
        &&& forall|i: int| 0 <= i < self.resolved_view().len()
            ==> !self.requests_view().dom().contains(#[trigger] self.resolved_view()[i])
    }

    proof fn lemma_resolved_once(&self)
        requires
            self.inv(),
        ensures
            self.resolved_once(),
    {
        assert forall|i: int| 0 <= i < self.resolved_view().len()
            implies !self.requests_view().dom().contains(#[trigger] self.resolved_view()[i]) by {
            lemma_has_key_dom(self.requests@, self.resolved@[i]);
        }
    }

    /// A resolver with no requests, whose timer fires at `now`.
    pub fn new(now: u64) -> (r: Self)
        ensures
            r.requests_view() == Map::<u64, PlayerId>::empty(),
            r.deadlines_view() == Seq::<Deadline>::empty(),
            r.counter_view() == 0,
            r.delay_view() == now,
            r.resolved_view() == Seq::<u64>::empty(),
            r.resolved_once(),
    {
        let r = MessageResolver { requests: Vec::new(), deadlines: Vec::new(), message_counter: 0, delay: now, resolved: Ghost(Seq::empty()) };
        proof {
            assert(r.requests@ =~= Seq::<(u64, PlayerId)>::empty());
            assert(assoc_map(r.requests@) =~= Map::<u64, PlayerId>::empty());
        }
        r
    }

    /// The next message number.
    fn get_message_id(&mut self) -> (r: MessageId)
        requires
            old(self).counter_view() < u64::MAX,
        ensures
            final(self).counter_view() == old(self).counter_view() + 1,
            r.0 == final(self).counter_view(),
            final(self).requests_view() == old(self).requests_view(),
            final(self).deadlines_view() == old(self).deadlines_view(),
            final(self).delay_view() == old(self).delay_view(),
            final(self).resolved_view() == old(self).resolved_view(),
    {
        proof {
            use_type_invariant(&*self);
        }
        self.message_counter = self.message_counter + 1;
        MessageId(self.message_counter)
    }

    /// Sends `data` to a player under the next message number.
    pub fn send(&mut self, player_id: PlayerId, data: Vec<u8>) -> (r: (MessageId, Outgoing))
        requires
            old(self).counter_view() < u64::MAX,
        ensures
            final(self).counter_view() == old(self).counter_view() + 1,
            r.0.0 == final(self).counter_view(),
            r.1.player_id == player_id,
            r.1.payload@ == (PayloadView::Message { message_id: r.0.0, data: data@ }),
            final(self).requests_view() == old(self).requests_view(),
            final(self).deadlines_view() == old(self).deadlines_view(),
            final(self).delay_view() == old(self).delay_view(),
            final(self).resolved_view() == old(self).resolved_view(),
            final(self).resolved_once(),
    {
        let message_id = self.get_message_id();
        proof {
            use_type_invariant(&*self);
            self.lemma_resolved_once();
        }
        let payload = Payload::Message { message_id: message_id.as_u64(), data };
        (message_id, Outgoing { player_id, payload })
    }

    /// Puts a deadline in the queue; the timer fires at it when that is
    /// earlier than the timer's instant.
    fn enqueue_deadline(&mut self, message_id: MessageId, instant: u64)
        ensures
            final(self).deadlines_view() == old(self).deadlines_view().push(Deadline { message_id, instant }),
            final(self).delay_view() == (if instant < old(self).delay_view() { instant } else { old(self).delay_view() }),
            final(self).requests_view() == old(self).requests_view(),
            final(self).counter_view() == old(self).counter_view(),
            final(self).resolved_view() == old(self).resolved_view(),
    {
        proof {
            use_type_invariant(&*self);
        }
        if instant < self.delay {
            self.delay = instant;
        }
        let mut deadlines: Vec<Deadline> = Vec::new();
        std::mem::swap(&mut deadlines, &mut self.deadlines);
        deadlines.push(Deadline { message_id, instant });
        self.deadlines = deadlines;
    }

    /// Sends `data` to a player as a request that has to be answered by
    /// `deadline`.
    pub fn request(&mut self, player_id: PlayerId, data: Vec<u8>, deadline: u64) -> (r: (MessageId, Outgoing))
        requires
            old(self).counter_view() < u64::MAX,
        ensures
            final(self).counter_view() == old(self).counter_view() + 1,
            r.0.0 == final(self).counter_view(),
            r.1.player_id == player_id,
            r.1.payload@ == (PayloadView::Message { message_id: r.0.0, data: data@ }),
            !old(self).requests_view().dom().contains(r.0.0),
            final(self).requests_view() == old(self).requests_view().insert(r.0.0, player_id),
            final(self).deadlines_view() == old(self).deadlines_view().push(Deadline { message_id: r.0, instant: deadline }),
            final(self).delay_view() == (if deadline < old(self).delay_view() { deadline } else { old(self).delay_view() }),
            final(self).resolved_view() == old(self).resolved_view(),
            final(self).resolved_once(),
    {
        proof {
            use_type_invariant(&*self);
            let k = (self.message_counter + 1) as u64;
            lemma_has_key_dom(self.requests@, k);
            if has_key(self.requests@, k) {
                let j = choose|j: int| 0 <= j < self.requests@.len() && #[trigger] self.requests@[j].0 == k;
                assert(self.requests@[j].0 <= self.message_counter);
            }
        }
        let (message_id, out) = self.send(player_id, data);
        proof {
            use_type_invariant(&*self);
        }
        let mut requests: Vec<(u64, PlayerId)> = Vec::new();
        std::mem::swap(&mut requests, &mut self.requests);
        let ghost before = requests@;
        let found = find_key(&requests, message_id.0);
        match found {
            Some(i) => {
                requests[i] = (message_id.0, player_id);
            },
            None => {
                requests.push((message_id.0, player_id));
            },
        }
        proof {
            lemma_assoc_insert(before, message_id.0, player_id, found);
            assert(requests@ =~= assoc_insert(before, message_id.0, player_id, found));
            assert forall|i: int| 0 <= i < self.resolved@.len() implies !has_key(requests@, #[trigger] self.resolved@[i]) by {
                let x = self.resolved@[i];
                assert(x == old(self).resolved@[i]);
                assert(x < message_id.0);
                lemma_has_key_dom(requests@, x);
                lemma_has_key_dom(before, x);
            }
        }
        self.requests = requests;
        self.enqueue_deadline(message_id, deadline);
        proof {
            use_type_invariant(&*self);
            lemma_has_key_dom(self.requests@, message_id.0);
            assert forall|k: u64| #[trigger] self.requests_view().dom().contains(k) implies k <= self.counter_view() by {
                lemma_has_key_dom(self.requests@, k);
                let j = choose|j: int| 0 <= j < self.requests@.len() && #[trigger] self.requests@[j].0 == k;
                assert(self.requests@[j].0 <= self.message_counter);
            }
            self.lemma_resolved_once();
        }
        (message_id, out)
    }

    /// Answers message `foreign_id` of a player with `data`.
    pub fn respond(&self, foreign_id: ForeignMessageId, data: Vec<u8>) -> (r: Outgoing)
        ensures
            r.player_id == foreign_id.player_id,
            r.payload@ == (PayloadView::Response { message_id: foreign_id.message_id, data: data@ }),
    {
        let ForeignMessageId { player_id, message_id } = foreign_id;
        Outgoing { player_id, payload: Payload::Response { message_id, data } }
    }

    /// The answer of `player_id` to message `message_id` is expected: the
    /// message is an open request to that player.
    pub fn is_expected_response(&self, player_id: PlayerId, message_id: MessageId) -> (r: bool)
        ensures
            r == expects(self.requests_view(), player_id, message_id.0),
    {
        proof {
            use_type_invariant(self);
        }
        match find_key(&self.requests, message_id.0) {
            Some(i) => {
                proof {
                    lemma_assoc_value(self.requests@, i as int);
                }
                self.requests[i].1 == player_id
            },
            None => {
                proof {
                    lemma_has_key_dom(self.requests@, message_id.0);
                }
                false
            },
        }
    }

    /// Marks the request `message_id` as answered.
    fn resolve_response(&mut self, player_id: PlayerId, message_id: MessageId)
        requires
            old(self).requests_view().dom().contains(message_id.0),
            old(self).requests_view()[message_id.0] == player_id,
        ensures
            final(self).requests_view() == old(self).requests_view().remove(message_id.0),
            final(self).deadlines_view() == old(self).deadlines_view(),
            final(self).counter_view() == old(self).counter_view(),
            final(self).delay_view() == old(self).delay_view(),
            final(self).resolved_view() == old(self).resolved_view().push(message_id.0),
            final(self).resolved_once(),
    {
        proof {
            use_type_invariant(&*self);
        }
        let mut requests: Vec<(u64, PlayerId)> = Vec::new();
        std::mem::swap(&mut requests, &mut self.requests);
        let ghost before = requests@;
        match find_key(&requests, message_id.0) {
            Some(i) => {
                requests.remove(i);
                proof {
                    lemma_assoc_remove(before, i as int);
                }
            },
            None => {
                proof {
                    lemma_has_key_dom(before, message_id.0);
                }
            },
        }
        proof {
            lemma_has_key_dom(before, message_id.0);
            lemma_has_key_dom(requests@, message_id.0);
            let j = choose|j: int| 0 <= j < before.len() && #[trigger] before[j].0 == message_id.0;
            assert(before[j].0 <= self.message_counter);
            assert forall|i: int| 0 <= i < self.resolved@.len() implies !has_key(requests@, #[trigger] self.resolved@[i]) by {
                let x = self.resolved@[i];
                lemma_has_key_dom(requests@, x);
                lemma_has_key_dom(before, x);
            }
        }
        self.requests = requests;
        let ghost old_resolved = self.resolved@;
        proof {
            assert(!old_resolved.contains(message_id.0)) by {
                if old_resolved.contains(message_id.0) {
                    let i = choose|i: int| 0 <= i < old_resolved.len() && old_resolved[i] == message_id.0;
                    assert(!has_key(before, old_resolved[i]));
                }
            }
        }
        self.resolved = Ghost(old_resolved.push(message_id.0));
        proof {
            assert forall|i: int, k: int| 0 <= i < k < self.resolved@.len() implies self.resolved@[i] != self.resolved@[k] by {
                if k == old_resolved.len() {
                    assert(old_resolved.contains(self.resolved@[i]) || i == k);
                } else {
                    assert(old_resolved[i] != old_resolved[k]);
                }
            }
            self.lemma_resolved_once();
        }
    }

    /// What a player's payload means: a message of the player, or the answer
    /// to one of our requests (which is then closed). An answer is only
    /// accepted from the player the request went to.
    pub fn get_message_content(&mut self, player_id: PlayerId, payload: Payload) -> (r: MessageContent)
        requires
            payload matches Payload::Response { message_id, .. } ==> expects(old(self).requests_view(), player_id, message_id),
        ensures
            match payload@ {
                PayloadView::Message { message_id, data } =>
                    r@ == (MessageContentView::Message { message_id: ForeignMessageId { player_id, message_id }, data })
                    && final(self).requests_view() == old(self).requests_view()
                    && final(self).resolved_view() == old(self).resolved_view(),
                PayloadView::Response { message_id, data } =>
                    r@ == (MessageContentView::Response { message_id: MessageId(message_id), value: Ok(data) })
                    && final(self).requests_view() == old(self).requests_view().remove(message_id)
                    && final(self).resolved_view() == old(self).resolved_view().push(message_id),
            },
            final(self).resolved_once(),
            final(self).deadlines_view() == old(self).deadlines_view(),
            final(self).counter_view() == old(self).counter_view(),
            final(self).delay_view() == old(self).delay_view(),
    {
        proof {
            use_type_invariant(&*self);
            self.lemma_resolved_once();
        }
        match payload {
            Payload::Message { message_id, data } => {
                MessageContent::Message { message_id: ForeignMessageId { player_id, message_id }, data }
            },
            Payload::Response { message_id, data } => {
                let id = MessageId(message_id);
                self.resolve_response(player_id, id);
                MessageContent::Response { message_id: id, value: Ok(data) }
            },
        }
    }

    /// A payload from a player, as the resolver takes it in: a message of the
    /// player, or the answer to one of our open requests to that player (the
    /// request is then closed); an answer nobody waits for from that player is
    /// skipped.
    pub fn receive(&mut self, player_id: PlayerId, payload: Payload) -> (r: Option<MessageContent>)
        ensures
            match payload@ {
                PayloadView::Message { message_id, data } =>
                    (r matches Some(c) && c@ == (MessageContentView::Message { message_id: ForeignMessageId { player_id, message_id }, data }))
                    && final(self).requests_view() == old(self).requests_view()
                    && final(self).resolved_view() == old(self).resolved_view(),
                PayloadView::Response { message_id, data } => if expects(old(self).requests_view(), player_id, message_id) {
                    (r matches Some(c) && c@ == (MessageContentView::Response { message_id: MessageId(message_id), value: Ok(data) }))
                    && final(self).requests_view() == old(self).requests_view().remove(message_id)
                    && final(self).resolved_view() == old(self).resolved_view().push(message_id)
                } else {
                    r is None && final(self).requests_view() == old(self).requests_view()
                    && final(self).resolved_view() == old(self).resolved_view()
                },
            },
            final(self).resolved_once(),
            final(self).deadlines_view() == old(self).deadlines_view(),
            final(self).counter_view() == old(self).counter_view(),
            final(self).delay_view() == old(self).delay_view(),
    {
        proof {
            use_type_invariant(&*self);
            self.lemma_resolved_once();
        }
        let expected = match &payload {
            Payload::Response { message_id, .. } => self.is_expected_response(player_id, MessageId(*message_id)),
            Payload::Message { .. } => true,
        };
        if expected {
            Some(self.get_message_content(player_id, payload))
        } else {
            None
        }
    }

    /// The position of a deadline with the earliest instant.
    fn earliest_index(&self) -> (r: usize)
        requires
            self.deadlines_view().len() > 0,
        ensures
            r < self.deadlines_view().len(),
            is_earliest(self.deadlines_view(), self.deadlines_view()[r as int]),
    {
        let mut best: usize = 0;
        let mut i: usize = 1;
        while i < self.deadlines.len()
            invariant
                1 <= i <= self.deadlines@.len(),
                best < i,
                forall|j: int| 0 <= j < i ==> self.deadlines@[best as int].instant <= (#[trigger] self.deadlines@[j]).instant,
            decreases self.deadlines.len() - i,
        {
            if self.deadlines[i].instant < self.deadlines[best].instant {
                best = i;
            }
            i = i + 1;
        }
        proof {
            assert(self.deadlines@.contains(self.deadlines@[best as int]));
        }
        best
    }

    /// At `now`, takes the deadline with the earliest instant when that
    /// instant has passed (the timer, never later than any deadline, has then
    /// fired too).
    fn poll_deadline(&mut self, now: u64) -> (r: Option<Deadline>)
        ensures
            final(self).requests_view() == old(self).requests_view(),
            final(self).resolved_view() == old(self).resolved_view(),
            final(self).counter_view() == old(self).counter_view(),
            final(self).delay_view() == old(self).delay_view(),
            match r {
                Some(d) => now >= old(self).delay_view()
                    && is_earliest(old(self).deadlines_view(), d)
                    && d.instant <= now
                    && final(self).deadlines_view().to_multiset() == old(self).deadlines_view().to_multiset().remove(d),
                None => final(self).deadlines_view() == old(self).deadlines_view()
                    && forall|j: int| 0 <= j < old(self).deadlines_view().len()
                        ==> now < (#[trigger] old(self).deadlines_view()[j]).instant,
            },
    {
        proof {
            use_type_invariant(&*self);
        }
        if now < self.delay {
            return None;
        }
        if self.deadlines.len() == 0 {
            return None;
        }
        let i = self.earliest_index();
        let d = self.deadlines[i];
        if now < d.instant {
            return None;
        }
        let ghost before = self.deadlines@;
        let mut deadlines: Vec<Deadline> = Vec::new();
        std::mem::swap(&mut deadlines, &mut self.deadlines);
        deadlines.remove(i);
        proof {
            assert forall|j: int| 0 <= j < deadlines@.len() implies self.delay <= (#[trigger] deadlines@[j]).instant by {
                if j < i {
                    assert(deadlines@[j] == before[j]);
                } else {
                    assert(deadlines@[j] == before[j + 1]);
                }
            }
        }
        self.deadlines = deadlines;
        proof {
            assert(before == before.subrange(0, i as int) + seq![d] + before.subrange(i + 1, before.len() as int)) by {
                assert(before =~= before.subrange(0, i as int) + seq![d] + before.subrange(i + 1, before.len() as int));
            }
            assert(self.deadlines@ =~= before.subrange(0, i as int) + before.subrange(i + 1, before.len() as int));
            vstd::seq_lib::lemma_multiset_commutative(before.subrange(0, i as int) + seq![d], before.subrange(i + 1, before.len() as int));
            vstd::seq_lib::lemma_multiset_commutative(before.subrange(0, i as int), seq![d]);
            vstd::seq_lib::lemma_multiset_commutative(before.subrange(0, i as int), before.subrange(i + 1, before.len() as int));
            assert(seq![d].to_multiset() =~= vstd::multiset::Multiset::<Deadline>::empty().insert(d)) by {
                broadcast use vstd::seq_lib::group_to_multiset_ensures;
                assert(seq![d] =~= Seq::<Deadline>::empty().push(d));
            }
            assert(self.deadlines@.to_multiset() =~= before.to_multiset().remove(d));
        }
        Some(d)
    }

    /// At `now`: reports, as timed out, the open request whose deadline is the
    /// earliest one that has passed, and closes it; reports nothing when no
    /// open request's deadline has passed. Deadlines of requests that were
    /// already answered are dropped on the way.
    pub fn poll_timeout(&mut self, now: u64) -> (r: Option<PlayerMessage>)
        ensures
            final(self).counter_view() == old(self).counter_view(),
            final(self).deadlines_view().to_multiset().subset_of(old(self).deadlines_view().to_multiset()),
            final(self).resolved_once(),
            match r {
                Some(m) => (m.content matches MessageContent::Response { message_id, value }
                    && value == Err::<Vec<u8>, ResponseError>(ResponseError::Timeout)
                    && old(self).requests_view().dom().contains(message_id.0)
                    && m.player_id == old(self).requests_view()[message_id.0]
                    && final(self).requests_view() == old(self).requests_view().remove(message_id.0)
                    && final(self).resolved_view() == old(self).resolved_view().push(message_id.0)
                    && exists|d: Deadline| #[trigger] old(self).deadlines_view().contains(d)
                        && d.message_id == message_id && d.instant <= now
                        && first_open_deadline(old(self).deadlines_view(), old(self).requests_view(), d)),
                None => final(self).requests_view() == old(self).requests_view()
                    && final(self).resolved_view() == old(self).resolved_view()
                    && no_open_deadline_passed(old(self).deadlines_view(), old(self).requests_view(), now),
            },
    {
        proof {
            use_type_invariant(&*self);
        }
        loop
            invariant
                self.message_counter == old(self).message_counter,
                self.requests_view() == old(self).requests_view(),
                self.resolved_view() == old(self).resolved_view(),
                self.deadlines@.to_multiset().subset_of(old(self).deadlines@.to_multiset()),
                dropped_only_closed(old(self).deadlines@, self.deadlines@, old(self).requests_view()),
            decreases self.deadlines@.len(),
        {
            proof {
                use_type_invariant(&*self);
            }
            let ghost before = self.deadlines@;
            proof {
                lemma_open_still_queued(old(self).deadlines@, before, old(self).requests_view());
            }
            match self.poll_deadline(now) {
                None => {
                    proof {
                        use_type_invariant(&*self);
                        self.lemma_resolved_once();
                    }
                    return None;
                },
                Some(deadline) => {
                    proof {
                        use_type_invariant(&*self);
                        before.to_multiset_ensures();
                        self.deadlines@.to_multiset_ensures();
                        assert(self.deadlines@.len() < before.len());
                        assert(self.deadlines@.to_multiset().subset_of(before.to_multiset()));
                        old(self).deadlines@.to_multiset_ensures();
                        assert(before.to_multiset().count(deadline) > 0);
                        assert(old(self).deadlines@.contains(deadline));
                    }
                    let message_id = deadline.message_id;
                    if self.deadlines.len() > 0 {
                        let i = self.earliest_index();
                        self.delay = self.deadlines[i].instant;
                    }
                    match find_key(&self.requests, message_id.0) {
                        Some(i) => {
                            let player_id = self.requests[i].1;
                            proof {
                                lemma_assoc_value(self.requests@, i as int);
                            }
                            self.resolve_response(player_id, message_id);
                            assert(old(self).deadlines_view().contains(deadline) && deadline.message_id == message_id
                                && deadline.instant <= now
                                && first_open_deadline(old(self).deadlines_view(), old(self).requests_view(), deadline));
                            let value: ResponseValue = Err(ResponseError::Timeout);
                            let content = MessageContent::Response { message_id, value };
                            return Some(PlayerMessage { player_id, content });
                        },
                        None => {
                            proof {
                                lemma_has_key_dom(self.requests@, message_id.0);
                                broadcast use vstd::multiset::group_multiset_axioms;
                                assert forall|x: Deadline| #[trigger] self.deadlines@.to_multiset().count(x)
                                    < old(self).deadlines@.to_multiset().count(x)
                                    implies !old(self).requests_view().dom().contains(x.message_id.0) by {
                                    if x != deadline {
                                        assert(self.deadlines@.to_multiset().count(x) == before.to_multiset().count(x));
                                    } else {
                                        if has_key(self.requests@, message_id.0) {
                                            let j = choose|j: int| 0 <= j < self.requests@.len()
                                                && #[trigger] self.requests@[j].0 == message_id.0;
                                            assert(self.requests@[j].0 == message_id.0);
                                        }
                                    }
                                }
                            }
                        },
                    }
                },
            }
        }
    }
}

/// When only deadlines of closed requests left the queue, every deadline of
/// an open request is still queued.
proof fn lemma_open_still_queued(old_q: Seq<Deadline>, q: Seq<Deadline>, reqs: Map<u64, PlayerId>)
    requires
        dropped_only_closed(old_q, q, reqs),
    ensures
        forall|j: int| 0 <= j < old_q.len() && reqs.dom().contains(old_q[j].message_id.0)
            ==> q.contains(#[trigger] old_q[j]),
{
    old_q.to_multiset_ensures();
    q.to_multiset_ensures();
    assert forall|j: int| 0 <= j < old_q.len() && reqs.dom().contains(old_q[j].message_id.0)
        implies q.contains(#[trigger] old_q[j]) by {
        let x = old_q[j];
        assert(old_q.contains(x));
        assert(old_q.to_multiset().count(x) > 0);
        if q.to_multiset().count(x) < old_q.to_multiset().count(x) {
            assert(!reqs.dom().contains(x.message_id.0));
        }
    }
}

} // verus!
