//! The runtime's bookkeeping: the broker's table of registered reactors (with
//! the channel each listens on), and the links of a reactor, which its driver
//! opens and closes in the order they were asked for.
use vstd::prelude::*;
use crate::assoc::{keys_distinct, has_key, assoc_map, find_key, lemma_has_key_dom, lemma_assoc_value,
    lemma_assoc_remove, assoc_insert, lemma_assoc_insert, lemma_assoc_len, lemma_assoc_dom};
use crate::reactor::ReactorId;
use crate::request::random_u64;
use std::collections::VecDeque;

verus! {

/// The table of the reactors registered with a broker, each with the channel
/// that reaches it.
pub struct Broker<T> {
    runtime_id: ReactorId,
    actors: Vec<(u64, T)>,
}

impl<T> Broker<T> {
    #[verifier::type_invariant]
    spec fn inv(self) -> bool {
        keys_distinct(self.actors@)
    }

    /// The broker's own identity.
    pub closed spec fn runtime_id_view(&self) -> ReactorId { self.runtime_id }

    /// The channel of every registered reactor, by reactor number.
    pub closed spec fn actors_view(&self) -> Map<u64, T> { assoc_map(self.actors@) }

    /// A broker with a random identity and no reactors.
    pub fn new() -> (r: Self)
        ensures
            r.actors_view() == Map::<u64, T>::empty(),
    {
        let r = Broker { runtime_id: ReactorId { id: random_u64() }, actors: Vec::new() };
        proof {
            assert(r.actors@ =~= Seq::<(u64, T)>::empty());
            assert(assoc_map(r.actors@) =~= Map::<u64, T>::empty());
        }
        r
    }

    /// The broker's own identity.
    pub fn get_runtime_id(&self) -> (r: ReactorId)
        ensures
            r == self.runtime_id_view(),
    {
        self.runtime_id
    }

    /// Registers reactor `id` as reachable through `tx` (replacing an earlier
    /// registration).
    pub fn register(&mut self, id: ReactorId, tx: T)
        ensures
            final(self).actors_view() == old(self).actors_view().insert(id.id, tx),
            final(self).runtime_id_view() == old(self).runtime_id_view(),
    {
        proof {
            use_type_invariant(&*self);
        }
        let mut actors: Vec<(u64, T)> = Vec::new();
        std::mem::swap(&mut actors, &mut self.actors);
        let ghost before = actors@;
        let found = find_key(&actors, id.id);
        proof {
            lemma_assoc_insert(before, id.id, tx, found);
        }
        match found {
            Some(i) => {
                actors.set(i, (id.id, tx));
            },
            None => {
                actors.push((id.id, tx));
            },
        }
        proof {
            assert(actors@ =~= assoc_insert(before, id.id, tx, found));
        }
        self.actors = actors;
    }

    /// Forgets reactor `id`.
    pub fn unregister(&mut self, id: &ReactorId)
        ensures
            final(self).actors_view() == old(self).actors_view().remove(id.id),
            final(self).runtime_id_view() == old(self).runtime_id_view(),
    {
        proof {
            use_type_invariant(&*self);
        }
        let mut actors: Vec<(u64, T)> = Vec::new();
        std::mem::swap(&mut actors, &mut self.actors);
        let ghost before = actors@;
        match find_key(&actors, id.id) {
            Some(i) => {
                actors.remove(i);
                proof {
                    lemma_assoc_remove(before, i as int);
                }
            },
            None => {
                proof {
                    lemma_has_key_dom(before, id.id);
                    assert(assoc_map(before).remove(id.id) =~= assoc_map(before));
                }
            },
        }
        self.actors = actors;
    }

    /// Reactor `id` is registered.
    pub fn reactor_exists(&self, id: &ReactorId) -> (r: bool)
        ensures
            r == self.actors_view().dom().contains(id.id),
    {
        proof {
            use_type_invariant(self);
            lemma_has_key_dom(self.actors@, id.id);
        }
        find_key(&self.actors, id.id).is_some()
    }

    /// The channel a message for `receiver` goes to; the receiver must be
    /// registered.
    pub fn dispatch_target(&self, receiver: &ReactorId) -> (r: &T)
        requires
            self.actors_view().dom().contains(receiver.id),
        ensures
            *r == self.actors_view()[receiver.id],
    {
        proof {
            use_type_invariant(self);
            lemma_has_key_dom(self.actors@, receiver.id);
        }
        let mut i: usize = 0;
        while i < self.actors.len()
            invariant
                i <= self.actors@.len(),
                forall|j: int| 0 <= j < i ==> #[trigger] self.actors@[j].0 != receiver.id,
                has_key(self.actors@, receiver.id),
                keys_distinct(self.actors@),
            decreases self.actors.len() - i,
        {
            if self.actors[i].0 == receiver.id {
                proof {
                    lemma_assoc_value(self.actors@, i as int);
                }
                return &self.actors[i].1;
            }
            i = i + 1;
        }
        proof {
            let j = choose|j: int| 0 <= j < self.actors@.len() && #[trigger] self.actors@[j].0 == receiver.id;
            assert(self.actors@[j].0 != receiver.id);
        }
        &self.actors[0].1
    }

    /// A message from the broker itself may go to `target`: any reactor but
    /// the broker.
    pub fn can_send_to(&self, target: &ReactorId) -> (r: bool)
        ensures
            r == (target.id != self.runtime_id_view().id),
    {
        target.id != self.runtime_id.id
    }
}

/// What a reactor asks its driver to do, in order.
#[derive(Debug)]
pub enum InternalOp<M, L> {
    /// Handle an internal message.
    Message(M),
    /// Open a link to the reactor.
    OpenLink(ReactorId, L),
    /// Close the link to the reactor.
    CloseLink(ReactorId),
}

/// The open links of a reactor, by remote reactor number.
pub struct LinkTable<L> {
    links: Vec<(u64, L)>,
}

impl<L> LinkTable<L> {
    #[verifier::type_invariant]
    spec fn inv(self) -> bool {
        keys_distinct(self.links@)
    }

    pub closed spec fn links_view(&self) -> Map<u64, L> { assoc_map(self.links@) }

    pub fn new() -> (r: Self)
        ensures
            r.links_view() == Map::<u64, L>::empty(),
    {
        let r = LinkTable { links: Vec::new() };
        proof {
            assert(r.links@ =~= Seq::<(u64, L)>::empty());
            assert(assoc_map(r.links@) =~= Map::<u64, L>::empty());
        }
        r
    }

    /// Carries out one operation: opening a link replaces any link to the
    /// same reactor, closing removes it; a message is handed back for the
    /// reactor to handle.
    pub fn apply_op<M>(&mut self, op: InternalOp<M, L>) -> (r: Option<M>)
        ensures
            match op {
                InternalOp::Message(m) => r == Some(m) && final(self).links_view() == old(self).links_view(),
                InternalOp::OpenLink(id, l) => r is None && final(self).links_view() == old(self).links_view().insert(id.id, l),
                InternalOp::CloseLink(id) => r is None && final(self).links_view() == old(self).links_view().remove(id.id),
            },
    {
        proof {
            use_type_invariant(&*self);
        }
        match op {
            InternalOp::Message(m) => Some(m),
            InternalOp::OpenLink(id, l) => {
                let mut links: Vec<(u64, L)> = Vec::new();
                std::mem::swap(&mut links, &mut self.links);
                let ghost before = links@;
                let found = find_key(&links, id.id);
                proof {
                    lemma_assoc_insert(before, id.id, l, found);
                }
                match found {
                    Some(i) => {
                        links.set(i, (id.id, l));
                    },
                    None => {
                        links.push((id.id, l));
                    },
                }
                proof {
                    assert(links@ =~= assoc_insert(before, id.id, l, found));
                }
                self.links = links;
                None
            },
            InternalOp::CloseLink(id) => {
                let mut links: Vec<(u64, L)> = Vec::new();
                std::mem::swap(&mut links, &mut self.links);
                let ghost before = links@;
                match find_key(&links, id.id) {
                    Some(i) => {
                        links.remove(i);
                        proof {
                            lemma_assoc_remove(before, i as int);
                        }
                    },
                    None => {
                        proof {
                            lemma_has_key_dom(before, id.id);
                            assert(assoc_map(before).remove(id.id) =~= assoc_map(before));
                        }
                    },
                }
                self.links = links;
                None
            },
        }
    }

    /// The reactor has no links left: no message can reach it any more and
    /// its driver stops.
    pub fn is_empty(&self) -> (r: bool)
        ensures
            r == (self.links_view().dom().len() == 0),
    {
        proof {
            use_type_invariant(self);
            crate::assoc::lemma_assoc_len(self.links@);
        }
        self.links.len() == 0
    }
}


/// The links after one operation.
pub open spec fn links_after_op<M, L>(m: Map<u64, L>, op: InternalOp<M, L>) -> Map<u64, L> {
    match op {
        InternalOp::Message(_) => m,
        InternalOp::OpenLink(id, l) => m.insert(id.id, l),
        InternalOp::CloseLink(id) => m.remove(id.id),
    }
}

/// The links after a sequence of operations, carried out in order.
pub open spec fn links_after_ops<M, L>(m: Map<u64, L>, ops: Seq<InternalOp<M, L>>) -> Map<u64, L>
    decreases ops.len(),
{
    if ops.len() == 0 {
        m
    } else {
        links_after_ops(links_after_op(m, ops[0]), ops.drop_first())
    }
}

/// No operation of `ops` is a message.
pub open spec fn no_message<M, L>(ops: Seq<InternalOp<M, L>>) -> bool {
    forall|j: int| 0 <= j < ops.len() ==> !((#[trigger] ops[j]) is Message)
}

/// Carrying out one more operation after `p`.
proof fn lemma_ops_push<M, L>(m: Map<u64, L>, p: Seq<InternalOp<M, L>>, x: InternalOp<M, L>)
    ensures
        links_after_ops(m, p.push(x)) == links_after_op(links_after_ops(m, p), x),
{
    law_queue_in_parts(m, p, seq![x]);
    assert(p + seq![x] =~= p.push(x));
    let s = seq![x];
    let m1 = links_after_ops(m, p);
    assert(s.drop_first() =~= Seq::<InternalOp<M, L>>::empty());
    assert(links_after_ops(m1, s) == links_after_ops(links_after_op(m1, s[0]), s.drop_first()));
    assert(links_after_ops(links_after_op(m1, x), Seq::<InternalOp<M, L>>::empty()) == links_after_op(m1, x));
}

impl<L> LinkTable<L> {
    /// The link to reactor `id`, which handles the messages coming from it.
    pub fn get(&self, id: &ReactorId) -> (r: Option<&L>)
        ensures
            match r {
                Some(l) => self.links_view().dom().contains(id.id) && *l == self.links_view()[id.id],
                None => !self.links_view().dom().contains(id.id),
            },
    {
        proof {
            use_type_invariant(self);
            lemma_has_key_dom(self.links@, id.id);
        }
        match find_key(&self.links, id.id) {
            Some(i) => {
                proof {
                    lemma_assoc_value(self.links@, i as int);
                }
                Some(&self.links[i].1)
            },
            None => None,
        }
    }
}

/// What a reactor's driver does next.
#[derive(Debug)]
pub enum DriverStep<M> {
    /// Has the reactor handle this internal message (first its own handler
    /// for the message's type, then every link's).
    Internal(M),
    /// The internal queue is empty: reads the next external message.
    ReadExternal,
    /// The reactor has no links left: no message can reach it any more, so
    /// the driver unregisters it and stops.
    Stop,
}

/// Who handles an internal message.
#[derive(Clone, Copy, Debug, PartialEq, Eq, Structural)]
pub enum InternalHandler {
    /// The reactor's own handler for the message's type.
    Own,
    /// The handler of the link to that reactor.
    Link(ReactorId),
}

/// A reactor's driver: its queue of internal operations (messages, links to
/// open or close) and its links.
pub struct ReactorDriver<M, L> {
    queue: VecDeque<InternalOp<M, L>>,
    links: LinkTable<L>,
}

impl<M, L> ReactorDriver<M, L> {
    /// The internal operations still to carry out, in order.
    pub closed spec fn queue_view(&self) -> Seq<InternalOp<M, L>> { self.queue@ }
    /// The reactor's links, by remote reactor number.
    pub closed spec fn links_view(&self) -> Map<u64, L> { self.links.links_view() }

    /// A driver whose reactor has no links yet and whose first operation is
    /// to handle `initialize`.
    pub fn new(initialize: M) -> (r: Self)
        ensures
            r.queue_view() == seq![InternalOp::<M, L>::Message(initialize)],
            r.links_view() == Map::<u64, L>::empty(),
    {
        let mut queue: VecDeque<InternalOp<M, L>> = VecDeque::new();
        queue.push_back(InternalOp::Message(initialize));
        proof {
            assert(queue@ =~= seq![InternalOp::<M, L>::Message(initialize)]);
        }
        ReactorDriver { queue, links: LinkTable::new() }
    }

    /// Queues an operation (a handler sends an internal message, or opens or
    /// closes a link).
    pub fn push(&mut self, op: InternalOp<M, L>)
        ensures
            final(self).queue_view() == old(self).queue_view().push(op),
            final(self).links_view() == old(self).links_view(),
    {
        self.queue.push_back(op);
    }

    /// Who handles an internal message, in turn: the reactor's own handler
    /// first, then the handler of each of its links, every link once.
    pub fn internal_handlers(&self) -> (r: Vec<InternalHandler>)
        ensures
            r@.len() == self.links_view().dom().len() + 1,
            r@[0] == InternalHandler::Own,
            forall|i: int| 1 <= i < r@.len() ==>
                ((#[trigger] r@[i]) matches InternalHandler::Link(l) && self.links_view().dom().contains(l.id)),
            forall|k: u64| #[trigger] self.links_view().dom().contains(k) ==>
                exists|i: int| 1 <= i < r@.len() && r@[i] == InternalHandler::Link(ReactorId { id: k }),
            forall|i: int, j: int| 1 <= i < j < r@.len() ==> r@[i] != r@[j],
    {
        proof {
            use_type_invariant(&self.links);
            lemma_assoc_len(self.links.links@);
            lemma_assoc_dom(self.links.links@);
        }
        let links = &self.links.links;
        let mut r: Vec<InternalHandler> = Vec::new();
        r.push(InternalHandler::Own);
        let mut i: usize = 0;
        while i < links.len()
            invariant
                i <= links@.len(),
                keys_distinct(links@),
                r@.len() == i + 1,
                r@[0] == InternalHandler::Own,
                forall|j: int| 0 <= j < i ==> r@[j + 1] == InternalHandler::Link(ReactorId { id: links@[j].0 }),
            decreases links.len() - i,
        {
            r.push(InternalHandler::Link(ReactorId { id: links[i].0 }));
            i = i + 1;
        }
        proof {
            let s = self.links.links@;
            assert forall|i: int| 1 <= i < r@.len() implies
                ((#[trigger] r@[i]) matches InternalHandler::Link(l) && self.links_view().dom().contains(l.id)) by {
                assert(r@[(i - 1) + 1] == InternalHandler::Link(ReactorId { id: s[i - 1].0 }));
                assert(has_key(s, s[i - 1].0));
            }
            assert forall|k: u64| #[trigger] self.links_view().dom().contains(k) implies
                exists|i: int| 1 <= i < r@.len() && r@[i] == InternalHandler::Link(ReactorId { id: k }) by {
                assert(has_key(s, k));
                let j = choose|j: int| 0 <= j < s.len() && #[trigger] s[j].0 == k;
                assert(r@[j + 1] == InternalHandler::Link(ReactorId { id: k }));
            }
            assert forall|i: int, j: int| 1 <= i < j < r@.len() implies r@[i] != r@[j] by {
                assert(r@[(i - 1) + 1] == InternalHandler::Link(ReactorId { id: s[i - 1].0 }));
                assert(r@[(j - 1) + 1] == InternalHandler::Link(ReactorId { id: s[j - 1].0 }));
                assert(s[i - 1].0 != s[j - 1].0);
            }
        }
        r
    }

    /// The link to reactor `sender`: an external message from `sender` is
    /// handled by it; without such a link the message cannot be handled.
    pub fn link_of(&self, sender: &ReactorId) -> (r: Option<&L>)
        ensures
            match r {
                Some(l) => self.links_view().dom().contains(sender.id) && *l == self.links_view()[sender.id],
                None => !self.links_view().dom().contains(sender.id),
            },
    {
        self.links.get(sender)
    }

    /// The next step: carries out the queued link operations in order up to
    /// the first queued message, which the reactor handles before any later
    /// operation (handling it may queue more). Only with nothing queued does
    /// the driver read an external message, or stop when no link is left.
    pub fn next(&mut self) -> (r: DriverStep<M>)
        ensures
            match r {
                DriverStep::Internal(m) => exists|i: int| 0 <= i < old(self).queue_view().len()
                    && old(self).queue_view()[i] == InternalOp::<M, L>::Message(m)
                    && no_message(old(self).queue_view().subrange(0, i))
                    && final(self).queue_view() == old(self).queue_view().subrange(i + 1, old(self).queue_view().len() as int)
                    && final(self).links_view() == links_after_ops(old(self).links_view(), old(self).queue_view().subrange(0, i)),
                _ => no_message(old(self).queue_view())
                    && final(self).queue_view().len() == 0
                    && final(self).links_view() == links_after_ops(old(self).links_view(), old(self).queue_view())
                    && (r is Stop <==> final(self).links_view().dom().len() == 0),
            },
    {
        let ghost q0 = self.queue@;
        let ghost l0 = self.links.links_view();
        let ghost mut k: int = 0;
        proof {
            assert(q0.subrange(0, 0) =~= Seq::<InternalOp<M, L>>::empty());
            assert(q0.subrange(0, q0.len() as int) =~= q0);
        }
        while self.queue.len() > 0
            invariant
                q0 == old(self).queue_view(),
                l0 == old(self).links_view(),
                0 <= k <= q0.len(),
                self.queue@ == q0.subrange(k, q0.len() as int),
                self.links.links_view() == links_after_ops(l0, q0.subrange(0, k)),
                no_message(q0.subrange(0, k)),
            decreases self.queue@.len(),
        {
            let ghost q = self.queue@;
            match self.queue.pop_front() {
                Some(op) => {
                    proof {
                        assert(q[0] == op);
                        assert(q0[k] == op);
                        assert(self.queue@ =~= q0.subrange(k + 1, q0.len() as int));
                        assert(q0.subrange(0, k + 1) =~= q0.subrange(0, k).push(op));
                        lemma_ops_push(l0, q0.subrange(0, k), op);
                    }
                    match op {
                        InternalOp::Message(m) => {
                            proof {
                                assert(q0[k] == InternalOp::<M, L>::Message(m));
                                assert(self.links.links_view() == links_after_ops(l0, q0.subrange(0, k)));
                                assert(0 <= k < old(self).queue_view().len()
                                    && old(self).queue_view()[k] == InternalOp::<M, L>::Message(m)
                                    && no_message(old(self).queue_view().subrange(0, k)));
                            }
                            return DriverStep::Internal(m);
                        },
                        InternalOp::OpenLink(id, l) => {
                            self.links.apply_op(InternalOp::<M, L>::OpenLink(id, l));
                        },
                        InternalOp::CloseLink(id) => {
                            self.links.apply_op(InternalOp::<M, L>::CloseLink(id));
                        },
                    }
                    proof {
                        k = k + 1;
                        assert forall|j: int| 0 <= j < k implies !((#[trigger] q0.subrange(0, k)[j]) is Message) by {
                            if j < k - 1 {
                                assert(q0.subrange(0, k)[j] == q0.subrange(0, k - 1)[j]);
                            }
                        }
                    }
                },
                None => {},
            }
        }
        proof {
            assert(k == q0.len());
            assert(q0.subrange(0, k) =~= q0);
        }
        if self.links.is_empty() {
            DriverStep::Stop
        } else {
            DriverStep::ReadExternal
        }
    }
}

impl<T> Broker<T> {
    /// Spawns reactor `id`: registers it as reachable through `tx` (replacing
    /// an earlier registration) and returns its driver, whose first operation
    /// is to handle `initialize`; since the driver reads external messages
    /// only once its queue is empty, the reactor handles its initialization
    /// before any message from outside.
    pub fn spawn<M, L>(&mut self, id: ReactorId, tx: T, initialize: M) -> (d: ReactorDriver<M, L>)
        ensures
            final(self).actors_view() == old(self).actors_view().insert(id.id, tx),
            final(self).runtime_id_view() == old(self).runtime_id_view(),
            d.queue_view() == seq![InternalOp::<M, L>::Message(initialize)],
            d.links_view() == Map::<u64, L>::empty(),
    {
        self.register(id, tx);
        ReactorDriver::new(initialize)
    }
}

/// A reactor handles its initialization first: the queue of a freshly spawned
/// reactor holds a message, so its driver's first step is that message
/// (`next` reads no external message while a message is queued), and the
/// only message there is `initialize`.
pub proof fn law_initialize_first<M, L>(initialize: M)
    ensures
        !no_message(seq![InternalOp::<M, L>::Message(initialize)]),
        seq![InternalOp::<M, L>::Message(initialize)].len() == 1,
        seq![InternalOp::<M, L>::Message(initialize)][0] == InternalOp::<M, L>::Message(initialize),
{
    let q = seq![InternalOp::<M, L>::Message(initialize)];
    assert(q[0] is Message);
}

/// Registering a reactor and then forgetting it leaves the broker's table as
/// it was without that reactor; while registered, it is reached through the
/// channel it registered last.
pub proof fn law_register_then_unregister<T>(actors: Map<u64, T>, id: ReactorId, tx: T)
    ensures
        actors.insert(id.id, tx).dom().contains(id.id),
        actors.insert(id.id, tx)[id.id] == tx,
        actors.insert(id.id, tx).remove(id.id) == actors.remove(id.id),
        !actors.insert(id.id, tx).remove(id.id).dom().contains(id.id),
{
    assert(actors.insert(id.id, tx).remove(id.id) =~= actors.remove(id.id));
}

/// Carrying out a queue of link operations in two parts, one after the
/// other, leaves the same links as carrying it out at once.
pub proof fn law_queue_in_parts<M, L>(m: Map<u64, L>, a: Seq<InternalOp<M, L>>, b: Seq<InternalOp<M, L>>)
    ensures
        links_after_ops(m, a + b) == links_after_ops(links_after_ops(m, a), b),
    decreases a.len(),
{
    if a.len() == 0 {
        assert(a + b =~= b);
    } else {
        law_queue_in_parts(links_after_op(m, a[0]), a.drop_first(), b);
        assert((a + b).drop_first() =~= a.drop_first() + b);
        assert((a + b)[0] == a[0]);
    }
}

} // verus!
