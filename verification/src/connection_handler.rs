//! A network connection's message handling: the handlers of the connection's
//! core by message type, and the table of a stream's channels.
use vstd::prelude::*;
use std::marker::PhantomData;
use crate::assoc::{keys_distinct, assoc_map, find_key, lemma_has_key_dom, lemma_assoc_value, lemma_assoc_remove, assoc_insert, lemma_assoc_insert};

verus! {

/// A handler for messages of type `M` made of a function.
pub struct MsgHandler<M, F> {
    message_type: PhantomData<M>,
    function: F,
}

impl<M, F> MsgHandler<M, F> {
    pub closed spec fn function_view(&self) -> F { self.function }

    pub fn new(function: F) -> (r: Self)
        ensures
            r.function_view() == function,
    {
        MsgHandler { message_type: PhantomData, function }
    }

    /// The function of the handler.
    pub fn function(&self) -> (r: &F)
        ensures
            *r == self.function_view(),
    {
        &self.function
    }
}

/// The core of a connection: its state and its handlers, by message type.
pub struct HandlerCore<S, H> {
    state: S,
    handlers: Vec<(u64, H)>,
}

impl<S, H> HandlerCore<S, H> {
    #[verifier::type_invariant]
    spec fn inv(self) -> bool {
        keys_distinct(self.handlers@)
    }

    pub closed spec fn state_view(&self) -> S { self.state }

    /// The state of the connection.
    pub fn state(&self) -> (r: &S)
        ensures
            *r == self.state_view(),
    {
        &self.state
    }
    pub closed spec fn handlers_view(&self) -> Map<u64, H> { assoc_map(self.handlers@) }

    /// A core with state `state` and no handlers.
    pub fn new(state: S) -> (r: Self)
        ensures
            r.state_view() == state,
            r.handlers_view() == Map::<u64, H>::empty(),
    {
        let r = HandlerCore { state, handlers: Vec::new() };
        proof {
            assert(r.handlers@ =~= Seq::<(u64, H)>::empty());
            assert(assoc_map(r.handlers@) =~= Map::<u64, H>::empty());
        }
        r
    }

    /// Handles messages of type `type_id` with `h` (replacing an earlier handler).
    pub fn on(&mut self, type_id: u64, h: H)
        ensures
            final(self).handlers_view() == old(self).handlers_view().insert(type_id, h),
            final(self).state_view() == old(self).state_view(),
    {
        proof {
            use_type_invariant(&*self);
        }
        let mut handlers: Vec<(u64, H)> = Vec::new();
        std::mem::swap(&mut handlers, &mut self.handlers);
        let ghost before = handlers@;
        let found = find_key(&handlers, type_id);
        proof {
            lemma_assoc_insert(before, type_id, h, found);
        }
        match found {
            Some(i) => {
                handlers.set(i, (type_id, h));
            },
            None => {
                handlers.push((type_id, h));
            },
        }
        proof {
            assert(handlers@ =~= assoc_insert(before, type_id, h, found));
        }
        self.handlers = handlers;
    }

    /// The handler of a message of type `type_id`; `None` for an unknown
    /// type (which is reported and dropped).
    pub fn handle(&self, type_id: u64) -> (r: Option<&H>)
        ensures
            match r {
                Some(h) => self.handlers_view().dom().contains(type_id)
                    && *h == self.handlers_view()[type_id],
                None => !self.handlers_view().dom().contains(type_id),
            },
    {
        proof {
            use_type_invariant(self);
        }
        match find_key(&self.handlers, type_id) {
            Some(i) => {
                proof {
                    lemma_assoc_value(self.handlers@, i as int);
                }
                Some(&self.handlers[i].1)
            },
            None => {
                proof {
                    lemma_has_key_dom(self.handlers@, type_id);
                }
                None
            },
        }
    }
}

/// What the stream does with a frame on a channel.
#[derive(Debug)]
pub enum FrameRoute<'a, T> {
    /// The channel is open: the frame's data goes to its sender.
    Existing(&'a T),
    /// A new channel: a handshake is started for it.
    New,
}

/// The open channels of a stream, by channel number.
pub struct ChannelTable<T> {
    connections: Vec<(u64, T)>,
}

impl<T> ChannelTable<T> {
    #[verifier::type_invariant]
    spec fn inv(self) -> bool {
        keys_distinct(self.connections@)
    }

    pub closed spec fn channels_view(&self) -> Map<u64, T> { assoc_map(self.connections@) }

    pub fn new() -> (r: Self)
        ensures
            r.channels_view() == Map::<u64, T>::empty(),
    {
        let r = ChannelTable { connections: Vec::new() };
        proof {
            assert(r.connections@ =~= Seq::<(u64, T)>::empty());
            assert(assoc_map(r.connections@) =~= Map::<u64, T>::empty());
        }
        r
    }

    /// Where a frame on channel `channel_num` goes.
    pub fn route(&self, channel_num: u32) -> (r: FrameRoute<'_, T>)
        ensures
            self.channels_view().dom().contains(channel_num as u64) ==> (r matches FrameRoute::Existing(t)
                && *t == self.channels_view()[channel_num as u64]),
            !self.channels_view().dom().contains(channel_num as u64) ==> r is New,
    {
        proof {
            use_type_invariant(self);
        }
        match find_key(&self.connections, channel_num as u64) {
            Some(i) => {
                proof {
                    lemma_assoc_value(self.connections@, i as int);
                }
                FrameRoute::Existing(&self.connections[i].1)
            },
            None => {
                proof {
                    lemma_has_key_dom(self.connections@, channel_num as u64);
                }
                FrameRoute::New
            },
        }
    }

    /// Records the sender of a new channel.
    pub fn open(&mut self, channel_num: u32, sender: T)
        ensures
            final(self).channels_view() == old(self).channels_view().insert(channel_num as u64, sender),
    {
        proof {
            use_type_invariant(&*self);
        }
        let mut c: Vec<(u64, T)> = Vec::new();
        std::mem::swap(&mut c, &mut self.connections);
        let ghost before = c@;
        let key = channel_num as u64;
        let found = find_key(&c, key);
        proof {
            lemma_assoc_insert(before, key, sender, found);
        }
        match found {
            Some(i) => {
                c.set(i, (key, sender));
            },
            None => {
                c.push((key, sender));
            },
        }
        proof {
            assert(c@ =~= assoc_insert(before, key, sender, found));
        }
        self.connections = c;
    }

    /// A channel closed: forgets its sender.
    pub fn close(&mut self, channel_num: u32)
        ensures
            final(self).channels_view() == old(self).channels_view().remove(channel_num as u64),
    {
        proof {
            use_type_invariant(&*self);
        }
        let mut c: Vec<(u64, T)> = Vec::new();
        std::mem::swap(&mut c, &mut self.connections);
        let ghost before = c@;
        let key = channel_num as u64;
        match find_key(&c, key) {
            Some(i) => {
                c.remove(i);
                proof {
                    lemma_assoc_remove(before, i as int);
                }
            },
            None => {
                proof {
                    lemma_has_key_dom(before, key);
                    assert(assoc_map(before).remove(key) =~= assoc_map(before));
                }
            },
        }
        self.connections = c;
    }
}

/// What one read of a connection's outgoing channel gave.
#[derive(Debug)]
pub enum Received {
    /// A message to publish to the peer.
    Message(Vec<u8>),
    /// Nothing for now.
    Empty,
    /// The channel closed.
    Closed,
}

/// The messages published for the reads `s`: every message up to the first
/// read that gave none, in order.
pub open spec fn published(s: Seq<Received>) -> Seq<Seq<u8>>
    decreases s.len(),
{
    if s.len() == 0 {
        Seq::empty()
    } else {
        match s[0] {
            Received::Message(m) => seq![m@] + published(s.drop_first()),
            _ => Seq::empty(),
        }
    }
}

/// How the reads `s` end: `Some(false)` at an empty read (the handler waits),
/// `Some(true)` at a closed channel (the handler is done), `None` when every
/// read gave a message.
pub open spec fn forward_end(s: Seq<Received>) -> Option<bool>
    decreases s.len(),
{
    if s.len() == 0 {
        None
    } else {
        match s[0] {
            Received::Message(_) => forward_end(s.drop_first()),
            Received::Empty => Some(false),
            Received::Closed => Some(true),
        }
    }
}

/// Forwards what the outgoing channel gave, read by read: each message is
/// published to the peer, in order, until a read gives nothing (the handler
/// waits) or the channel closed (the handler is done).
pub fn forward_messages(reads: &Vec<Received>) -> (r: (Vec<Vec<u8>>, Option<bool>))
    ensures
        r.0@.map_values(|m: Vec<u8>| m@) == published(reads@),
        r.1 == forward_end(reads@),
{
    let mut out: Vec<Vec<u8>> = Vec::new();
    let mut i: usize = 0;
    proof {
        assert(reads@.skip(0) =~= reads@);
        assert(out@.map_values(|m: Vec<u8>| m@) + published(reads@) =~= published(reads@));
    }
    while i < reads.len()
        invariant
            i <= reads@.len(),
            published(reads@) == out@.map_values(|m: Vec<u8>| m@) + published(reads@.skip(i as int)),
            forward_end(reads@) == forward_end(reads@.skip(i as int)),
        decreases reads.len() - i,
    {
        let ghost rest = reads@.skip(i as int);
        proof {
            assert(rest.drop_first() =~= reads@.skip(i + 1));
            assert(rest[0] == reads@[i as int]);
        }
        match &reads[i] {
            Received::Message(m) => {
                let c = crate::types::clone_bytes(m);
                let ghost before = out@;
                out.push(c);
                proof {
                    assert(out@.map_values(|m: Vec<u8>| m@) =~= before.map_values(|m: Vec<u8>| m@).push(c@));
                    assert(before.map_values(|m: Vec<u8>| m@).push(c@) + published(reads@.skip(i + 1))
                        =~= before.map_values(|m: Vec<u8>| m@) + (seq![c@] + published(reads@.skip(i + 1))));
                }
            },
            Received::Empty => {
                proof {
                    assert(published(reads@) =~= out@.map_values(|m: Vec<u8>| m@));
                }
                return (out, Some(false));
            },
            Received::Closed => {
                proof {
                    assert(published(reads@) =~= out@.map_values(|m: Vec<u8>| m@));
                }
                return (out, Some(true));
            },
        }
        i = i + 1;
    }
    proof {
        assert(reads@.skip(i as int) =~= Seq::<Received>::empty());
        assert(published(reads@) =~= out@.map_values(|m: Vec<u8>| m@));
    }
    (out, None)
}

} // verus!
