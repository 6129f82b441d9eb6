//! The translator between two kinds of messages: a table of translation
//! helpers for each direction, handed to the attached side, which translates
//! each message by the helper for its kind and ignores kinds without one.
use vstd::prelude::*;
use crate::assoc::{keys_distinct, assoc_map, find_key, lemma_has_key_dom, lemma_assoc_value, assoc_insert, lemma_assoc_insert};
use crate::reactor::ReactorId;

verus! {

/// A translation helper around a function.
pub struct Helper<F> {
    f: F,
}

impl<F> Helper<F> {
    pub closed spec fn function_view(&self) -> F { self.f }

    pub fn new(f: F) -> (r: Self)
        ensures
            r.function_view() == f,
    {
        Helper { f }
    }

    /// The function of the helper.
    pub fn function(&self) -> (r: &F)
        ensures
            *r == self.function_view(),
    {
        &self.f
    }

    /// Translates message `m` of kind `k` with the helper's function: what
    /// it gives is sent on to the other side, and nothing is sent when it
    /// gives nothing.
    pub fn handle<K, M, T>(&self, k: &K, m: &M) -> (r: Option<T>)
        where
            F: Fn(&K, &M) -> Option<T>,
        requires
            self.function_view().requires((k, m)),
        ensures
            self.function_view().ensures((k, m), r),
    {
        (self.f)(k, m)
    }

    /// Handles message `m` of kind `k` and sends on what the function gives
    /// with `send`: when it gives nothing, nothing is sent and the handling
    /// succeeds (`Some(())`); when it gives `t`, `send(t)` is called once and
    /// its outcome (`None` when the send failed) is the outcome.
    pub fn handle_and_send<K, M, T, S>(&self, k: &K, m: &M, send: S) -> (r: Option<()>)
        where
            F: Fn(&K, &M) -> Option<T>,
            S: FnOnce(T) -> Option<()>,
        requires
            self.function_view().requires((k, m)),
            forall|t: T| send.requires((t,)),
        ensures
            exists|x: Option<T>| #[trigger] self.function_view().ensures((k, m), x) && match x {
                None => r == Some(()),
                Some(t) => send.ensures((t,), r),
            },
    {
        let x = (self.f)(k, m);
        match x {
            Some(t) => send(t),
            None => Some(()),
        }
    }
}

/// A message between the two sides: a closing link, or a message of a kind.
#[derive(Debug)]
pub enum InnerMsg<M> {
    Close,
    Msg(u64, M),
}

/// What an item coming in on an attached side becomes on its way to the
/// other side: a message of kind `k` stays that message; the end of the
/// incoming stream becomes a request to close.
pub fn inner_of<M>(item: Option<(ReactorId, u64, M)>) -> (r: InnerMsg<M>)
    ensures
        match item {
            Some((_, k, m)) => r == InnerMsg::<M>::Msg(k, m),
            None => r is Close,
        },
{
    match item {
        Some((_, k, m)) => InnerMsg::Msg(k, m),
        None => InnerMsg::Close,
    }
}

/// What the attached side does with a message.
#[derive(Debug)]
pub enum Route<'a, H, M> {
    /// Closes its link.
    Close,
    /// Translates the message with the helper.
    Translate(&'a H, M),
    /// No helper for the kind: the message is dropped.
    Ignore,
}

/// The helpers of one direction, by message kind.
pub struct HelperTable<H> {
    map: Vec<(u64, H)>,
}

impl<H> HelperTable<H> {
    #[verifier::type_invariant]
    spec fn inv(self) -> bool {
        keys_distinct(self.map@)
    }

    pub closed spec fn helpers_view(&self) -> Map<u64, H> { assoc_map(self.map@) }

    pub fn new() -> (r: Self)
        ensures
            r.helpers_view() == Map::<u64, H>::empty(),
    {
        let r = HelperTable { map: Vec::new() };
        proof {
            assert(r.map@ =~= Seq::<(u64, H)>::empty());
            assert(assoc_map(r.map@) =~= Map::<u64, H>::empty());
        }
        r
    }

    /// Sets the helper for kind `key`.
    pub fn insert(&mut self, key: u64, h: H)
        ensures
            final(self).helpers_view() == old(self).helpers_view().insert(key, h),
    {
        proof {
            use_type_invariant(&*self);
        }
        let mut map: Vec<(u64, H)> = Vec::new();
        std::mem::swap(&mut map, &mut self.map);
        let ghost before = map@;
        let found = find_key(&map, key);
        proof {
            lemma_assoc_insert(before, key, h, found);
        }
        match found {
            Some(i) => {
                map.set(i, (key, h));
            },
            None => {
                map.push((key, h));
            },
        }
        proof {
            assert(map@ =~= assoc_insert(before, key, h, found));
        }
        self.map = map;
    }

    /// What to do with a message: a closing link closes; a message of a kind
    /// with a helper is translated by it; any other is dropped.
    pub fn route<M>(&self, msg: InnerMsg<M>) -> (r: Route<'_, H, M>)
        ensures
            match msg {
                InnerMsg::Close => r is Close,
                InnerMsg::Msg(k, m) => if self.helpers_view().dom().contains(k) {
                    r matches Route::Translate(h, m2) && *h == self.helpers_view()[k] && m2 == m
                } else {
                    r is Ignore
                },
            },
    {
        proof {
            use_type_invariant(self);
        }
        match msg {
            InnerMsg::Close => Route::Close,
            InnerMsg::Msg(k, m) => match find_key(&self.map, k) {
                Some(i) => {
                    proof {
                        lemma_assoc_value(self.map@, i as int);
                    }
                    Route::Translate(&self.map[i].1, m)
                },
                None => {
                    proof {
                        lemma_has_key_dom(self.map@, k);
                    }
                    Route::Ignore
                },
            },
        }
    }
}

/// The translator: helpers from the first kind to the second ("to") and back
/// ("from"); each table is handed over once, when its side is attached.
pub struct Translator<H1, H2> {
    to: Option<HelperTable<H1>>,
    from: Option<HelperTable<H2>>,
}

impl<H1, H2> Translator<H1, H2> {
    /// The helpers to the second kind, while not handed over.
    pub closed spec fn to_view(&self) -> Option<Map<u64, H1>> {
        match self.to {
            Some(t) => Some(t.helpers_view()),
            None => None,
        }
    }

    /// The helpers back to the first kind, while not handed over.
    pub closed spec fn from_view(&self) -> Option<Map<u64, H2>> {
        match self.from {
            Some(t) => Some(t.helpers_view()),
            None => None,
        }
    }

    pub fn new() -> (r: Self)
        ensures
            r.to_view() == Some(Map::<u64, H1>::empty()),
            r.from_view() == Some(Map::<u64, H2>::empty()),
    {
        Translator { to: Some(HelperTable::new()), from: Some(HelperTable::new()) }
    }

    /// Adds a helper for kind `key` to the second kind (ignored once handed over).
    pub fn add_to(&mut self, key: u64, h: H1)
        ensures
            final(self).to_view() == (match old(self).to_view() {
                Some(m) => Some(m.insert(key, h)),
                None => None,
            }),
            final(self).from_view() == old(self).from_view(),
    {
        match &mut self.to {
            Some(t) => t.insert(key, h),
            None => {},
        }
    }

    /// Adds a helper for kind `key` back to the first kind (ignored once handed over).
    pub fn add_from(&mut self, key: u64, h: H2)
        ensures
            final(self).from_view() == (match old(self).from_view() {
                Some(m) => Some(m.insert(key, h)),
                None => None,
            }),
            final(self).to_view() == old(self).to_view(),
    {
        match &mut self.from {
            Some(t) => t.insert(key, h),
            None => {},
        }
    }

    /// Hands over the helpers back to the first kind, for the side that
    /// receives messages of the second kind; can be done once.
    pub fn attach_to(&mut self) -> (r: HelperTable<H2>)
        requires
            old(self).from_view() is Some,
        ensures
            r.helpers_view() == old(self).from_view()->0,
            final(self).from_view() is None,
            final(self).to_view() == old(self).to_view(),
    {
        let t = self.from.take();
        match t {
            Some(t) => t,
            None => HelperTable::new(),
        }
    }

    /// Hands over the helpers to the second kind, for the side that receives
    /// messages of the first kind; can be done once.
    pub fn attach_from(&mut self) -> (r: HelperTable<H1>)
        requires
            old(self).to_view() is Some,
        ensures
            r.helpers_view() == old(self).to_view()->0,
            final(self).to_view() is None,
            final(self).from_view() == old(self).from_view(),
    {
        let t = self.to.take();
        match t {
            Some(t) => t,
            None => HelperTable::new(),
        }
    }
}

} // verus!
