//! Numbers with a meaning: the key a client identifies with, and a player.
use vstd::prelude::*;

verus! {

/// The key a client identifies itself with.
#[derive(Clone, Copy, Debug, Hash, PartialEq, Eq, Structural)]
pub struct Identifier(u64);

impl Identifier {
    pub closed spec fn value_view(&self) -> u64 { self.0 }

    /// The key with number `src`.
    pub closed spec fn from_u64_spec(src: u64) -> Identifier { Identifier(src) }

    /// The key with number `src`.
    pub fn from_u64(src: u64) -> (r: Identifier)
        ensures
            r.value_view() == src,
            r == Identifier::from_u64_spec(src),
    {
        Identifier(src)
    }

    /// The number of the key.
    pub fn into_u64(self) -> (r: u64)
        ensures
            r == self.value_view(),
    {
        self.0
    }

    /// The number of the key.
    pub fn value(&self) -> (r: u64)
        ensures
            r == self.value_view(),
    {
        self.0
    }
}

/// A player.
#[derive(Clone, Copy, Debug, Hash, PartialEq, Eq, Structural)]
pub struct PlayerId(u64);

impl PlayerId {
    pub closed spec fn value_view(&self) -> u64 { self.0 }

    /// The player with number `src`.
    pub fn from_u64(src: u64) -> (r: PlayerId)
        ensures
            r.value_view() == src,
    {
        PlayerId(src)
    }

    /// The number of the player.
    pub fn into_u64(self) -> (r: u64)
        ensures
            r == self.value_view(),
    {
        self.0
    }

    /// The number of the player.
    pub fn value(&self) -> (r: u64)
        ensures
            r == self.value_view(),
    {
        self.0
    }
}

} // verus!
