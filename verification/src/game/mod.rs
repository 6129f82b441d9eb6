//! Games: the controller trait that a game implements, the runner reactor
//! that drives a controller, the game manager's bookkeeping, and the plan that
//! wires up the reactors of a new game.
use vstd::prelude::*;
use serde_json::Value;
use crate::types::{PlayerId, PlayerMsg, PlayerMsgView, HostMsg};
use crate::steplock::player_msgs_view;

pub mod runner;
pub mod manager;
pub mod builder;
pub mod reactor;

verus! {

#[verifier::external_type_specification]
#[verifier::external_body]
pub struct ExValue(serde_json::Value);

/// A copy of a JSON value.
///
/// Trusted: calls `serde_json::Value::clone`; `Value` derives `Clone`, which
/// copies the whole tree, so the copy is the same value.
#[verifier::external_body]
pub(crate) fn clone_value(v: &Value) -> (r: Value)
    ensures
        r == *v,
{
    v.clone()
}

/// The JSON value `null`.
///
/// Trusted: builds `serde_json::Value::Null`; nothing is claimed of it.
#[verifier::external_body]
pub(crate) fn json_null() -> Value {
    Value::Null
}

/// A game, as the platform drives it.
///
/// The `answers_*` functions let a game say what its handlers answer; a game
/// that does not define them admits every answer. Each handler promises its
/// answer, so what the runner does is stated over them.
pub trait Controller {
    /// Whether `out` is an answer of this game, in this state, to the start,
    /// leaving the game in state `after`.
    open spec fn answers_start(&self, out: Seq<HostMsg>, after: &Self) -> bool {
        true
    }

    /// Whether `out` is an answer of this game, in this state, to a step with
    /// the turns `turns`, leaving the game in state `after`.
    open spec fn answers_step(&self, turns: Seq<PlayerMsgView>, out: Seq<HostMsg>, after: &Self) -> bool {
        true
    }

    /// Whether `done` is an answer of this game, in this state, to "are you
    /// finished?".
    open spec fn answers_done(&self, done: Option<Value>) -> bool {
        true
    }

    /// Called when all players are connected for the first time; returns the
    /// messages for the players (a game with nothing to say returns none).
    fn on_start(&mut self) -> (r: Vec<HostMsg>)
        ensures
            old(self).answers_start(r@, final(self)),
    ;

    /// Called when a player connects; returns the messages for the players.
    fn on_connect(&mut self, _player: PlayerId) -> (r: Vec<HostMsg>)
        default_ensures
            r@.len() == 0,
    {
        Vec::new()
    }

    /// Called when a player disconnects; returns the messages for the players.
    fn on_disconnect(&mut self, _player: PlayerId) -> (r: Vec<HostMsg>)
        default_ensures
            r@.len() == 0,
    {
        Vec::new()
    }

    /// Called with at least one turn of a player; returns the messages for
    /// the players.
    fn on_step(&mut self, turns: Vec<PlayerMsg>) -> (r: Vec<HostMsg>)
        ensures
            old(self).answers_step(player_msgs_view(turns@), r@, final(self)),
    ;

    /// The state of the game, kept by the game manager for played games.
    fn get_state(&mut self) -> Value {
        json_null()
    }

    /// The final state of the game once it is finished.
    fn is_done(&mut self) -> (r: Option<Value>)
        ensures
            old(self).answers_done(r),
    ;
}

} // verus!
