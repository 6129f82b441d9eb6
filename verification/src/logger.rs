//! The logger reactor: listens to the game manager for new games and to every
//! game for its records, which it hands to a log handler.
use vstd::prelude::*;
use crate::reactor::ReactorId;
use crate::game::manager::GameJoin;

verus! {

pub struct Logger {
    manager: ReactorId,
}

impl Logger {
    pub closed spec fn manager_view(&self) -> ReactorId { self.manager }

    /// A logger that learns about new games from `manager`.
    pub fn params(manager: ReactorId) -> (r: Self)
        ensures
            r.manager_view() == manager,
    {
        Logger { manager }
    }

    /// Starting up: the reactor to open a link to (the game manager).
    pub fn init(&self) -> (r: ReactorId)
        ensures
            r == self.manager_view(),
    {
        self.manager
    }

    /// A new game: the reactor to open a link to, whose records come in.
    pub fn handle_game_join(&self, game: &GameJoin) -> (r: ReactorId)
        ensures
            r == game.0,
    {
        game.0
    }
}

} // verus!
