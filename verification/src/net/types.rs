//! Messages between endpoints, the client manager and client controllers.
use vstd::prelude::*;
use crate::reactor::ReactorId;
use crate::types::PlayerId;

verus! {

/// The first message of a client: the key it was given, and its name.
#[derive(Debug)]
pub struct Register {
    pub id: u64,
    pub name: String,
}

/// The client manager tells a client controller that its client connected.
#[derive(Debug)]
pub struct Accepted {
    pub player: PlayerId,
    pub name: String,
    pub client_id: ReactorId,
    pub contr_id: ReactorId,
}

impl Clone for Accepted {
    fn clone(&self) -> (r: Self)
        ensures
            r.player == self.player,
            r.name@ == self.name@,
            r.client_id == self.client_id,
            r.contr_id == self.contr_id,
    {
        Accepted { player: self.player, name: self.name.clone(), client_id: self.client_id, contr_id: self.contr_id }
    }
}

} // verus!
