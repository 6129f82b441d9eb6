//! Planet Wars: checking the players' commands against the board, and
//! collecting the players' answers of a turn.
use vstd::prelude::*;
use crate::assoc::{keys_distinct, has_key, assoc_map, find_key, assoc_insert, lemma_assoc_insert, lists_entries, lemma_lists_entries, vec_set_insert, vec_set_remove};
use crate::message_resolver::ResponseError;

verus! {

/// A player of a Planet Wars game.
#[derive(Clone, Copy, Debug, PartialEq, Eq, Structural, Hash)]
pub struct PlayerId {
    id: usize,
}

impl PlayerId {
    pub closed spec fn id_view(&self) -> usize { self.id }

    pub fn new(id: usize) -> (r: PlayerId)
        ensures
            r.id_view() == id,
    {
        PlayerId { id }
    }

    pub fn as_usize(&self) -> (r: usize)
        ensures
            r == self.id_view(),
    {
        self.id
    }
}

/// A move: send ships from one planet to another.
#[derive(Debug)]
pub struct Command {
    pub origin: String,
    pub destination: String,
    pub ship_count: u64,
}

/// Why a move is refused.
#[derive(Clone, Copy, Debug, PartialEq, Eq, Structural)]
pub enum CommandError {
    OriginDoesNotExist,
    DestinationDoesNotExist,
    OriginNotOwned,
    NotEnoughShips,
    ZeroShipMove,
}

/// A checked move, by planet number.
#[derive(Clone, Copy, Debug, PartialEq, Eq, Structural)]
pub struct Dispatch {
    pub origin: usize,
    pub target: usize,
    pub ship_count: u64,
}

/// What the rules need to know of a planet to check a move.
#[derive(Clone, Copy, Debug, PartialEq, Eq, Structural)]
pub struct PlanetInfo {
    pub owner: Option<PlayerId>,
    pub ship_count: u64,
}

/// The number of the planet called `name`, if any (of two planets with the
/// same name, the later one counts).
pub open spec fn planet_number(names: Seq<(String, usize)>, name: Seq<char>) -> Option<usize>
    decreases names.len(),
{
    if names.len() == 0 {
        None
    } else if names.last().0@ == name {
        Some(names.last().1)
    } else {
        planet_number(names.drop_last(), name)
    }
}

/// The verdict on a move of `player`: the origin and the destination must
/// exist, the origin must be the player's, it must have enough ships, and the
/// move must send at least one ship.
pub open spec fn check_command(names: Seq<(String, usize)>, planets: Seq<PlanetInfo>, player: PlayerId,
    origin: Seq<char>, destination: Seq<char>, ship_count: u64) -> Result<Dispatch, CommandError> {
    match planet_number(names, origin) {
        None => Err(CommandError::OriginDoesNotExist),
        Some(o) => match planet_number(names, destination) {
            None => Err(CommandError::DestinationDoesNotExist),
            Some(t) => if planets[o as int].owner != Some(player) {
                Err(CommandError::OriginNotOwned)
            } else if planets[o as int].ship_count < ship_count {
                Err(CommandError::NotEnoughShips)
            } else if ship_count == 0 {
                Err(CommandError::ZeroShipMove)
            } else {
                Ok(Dispatch { origin: o, target: t, ship_count })
            },
        },
    }
}

/// A move is accepted only from a planet of the moving player, with at least
/// one ship and no more ships than the planet has; the dispatch names the
/// planets the command names and carries the command's ship count.
pub proof fn law_accepted_move_is_valid(names: Seq<(String, usize)>, planets: Seq<PlanetInfo>, player: PlayerId,
    origin: Seq<char>, destination: Seq<char>, ship_count: u64)
    ensures
        check_command(names, planets, player, origin, destination, ship_count) matches Ok(d) ==> {
            &&& planet_number(names, origin) == Some(d.origin)
            &&& planet_number(names, destination) == Some(d.target)
            &&& planets[d.origin as int].owner == Some(player)
            &&& 0 < ship_count <= planets[d.origin as int].ship_count
            &&& d.ship_count == ship_count
        },
{
}

/// A valid move is accepted: both planets exist, the origin is the moving
/// player's, and it sends at least one and at most all of the origin's ships.
pub proof fn law_valid_move_is_accepted(names: Seq<(String, usize)>, planets: Seq<PlanetInfo>, player: PlayerId,
    origin: Seq<char>, destination: Seq<char>, ship_count: u64, o: usize, t: usize)
    requires
        planet_number(names, origin) == Some(o),
        planet_number(names, destination) == Some(t),
        planets[o as int].owner == Some(player),
        0 < ship_count <= planets[o as int].ship_count,
    ensures
        check_command(names, planets, player, origin, destination, ship_count)
            == Ok::<Dispatch, CommandError>(Dispatch { origin: o, target: t, ship_count }),
{
}

/// A move from a planet the player does not own is refused as such, whatever
/// it asks for, once both planets exist.
pub proof fn law_foreign_origin_refused(names: Seq<(String, usize)>, planets: Seq<PlanetInfo>, player: PlayerId,
    origin: Seq<char>, destination: Seq<char>, ship_count: u64, o: usize)
    requires
        planet_number(names, origin) == Some(o),
        planet_number(names, destination) is Some,
        planets[o as int].owner != Some(player),
    ensures
        check_command(names, planets, player, origin, destination, ship_count)
            == Err::<Dispatch, CommandError>(CommandError::OriginNotOwned),
{
}

/// The board as the move checks see it: planet names with their numbers, and
/// the planets.
pub struct Board {
    planet_map: Vec<(String, usize)>,
    planets: Vec<PlanetInfo>,
}

impl Board {
    #[verifier::type_invariant]
    spec fn inv(self) -> bool {
        forall|i: int| 0 <= i < self.planet_map@.len() ==> (#[trigger] self.planet_map@[i]).1 < self.planets@.len()
    }

    pub closed spec fn names_view(&self) -> Seq<(String, usize)> { self.planet_map@ }
    pub closed spec fn planets_view(&self) -> Seq<PlanetInfo> { self.planets@ }

    /// A board; every numbered name must be the number of a planet.
    pub fn new(planet_map: Vec<(String, usize)>, planets: Vec<PlanetInfo>) -> (r: Option<Board>)
        ensures
            match r {
                Some(b) => b.names_view() == planet_map@ && b.planets_view() == planets@,
                None => exists|i: int| 0 <= i < planet_map@.len() && (#[trigger] planet_map@[i]).1 >= planets@.len(),
            },
    {
        let mut i: usize = 0;
        while i < planet_map.len()
            invariant
                i <= planet_map@.len(),
                forall|j: int| 0 <= j < i ==> (#[trigger] planet_map@[j]).1 < planets@.len(),
            decreases planet_map.len() - i,
        {
            if planet_map[i].1 >= planets.len() {
                return None;
            }
            i = i + 1;
        }
        Some(Board { planet_map, planets })
    }

    fn lookup(&self, name: &String) -> (r: Option<usize>)
        ensures
            r == planet_number(self.names_view(), name@),
            r matches Some(o) ==> o < self.planets_view().len(),
    {
        proof {
            use_type_invariant(self);
        }
        let mut i: usize = self.planet_map.len();
        proof {
            assert(self.planet_map@.subrange(0, i as int) =~= self.planet_map@);
        }
        while i > 0
            invariant
                i <= self.planet_map@.len(),
                planet_number(self.planet_map@, name@) == planet_number(self.planet_map@.subrange(0, i as int), name@),
                forall|j: int| 0 <= j < self.planet_map@.len() ==> (#[trigger] self.planet_map@[j]).1 < self.planets@.len(),
            decreases i,
        {
            let ghost rest = self.planet_map@.subrange(0, i as int);
            let j = i - 1;
            proof {
                assert(rest.last() == self.planet_map@[j as int]);
            }
            if self.planet_map[j].0 == *name {
                return Some(self.planet_map[j].1);
            }
            proof {
                assert(rest.drop_last() =~= self.planet_map@.subrange(0, j as int));
            }
            i = j;
        }
        None
    }

    /// Checks a move of `player` (see `check_command`).
    pub fn parse_command(&self, player_id: PlayerId, mv: &Command) -> (r: Result<Dispatch, CommandError>)
        ensures
            r == check_command(self.names_view(), self.planets_view(), player_id, mv.origin@, mv.destination@, mv.ship_count),
            r matches Ok(d) ==> self.planets_view()[d.origin as int].owner == Some(player_id)
                && 0 < mv.ship_count <= self.planets_view()[d.origin as int].ship_count
                && d.ship_count == mv.ship_count,
            (planet_number(self.names_view(), mv.origin@) matches Some(o)
                && planet_number(self.names_view(), mv.destination@) is Some
                && self.planets_view()[o as int].owner == Some(player_id)
                && 0 < mv.ship_count <= self.planets_view()[o as int].ship_count) ==> r is Ok,
    {
        let origin_id = match self.lookup(&mv.origin) {
            Some(o) => o,
            None => return Err(CommandError::OriginDoesNotExist),
        };
        let target_id = match self.lookup(&mv.destination) {
            Some(t) => t,
            None => return Err(CommandError::DestinationDoesNotExist),
        };
        let planet = self.planets[origin_id];
        let owned = match planet.owner {
            Some(o) => o.id == player_id.id,
            None => false,
        };
        if !owned {
            return Err(CommandError::OriginNotOwned);
        }
        if planet.ship_count < mv.ship_count {
            return Err(CommandError::NotEnoughShips);
        }
        if mv.ship_count == 0 {
            return Err(CommandError::ZeroShipMove);
        }
        Ok(Dispatch { origin: origin_id, target: target_id, ship_count: mv.ship_count })
    }
}

/// The answer of a player: its data, or a time-out.
pub type Answer = Result<Vec<u8>, ResponseError>;

/// Collects the players' answers to a turn's prompts; the turn is complete
/// once every prompted player has answered.
pub struct TurnCollector {
    waiting_for: Vec<u64>,
    commands: Vec<(u64, Answer)>,
}

/// The view of an answer.
pub open spec fn answer_view(a: Answer) -> Result<Seq<u8>, ResponseError> {
    match a {
        Ok(d) => Ok(d@),
        Err(x) => Err(x),
    }
}

/// The view of the answers.
pub open spec fn answers_view(v: Seq<(u64, Answer)>) -> Seq<(u64, Result<Seq<u8>, ResponseError>)> {
    v.map_values(|e: (u64, Answer)| (e.0, answer_view(e.1)))
}

impl TurnCollector {
    #[verifier::type_invariant]
    spec fn inv(self) -> bool {
        &&& self.waiting_for@.no_duplicates()
        &&& keys_distinct(answers_view(self.commands@))
    }

    /// The players still to answer.
    pub closed spec fn waiting_view(&self) -> Set<u64> { self.waiting_for@.to_set() }
    /// The answers received, by player.
    pub closed spec fn answers_map(&self) -> Map<u64, Result<Seq<u8>, ResponseError>> {
        assoc_map(answers_view(self.commands@))
    }

    pub fn new() -> (r: Self)
        ensures
            r.waiting_view() == Set::<u64>::empty(),
            r.answers_map() == Map::<u64, Result<Seq<u8>, ResponseError>>::empty(),
    {
        let r = TurnCollector { waiting_for: Vec::new(), commands: Vec::new() };
        proof {
            assert(r.waiting_for@.to_set() =~= Set::<u64>::empty());
            assert(answers_view(r.commands@) =~= Seq::empty());
            assert(assoc_map(answers_view(r.commands@)) =~= Map::empty());
        }
        r
    }
}


/// The offset by which the board is rotated for player `id` of `n` players, so
/// that every player sees itself in the same seat.
pub fn rotation_offset(n: usize, id: usize) -> (r: usize)
    requires
        id <= n,
    ensures
        r == n - id,
{
    n - id
}

impl TurnCollector {
    /// A prompt went to `player`: the turn waits for its answer.
    pub fn prompt(&mut self, player: u64)
        ensures
            final(self).waiting_view() == old(self).waiting_view().insert(player),
            final(self).answers_map() == old(self).answers_map(),
    {
        proof {
            use_type_invariant(&*self);
        }
        let mut w: Vec<u64> = Vec::new();
        std::mem::swap(&mut w, &mut self.waiting_for);
        vec_set_insert(&mut w, player);
        self.waiting_for = w;
    }

    /// `player` answered (or timed out). Once nobody is waited for any more,
    /// returns every answer of the turn, one per player, and starts afresh.
    pub fn handle_response(&mut self, player: u64, value: Answer) -> (r: Option<Vec<(u64, Answer)>>)
        ensures
            final(self).waiting_view() == old(self).waiting_view().remove(player),
            ({
                let answers = old(self).answers_map().insert(player, answer_view(value));
                if final(self).waiting_view().is_empty() {
                    &&& (r matches Some(v) && lists_entries(answers_view(v@), answers))
                    &&& final(self).answers_map() == Map::<u64, Result<Seq<u8>, ResponseError>>::empty()
                } else {
                    &&& r is None
                    &&& final(self).answers_map() == answers
                }
            }),
    {
        proof {
            use_type_invariant(&*self);
        }
        let ghost vv = answer_view(value);
        let mut cmds: Vec<(u64, Answer)> = Vec::new();
        std::mem::swap(&mut cmds, &mut self.commands);
        let ghost before = answers_view(cmds@);
        let found = find_key(&cmds, player);
        proof {
            match found {
                Some(i) => {
                    assert(before[i as int].0 == player);
                },
                None => {
                    assert(!has_key(before, player)) by {
                        if has_key(before, player) {
                            let x = choose|x: int| 0 <= x < before.len() && #[trigger] before[x].0 == player;
                            assert(cmds@[x].0 == player);
                        }
                    }
                },
            }
            lemma_assoc_insert(before, player, vv, found);
        }
        match found {
            Some(i) => {
                cmds[i] = (player, value);
            },
            None => {
                cmds.push((player, value));
            },
        }
        proof {
            assert(answers_view(cmds@) =~= assoc_insert(before, player, vv, found));
        }
        let mut w: Vec<u64> = Vec::new();
        std::mem::swap(&mut w, &mut self.waiting_for);
        vec_set_remove(&mut w, player);
        let done = w.len() == 0;
        proof {
            if !done {
                assert(w@.to_set().contains(w@[0]));
            } else {
                assert(w@.to_set() =~= Set::<u64>::empty());
            }
        }
        self.waiting_for = w;
        if done {
            proof {
                lemma_lists_entries(answers_view(cmds@));
                assert(answers_view(self.commands@) =~= Seq::empty());
                assert(assoc_map(answers_view(self.commands@)) =~= Map::empty());
            }
            Some(cmds)
        } else {
            self.commands = cmds;
            None
        }
    }
}


/// The prompts of a turn among the players `s` of a game of `n` players:
/// every living player, in order, with the rotation of the board it is shown.
pub open spec fn prompts(s: Seq<(PlayerId, bool)>, n: int) -> Seq<(PlayerId, usize)>
    decreases s.len(),
{
    if s.len() == 0 {
        Seq::empty()
    } else {
        let rest = prompts(s.drop_last(), n);
        if s.last().1 {
            rest.push((s.last().0, (n - s.last().0.id_view()) as usize))
        } else {
            rest
        }
    }
}

/// The numbers of the living players among `s`.
pub open spec fn living(s: Seq<(PlayerId, bool)>) -> Set<u64> {
    Set::new(|k: u64| exists|i: int| 0 <= i < s.len() && (#[trigger] s[i]).1 && s[i].0.id_view() as u64 == k)
}

impl TurnCollector {
    /// A new turn: every living player is prompted, in order, with the board
    /// rotated by `rotation_offset`, and the turn waits for its answer.
    pub fn prompt_players(&mut self, players: &Vec<(PlayerId, bool)>) -> (r: Vec<(PlayerId, usize)>)
        requires
            forall|i: int| 0 <= i < players@.len() ==> (#[trigger] players@[i]).0.id_view() <= players@.len(),
        ensures
            r@ == prompts(players@, players@.len() as int),
            final(self).waiting_view() == old(self).waiting_view().union(living(players@)),
            final(self).answers_map() == old(self).answers_map(),
    {
        let n = players.len();
        let mut out: Vec<(PlayerId, usize)> = Vec::new();
        let mut i: usize = 0;
        while i < n
            invariant
                n == players@.len(),
                i <= n,
                forall|j: int| 0 <= j < n ==> (#[trigger] players@[j]).0.id_view() <= n,
                out@ == prompts(players@.subrange(0, i as int), n as int),
                self.waiting_view() == old(self).waiting_view().union(living(players@.subrange(0, i as int))),
                self.answers_map() == old(self).answers_map(),
            decreases n - i,
        {
            let ghost before = players@.subrange(0, i as int);
            let ghost after = players@.subrange(0, i as int + 1);
            proof {
                assert(after.drop_last() =~= before);
                assert(after.last() == players@[i as int]);
            }
            let (p, alive) = players[i];
            if alive {
                let offset = rotation_offset(n, p.as_usize());
                self.prompt(p.as_usize() as u64);
                out.push((p, offset));
            }
            proof {
                assert forall|k: u64| #[trigger] living(after).contains(k)
                    <==> living(before).insert(p.id_view() as u64).contains(k) && (alive || living(before).contains(k)) by {
                    if living(after).contains(k) {
                        let x = choose|x: int| 0 <= x < after.len() && (#[trigger] after[x]).1 && after[x].0.id_view() as u64 == k;
                        if x < before.len() {
                            assert(before[x] == after[x]);
                        }
                    }
                    if living(before).contains(k) {
                        let x = choose|x: int| 0 <= x < before.len() && (#[trigger] before[x]).1 && before[x].0.id_view() as u64 == k;
                        assert(after[x] == before[x]);
                    }
                    if alive && k == p.id_view() as u64 {
                        assert(after[i as int] == players@[i as int]);
                    }
                }
                if alive {
                    assert(living(after) =~= living(before).insert(p.id_view() as u64));
                } else {
                    assert(living(after) =~= living(before));
                }
            }
            i = i + 1;
        }
        proof {
            assert(players@.subrange(0, n as int) =~= players@);
        }
        out
    }
}

/// The seats of a lobby for `n` clients: client `i` (by its token's position)
/// plays as player `i` over connection `i`.
pub fn lobby_seats(n: usize) -> (r: Vec<(usize, PlayerId)>)
    ensures
        r@.len() == n,
        forall|i: int| 0 <= i < n ==> (#[trigger] r@[i]).0 == i && r@[i].1.id_view() == i,
{
    let mut out: Vec<(usize, PlayerId)> = Vec::new();
    let mut num: usize = 0;
    while num < n
        invariant
            num <= n,
            out@.len() == num,
            forall|i: int| 0 <= i < num ==> (#[trigger] out@[i]).0 == i && out@[i].1.id_view() == i,
        decreases n - num,
    {
        out.push((num, PlayerId::new(num)));
        num = num + 1;
    }
    out
}

} // verus!
