//! The bot reactor: runs a bot as a process, writes the input it gets to the
//! bot's standard input, one line per input, and reports the bot's output.
use vstd::prelude::*;
use crate::reactor::{ReactorId, LinkParams, TargetReactor};
use crate::formats::{bot_input_line, line_bytes};

verus! {

/// The kinds of messages between a bot reactor and the reactor it plays for.
#[derive(Clone, Copy, Debug, PartialEq, Eq, Structural)]
pub enum BotMsgKind {
    /// A line the bot wrote.
    BotReturn,
    /// Input for the bot.
    BotInput,
}

/// The bot: the command to start it with, until it runs.
#[derive(Debug)]
pub enum Bot {
    ToSpawn(Vec<String>),
    Spawned,
}

pub struct BotReactor {
    foreign_id: ReactorId,
    bot: Bot,
}

impl BotReactor {
    pub closed spec fn foreign_id_view(&self) -> ReactorId { self.foreign_id }
    pub closed spec fn spawned_view(&self) -> bool { self.bot is Spawned }
    /// The command line of the bot, until it runs.
    pub closed spec fn command_view(&self) -> Seq<Seq<char>> {
        match self.bot {
            Bot::ToSpawn(v) => v@.map_values(|s: String| s@),
            Bot::Spawned => Seq::empty(),
        }
    }

    /// A reactor for the bot started by `bot_cmd`, playing for `foreign_id`.
    pub fn new(foreign_id: ReactorId, bot_cmd: Vec<String>) -> (r: Self)
        ensures
            r.foreign_id_view() == foreign_id,
            !r.spawned_view(),
            r.command_view() == bot_cmd@.map_values(|s: String| s@),
    {
        BotReactor { foreign_id, bot: Bot::ToSpawn(bot_cmd) }
    }

    /// Starting up: returns the command line to start the bot with (program
    /// first), unless it already runs; the bot then runs.
    pub fn handle_initialize(&mut self) -> (r: Option<Vec<String>>)
        ensures
            final(self).spawned_view(),
            final(self).foreign_id_view() == old(self).foreign_id_view(),
            !old(self).spawned_view() ==> (r matches Some(v) && v@.map_values(|s: String| s@) == old(self).command_view()),
            old(self).spawned_view() ==> r is None,
    {
        let mut bot = Bot::Spawned;
        std::mem::swap(&mut bot, &mut self.bot);
        match bot {
            Bot::ToSpawn(args) => Some(args),
            Bot::Spawned => None,
        }
    }

    /// Input for the bot: the line to write to its standard input, once it runs.
    pub fn handle_return(&self, input: &Vec<u8>) -> (r: Option<Vec<u8>>)
        ensures
            self.spawned_view() ==> (r matches Some(v) && v@ == line_bytes(input@)),
            !self.spawned_view() ==> r is None,
    {
        match self.bot {
            Bot::Spawned => Some(bot_input_line(input)),
            Bot::ToSpawn(_) => None,
        }
    }
}

/// The link from the bot reactor to the reactor it plays for: sends the
/// bot's lines there and passes the input coming from there.
pub struct ForeignLink;

impl ForeignLink {
    pub fn params(foreign_id: ReactorId) -> (r: LinkParams<BotMsgKind>)
        ensures
            r.remote == foreign_id,
            r.internal@ == seq![BotMsgKind::BotReturn],
            r.external@ == seq![(BotMsgKind::BotInput, TargetReactor::Reactor)],
    {
        let mut internal: Vec<BotMsgKind> = Vec::new();
        internal.push(BotMsgKind::BotReturn);
        let mut external: Vec<(BotMsgKind, TargetReactor)> = Vec::new();
        external.push((BotMsgKind::BotInput, TargetReactor::Reactor));
        proof {
            assert(internal@ =~= seq![BotMsgKind::BotReturn]);
            assert(external@ =~= seq![(BotMsgKind::BotInput, TargetReactor::Reactor)]);
        }
        LinkParams { remote: foreign_id, internal, external }
    }
}

/// The link from the bot reactor to itself: passes the bot's lines in.
pub struct BotLink;

impl BotLink {
    pub fn params(foreign_id: ReactorId) -> (r: LinkParams<BotMsgKind>)
        ensures
            r.remote == foreign_id,
            r.internal@ == Seq::<BotMsgKind>::empty(),
            r.external@ == seq![(BotMsgKind::BotReturn, TargetReactor::Reactor)],
    {
        let internal: Vec<BotMsgKind> = Vec::new();
        let mut external: Vec<(BotMsgKind, TargetReactor)> = Vec::new();
        external.push((BotMsgKind::BotReturn, TargetReactor::Reactor));
        proof {
            assert(internal@ =~= Seq::<BotMsgKind>::empty());
            assert(external@ =~= seq![(BotMsgKind::BotReturn, TargetReactor::Reactor)]);
        }
        LinkParams { remote: foreign_id, internal, external }
    }
}

} // verus!
