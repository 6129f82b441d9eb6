//! The command-line reactors: one passes the lines typed on the command line
//! to another reactor and prints its answers; the other parses the lines into
//! commands for its own reactor.
use vstd::prelude::*;
use crate::reactor::{ReactorId, LinkParams, TargetReactor};
use crate::formats::{return_line, return_line_text, prompt};

verus! {

/// The kinds of messages of the command line.
#[derive(Clone, Copy, Debug, PartialEq, Eq, Structural)]
pub enum CmdMsgKind {
    /// A line typed on the command line.
    CmdInput,
    /// An answer to print.
    CmdReturn,
}

/// Passes the command line's lines to `foreign_id` and prints its answers.
pub struct CmdReactor {
    foreign_id: ReactorId,
}

impl CmdReactor {
    pub closed spec fn foreign_id_view(&self) -> ReactorId { self.foreign_id }

    pub fn new(foreign_id: ReactorId) -> (r: Self)
        ensures
            r.foreign_id_view() == foreign_id,
    {
        CmdReactor { foreign_id }
    }

    /// Starting up as reactor `me`: the links to open (from the command line
    /// to the reactor, and to the other reactor) and the prompt to print.
    pub fn handle_initialize(&self, me: ReactorId) -> (r: (LinkParams<CmdMsgKind>, LinkParams<CmdMsgKind>, String))
        ensures
            r.0.remote == me,
            r.0.internal@ == Seq::<CmdMsgKind>::empty(),
            r.0.external@ == seq![(CmdMsgKind::CmdInput, TargetReactor::Reactor)],
            r.1.remote == self.foreign_id_view(),
            r.1.internal@ == seq![CmdMsgKind::CmdInput],
            r.1.external@ == seq![(CmdMsgKind::CmdReturn, TargetReactor::Reactor)],
            r.2@ == "> "@,
    {
        (CmdLink::params(me), ForeignLink::params(self.foreign_id), prompt())
    }

    /// An answer: the line to print, then the prompt.
    pub fn handle_return(&self, msg: &String) -> (r: (String, String))
        ensures
            r.0@ == return_line_text(msg@),
            r.1@ == "> "@,
    {
        (return_line(msg), prompt())
    }
}

/// The link from the command line to the reactor.
pub struct CmdLink;

impl CmdLink {
    pub fn params(foreign_id: ReactorId) -> (r: LinkParams<CmdMsgKind>)
        ensures
            r.remote == foreign_id,
            r.internal@ == Seq::<CmdMsgKind>::empty(),
            r.external@ == seq![(CmdMsgKind::CmdInput, TargetReactor::Reactor)],
    {
        let internal: Vec<CmdMsgKind> = Vec::new();
        let mut external: Vec<(CmdMsgKind, TargetReactor)> = Vec::new();
        external.push((CmdMsgKind::CmdInput, TargetReactor::Reactor));
        proof {
            assert(internal@ =~= Seq::<CmdMsgKind>::empty());
            assert(external@ =~= seq![(CmdMsgKind::CmdInput, TargetReactor::Reactor)]);
        }
        LinkParams { remote: foreign_id, internal, external }
    }
}

/// The link to the other reactor: sends the lines, passes the answers.
pub struct ForeignLink;

impl ForeignLink {
    pub fn params(foreign_id: ReactorId) -> (r: LinkParams<CmdMsgKind>)
        ensures
            r.remote == foreign_id,
            r.internal@ == seq![CmdMsgKind::CmdInput],
            r.external@ == seq![(CmdMsgKind::CmdReturn, TargetReactor::Reactor)],
    {
        let mut internal: Vec<CmdMsgKind> = Vec::new();
        internal.push(CmdMsgKind::CmdInput);
        let mut external: Vec<(CmdMsgKind, TargetReactor)> = Vec::new();
        external.push((CmdMsgKind::CmdReturn, TargetReactor::Reactor));
        proof {
            assert(internal@ =~= seq![CmdMsgKind::CmdInput]);
            assert(external@ =~= seq![(CmdMsgKind::CmdReturn, TargetReactor::Reactor)]);
        }
        LinkParams { remote: foreign_id, internal, external }
    }
}

/// What a parsed line becomes.
#[derive(Debug)]
pub enum CommandOutcome<C> {
    /// A command, for the reactor.
    Command(C),
    /// The parser's complaint, to print.
    Return(String),
}

/// A line was parsed: a command goes to the reactor, a complaint to the
/// command line.
pub fn handle_command<C>(parsed: Result<C, String>) -> (r: CommandOutcome<C>)
    ensures
        match parsed {
            Ok(c) => r == CommandOutcome::<C>::Command(c),
            Err(m) => r == CommandOutcome::<C>::Return(m),
        },
{
    match parsed {
        Ok(c) => CommandOutcome::Command(c),
        Err(m) => CommandOutcome::Return(m),
    }
}

} // verus!
