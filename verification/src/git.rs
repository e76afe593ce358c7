//! Git commands and the record of them.
//!
//! Whoever has processes to start runs the commands. [`Git`] is the only way to it, and keeps in
//! ghost state every command that ran and what it answered, in order: the contracts of those who
//! use it say exactly which commands they run.
use vstd::prelude::*;

use crate::text::trim;

verus! {

/// Runs git commands: whoever has processes to start.
pub trait GitRunner: Send {
    /// Runs git with these arguments and gives what it printed, if it ran and succeeded.
    fn run(&self, args: &Vec<String>) -> Option<String>;
}

/// A command that ran, with all its arguments, and its answer, if it succeeded.
pub struct GitCall {
    pub args: Seq<Seq<char>>,
    pub answer: Option<Seq<char>>,
}

/// All the arguments of the command `args` in the work tree at `path`.
pub open spec fn arguments(path: Seq<char>, args: Seq<Seq<char>>) -> Seq<Seq<char>> {
    seq!["-C"@, path] + args
}

/// The command `args` in the work tree at `path`, answered so.
pub open spec fn called(
    path: Seq<char>,
    args: Seq<Seq<char>>,
    answer: Option<Seq<char>>,
) -> GitCall {
    GitCall { args: arguments(path, args), answer }
}

/// The answer in what a command printed: all but the white space around it.
pub open spec fn answer(printed: Option<String>) -> Option<Seq<char>> {
    match printed {
        Some(out) => Some(crate::text::trimmed(out@)),
        None => None,
    }
}

/// The text of a reply, if there is one.
pub open spec fn reply_text(reply: Option<String>) -> Option<Seq<char>> {
    match reply {
        Some(text) => Some(text@),
        None => None,
    }
}

impl GitCall {
    /// Can the runner have answered the command so?
    pub open spec fn comes_from<G: GitRunner>(self, runner: &G) -> bool {
        exists|argv: Vec<String>, printed: Option<String>|
            {
                &&& crate::text::texts(argv@) == self.args
                &&& #[trigger] call_ensures(G::run, (runner, &argv), printed)
                &&& self.answer == answer(printed)
            }
    }
}

/// A runner of git commands and the record of what it ran.
pub struct Git<G: GitRunner> {
    runner: G,
    calls: Ghost<Seq<GitCall>>,
}

impl<G: GitRunner> Git<G> {
    /// Who runs the commands.
    pub closed spec fn operator(&self) -> G {
        self.runner
    }

    /// Every command that ran, in order.
    pub closed spec fn ran(&self) -> Seq<GitCall> {
        self.calls@
    }

    pub fn new(runner: G) -> (r: Git<G>)
        ensures
            r.operator() == runner,
            r.ran() == Seq::<GitCall>::empty(),
    {
        Git { runner, calls: Ghost(Seq::empty()) }
    }

    /// Runs a command in the work tree at `path`. What it answered is the end of the record.
    pub fn run(&mut self, path: &str, args: Vec<String>) -> (r: Option<String>)
        ensures
            final(self).operator() == old(self).operator(),
            final(self).ran() == old(self).ran().push(
                called(path@, crate::text::texts(args@), reply_text(r)),
            ),
            final(self).ran().last().comes_from(&old(self).operator()),
    {
        let mut argv: Vec<String> = Vec::new();
        argv.push("-C".to_owned());
        argv.push(path.to_owned());
        let ghost rest_texts = crate::text::texts(args@);
        let mut rest = args;
        argv.append(&mut rest);
        assert(crate::text::texts(argv@) == arguments(path@, rest_texts));
        let printed = self.runner.run(&argv);
        assert(call_ensures(G::run, (&self.runner, &argv), printed));
        let ghost call = GitCall { args: arguments(path@, rest_texts), answer: answer(printed) };
        assert(call.comes_from(&self.runner));
        self.calls = Ghost(self.calls@.push(call));
        match printed {
            Some(out) => Some(trim(out.as_str())),
            None => None,
        }
    }
}

} // verus!
