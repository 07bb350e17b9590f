//! What a program does right after its arguments were parsed: print help or
//! the version and exit, or run the entered subcommands.

use vstd::prelude::*;
use crate::cli::{entry_index, lemma_cli_view, Cli, CliView};
use crate::cli::builder::{help_flag, version_flag};

verus! {

broadcast use lemma_cli_view;

/// One thing to do after parsing; `depth` counts the subcommands between the
/// program and the interface concerned (0 for the program itself).
#[derive(Debug, Clone, Copy, PartialEq, Eq, Structural)]
pub enum StartupAction {
    /// Print the help text of the interface at this depth, then exit successfully.
    PrintHelp(usize),
    /// Print the version of the interface at this depth, then exit successfully.
    PrintVersion(usize),
    /// Run the subcommand entered at this depth with the interface parsed
    /// for it (the one at the next depth).
    Execute(usize),
}

/// Whether the flag named `name` was entered.
pub open spec fn entered(c: CliView, name: Seq<char>) -> bool {
    entry_index(c.entered, name) >= 0
}

/// Whether an action ends the program.
pub open spec fn exits(a: StartupAction) -> bool {
    a is PrintHelp || a is PrintVersion
}

/// The actions for the interface `c` at depth `d` and the subcommands below
/// it, the innermost first: each level, once the levels below it are done,
/// prints its help if `help` was entered, else its version if `version` was
/// entered, else runs its entered subcommand if it executes them; nothing
/// follows an action that exits.
pub open spec fn actions_at(c: CliView, d: usize) -> Seq<StartupAction>
    decreases c,
{
    let inner = match c.sub {
        Some(p) => actions_at(*p.1, next_depth(d)),
        None => seq![],
    };
    if inner.len() > 0 && exits(inner.last()) {
        inner
    } else if entered(c, help_flag().long_flag) {
        inner.push(StartupAction::PrintHelp(d))
    } else if entered(c, version_flag().long_flag) {
        inner.push(StartupAction::PrintVersion(d))
    } else if c.auto_execution && c.sub is Some {
        inner.push(StartupAction::Execute(d))
    } else {
        inner
    }
}

/// The depth below `d` (which stays at `usize::MAX`, a depth no parse reaches).
pub open spec fn next_depth(d: usize) -> usize {
    if d < usize::MAX {
        (d + 1) as usize
    } else {
        d
    }
}

/// The number of subcommands entered one inside the other.
pub open spec fn depth(c: CliView) -> nat
    decreases c,
{
    match c.sub {
        Some(p) => 1 + depth(*p.1),
        None => 0,
    }
}

/// The depth an action concerns.
pub open spec fn action_depth(a: StartupAction) -> int {
    match a {
        StartupAction::PrintHelp(k) => k as int,
        StartupAction::PrintVersion(k) => k as int,
        StartupAction::Execute(k) => k as int,
    }
}

/// Printing help or the version ends the program: an action that exits is
/// always the last one.
pub proof fn law_exit_is_last(c: CliView, d: usize)
    ensures
        forall|i: int| 0 <= i < actions_at(c, d).len() - 1 ==> !exits(#[trigger] actions_at(c, d)[i]),
    decreases c,
{
    let inner = match c.sub {
        Some(p) => actions_at(*p.1, next_depth(d)),
        None => seq![],
    };
    if let Some(p) = c.sub {
        law_exit_is_last(*p.1, next_depth(d));
    }
    let r = actions_at(c, d);
    if !(inner.len() > 0 && exits(inner.last())) && r.len() == inner.len() + 1 {
        assert forall|i: int| 0 <= i < r.len() - 1 implies !exits(#[trigger] r[i]) by {
            assert(r[i] == inner[i]);
        }
    }
}

/// Every action concerns an interface that was parsed: its depth lies between
/// `d` and `d` plus the number of nested subcommands, and a subcommand is run
/// only from a level at which one was entered.
pub proof fn law_actions_in_range(c: CliView, d: usize)
    requires
        d + depth(c) <= usize::MAX,
    ensures
        forall|i: int|
            0 <= i < actions_at(c, d).len() ==> d <= action_depth(#[trigger] actions_at(c, d)[i])
                <= d + depth(c) && (actions_at(c, d)[i] is Execute ==> action_depth(
                actions_at(c, d)[i],
            ) < d + depth(c)),
    decreases c,
{
    if let Some(p) = c.sub {
        law_actions_in_range(*p.1, next_depth(d));
    }
}

impl Cli {
    fn actions_from(&self, d: usize) -> (r: Vec<StartupAction>)
        ensures
            r@ == actions_at(self@, d),
        decreases self,
    {
        let mut inner = match &self.sub_cmd_cli {
            Some(p) => p.1.actions_from(d.saturating_add(1)),
            None => Vec::new(),
        };
        let n = inner.len();
        if n > 0 && (inner[n - 1].is_print_help() || inner[n - 1].is_print_version()) {
            return inner;
        }
        proof {
            reveal_strlit("help");
            reveal_strlit("version");
        }
        if self.is_flag_entered("help") {
            inner.push(StartupAction::PrintHelp(d));
        } else if self.is_flag_entered("version") {
            inner.push(StartupAction::PrintVersion(d));
        } else if self.auto_execution && self.sub_cmd_cli.is_some() {
            inner.push(StartupAction::Execute(d));
        }
        inner
    }

    /// What to do now that the arguments are parsed, the innermost
    /// subcommand first; the list ends early with an action that exits.
    pub fn startup_actions(&self) -> (r: Vec<StartupAction>)
        ensures
            r@ == actions_at(self@, 0),
    {
        self.actions_from(0)
    }
}

impl StartupAction {
    /// Whether this prints help.
    pub fn is_print_help(&self) -> (r: bool)
        ensures
            r == (*self is PrintHelp),
    {
        matches!(self, StartupAction::PrintHelp(_))
    }

    /// Whether this prints the version.
    pub fn is_print_version(&self) -> (r: bool)
        ensures
            r == (*self is PrintVersion),
    {
        matches!(self, StartupAction::PrintVersion(_))
    }
}

} // verus!
