//! The parsed command line interface and its builder.

use vstd::prelude::*;
use crate::control::cmd::{cmds_view, flags_view};
use crate::control::{CliCmd, CliFlag, CmdView, FlagView};
use crate::error::strs_view;
use crate::store::{Store, StoreView};
use crate::text::str_eq;

pub mod builder;
pub mod help;
pub mod roff;
pub mod startup;

verus! {

/// An entered flag: its long name, the position it was recorded with, and its store.
pub type EntryView = (Seq<char>, usize, StoreView);

/// A parsed command line interface.
///
/// Built with [`Cli::new`] and `CliBuilder`; once parsed it answers which
/// flags, positional arguments and subcommands were entered.
#[derive(Debug)]
pub struct Cli {
    pub(crate) name: String,
    pub(crate) version: String,
    pub(crate) about: String,
    pub(crate) flags: Vec<CliFlag>,
    pub(crate) sub_commands: Vec<CliCmd>,
    pub(crate) entered_flags: Vec<(String, usize, Store)>,
    pub(crate) unknown_args: Option<Vec<String>>,
    pub(crate) stray_positional_args: Vec<String>,
    pub(crate) sub_cmd_cli: Option<(String, Box<Cli>)>,
    pub(crate) auto_execution: bool,
    pub(crate) author: String,
    pub(crate) publish_date: String,
}

/// The mathematical value of a [`Cli`].
pub struct CliView {
    pub name: Seq<char>,
    pub version: Seq<char>,
    pub about: Seq<char>,
    pub flags: Seq<FlagView>,
    pub sub_commands: Seq<CmdView>,
    pub entered: Seq<EntryView>,
    pub unknown: Option<Seq<Seq<char>>>,
    pub stray: Seq<Seq<char>>,
    pub sub: Option<(Seq<char>, Box<CliView>)>,
    pub auto_execution: bool,
    pub author: Seq<char>,
    pub publish_date: Seq<char>,
}

/// The views of entered flags.
pub open spec fn entries_view(s: Seq<(String, usize, Store)>) -> Seq<EntryView> {
    Seq::new(s.len(), |i: int| (s[i].0@, s[i].1, s[i].2@))
}

/// The view of a parsed interface, with the view of the entered subcommand's.
pub closed spec fn cli_view(c: Cli) -> CliView
    decreases c,
{
    CliView {
        name: c.name@,
        version: c.version@,
        about: c.about@,
        flags: flags_view(c.flags@),
        sub_commands: cmds_view(c.sub_commands@),
        entered: entries_view(c.entered_flags@),
        unknown: match c.unknown_args {
            Some(u) => Some(strs_view(u@)),
            None => None,
        },
        stray: strs_view(c.stray_positional_args@),
        sub: match c.sub_cmd_cli {
            Some(p) => Some((p.0@, Box::new(cli_view(*p.1)))),
            None => None,
        },
        auto_execution: c.auto_execution,
        author: c.author@,
        publish_date: c.publish_date@,
    }
}

impl View for Cli {
    type V = CliView;

    closed spec fn view(&self) -> CliView {
        cli_view(*self)
    }
}

/// The view of a parsed interface, field by field (for the crate's own modules).
pub(crate) broadcast proof fn lemma_cli_view(c: Cli)
    ensures
        #[trigger] c@ == (CliView {
            name: c.name@,
            version: c.version@,
            about: c.about@,
            flags: flags_view(c.flags@),
            sub_commands: cmds_view(c.sub_commands@),
            entered: entries_view(c.entered_flags@),
            unknown: match c.unknown_args {
                Some(u) => Some(strs_view(u@)),
                None => None,
            },
            stray: strs_view(c.stray_positional_args@),
            sub: match c.sub_cmd_cli {
                Some(p) => Some((p.0@, Box::new(p.1@))),
                None => None,
            },
            auto_execution: c.auto_execution,
            author: c.author@,
            publish_date: c.publish_date@,
        }),
{
}

/// The first position at or after `i` of an entry named `name`, or -1.
pub open spec fn entry_index_from(es: Seq<EntryView>, name: Seq<char>, i: int) -> int
    decreases es.len() - i,
{
    if i < 0 || i >= es.len() {
        -1
    } else if es[i].0 == name {
        i
    } else {
        entry_index_from(es, name, i + 1)
    }
}

/// The position of the entry named `name`, or -1.
pub open spec fn entry_index(es: Seq<EntryView>, name: Seq<char>) -> int {
    entry_index_from(es, name, 0)
}

/// The search for an entry finds the first entry with that name, if any.
pub proof fn lemma_entry_index_from(es: Seq<EntryView>, name: Seq<char>, i: int)
    requires
        0 <= i,
    ensures
        entry_index_from(es, name, i) == -1 || (i <= entry_index_from(es, name, i) < es.len()
            && es[entry_index_from(es, name, i)].0 == name),
        forall|j: int|
            i <= j < es.len() && (entry_index_from(es, name, i) == -1 || j < entry_index_from(
                es,
                name,
                i,
            )) ==> es[j].0 != name,
    decreases es.len() - i,
{
    if i < es.len() && es[i].0 != name {
        lemma_entry_index_from(es, name, i + 1);
    }
}

/// The position of the entry named `name` in `es`.
pub fn find_entry(es: &Vec<(String, usize, Store)>, name: &str) -> (r: Option<usize>)
    ensures
        match r {
            Some(i) => i == entry_index(entries_view(es@), name@) && i < es@.len(),
            None => entry_index(entries_view(es@), name@) == -1,
        },
{
    let ghost v = entries_view(es@);
    let mut i: usize = 0;
    while i < es.len()
        invariant
            v == entries_view(es@),
            i <= es@.len(),
            entry_index(v, name@) == entry_index_from(v, name@, i as int),
        decreases es@.len() - i,
    {
        if str_eq(es[i].0.as_str(), name) {
            return Some(i);
        }
        i += 1;
    }
    None
}

impl Cli {
    /// Create a new command line interface via the builder.
    pub fn new(name: &str) -> (r: builder::CliBuilder)
        ensures
            r@ == builder::fresh_builder(name@),
    {
        builder::CliBuilder::new(name)
    }

    /// The stray positional arguments: positional arguments without a
    /// corresponding flag.
    pub fn get_stray_positional_args(&self) -> (r: &Vec<String>)
        ensures
            strs_view(r@) == self@.stray,
    {
        &self.stray_positional_args
    }

    /// Whether the flag with this long name was entered.
    pub fn is_flag_entered(&self, flag_name: &str) -> (r: bool)
        ensures
            r == (entry_index(self@.entered, flag_name@) >= 0),
    {
        find_entry(&self.entered_flags, flag_name).is_some()
    }

    /// The store of the flag with this long name, if it was entered.
    pub fn get_flag_store(&self, flag_name: &str) -> (r: Option<&Store>)
        ensures
            match r {
                Some(s) => {
                    let i = entry_index(self@.entered, flag_name@);
                    i >= 0 && s@ == self@.entered[i].2
                },
                None => entry_index(self@.entered, flag_name@) == -1,
            },
    {
        match find_entry(&self.entered_flags, flag_name) {
            Some(i) => Some(&self.entered_flags[i].2),
            None => None,
        }
    }

    /// The unknown arguments; only `Some` if the builder was told to hand them over.
    pub fn get_unknown_args(&self) -> (r: Option<&Vec<String>>)
        ensures
            match (r, self@.unknown) {
                (Some(u), Some(w)) => strs_view(u@) == w,
                (None, None) => true,
                _ => false,
            },
    {
        match &self.unknown_args {
            Some(u) => Some(u),
            None => None,
        }
    }

    /// Whether the subcommand with this name was entered.
    pub fn is_subcommand_entered(&self, subcommand_name: &str) -> (r: bool)
        ensures
            r == (self@.sub matches Some(p) && p.0 == subcommand_name@),
    {
        match &self.sub_cmd_cli {
            Some(p) => str_eq(p.0.as_str(), subcommand_name),
            None => false,
        }
    }

    /// The parsed interface of the subcommand with this name, if it was entered.
    pub fn get_subcommand_cli(&self, subcommand_name: &str) -> (r: Option<&Cli>)
        ensures
            match r {
                Some(c) => self@.sub matches Some(p) && p.0 == subcommand_name@ && c@ == *p.1,
                None => !(self@.sub matches Some(p) && p.0 == subcommand_name@),
            },
    {
        match &self.sub_cmd_cli {
            Some(p) => {
                if str_eq(p.0.as_str(), subcommand_name) {
                    Some(&*p.1)
                } else {
                    None
                }
            },
            None => None,
        }
    }

    /// The text printed for `--version`.
    pub fn version_text(&self) -> (r: String)
        ensures
            r@ == self@.name + " version "@ + self@.version,
    {
        let mut s = self.name.clone();
        crate::text::push_str(&mut s, " version ");
        crate::text::push_str(&mut s, self.version.as_str());
        s
    }
}

} // verus!
