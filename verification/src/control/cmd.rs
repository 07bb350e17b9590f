//! Subcommand definitions.

use std::rc::Rc;
use vstd::prelude::*;
use crate::control::flag::lemma_flag_view;
use crate::control::{CliFlag, FlagView};
use crate::error::{builder_err, EshuError, EshuErrorKind, EshuResult, ErrView, KindView};

verus! {

broadcast use lemma_flag_view;

/// A subcommand: its name, about texts, flags and own subcommands.
///
/// Users who want code to run when the subcommand is entered look up the
/// subcommand's parsed [`crate::Cli`] with `Cli::get_subcommand_cli`.
#[derive(Debug)]
pub struct CliCmd {
    pub(crate) name: String,
    pub(crate) short_about: String,
    pub(crate) long_about: String,
    pub(crate) flags: Vec<CliFlag>,
    pub(crate) subcommands: Vec<CliCmd>,
}

/// The mathematical value of a [`CliCmd`] (and of a [`CliCmdBuilder`]).
pub struct CmdView {
    pub name: Seq<char>,
    pub short_about: Seq<char>,
    pub long_about: Seq<char>,
    pub flags: Seq<FlagView>,
    pub subcommands: Seq<CmdView>,
}

/// The view of a command, with the views of its subcommands.
pub closed spec fn cmd_view(c: CliCmd) -> CmdView
    decreases c,
{
    CmdView {
        name: c.name@,
        short_about: c.short_about@,
        long_about: c.long_about@,
        flags: flags_view(c.flags@),
        subcommands: Seq::new(
            c.subcommands@.len(),
            |i: int|
                if 0 <= i < c.subcommands@.len() {
                    cmd_view(c.subcommands@[i])
                } else {
                    arbitrary()
                },
        ),
    }
}

/// The views of a sequence of commands.
pub open spec fn cmds_view(s: Seq<CliCmd>) -> Seq<CmdView> {
    Seq::new(s.len(), |i: int| s[i]@)
}

/// The view of a command, field by field (for the crate's own modules).
pub(crate) broadcast proof fn lemma_cmd_view(c: CliCmd)
    ensures
        #[trigger] c@ == (CmdView {
            name: c.name@,
            short_about: c.short_about@,
            long_about: c.long_about@,
            flags: flags_view(c.flags@),
            subcommands: cmds_view(c.subcommands@),
        }),
{
    assert(cmd_view(c).subcommands =~= cmds_view(c.subcommands@));
}

/// The views of a sequence of flags.
pub open spec fn flags_view(s: Seq<CliFlag>) -> Seq<FlagView> {
    Seq::new(s.len(), |i: int| s[i]@)
}

impl View for CliCmd {
    type V = CmdView;

    closed spec fn view(&self) -> CmdView {
        cmd_view(*self)
    }
}

/// A copy of a list of flags.
pub fn clone_flags(v: &Vec<CliFlag>) -> (r: Vec<CliFlag>)
    ensures
        r@ == v@,
{
    let mut r: Vec<CliFlag> = Vec::new();
    let mut i: usize = 0;
    while i < v.len()
        invariant
            i <= v@.len(),
            r@ == v@.subrange(0, i as int),
        decreases v@.len() - i,
    {
        r.push(v[i].clone());
        i += 1;
    }
    r
}

/// A copy of a list of subcommands.
pub fn clone_cmds(v: &Vec<CliCmd>) -> (r: Vec<CliCmd>)
    ensures
        cmds_view(r@) == cmds_view(v@),
    decreases v,
{
    let mut r: Vec<CliCmd> = Vec::new();
    let mut i: usize = 0;
    while i < v.len()
        invariant
            i <= v@.len(),
            r@.len() == i,
            forall|j: int| 0 <= j < i ==> r@[j]@ == v@[j]@,
        decreases v@.len() - i,
    {
        r.push(v[i].duplicate());
        i += 1;
    }
    assert(cmds_view(r@) =~= cmds_view(v@));
    r
}

/// The subcommand held by a shared pointer.
pub fn unshare(c: Rc<CliCmd>) -> (r: CliCmd)
    ensures
        r@ == (*c)@,
{
    match Rc::try_unwrap(c) {
        Ok(cmd) => cmd,
        Err(shared) => shared.duplicate(),
    }
}

impl CliCmd {
    /// Create a new command through its builder.
    pub fn new(name: &str) -> (r: CliCmdBuilder)
        ensures
            r@ == (CmdView {
                name: name@,
                short_about: seq![],
                long_about: seq![],
                flags: seq![],
                subcommands: seq![],
            }),
    {
        let r = CliCmdBuilder {
            name: name.to_owned(),
            short_about: String::new(),
            long_about: String::new(),
            flags: Vec::new(),
            subcommands: Vec::new(),
        };
        assert(flags_view(r.flags@) =~= seq![]);
        assert(cmds_view(r.subcommands@) =~= seq![]);
        r
    }

    /// A command made of the given parts as they are, without the checks of
    /// [`CliCmdBuilder::build`].
    pub fn from_parts(
        name: String,
        short_about: String,
        long_about: String,
        flags: Vec<CliFlag>,
        subcommands: Vec<CliCmd>,
    ) -> (r: CliCmd)
        ensures
            r@ == (CmdView {
                name: name@,
                short_about: short_about@,
                long_about: long_about@,
                flags: flags_view(flags@),
                subcommands: cmds_view(subcommands@),
            }),
    {
        let r = CliCmd { name, short_about, long_about, flags, subcommands };
        proof {
            lemma_cmd_view(r);
        }
        r
    }

    /// A copy of this command.
    pub fn duplicate(&self) -> (r: CliCmd)
        ensures
            r@ == self@,
        decreases self,
    {
        let r = CliCmd {
            name: self.name.clone(),
            short_about: self.short_about.clone(),
            long_about: self.long_about.clone(),
            flags: clone_flags(&self.flags),
            subcommands: clone_cmds(&self.subcommands),
        };
        assert(cmd_view(r).subcommands =~= cmd_view(*self).subcommands) by {
            assert(cmds_view(r.subcommands@) == cmds_view(self.subcommands@));
            assert forall|i: int| 0 <= i < r.subcommands@.len() implies cmd_view(
                r.subcommands@[i],
            ) == cmd_view(self.subcommands@[i]) by {
                assert(cmds_view(r.subcommands@)[i] == cmds_view(self.subcommands@)[i]);
            }
        }
        r
    }

    /// The name of the command.
    pub fn name(&self) -> (r: String)
        ensures
            r@ == self@.name,
    {
        self.name.clone()
    }

    /// The description of the command in short form.
    pub fn short_about(&self) -> (r: String)
        ensures
            r@ == self@.short_about,
    {
        self.short_about.clone()
    }

    /// The description of the command in long form.
    pub fn long_about(&self) -> (r: String)
        ensures
            r@ == self@.long_about,
    {
        self.long_about.clone()
    }

    /// The flags defined for this command.
    pub fn flags(&self) -> (r: &Vec<CliFlag>)
        ensures
            flags_view(r@) == self@.flags,
    {
        &self.flags
    }

    /// The subcommands defined for this command.
    pub fn subcommands(&self) -> (r: &Vec<CliCmd>)
        ensures
            cmds_view(r@) == self@.subcommands,
    {
        &self.subcommands
    }
}

/// Builder for [`CliCmd`].
#[derive(Debug)]
pub struct CliCmdBuilder {
    name: String,
    short_about: String,
    long_about: String,
    flags: Vec<CliFlag>,
    subcommands: Vec<CliCmd>,
}

impl View for CliCmdBuilder {
    type V = CmdView;

    closed spec fn view(&self) -> CmdView {
        CmdView {
            name: self.name@,
            short_about: self.short_about@,
            long_about: self.long_about@,
            flags: flags_view(self.flags@),
            subcommands: cmds_view(self.subcommands@),
        }
    }
}

/// What [`CliCmdBuilder::build`] gives for a configured command `c`.
pub open spec fn build_cmd(c: CmdView) -> Result<CmdView, ErrView> {
    if c.name.len() == 0 {
        Err(builder_err(KindView::EmptyString("Command name must not be empty"@)))
    } else if c.short_about.len() == 0 {
        Err(builder_err(KindView::EmptyString("Command description must not be empty"@)))
    } else if c.flags.len() == 0 && c.subcommands.len() == 0 {
        Err(builder_err(KindView::NoFlagsOrCommands))
    } else {
        Ok(c)
    }
}

impl CliCmdBuilder {
    /// Set the about texts.
    pub fn with_about(self, short_about: &str, long_about: &str) -> (r: Self)
        ensures
            r@ == (CmdView { short_about: short_about@, long_about: long_about@, ..self@ }),
    {
        let mut b = self;
        b.short_about = short_about.to_owned();
        b.long_about = long_about.to_owned();
        b
    }

    /// Add a flag to the command.
    pub fn add_flag(self, flag: CliFlag) -> (r: Self)
        ensures
            r@ == (CmdView { flags: self@.flags.push(flag@), ..self@ }),
    {
        let mut b = self;
        let ghost old_flags = b.flags@;
        b.flags.push(flag);
        assert(flags_view(b.flags@) =~= flags_view(old_flags).push(flag@));
        b
    }

    /// Add a subcommand to the command.
    pub fn add_subcommand(self, subcommand: Rc<CliCmd>) -> (r: Self)
        ensures
            r@ == (CmdView { subcommands: self@.subcommands.push((*subcommand)@), ..self@ }),
    {
        let mut b = self;
        let ghost old_subs = b.subcommands@;
        b.subcommands.push(unshare(subcommand));
        assert(cmds_view(b.subcommands@) =~= cmds_view(old_subs).push((*subcommand)@));
        b
    }

    /// Build the command.
    ///
    /// # Errors
    /// If the name or short about text is empty, or if no flags or subcommands are defined.
    pub fn build(self) -> (r: EshuResult<CliCmd>)
        ensures
            match (r, build_cmd(self@)) {
                (Ok(c), Ok(v)) => c@ == v,
                (Err(e), Err(v)) => e@ == v,
                _ => false,
            },
    {
        if self.name.as_str().is_empty() {
            return Err(
                EshuError::new(
                    "eshu::builder",
                    EshuErrorKind::EmptyString("Command name must not be empty".to_owned()),
                ),
            );
        }
        if self.short_about.as_str().is_empty() {
            return Err(
                EshuError::new(
                    "eshu::builder",
                    EshuErrorKind::EmptyString("Command description must not be empty".to_owned()),
                ),
            );
        }
        if self.flags.len() == 0 && self.subcommands.len() == 0 {
            return Err(EshuError::new("eshu::builder", EshuErrorKind::NoFlagsOrCommands));
        }
        let c = CliCmd {
            name: self.name,
            short_about: self.short_about,
            long_about: self.long_about,
            flags: self.flags,
            subcommands: self.subcommands,
        };
        proof {
            lemma_cmd_view(c);
        }
        Ok(c)
    }
}

} // verus!
