//! The builder of a [`Cli`], and its validation.

use std::rc::Rc;
use vstd::prelude::*;
use crate::control::cmd::{cmds_view, flags_view, lemma_cmd_view, unshare};
use crate::control::flag::lemma_flag_view;
use crate::control::{CliCmd, CliFlag, CmdView, FlagView};
use crate::arg_parser::{parse_args, parse_spec};
use crate::cli::Cli;
use crate::error::{builder_err, strs_view, EshuError, EshuErrorKind, ErrView, KindView};
use crate::text::{has_white, push_char, push_str, str_eq};
use crate::utils::contains_whitespace;

verus! {

broadcast use {lemma_flag_view, lemma_cmd_view};

/// A builder for constructing and parsing a [`crate::Cli`].
#[derive(Debug)]
pub struct CliBuilder {
    pub(crate) name: String,
    pub(crate) version: Option<String>,
    pub(crate) about: String,
    pub(crate) flags: Vec<CliFlag>,
    pub(crate) sub_commands: Vec<CliCmd>,
    pub(crate) handle_unknown_args: bool,
    pub(crate) basic: bool,
    pub(crate) auto_execution: bool,
    pub(crate) author: String,
    pub(crate) publish_date: String,
}

/// The mathematical value of a [`CliBuilder`].
pub struct BuilderView {
    pub name: Seq<char>,
    pub version: Option<Seq<char>>,
    pub about: Seq<char>,
    pub flags: Seq<FlagView>,
    pub sub_commands: Seq<CmdView>,
    pub handle_unknown_args: bool,
    pub basic: bool,
    pub auto_execution: bool,
    pub author: Seq<char>,
    pub publish_date: Seq<char>,
}

impl View for CliBuilder {
    type V = BuilderView;

    closed spec fn view(&self) -> BuilderView {
        BuilderView {
            name: self.name@,
            version: match self.version {
                Some(v) => Some(v@),
                None => None,
            },
            about: self.about@,
            flags: flags_view(self.flags@),
            sub_commands: cmds_view(self.sub_commands@),
            handle_unknown_args: self.handle_unknown_args,
            basic: self.basic,
            auto_execution: self.auto_execution,
            author: self.author@,
            publish_date: self.publish_date@,
        }
    }
}

/// The view of a builder, field by field (for the crate's own modules).
pub(crate) broadcast proof fn lemma_builder_view(b: CliBuilder)
    ensures
        #[trigger] b@ == (BuilderView {
            name: b.name@,
            version: match b.version {
                Some(v) => Some(v@),
                None => None,
            },
            about: b.about@,
            flags: flags_view(b.flags@),
            sub_commands: cmds_view(b.sub_commands@),
            handle_unknown_args: b.handle_unknown_args,
            basic: b.basic,
            auto_execution: b.auto_execution,
            author: b.author@,
            publish_date: b.publish_date@,
        }),
{
}

/// The `help` flag every interface has.
pub open spec fn help_flag() -> FlagView {
    FlagView {
        flag_char: Some('h'),
        long_flag: "help"@,
        short_about: "Prints help information"@,
        long_about: "Also prints this message."@,
        required_store: false,
        storing: false,
        store_type: None,
        store_syntax: None,
    }
}

/// The `version` flag every interface has.
pub open spec fn version_flag() -> FlagView {
    FlagView {
        flag_char: None,
        long_flag: "version"@,
        short_about: "Prints version information"@,
        long_about: "Prints nothing else."@,
        required_store: false,
        storing: false,
        store_type: None,
        store_syntax: None,
    }
}

/// A fresh builder for an interface named `name`.
pub open spec fn fresh_builder(name: Seq<char>) -> BuilderView {
    BuilderView {
        name,
        version: None,
        about: seq![],
        flags: seq![help_flag(), version_flag()],
        sub_commands: seq![],
        handle_unknown_args: false,
        basic: false,
        auto_execution: true,
        author: seq![],
        publish_date: seq![],
    }
}

/// The note added to the error of a non-basic interface without own flags or commands.
pub open spec fn basic_hint() -> Seq<char> {
    "Should you intend to provide no flags or commands, use the `basic` method on the `CliBuilder`."@
}

/// Whether a flag before position `i` has the long name `name`.
pub open spec fn name_before(flags: Seq<FlagView>, i: int, name: Seq<char>) -> bool {
    exists|j: int| 0 <= j < i && flags[j].long_flag == name
}

/// Whether a flag before position `i` has the short character `c`.
pub open spec fn char_before(flags: Seq<FlagView>, i: int, c: char) -> bool {
    exists|j: int| 0 <= j < i && flags[j].flag_char == Some(c)
}

/// The first duplicate among the flags from position `i` on: a long name or a
/// short character that an earlier flag already has.
pub open spec fn duplicate_error(flags: Seq<FlagView>, i: int) -> Option<ErrView>
    decreases flags.len() - i,
{
    if i < 0 || i >= flags.len() {
        None
    } else if name_before(flags, i, flags[i].long_flag) {
        Some(
            builder_err(KindView::Duplicate("Duplicate Flag: "@ + flags[i].long_flag)),
        )
    } else if flags[i].flag_char is Some && char_before(flags, i, flags[i].flag_char->0) {
        Some(
            builder_err(
                KindView::Duplicate(
                    "Duplicate Short Flag Char: "@ + seq![flags[i].flag_char->0],
                ),
            ),
        )
    } else {
        duplicate_error(flags, i + 1)
    }
}

/// What the validation of a builder finds wrong with it, if anything.
pub open spec fn validation_error(b: BuilderView) -> Option<ErrView> {
    if has_white(b.name) {
        Some(builder_err(KindView::InvalidName("Name must not contain whitespace"@)))
    } else if b.name.len() == 0 {
        Some(builder_err(KindView::EmptyString("Name must not be empty"@)))
    } else if b.version is None || b.version->0.len() == 0 {
        Some(builder_err(KindView::EmptyString("Version must not be empty"@)))
    } else if b.flags.len() == 2 && b.sub_commands.len() == 0 && !b.basic {
        Some(
            ErrView {
                source: "eshu::builder"@,
                kind: KindView::NoFlagsOrCommands,
                context: seq![basic_hint()],
            },
        )
    } else {
        duplicate_error(b.flags, 0)
    }
}

proof fn lemma_no_duplicate(flags: Seq<FlagView>, i: int)
    requires
        0 <= i,
        duplicate_error(flags, i) is None,
    ensures
        forall|j: int| i <= j < flags.len() ==> !name_before(flags, j, #[trigger] flags[j].long_flag),
        forall|j: int|
            i <= j < flags.len() && (#[trigger] flags[j].flag_char) is Some ==> !char_before(
                flags,
                j,
                flags[j].flag_char->0,
            ),
    decreases flags.len() - i,
{
    if i < flags.len() {
        lemma_no_duplicate(flags, i + 1);
    }
}

/// A builder that passes validation has flags with distinct long names and
/// distinct short characters.
pub proof fn law_valid_flags_distinct(b: BuilderView)
    requires
        validation_error(b) is None,
    ensures
        forall|i: int, j: int|
            0 <= i < j < b.flags.len() ==> b.flags[i].long_flag != b.flags[j].long_flag,
        forall|i: int, j: int|
            0 <= i < j < b.flags.len() && b.flags[i].flag_char is Some ==> b.flags[i].flag_char
                != b.flags[j].flag_char,
{
    lemma_no_duplicate(b.flags, 0);
    assert forall|i: int, j: int| 0 <= i < j < b.flags.len() implies b.flags[i].long_flag
        != b.flags[j].long_flag by {
        assert(!name_before(b.flags, j, b.flags[j].long_flag));
    }
    assert forall|i: int, j: int|
        0 <= i < j < b.flags.len() && b.flags[i].flag_char is Some implies b.flags[i].flag_char
        != b.flags[j].flag_char by {
        if b.flags[j].flag_char is Some {
            assert(!char_before(b.flags, j, b.flags[j].flag_char->0));
        }
    }
}

/// The `help` and `version` flags cannot be taken over: once a builder that
/// starts with them has another flag named `help` or `version`, or using the
/// short character `h`, it fails validation.
pub proof fn law_help_version_reserved(b: BuilderView, f: FlagView)
    requires
        b.flags.len() >= 2,
        b.flags[0] == help_flag(),
        b.flags[1] == version_flag(),
        f.long_flag == help_flag().long_flag || f.long_flag == version_flag().long_flag
            || f.flag_char == Some('h'),
    ensures
        validation_error(BuilderView { flags: b.flags.push(f), ..b }) is Some,
{
    let c = BuilderView { flags: b.flags.push(f), ..b };
    let last = b.flags.len() as int;
    if validation_error(c) is None {
        law_valid_flags_distinct(c);
        assert(c.flags[0] == help_flag() && c.flags[1] == version_flag() && c.flags[last] == f);
        assert(c.flags[0].long_flag != c.flags[last].long_flag);
        assert(c.flags[1].long_flag != c.flags[last].long_flag);
        assert(c.flags[0].flag_char != c.flags[last].flag_char);
    }
}

fn builder_error(kind: EshuErrorKind) -> (r: EshuError)
    ensures
        r@ == builder_err(kind@),
{
    EshuError::new("eshu::builder", kind)
}

impl CliBuilder {
    /// Create a new command line interface via the builder; consider calling via `Cli::new`.
    pub fn new(name: &str) -> (r: CliBuilder)
        ensures
            r@ == fresh_builder(name@),
    {
        let help = CliFlag::from_parts(
            Some('h'),
            "help",
            "Prints help information",
            "Also prints this message.",
        );
        let version = CliFlag::from_parts(
            None,
            "version",
            "Prints version information",
            "Prints nothing else.",
        );
        let mut flags: Vec<CliFlag> = Vec::new();
        flags.push(help);
        flags.push(version);
        let r = CliBuilder {
            name: name.to_owned(),
            version: None,
            about: String::new(),
            flags,
            sub_commands: Vec::new(),
            handle_unknown_args: false,
            basic: false,
            auto_execution: true,
            author: String::new(),
            publish_date: String::new(),
        };
        assert(flags_view(r.flags@) =~= seq![help_flag(), version_flag()]);
        assert(cmds_view(r.sub_commands@) =~= seq![]);
        r
    }

    /// Sets the author and publish date for the man page.
    pub fn with_author_and_publish_date(self, author: String, publish_date: String) -> (r: Self)
        ensures
            r@ == (BuilderView { author: author@, publish_date: publish_date@, ..self@ }),
    {
        let mut b = self;
        b.author = author;
        b.publish_date = publish_date;
        b
    }

    /// Disables the automatic execution of entered subcommands.
    pub fn without_auto_execution(self) -> (r: Self)
        ensures
            r@ == (BuilderView { auto_execution: false, ..self@ }),
    {
        let mut b = self;
        b.auto_execution = false;
        b
    }

    /// Removes the requirement of having more flags than just `help` and `version`.
    pub fn basic(self) -> (r: Self)
        ensures
            r@ == (BuilderView { basic: true, ..self@ }),
    {
        let mut b = self;
        b.basic = true;
        b
    }

    /// Hand unknown arguments over instead of failing on them.
    pub fn handle_unknown_args(self) -> (r: Self)
        ensures
            r@ == (BuilderView { handle_unknown_args: true, ..self@ }),
    {
        let mut b = self;
        b.handle_unknown_args = true;
        b
    }

    /// Add a flag to the program.
    pub fn add_flag(self, flag: CliFlag) -> (r: Self)
        ensures
            r@ == (BuilderView { flags: self@.flags.push(flag@), ..self@ }),
    {
        let mut b = self;
        let ghost old_flags = b.flags@;
        b.flags.push(flag);
        assert(flags_view(b.flags@) =~= flags_view(old_flags).push(flag@));
        b
    }

    /// Add a subcommand to the program (e.g. `git commit`).
    pub fn add_command(self, command: Rc<CliCmd>) -> (r: Self)
        ensures
            r@ == (BuilderView { sub_commands: self@.sub_commands.push((*command)@), ..self@ }),
    {
        let mut b = self;
        let ghost old_cmds = b.sub_commands@;
        b.sub_commands.push(unshare(command));
        assert(cmds_view(b.sub_commands@) =~= cmds_view(old_cmds).push((*command)@));
        b
    }

    /// Set the version of the program.
    pub fn with_version(self, version: &str) -> (r: Self)
        ensures
            r@ == (BuilderView { version: Some(version@), ..self@ }),
    {
        let mut b = self;
        b.version = Some(version.to_owned());
        b
    }

    /// Set the about text of the program.
    pub fn with_about(self, about: &str) -> (r: Self)
        ensures
            r@ == (BuilderView { about: about@, ..self@ }),
    {
        let mut b = self;
        b.about = about.to_owned();
        b
    }

    /// Build the interface, validate it and parse `params` (the first of them
    /// names the program); validation and parsing errors are handed back.
    pub fn try_parse_custom(self, params: Vec<String>) -> (r: Result<Cli, EshuError>)
        ensures
            match (r, parse_spec(self@, strs_view(params@))) {
                (Ok(c), Ok(v)) => c@ == v,
                (Err(x), Err(y)) => x@ == y,
                _ => false,
            },
    {
        parse_args(self, params)
    }

    /// Check the builder: a valid name, a version, own flags or commands
    /// unless basic, and no two flags sharing a long name or a short character.
    pub(crate) fn validate_self(&self) -> (r: Result<(), EshuError>)
        ensures
            match (r, validation_error(self@)) {
                (Ok(()), None) => true,
                (Err(e), Some(v)) => e@ == v,
                _ => false,
            },
    {
        if contains_whitespace(self.name.as_str()) {
            return Err(
                builder_error(
                    EshuErrorKind::InvalidName("Name must not contain whitespace".to_owned()),
                ),
            );
        }
        if self.name.as_str().is_empty() {
            return Err(
                builder_error(EshuErrorKind::EmptyString("Name must not be empty".to_owned())),
            );
        }
        let no_version = match &self.version {
            Some(v) => v.as_str().unicode_len() == 0,
            None => true,
        };
        if no_version {
            return Err(
                builder_error(EshuErrorKind::EmptyString("Version must not be empty".to_owned())),
            );
        }
        if self.flags.len() == 2 && self.sub_commands.len() == 0 && !self.basic {
            let e = builder_error(EshuErrorKind::NoFlagsOrCommands);
            return Err(
                e.add_ctx(
                    "Should you intend to provide no flags or commands, use the `basic` method on the `CliBuilder`.".to_owned(),
                ),
            );
        }
        let ghost fs = flags_view(self.flags@);
        assert(validation_error(self@) == duplicate_error(fs, 0));
        let mut i: usize = 0;
        while i < self.flags.len()
            invariant
                validation_error(self@) == duplicate_error(fs, 0),
                fs == flags_view(self.flags@),
                i <= self.flags@.len(),
                duplicate_error(fs, 0) == duplicate_error(fs, i as int),
            decreases self.flags@.len() - i,
        {
            let flag = &self.flags[i];
            let mut j: usize = 0;
            let mut name_dup = false;
            let mut char_dup = false;
            while j < i
                invariant
                    fs == flags_view(self.flags@),
                    i < self.flags@.len(),
                    j <= i,
                    *flag == self.flags@[i as int],
                    name_dup == name_before(fs, j as int, fs[i as int].long_flag),
                    char_dup == (fs[i as int].flag_char is Some && char_before(
                        fs,
                        j as int,
                        fs[i as int].flag_char->0,
                    )),
                decreases i - j,
            {
                let other = &self.flags[j];
                if str_eq(other.long_flag.as_str(), flag.long_flag.as_str()) {
                    name_dup = true;
                }
                if let Some(c) = flag.flag_char {
                    if other.flag_char == Some(c) {
                        char_dup = true;
                    }
                }
                proof {
                    if name_before(fs, j + 1, fs[i as int].long_flag) && !name_before(
                        fs,
                        j as int,
                        fs[i as int].long_flag,
                    ) {
                        assert(fs[j as int].long_flag == fs[i as int].long_flag);
                    }
                    if fs[i as int].flag_char is Some && char_before(
                        fs,
                        j + 1,
                        fs[i as int].flag_char->0,
                    ) && !char_before(fs, j as int, fs[i as int].flag_char->0) {
                        assert(fs[j as int].flag_char == fs[i as int].flag_char);
                    }
                    if name_dup && !name_before(fs, j as int, fs[i as int].long_flag) {
                        assert(fs[j as int].long_flag == fs[i as int].long_flag);
                    }
                    if char_dup && !(fs[i as int].flag_char is Some && char_before(
                        fs,
                        j as int,
                        fs[i as int].flag_char->0,
                    )) {
                        assert(fs[j as int].flag_char == fs[i as int].flag_char);
                    }
                }
                j += 1;
            }
            if name_dup {
                let mut msg = "Duplicate Flag: ".to_owned();
                push_str(&mut msg, flag.long_flag.as_str());
                assert(duplicate_error(fs, i as int) == Some(
                    builder_err(KindView::Duplicate("Duplicate Flag: "@ + fs[i as int].long_flag)),
                ));
                return Err(builder_error(EshuErrorKind::Duplicate(msg)));
            }
            if char_dup {
                let mut msg = "Duplicate Short Flag Char: ".to_owned();
                let ghost m0 = msg@;
                match flag.flag_char {
                    Some(c) => push_char(&mut msg, c),
                    None => {},
                }
                assert(msg@ =~= "Duplicate Short Flag Char: "@ + seq![fs[i as int].flag_char->0]);
                assert(duplicate_error(fs, i as int) == Some(
                    builder_err(
                        KindView::Duplicate(
                            "Duplicate Short Flag Char: "@ + seq![fs[i as int].flag_char->0],
                        ),
                    ),
                ));
                return Err(builder_error(EshuErrorKind::Duplicate(msg)));
            }
            i += 1;
        }
        Ok(())
    }
}

} // verus!
