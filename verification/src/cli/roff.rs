//! The man page of an interface, in `roff`.

use vstd::prelude::*;
use crate::cli::{Cli, CliView};
use crate::control::cmd::{flags_view, lemma_cmd_view};
use crate::control::flag::lemma_flag_view;
use crate::control::{CliCmd, CliFlag, CmdView, FlagView, StoreSyntax, StoreType};
use crate::error::strs_view;
use crate::utils::RoffString;
use crate::text::{chars_of, lines, lines_of, push_char, push_str, starts_like_request, trim_start};

verus! {

broadcast use {lemma_cmd_view, lemma_flag_view};

/// A text line of the page: `\&` before it when, its leading white space
/// trimmed, it starts with `.` or `'` (so that roff does not read it as a
/// request), then the line and a newline.
pub open spec fn roff_line(line: Seq<char>) -> Seq<char> {
    let t = trim_start(line);
    (if t.len() > 0 && (t[0] == '.' || t[0] == '\'') {
        "\\&"@
    } else {
        seq![]
    }) + line + "\n"@
}

/// Lines `i..` of a list, each as a text line of the page.
pub open spec fn roff_lines_from(ls: Seq<Seq<char>>, i: int) -> Seq<char>
    decreases ls.len() - i,
{
    if i < 0 || i >= ls.len() {
        seq![]
    } else {
        roff_line(ls[i]) + roff_lines_from(ls, i + 1)
    }
}

/// The lines of `text`, each as a text line of the page.
pub open spec fn roff_text(text: Seq<char>) -> Seq<char> {
    roff_lines_from(lines_of(text), 0)
}

/// `s` with every `-` written `\-`.
pub open spec fn escape_dashes(s: Seq<char>) -> Seq<char>
    decreases s.len(),
{
    if s.len() == 0 {
        seq![]
    } else {
        escape_dashes(s.drop_last()) + (if s.last() == '-' {
            "\\-"@
        } else {
            seq![s.last()]
        })
    }
}

/// The store part of a flag's usage, with the value in italics.
pub open spec fn roff_suffix(f: FlagView) -> Seq<char> {
    if f.storing {
        let v = match f.store_type {
            Some(StoreType::KeyValue) => "KEY=VALUE"@,
            _ => "VALUE"@,
        };
        match f.store_syntax {
            Some(StoreSyntax::Attached) => if f.required_store {
                "=\\fI"@ + v + "\\fR"@
            } else {
                "[=\\fI"@ + v + "\\fR]"@
            },
            Some(StoreSyntax::Detached) => if f.required_store {
                " \\fI"@ + v + "\\fR"@
            } else {
                " [\\fI"@ + v + "\\fR]"@
            },
            None => seq![],
        }
    } else {
        seq![]
    }
}

/// A value that a flag may leave out is shown in square brackets in the man
/// page: the usage part of a storing flag whose value is optional starts with
/// `[` (after the space of a detached value) and ends with `]`, while that of
/// the same flag requiring its value holds no bracket at all.
pub proof fn law_roff_optional_value_bracketed(f: FlagView)
    requires
        f.storing,
        f.store_syntax is Some,
    ensures
        !f.required_store ==> {
            let s = roff_suffix(f);
            &&& s.len() > 2
            &&& s[0] == '[' || (s[0] == ' ' && s[1] == '[')
            &&& s.last() == ']'
        },
        forall|i: int|
            0 <= i < roff_suffix(FlagView { required_store: true, ..f }).len() ==> #[trigger] roff_suffix(
                FlagView { required_store: true, ..f },
            )[i] != '[' && roff_suffix(FlagView { required_store: true, ..f })[i] != ']',
        roff_suffix(f) != roff_suffix(FlagView { required_store: !f.required_store, ..f }),
{
    reveal_strlit("KEY=VALUE");
    reveal_strlit("VALUE");
    reveal_strlit("=\\fI");
    reveal_strlit("\\fR");
    reveal_strlit("[=\\fI");
    reveal_strlit("\\fR]");
    reveal_strlit(" \\fI");
    reveal_strlit(" [\\fI");
    let r = FlagView { required_store: true, ..f };
    let o = FlagView { required_store: false, ..f };
    assert(roff_suffix(o).last() == ']');
    assert(roff_suffix(r).len() == 0 || roff_suffix(r).last() != ']');
}

/// Two descriptions joined by a space (just one of them if the other is empty).
pub open spec fn joined_about(short_about: Seq<char>, long_about: Seq<char>) -> Seq<char> {
    if long_about.len() > 0 {
        if short_about.len() > 0 {
            short_about + " "@ + long_about
        } else {
            long_about
        }
    } else {
        short_about
    }
}

/// A flag of the page: a tagged paragraph with its names and usage in bold,
/// then its descriptions.
pub open spec fn roff_flag(f: FlagView) -> Seq<char> {
    let names = match f.flag_char {
        Some(c) => "\\fB\\-"@ + seq![c] + "\\fR, \\fB\\-\\-"@ + escape_dashes(f.long_flag) + "\\fR"@,
        None => "\\fB\\-\\-"@ + escape_dashes(f.long_flag) + "\\fR"@,
    };
    ".TP\n"@ + names + roff_suffix(f) + "\n"@ + roff_text(joined_about(f.short_about, f.long_about))
}

/// Flags `i..` of a list.
pub open spec fn roff_flags(fs: Seq<FlagView>, i: int) -> Seq<char>
    decreases fs.len() - i,
{
    if i < 0 || i >= fs.len() {
        seq![]
    } else {
        roff_flag(fs[i]) + roff_flags(fs, i + 1)
    }
}

/// A subcommand of the page, with its flags and subcommands indented below it.
pub open spec fn roff_cmd(c: CmdView) -> Seq<char>
    decreases c, 1int, 0int,
{
    let head = ".TP\n"@ + "\\fB"@ + c.name + "\\fR"@ + "\n"@ + roff_text(
        joined_about(c.short_about, c.long_about),
    );
    let has_flags = c.flags.len() > 0;
    let has_cmds = c.subcommands.len() > 0;
    if has_flags || has_cmds {
        head + ".RS\n"@ + (if has_flags {
            ".SS FLAGS\n"@ + roff_flags(c.flags, 0)
        } else {
            seq![]
        }) + (if has_cmds {
            ".SS COMMANDS\n"@ + roff_sub_cmds(c, 0)
        } else {
            seq![]
        }) + ".RE\n"@
    } else {
        head
    }
}

/// Subcommands `i..` of `c`.
pub open spec fn roff_sub_cmds(c: CmdView, i: int) -> Seq<char>
    decreases c, 0int, c.subcommands.len() - i,
{
    if i < 0 || i >= c.subcommands.len() {
        seq![]
    } else {
        roff_cmd(c.subcommands[i]) + roff_sub_cmds(c, i + 1)
    }
}

/// Commands `i..` of a list.
pub open spec fn roff_cmds(cs: Seq<CmdView>, i: int) -> Seq<char>
    decreases cs.len() - i,
{
    if i < 0 || i >= cs.len() {
        seq![]
    } else {
        roff_cmd(cs[i]) + roff_cmds(cs, i + 1)
    }
}

/// The title line: name, section 1, publish date, version and the manual's title.
pub open spec fn th_text(c: CliView) -> Seq<char> {
    ".TH "@ + c.name + " 1 \""@ + c.publish_date + "\" \""@ + c.version
        + "\" \"User Commands\"\n"@
}

/// The NAME section.
pub open spec fn sh_name_text(c: CliView) -> Seq<char> {
    ".SH NAME\n"@ + c.name + "\n"@
}

/// The DESCRIPTION section: the about text, line by line.
pub open spec fn sh_description_text(c: CliView) -> Seq<char> {
    ".SH DESCRIPTION\n"@ + roff_text(c.about)
}

/// The AUTHOR section, if an author was given.
pub open spec fn author_text(c: CliView) -> Seq<char> {
    if c.author.len() > 0 {
        ".SH AUTHOR\n"@ + roff_text(c.author)
    } else {
        seq![]
    }
}

/// The man page of an interface: title, name, description, flags,
/// commands and, if one was given, the author.
pub open spec fn manpage(c: CliView) -> Seq<char> {
    let flags = if c.flags.len() > 0 {
        ".SH FLAGS\n"@ + roff_flags(c.flags, 0)
    } else {
        seq![]
    };
    let commands = if c.sub_commands.len() > 0 {
        ".SH COMMANDS\n"@ + roff_cmds(c.sub_commands, 0)
    } else {
        seq![]
    };
    th_text(c) + sh_name_text(c) + sh_description_text(c) + flags + commands + author_text(c)
}

fn push_roff_text(out: &mut String, text: &str)
    ensures
        final(out)@ == old(out)@ + roff_text(text@),
{
    let ls = lines(text);
    let ghost lv = strs_view(ls@);
    let ghost o0 = out@;
    let mut i: usize = 0;
    while i < ls.len()
        invariant
            lv == strs_view(ls@),
            lv == lines_of(text@),
            i <= ls@.len(),
            o0 + roff_lines_from(lv, 0) == out@ + roff_lines_from(lv, i as int),
        decreases ls@.len() - i,
    {
        let line = ls[i].as_str();
        let ghost before = out@;
        if starts_like_request(line) {
            push_str(out, "\\&");
        }
        push_str(out, line);
        push_str(out, "\n");
        assert(out@ =~= before + roff_line(lv[i as int]));
        i += 1;
    }
}

fn push_escaped(out: &mut String, s: &str)
    ensures
        final(out)@ == old(out)@ + escape_dashes(s@),
{
    let cs = chars_of(s);
    let ghost o0 = out@;
    let mut i: usize = 0;
    while i < cs.len()
        invariant
            cs@ == s@,
            i <= cs@.len(),
            out@ == o0 + escape_dashes(s@.subrange(0, i as int)),
        decreases cs@.len() - i,
    {
        let ghost before = out@;
        let ghost pre = s@.subrange(0, i + 1);
        assert(pre.drop_last() =~= s@.subrange(0, i as int));
        if cs[i] == '-' {
            push_str(out, "\\-");
        } else {
            push_char(out, cs[i]);
        }
        assert(out@ =~= o0 + escape_dashes(pre));
        i += 1;
    }
    assert(s@.subrange(0, s@.len() as int) =~= s@);
}

fn push_suffix(out: &mut String, flag: &CliFlag)
    ensures
        final(out)@ == old(out)@ + roff_suffix(flag@),
{
    let ghost o0 = out@;
    if flag.storing {
        let val_str = match flag.store_type {
            Some(StoreType::KeyValue) => "KEY=VALUE",
            _ => "VALUE",
        };
        match flag.store_syntax {
            Some(StoreSyntax::Attached) => {
                if flag.required_store {
                    push_str(out, "=\\fI");
                    push_str(out, val_str);
                    push_str(out, "\\fR");
                } else {
                    push_str(out, "[=\\fI");
                    push_str(out, val_str);
                    push_str(out, "\\fR]");
                }
            },
            Some(StoreSyntax::Detached) => {
                if flag.required_store {
                    push_str(out, " \\fI");
                    push_str(out, val_str);
                    push_str(out, "\\fR");
                } else {
                    push_str(out, " [\\fI");
                    push_str(out, val_str);
                    push_str(out, "\\fR]");
                }
            },
            None => {},
        }
    }
    assert(out@ =~= o0 + roff_suffix(flag@));
}

fn joined(short_about: &String, long_about: &String) -> (r: String)
    ensures
        r@ == joined_about(short_about@, long_about@),
{
    let mut desc = short_about.clone();
    if long_about.unicode_len() > 0 {
        if desc.unicode_len() > 0 {
            push_char(&mut desc, ' ');
        }
        push_str(&mut desc, long_about.as_str());
    }
    proof {
        reveal_strlit(" ");
    }
    assert(desc@ =~= joined_about(short_about@, long_about@));
    desc
}

fn make_flag(flag: &CliFlag, out: &mut String)
    ensures
        final(out)@ == old(out)@ + roff_flag(flag@),
{
    let ghost o0 = out@;
    push_str(out, ".TP\n");
    let ghost o1 = out@;
    match flag.flag_char {
        Some(c) => {
            push_str(out, "\\fB\\-");
            push_char(out, c);
            push_str(out, "\\fR, \\fB\\-\\-");
        },
        None => {
            push_str(out, "\\fB\\-\\-");
        },
    }
    push_escaped(out, flag.long_flag.as_str());
    push_str(out, "\\fR");
    let ghost o2 = out@;
    assert(o2 =~= o1 + match flag.flag_char {
        Some(c) => "\\fB\\-"@ + seq![c] + "\\fR, \\fB\\-\\-"@ + escape_dashes(flag@.long_flag)
            + "\\fR"@,
        None => "\\fB\\-\\-"@ + escape_dashes(flag@.long_flag) + "\\fR"@,
    });
    push_suffix(out, flag);
    push_str(out, "\n");
    let desc = joined(&flag.short_about, &flag.long_about);
    push_roff_text(out, desc.as_str());
    assert(out@ =~= o0 + roff_flag(flag@));
}

fn make_flags(flags: &Vec<CliFlag>, out: &mut String)
    ensures
        final(out)@ == old(out)@ + roff_flags(flags_view(flags@), 0),
{
    let ghost fs = flags_view(flags@);
    let ghost o0 = out@;
    let mut i: usize = 0;
    while i < flags.len()
        invariant
            fs == flags_view(flags@),
            i <= flags@.len(),
            o0 + roff_flags(fs, 0) == out@ + roff_flags(fs, i as int),
        decreases flags@.len() - i,
    {
        let ghost before = out@;
        make_flag(&flags[i], out);
        assert(before + roff_flags(fs, i as int) =~= out@ + roff_flags(fs, i + 1));
        i += 1;
    }
    assert(out@ + roff_flags(fs, i as int) =~= out@);
}

fn make_subcmd(cmd: &CliCmd, out: &mut String)
    ensures
        final(out)@ == old(out)@ + roff_cmd(cmd@),
    decreases cmd, 1int,
{
    let ghost c = cmd@;
    let ghost o0 = out@;
    push_str(out, ".TP\n");
    push_str(out, "\\fB");
    push_str(out, cmd.name.as_str());
    push_str(out, "\\fR");
    push_str(out, "\n");
    let desc = joined(&cmd.short_about, &cmd.long_about);
    push_roff_text(out, desc.as_str());
    let ghost head = out@;
    assert(head =~= o0 + (".TP\n"@ + "\\fB"@ + c.name + "\\fR"@ + "\n"@ + roff_text(
        joined_about(c.short_about, c.long_about),
    )));
    let has_flags = cmd.flags.len() > 0;
    let has_cmds = cmd.subcommands.len() > 0;
    if has_flags || has_cmds {
        push_str(out, ".RS\n");
        let ghost o1 = out@;
        if has_flags {
            push_str(out, ".SS FLAGS\n");
            make_flags(&cmd.flags, out);
        }
        let ghost o2 = out@;
        assert(o2 =~= o1 + (if has_flags {
            ".SS FLAGS\n"@ + roff_flags(c.flags, 0)
        } else {
            seq![]
        }));
        if has_cmds {
            push_str(out, ".SS COMMANDS\n");
            let ghost o3 = out@;
            let mut i: usize = 0;
            while i < cmd.subcommands.len()
                invariant
                    c == cmd@,
                    i <= cmd.subcommands@.len(),
                    o3 + roff_sub_cmds(c, 0) == out@ + roff_sub_cmds(c, i as int),
                decreases cmd.subcommands@.len() - i,
            {
                let ghost before = out@;
                assert(cmd.subcommands@[i as int]@ == c.subcommands[i as int]);
                make_subcmd(&cmd.subcommands[i], out);
                assert(before + roff_sub_cmds(c, i as int) =~= out@ + roff_sub_cmds(c, i + 1));
                i += 1;
            }
            assert(out@ + roff_sub_cmds(c, i as int) =~= out@);
        }
        let ghost o4 = out@;
        assert(o4 =~= o2 + (if has_cmds {
            ".SS COMMANDS\n"@ + roff_sub_cmds(c, 0)
        } else {
            seq![]
        }));
        push_str(out, ".RE\n");
    }
    assert(out@ =~= o0 + roff_cmd(c));
}

fn make_cmds(cmds: &Vec<CliCmd>, out: &mut String)
    ensures
        final(out)@ == old(out)@ + roff_cmds(crate::control::cmd::cmds_view(cmds@), 0),
{
    let ghost cs = crate::control::cmd::cmds_view(cmds@);
    let ghost o0 = out@;
    let mut i: usize = 0;
    while i < cmds.len()
        invariant
            cs == crate::control::cmd::cmds_view(cmds@),
            i <= cmds@.len(),
            o0 + roff_cmds(cs, 0) == out@ + roff_cmds(cs, i as int),
        decreases cmds@.len() - i,
    {
        let ghost before = out@;
        make_subcmd(&cmds[i], out);
        assert(before + roff_cmds(cs, i as int) =~= out@ + roff_cmds(cs, i + 1));
        i += 1;
    }
    assert(out@ + roff_cmds(cs, i as int) =~= out@);
}

fn make_th(cli: &Cli, out: &mut String)
    ensures
        final(out)@ == old(out)@ + th_text(cli@),
{
    let ghost o0 = out@;
    push_str(out, ".TH ");
    push_str(out, cli.name.as_str());
    push_str(out, " 1 \"");
    push_str(out, cli.publish_date.as_str());
    push_str(out, "\" \"");
    push_str(out, cli.version.as_str());
    push_str(out, "\" \"User Commands\"\n");
    assert(out@ =~= o0 + th_text(cli@));
}

fn make_sh_name(cli: &Cli, out: &mut String)
    ensures
        final(out)@ == old(out)@ + sh_name_text(cli@),
{
    let ghost o0 = out@;
    push_str(out, ".SH NAME\n");
    push_str(out, cli.name.as_str());
    push_str(out, "\n");
    assert(out@ =~= o0 + sh_name_text(cli@));
}

fn make_sh_description(cli: &Cli, out: &mut String)
    ensures
        final(out)@ == old(out)@ + sh_description_text(cli@),
{
    let ghost o0 = out@;
    push_str(out, ".SH DESCRIPTION\n");
    push_roff_text(out, cli.about.as_str());
    assert(out@ =~= o0 + sh_description_text(cli@));
}

fn make_author(cli: &Cli, out: &mut String)
    ensures
        final(out)@ == old(out)@ + author_text(cli@),
{
    let ghost o0 = out@;
    if cli.author.unicode_len() > 0 {
        push_str(out, ".SH AUTHOR\n");
        push_roff_text(out, cli.author.as_str());
    }
    assert(out@ =~= o0 + author_text(cli@));
}

/// The man page of an interface in `roff`; only the most basic information is included.
pub fn generate_roff_manpage(cli: &Cli) -> (r: RoffString)
    ensures
        r@ == manpage(cli@),
{
    let ghost c = cli@;
    let mut out = String::new();
    make_th(cli, &mut out);
    make_sh_name(cli, &mut out);
    make_sh_description(cli, &mut out);
    let ghost o1 = out@;
    if cli.flags.len() > 0 {
        push_str(&mut out, ".SH FLAGS\n");
        make_flags(&cli.flags, &mut out);
    }
    let ghost o2 = out@;
    if cli.sub_commands.len() > 0 {
        push_str(&mut out, ".SH COMMANDS\n");
        make_cmds(&cli.sub_commands, &mut out);
    }
    make_author(cli, &mut out);
    assert(out@ =~= manpage(c));
    out
}

impl Cli {
    /// The man page of this interface in `roff`.
    pub fn make_manpage(&self) -> (r: RoffString)
        ensures
            r@ == manpage(self@),
    {
        generate_roff_manpage(self)
    }
}

} // verus!
