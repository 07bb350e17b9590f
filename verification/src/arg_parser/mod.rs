//! The argument parser: a state machine over the arguments that classifies
//! each as short flag, long flag, group of short flags or positional.

use vstd::prelude::*;
use crate::arg_parser::grouped::{
    byte_len, group_char, group_from, grouped_spec, parse_grouped_flags, parsed_list_view,
    GroupStep,
};
use crate::arg_parser::parser::{
    buf_view, char_flag_from, entries_insert, entry_fits, find_char_flag, insert_compatible,
    insert_long_flag,
    lemma_long_flag_from, lemma_partial_flags_from, long_flag_from, long_flag_spec, long_match,
    name_part, opt_view, parse_long_flag, parse_short_flag, partial_flags_from, short_flag_spec,
    store_fits, strip_double_dash,
};
use crate::cli::builder::{
    help_flag, lemma_builder_view, validation_error, version_flag, BuilderView, CliBuilder,
};
use crate::cli::{entries_view, lemma_cli_view, Cli, CliView, EntryView};
use crate::control::cmd::{clone_cmds, clone_flags, cmds_view, flags_view, lemma_cmd_view};
use crate::control::{CliCmd, CmdView, StoreSyntax};
use crate::error::{parser_err, strs_view, EshuError, EshuErrorKind, ErrView, KindView};
use crate::store::{Store, StoreView};
use crate::text::{chars_of, has_eq, has_prefix, contains_eq, push_str, str_eq, starts_with};
use crate::utils::{dash_first, is_positional, positional, starts_with_dash};

pub mod group_laws;
pub mod grouped;
pub mod laws;
pub mod marker_laws;
pub mod parser;
pub mod value_laws;

verus! {

broadcast use {lemma_builder_view, lemma_cli_view, lemma_cmd_view};

/// The state of the parse between two arguments.
pub struct LoopView {
    pub entered: Seq<EntryView>,
    pub unknown: Seq<Seq<char>>,
    pub stray: Seq<Seq<char>>,
    pub sub: Option<(Seq<char>, CliView)>,
}

/// The state before the first argument.
pub open spec fn empty_loop() -> LoopView {
    LoopView { entered: seq![], unknown: seq![], stray: seq![], sub: None }
}

/// How the parser reads an argument.
pub enum ArgKind {
    ShortFlag,
    LongFlag,
    Group,
    Positional,
}

/// `--`, the end-of-flags marker.
pub open spec fn end_marker() -> Seq<char> {
    seq!['-', '-']
}

/// How an argument is read: by its leading dashes and its UTF-8 length.
pub open spec fn arg_kind(a: Seq<char>) -> ArgKind {
    if dash_first(a) && byte_len(a) == 2 {
        ArgKind::ShortFlag
    } else if dash_first(a) && byte_len(a) > 2 {
        if has_prefix(a, end_marker()) {
            ArgKind::LongFlag
        } else {
            ArgKind::Group
        }
    } else {
        ArgKind::Positional
    }
}

/// The entries `g` recorded one after the other.
pub open spec fn insert_all(es: Seq<EntryView>, g: Seq<EntryView>) -> Seq<EntryView>
    decreases g.len(),
{
    if g.len() == 0 {
        es
    } else {
        insert_all(entries_insert(es, g[0]), g.drop_first())
    }
}

/// A store that holds values or pairs.
pub open spec fn is_stored(s: StoreView) -> bool {
    s is Value || s is KeyValue
}

/// Whether the flag of the group's character at position `pos` (counted from
/// 1) takes the arguments after an end-of-flags marker: it requires a value
/// and none is attached to it with `=`.
pub open spec fn takes_rest_at(arg: Seq<char>, flags: Seq<crate::control::FlagView>, pos: int) -> bool {
    let fi = char_flag_from(flags, arg[pos - 1], 0);
    &&& 1 <= pos <= arg.len()
    &&& 0 <= fi < flags.len()
    &&& flags[fi].storing
    &&& flags[fi].required_store
    &&& !(pos < arg.len() && arg[pos] == '=')
}

/// Whether a flag of a group took the arguments after an end-of-flags marker
/// (otherwise they go to the positional arguments).
pub open spec fn group_takes_rest(
    arg: Seq<char>,
    flags: Seq<crate::control::FlagView>,
    g: Seq<EntryView>,
) -> bool {
    exists|i: int| 0 <= i < g.len() && takes_rest_at(arg, flags, (#[trigger] g[i]).1 as int)
}

/// Whether a group took the argument after it as the value of its last flag:
/// its last entry comes from its last character, that character names a flag
/// that stores a detached value, and the next argument is a positional one.
pub open spec fn group_takes_next(
    arg: Seq<char>,
    flags: Seq<crate::control::FlagView>,
    next: Option<Seq<char>>,
    g: Seq<EntryView>,
) -> bool {
    let fi = char_flag_from(flags, arg.last(), 0);
    &&& arg.len() > 0
    &&& next is Some && positional(next->0)
    &&& g.len() > 0 && g.last().1 as int == byte_len(arg)
    &&& 0 <= fi < flags.len()
    &&& flags[fi].storing
    &&& flags[fi].store_syntax == Some(StoreSyntax::Detached)
}

/// The outcome of reading one argument.
pub enum StepView {
    /// Go on at this position.
    Next(int, LoopView),
    /// The parse of the arguments ends here.
    Stop(LoopView),
    Fail(ErrView),
}

/// After a flag: stop if it was followed by an end-of-flags marker (whose
/// arguments went to its store or to the positional arguments), otherwise go
/// on after it (and after the next one if it took it).
pub open spec fn finish(pos: int, consumed: bool, has_buf: bool, st: LoopView) -> StepView {
    if has_buf {
        StepView::Stop(st)
    } else {
        StepView::Next(pos + 1 + (if consumed { 1int } else { 0int }), st)
    }
}

/// The builder for the interface of a subcommand of `b`.
pub open spec fn sub_builder(b: BuilderView, cmd: CmdView) -> BuilderView {
    BuilderView {
        name: cmd.name,
        version: Some(
            match b.version {
                Some(v) => v,
                None => "0.0.0"@,
            },
        ),
        about: cmd.short_about,
        flags: seq![help_flag(), version_flag()] + cmd.flags,
        sub_commands: cmd.subcommands,
        handle_unknown_args: false,
        basic: true,
        auto_execution: b.auto_execution,
        author: seq![],
        publish_date: seq![],
    }
}

/// The first position at or after `i` of a command named `arg`, or -1.
pub open spec fn exact_cmd_from(cmds: Seq<CmdView>, arg: Seq<char>, i: int) -> int
    decreases cmds.len() - i,
{
    if i < 0 || i >= cmds.len() {
        -1
    } else if cmds[i].name == arg {
        i
    } else {
        exact_cmd_from(cmds, arg, i + 1)
    }
}

/// The positions from `i` on of the commands whose names strictly extend `arg`.
pub open spec fn partial_cmds_from(cmds: Seq<CmdView>, arg: Seq<char>, i: int) -> Seq<int>
    decreases cmds.len() - i,
{
    if i < 0 || i >= cmds.len() {
        seq![]
    } else if has_prefix(cmds[i].name, arg) && cmds[i].name.len() > arg.len() {
        seq![i] + partial_cmds_from(cmds, arg, i + 1)
    } else {
        partial_cmds_from(cmds, arg, i + 1)
    }
}

/// The subcommand an argument names: exactly, or as the prefix of a single one.
pub open spec fn chosen_cmd(cmds: Seq<CmdView>, arg: Seq<char>) -> int {
    let e = exact_cmd_from(cmds, arg, 0);
    let ps = partial_cmds_from(cmds, arg, 0);
    if arg.len() == 0 {
        -1
    } else if e >= 0 {
        e
    } else if ps.len() == 1 {
        ps[0]
    } else {
        -1
    }
}

/// The note added to an error from parsing the arguments of a subcommand.
pub open spec fn sub_note(name: Seq<char>) -> Seq<char> {
    "Parsing arguments for subcommand '"@ + name + "'"@
}

/// The arguments joined with a separator.
pub open spec fn seq_join(list: Seq<Seq<char>>, sep: Seq<char>) -> Seq<char>
    decreases list.len(),
{
    if list.len() == 0 {
        seq![]
    } else if list.len() == 1 {
        list[0]
    } else {
        seq_join(list.drop_last(), sep) + sep + list.last()
    }
}

/// The parsed interface built from a builder and the final state of the parse.
pub open spec fn make_cli(b: BuilderView, s: LoopView, unknown: Option<Seq<Seq<char>>>) -> CliView {
    CliView {
        name: b.name,
        version: b.version->0,
        about: b.about,
        flags: b.flags,
        sub_commands: b.sub_commands,
        entered: s.entered,
        unknown,
        stray: s.stray,
        sub: match s.sub {
            Some(p) => Some((p.0, Box::new(p.1))),
            None => None,
        },
        auto_execution: b.auto_execution,
        author: b.author,
        publish_date: b.publish_date,
    }
}

/// What parsing the arguments `p` with the builder `b` gives.
pub open spec fn parse_spec(b: BuilderView, p: Seq<Seq<char>>) -> Result<CliView, ErrView>
    decreases p.len(), 4int, 0int,
{
    match validation_error(b) {
        Some(e) => Err(e),
        None => {
            let r = if p.len() == 0 {
                Ok(empty_loop())
            } else {
                parse_loop(b, p, 1, empty_loop())
            };
            match r {
                Err(e) => Err(e),
                Ok(s) => if b.handle_unknown_args {
                    Ok(make_cli(b, s, Some(s.unknown)))
                } else if s.unknown.len() > 0 {
                    Err(parser_err(KindView::UnknownArgument(seq_join(s.unknown, "; "@))))
                } else {
                    Ok(make_cli(b, s, None))
                },
            }
        },
    }
}

/// The parse of the arguments from position `pos` on.
pub open spec fn parse_loop(b: BuilderView, p: Seq<Seq<char>>, pos: int, st: LoopView) -> Result<
    LoopView,
    ErrView,
>
    decreases p.len(), 3int, if pos < p.len() {
        p.len() - pos
    } else {
        0
    },
{
    if pos < 1 || pos >= p.len() {
        Ok(st)
    } else {
        match step_spec(b, p, pos, st) {
            StepView::Next(q, s) => if q > pos {
                parse_loop(b, p, q, s)
            } else {
                Ok(s)
            },
            StepView::Stop(s) => Ok(s),
            StepView::Fail(e) => Err(e),
        }
    }
}

/// The argument after position `pos`, unless it is an end-of-flags marker.
pub open spec fn next_of(p: Seq<Seq<char>>, pos: int) -> Option<Seq<char>> {
    if pos + 1 < p.len() && p[pos + 1] != end_marker() {
        Some(p[pos + 1])
    } else {
        None
    }
}

/// Whether the argument after position `pos` is an end-of-flags marker.
pub open spec fn buf_follows(p: Seq<Seq<char>>, pos: int) -> bool {
    pos + 1 < p.len() && p[pos + 1] == end_marker()
}

/// The arguments after an end-of-flags marker that follows position `pos`.
pub open spec fn buf_of(p: Seq<Seq<char>>, pos: int) -> Option<Seq<Seq<char>>> {
    if buf_follows(p, pos) {
        Some(p.subrange(pos + 2, p.len() as int))
    } else {
        None
    }
}

/// Reading a short flag at position `pos`.
pub open spec fn short_step(b: BuilderView, p: Seq<Seq<char>>, pos: int, st: LoopView) -> StepView {
    let arg = p[pos];
    let has_buf = buf_follows(p, pos);
    let buf = buf_of(p, pos);
    match short_flag_spec(arg, b.flags, next_of(p, pos), buf) {
        Err(e) => StepView::Fail(e),
        Ok(Some(e)) => {
            let consumed = is_stored(e.2);
            let stray = if !consumed && has_buf {
                st.stray + buf->0
            } else {
                st.stray
            };
            finish(
                pos,
                consumed,
                has_buf,
                LoopView { entered: entries_insert(st.entered, e), stray, ..st },
            )
        },
        Ok(None) => StepView::Next(pos + 1, LoopView { unknown: st.unknown.push(arg), ..st }),
    }
}

/// The further values a long flag takes after its first detached value,
/// from position `q` on: each following positional argument is recorded as if
/// the flag were given again with it (`--f a b` is `--f a --f b`); gives the
/// position after them and the entries.
pub open spec fn more_values(
    b: BuilderView,
    p: Seq<Seq<char>>,
    arg: Seq<char>,
    q: int,
    es: Seq<EntryView>,
) -> Result<(int, Seq<EntryView>), ErrView>
    decreases p.len() - q,
{
    if 0 <= q < p.len() && positional(p[q]) {
        match long_flag_spec(arg, b.flags, Some(p[q]), None) {
            Err(e) => Err(e),
            Ok(Some(e)) => more_values(b, p, arg, q + 1, entries_insert(es, e)),
            Ok(None) => Ok((q, es)),
        }
    } else {
        Ok((q, es))
    }
}

/// Reading a long flag at position `pos`.
pub open spec fn long_step(b: BuilderView, p: Seq<Seq<char>>, pos: int, st: LoopView) -> StepView {
    let arg = p[pos];
    let has_buf = buf_follows(p, pos);
    let buf = buf_of(p, pos);
    match long_flag_spec(arg, b.flags, next_of(p, pos), buf) {
        Err(e) => StepView::Fail(e),
        Ok(Some(e)) => {
            let consumed = !has_eq(arg) && is_stored(e.2);
            let stray = if !is_stored(e.2) && has_buf {
                st.stray + buf->0
            } else {
                st.stray
            };
            let entered = entries_insert(st.entered, e);
            if consumed && !has_buf {
                match more_values(b, p, arg, pos + 2, entered) {
                    Err(err) => StepView::Fail(err),
                    Ok(r) => StepView::Next(r.0, LoopView { entered: r.1, stray, ..st }),
                }
            } else {
                finish(pos, consumed, has_buf, LoopView { entered, stray, ..st })
            }
        },
        Ok(None) => StepView::Next(pos + 1, LoopView { unknown: st.unknown.push(arg), ..st }),
    }
}

proof fn lemma_more_values_range(
    b: BuilderView,
    p: Seq<Seq<char>>,
    arg: Seq<char>,
    q: int,
    es: Seq<EntryView>,
)
    requires
        q <= p.len(),
    ensures
        more_values(b, p, arg, q, es) matches Ok(r) ==> q <= r.0 <= p.len(),
    decreases p.len() - q,
{
    if 0 <= q < p.len() && positional(p[q]) {
        if let Ok(Some(e)) = long_flag_spec(arg, b.flags, Some(p[q]), None) {
            lemma_more_values_range(b, p, arg, q + 1, entries_insert(es, e));
        }
    }
}

/// Reading a group of short flags at position `pos`.
pub open spec fn group_step(b: BuilderView, p: Seq<Seq<char>>, pos: int, st: LoopView) -> StepView {
    let arg = p[pos];
    let has_buf = buf_follows(p, pos);
    let buf = buf_of(p, pos);
    match grouped_spec(arg, b.flags, next_of(p, pos), buf) {
        Err(e) => StepView::Fail(e),
        Ok(g) => {
            let stray = if has_buf && !group_takes_rest(arg, b.flags, g) {
                st.stray + buf->0
            } else {
                st.stray
            };
            let consumed = !has_eq(arg) && group_takes_next(arg, b.flags, next_of(p, pos), g);
            finish(pos, consumed, has_buf, LoopView { entered: insert_all(st.entered, g), stray, ..st })
        },
    }
}

/// Reading a positional argument at position `pos`: a subcommand, an unknown
/// argument (where subcommands are defined), or a stray positional argument.
pub open spec fn positional_step(b: BuilderView, p: Seq<Seq<char>>, pos: int, st: LoopView) -> StepView
    decreases p.len(), 1int, 0int,
{
    if pos < 1 || pos >= p.len() {
        StepView::Stop(st)
    } else {
        let arg = p[pos];
        match subcommand_spec(arg, b, p.subrange(pos + 1, p.len() as int)) {
            Err(e) => StepView::Fail(e),
            Ok(Some(sc)) => StepView::Stop(LoopView { sub: Some(sc), ..st }),
            Ok(None) => if b.sub_commands.len() > 0 && arg.len() > 0 {
                StepView::Next(pos + 1, LoopView { unknown: st.unknown.push(arg), ..st })
            } else {
                StepView::Next(pos + 1, LoopView { stray: st.stray.push(arg), ..st })
            },
        }
    }
}

/// Reading the argument at position `pos`.
pub open spec fn step_spec(b: BuilderView, p: Seq<Seq<char>>, pos: int, st: LoopView) -> StepView
    decreases p.len(), 2int, 0int,
{
    if pos < 1 || pos >= p.len() {
        StepView::Stop(st)
    } else {
        let arg = p[pos];
        if st.unknown.len() > 0 && !b.handle_unknown_args {
            StepView::Stop(st)
        } else if arg == end_marker() {
            StepView::Stop(LoopView { stray: st.stray + p.subrange(pos + 1, p.len() as int), ..st })
        } else {
            match arg_kind(arg) {
                ArgKind::ShortFlag => short_step(b, p, pos, st),
                ArgKind::LongFlag => long_step(b, p, pos, st),
                ArgKind::Group => group_step(b, p, pos, st),
                ArgKind::Positional => positional_step(b, p, pos, st),
            }
        }
    }
}

/// What [`parse_subcommand`] gives: the interface of the named subcommand,
/// parsed from the arguments after it.
pub open spec fn subcommand_spec(arg: Seq<char>, b: BuilderView, rest: Seq<Seq<char>>) -> Result<
    Option<(Seq<char>, CliView)>,
    ErrView,
>
    decreases rest.len() + 1, 5int, 0int,
{
    let k = chosen_cmd(b.sub_commands, arg);
    if k < 0 || k >= b.sub_commands.len() {
        Ok(None)
    } else {
        let cmd = b.sub_commands[k];
        match parse_spec(sub_builder(b, cmd), seq![seq![]] + rest) {
            Ok(c) => Ok(Some((cmd.name, c))),
            Err(e) => Err(ErrView { context: e.context.push(sub_note(cmd.name)), ..e }),
        }
    }
}

/// No two flags share a long name.
pub open spec fn names_unique(flags: Seq<crate::control::FlagView>) -> bool {
    forall|i: int, j: int| 0 <= i < j < flags.len() ==> flags[i].long_flag != flags[j].long_flag
}

/// Every recorded entry could have come from one of the flags.
pub open spec fn entries_fit(flags: Seq<crate::control::FlagView>, es: Seq<EntryView>) -> bool {
    forall|k: int| 0 <= k < es.len() ==> entry_fits(flags, #[trigger] es[k])
}

/// A builder that passes validation has flags with distinct long names.
pub proof fn lemma_valid_names_unique(b: BuilderView)
    requires
        validation_error(b) is None,
    ensures
        names_unique(b.flags),
{
    crate::cli::builder::law_valid_flags_distinct(b);
}

proof fn lemma_insert_fits(flags: Seq<crate::control::FlagView>, es: Seq<EntryView>, e: EntryView)
    requires
        names_unique(flags),
        entries_fit(flags, es),
        entry_fits(flags, e),
    ensures
        insert_compatible(es, e),
        entries_fit(flags, entries_insert(es, e)),
{
    crate::cli::lemma_entry_index_from(es, e.0, 0);
    let i = crate::cli::entry_index(es, e.0);
    if i >= 0 {
        assert(entry_fits(flags, es[i]));
        let j1 = choose|j: int|
            0 <= j < flags.len() && flags[j].long_flag == es[i].0 && store_fits(
                es[i].2,
                flags[j].store_type,
            );
        let j2 = choose|j: int|
            0 <= j < flags.len() && flags[j].long_flag == e.0 && store_fits(
                e.2,
                flags[j].store_type,
            );
        assert(j1 == j2) by {
            if j1 < j2 {
                assert(flags[j1].long_flag != flags[j2].long_flag);
            } else if j2 < j1 {
                assert(flags[j2].long_flag != flags[j1].long_flag);
            }
        }
        let n = entries_insert(es, e);
        assert forall|k: int| 0 <= k < n.len() implies entry_fits(flags, #[trigger] n[k]) by {
            if k == i {
                assert(flags[j1].long_flag == n[k].0 && store_fits(n[k].2, flags[j1].store_type));
            } else {
                assert(entry_fits(flags, es[k]));
            }
        }
    } else {
        let n = entries_insert(es, e);
        assert forall|k: int| 0 <= k < n.len() implies entry_fits(flags, #[trigger] n[k]) by {
            if k < es.len() {
                assert(entry_fits(flags, es[k]));
            }
        }
    }
}

proof fn lemma_char_flag_from(flags: Seq<crate::control::FlagView>, c: char, i: int)
    requires
        0 <= i,
    ensures
        char_flag_from(flags, c, i) == -1 || (i <= char_flag_from(flags, c, i) < flags.len()
            && flags[char_flag_from(flags, c, i)].flag_char == Some(c)),
    decreases flags.len() - i,
{
    if i < flags.len() && flags[i].flag_char != Some(c) {
        lemma_char_flag_from(flags, c, i + 1);
    }
}

proof fn lemma_short_fits(
    arg: Seq<char>,
    flags: Seq<crate::control::FlagView>,
    next: Option<Seq<char>>,
    buf: Option<Seq<Seq<char>>>,
)
    ensures
        short_flag_spec(arg, flags, next, buf) matches Ok(Some(e)) ==> entry_fits(flags, e),
{
    if flags.len() > 0 && arg.len() > 0 {
        lemma_char_flag_from(flags, arg.last(), 0);
        let i = char_flag_from(flags, arg.last(), 0);
        if i >= 0 {
            if let Ok(Some(e)) = short_flag_spec(arg, flags, next, buf) {
                assert(flags[i].long_flag == e.0 && store_fits(e.2, flags[i].store_type));
            }
        }
    }
}

proof fn lemma_long_match_fits(
    a: Seq<char>,
    i: int,
    flags: Seq<crate::control::FlagView>,
    next: Option<Seq<char>>,
    buf: Option<Seq<Seq<char>>>,
)
    requires
        0 <= i < flags.len(),
    ensures
        long_match(a, i, flags, next, buf) matches Ok(Some(e)) ==> entry_fits(flags, e),
{
    if let Ok(Some(e)) = long_match(a, i, flags, next, buf) {
        assert(flags[i].long_flag == e.0 && store_fits(e.2, flags[i].store_type));
    }
}

proof fn lemma_long_fits(
    arg: Seq<char>,
    flags: Seq<crate::control::FlagView>,
    next: Option<Seq<char>>,
    buf: Option<Seq<Seq<char>>>,
)
    ensures
        long_flag_spec(arg, flags, next, buf) matches Ok(Some(e)) ==> entry_fits(flags, e),
{
    let a = strip_double_dash(arg);
    let p = name_part(a);
    lemma_long_flag_from(flags, p, 0);
    lemma_partial_flags_from(flags, p, 0);
    let e = long_flag_from(flags, p, 0);
    if e >= 0 {
        lemma_long_match_fits(a, e, flags, next, buf);
    } else {
        let ps = partial_flags_from(flags, p, 0);
        if ps.len() == 1 {
            assert(0 <= ps[0] < flags.len());
            lemma_long_match_fits(a, ps[0], flags, next, buf);
        }
    }
}

proof fn lemma_group_fits(
    chars: Seq<char>,
    flags: Seq<crate::control::FlagView>,
    next: Option<Seq<char>>,
    buf: Option<Seq<Seq<char>>>,
    k: int,
    out: Seq<EntryView>,
)
    requires
        entries_fit(flags, out),
    ensures
        group_from(chars, flags, next, buf, k, out) matches Ok(g) ==> entries_fit(flags, g),
    decreases chars.len() - k,
{
    if k < 0 || k >= chars.len() {
    } else if k == 0 && chars[0] == '-' {
        lemma_group_fits(chars, flags, next, buf, 1, out);
    } else {
        let c = chars[k];
        lemma_char_flag_from(flags, c, 0);
        let fi = char_flag_from(flags, c, 0);
        match group_char(chars, flags, next, buf, k, out) {
            GroupStep::Next(o) => {
                assert(entries_fit(flags, o)) by {
                    assert forall|m: int| 0 <= m < o.len() implies entry_fits(flags, #[trigger] o[m]) by {
                        if m < out.len() {
                            assert(o[m] == out[m]);
                        } else {
                            assert(flags[fi].long_flag == o[m].0 && store_fits(o[m].2, flags[fi].store_type));
                        }
                    }
                }
                lemma_group_fits(chars, flags, next, buf, k + 1, o);
            },
            GroupStep::Done(o) => {
                assert forall|m: int| 0 <= m < o.len() implies entry_fits(flags, #[trigger] o[m]) by {
                    if m < out.len() {
                        assert(o[m] == out[m]);
                    } else {
                        assert(flags[fi].long_flag == o[m].0 && store_fits(o[m].2, flags[fi].store_type));
                    }
                }
            },
            GroupStep::Fail(_) => {},
        }
    }
}

/// The state of the parse between two arguments.
struct LoopState {
    entered: Vec<(String, usize, Store)>,
    unknown: Vec<String>,
    stray: Vec<String>,
    sub: Option<(String, Cli)>,
}

impl View for LoopState {
    type V = LoopView;

    closed spec fn view(&self) -> LoopView {
        LoopView {
            entered: entries_view(self.entered@),
            unknown: strs_view(self.unknown@),
            stray: strs_view(self.stray@),
            sub: match self.sub {
                Some(p) => Some((p.0@, p.1@)),
                None => None,
            },
        }
    }
}

/// The exec outcome of reading one argument.
enum StepOut {
    Next(usize),
    Stop,
    Fail(EshuError),
}

spec fn step_matches(r: StepOut, s: StepView, st: LoopView, pos: int, len: int) -> bool {
    match (r, s) {
        (StepOut::Next(q), StepView::Next(q2, v)) => (q == q2 || (q >= len && q2 >= len)) && q > pos
            && q <= len && q2 > pos && st == v,
        (StepOut::Stop, StepView::Stop(v)) => st == v,
        (StepOut::Fail(e), StepView::Fail(v)) => e@ == v,
        _ => false,
    }
}

/// The arguments from position `from` on.
fn tail(v: &Vec<String>, from: usize) -> (r: Vec<String>)
    requires
        from <= v@.len(),
    ensures
        r@ == v@.subrange(from as int, v@.len() as int),
{
    let mut r: Vec<String> = Vec::new();
    let mut i = from;
    while i < v.len()
        invariant
            from <= i <= v@.len(),
            r@ == v@.subrange(from as int, i as int),
        decreases v@.len() - i,
    {
        r.push(v[i].clone());
        i += 1;
    }
    r
}

/// Appends copies of `src` to `dst`.
fn append_strs(dst: &mut Vec<String>, src: &Vec<String>)
    ensures
        strs_view(final(dst)@) == strs_view(old(dst)@) + strs_view(src@),
{
    let ghost d0 = dst@;
    let mut i: usize = 0;
    while i < src.len()
        invariant
            i <= src@.len(),
            dst@ == d0 + src@.subrange(0, i as int),
        decreases src@.len() - i,
    {
        dst.push(src[i].clone());
        i += 1;
    }
    assert(strs_view(dst@) =~= strs_view(d0) + strs_view(src@));
}

/// The arguments joined with a separator.
pub fn join_strs(list: &Vec<String>, sep: &str) -> (r: String)
    ensures
        r@ == seq_join(strs_view(list@), sep@),
{
    let ghost l = strs_view(list@);
    let mut r = String::new();
    let mut i: usize = 0;
    while i < list.len()
        invariant
            l == strs_view(list@),
            i <= list@.len(),
            r@ == seq_join(l.subrange(0, i as int), sep@),
        decreases list@.len() - i,
    {
        if i > 0 {
            push_str(&mut r, sep);
        }
        push_str(&mut r, list[i].as_str());
        proof {
            let t = l.subrange(0, i + 1);
            assert(t.drop_last() =~= l.subrange(0, i as int));
            if i == 0 {
                assert(t =~= seq![l[0]]);
            }
        }
        i += 1;
    }
    assert(l.subrange(0, l.len() as int) =~= l);
    r
}

/// Where the parse goes on after an argument.
fn next_pos(pos: usize, n: usize, consumed: bool) -> (q: usize)
    requires
        pos < n,
    ensures
        q > pos,
        q <= n,
        q == pos + 1 + (if consumed { 1int } else { 0int }) || (q >= n && pos + 1 + (if consumed {
            1int
        } else {
            0int
        }) >= n),
{
    if consumed {
        if pos + 1 < n {
            pos + 2
        } else {
            n
        }
    } else {
        pos + 1
    }
}

/// The argument after `pos` (unless it is an end-of-flags marker), and the
/// arguments after an end-of-flags marker that follows `pos`.
fn neighbours(params: &Vec<String>, pos: usize) -> (r: (Option<&str>, Option<Vec<String>>))
    requires
        pos < params@.len(),
    ensures
        opt_view(r.0) == next_of(strs_view(params@), pos as int),
        match r.1 {
            Some(v) => buf_of(strs_view(params@), pos as int) == Some(strs_view(v@)),
            None => buf_of(strs_view(params@), pos as int) is None,
        },
{
    let ghost p = strs_view(params@);
    proof {
        reveal_strlit("--");
        assert("--"@ =~= end_marker());
    }
    let n = params.len();
    let has_buf = pos + 1 < n && str_eq(params[pos + 1].as_str(), "--");
    if has_buf {
        let t = tail(params, pos + 2);
        assert(strs_view(t@) =~= p.subrange(pos + 2, p.len() as int));
        (None, Some(t))
    } else if pos + 1 < n {
        (Some(params[pos + 1].as_str()), None)
    } else {
        (None, None)
    }
}

fn as_ref_buf(b: &Option<Vec<String>>) -> (r: Option<&Vec<String>>)
    ensures
        buf_view(r) == match b {
            Some(v) => Some(strs_view(v@)),
            None => None::<Seq<Seq<char>>>,
        },
{
    match b {
        Some(v) => Some(v),
        None => None,
    }
}

fn step_short(b: &CliBuilder, params: &Vec<String>, pos: usize, st: &mut LoopState) -> (r: StepOut)
    requires
        1 <= pos < params@.len(),
        validation_error(b@) is None,
        entries_fit(b@.flags, old(st)@.entered),
    ensures
        entries_fit(b@.flags, final(st)@.entered),
        step_matches(
            r,
            short_step(b@, strs_view(params@), pos as int, old(st)@),
            final(st)@,
            pos as int,
            params@.len() as int,
        ),
{
    let ghost st0 = st@;
    let n = params.len();
    let arg = params[pos].as_str();
    let (next, buf_vec) = neighbours(params, pos);
    let buf = as_ref_buf(&buf_vec);
    let has_buf = buf.is_some();
    proof {
        lemma_valid_names_unique(b@);
        lemma_short_fits(arg@, b@.flags, opt_view(next), buf_view(buf));
    }
    match parse_short_flag(arg, b, next, buf) {
        Err(e) => StepOut::Fail(e),
        Ok(Some((long, (idx, store)))) => {
            let consumed = store.is_value() || store.is_key_value();
            if !consumed {
                if let Some(bv) = buf {
                    append_strs(&mut st.stray, bv);
                }
            }
            proof {
                lemma_insert_fits(b@.flags, st@.entered, (long@, idx, store@));
            }
            insert_long_flag(&mut st.entered, long, idx, store);
            if has_buf {
                StepOut::Stop
            } else {
                StepOut::Next(next_pos(pos, n, consumed))
            }
        },
        Ok(None) => {
            st.unknown.push(arg.to_owned());
            assert(strs_view(st.unknown@) =~= st0.unknown.push(arg@));
            StepOut::Next(next_pos(pos, n, false))
        },
    }
}

fn step_long(b: &CliBuilder, params: &Vec<String>, pos: usize, st: &mut LoopState) -> (r: StepOut)
    requires
        1 <= pos < params@.len(),
        validation_error(b@) is None,
        entries_fit(b@.flags, old(st)@.entered),
    ensures
        entries_fit(b@.flags, final(st)@.entered),
        step_matches(
            r,
            long_step(b@, strs_view(params@), pos as int, old(st)@),
            final(st)@,
            pos as int,
            params@.len() as int,
        ),
{
    let ghost st0 = st@;
    let n = params.len();
    let arg = params[pos].as_str();
    let (next, buf_vec) = neighbours(params, pos);
    let buf = as_ref_buf(&buf_vec);
    let has_buf = buf.is_some();
    proof {
        lemma_valid_names_unique(b@);
        lemma_long_fits(arg@, b@.flags, opt_view(next), buf_view(buf));
    }
    match parse_long_flag(arg, b, next, buf) {
        Err(e) => StepOut::Fail(e),
        Ok(Some((long, (idx, store)))) => {
            let with_eq = contains_eq(arg);
            let stored = store.is_value() || store.is_key_value();
            let consumed = !with_eq && stored;
            if !stored {
                if let Some(bv) = buf {
                    append_strs(&mut st.stray, bv);
                }
            }
            proof {
                lemma_insert_fits(b@.flags, st@.entered, (long@, idx, store@));
            }
            insert_long_flag(&mut st.entered, long, idx, store);
            if has_buf {
                return StepOut::Stop;
            }
            if !consumed || pos + 1 >= n {
                return StepOut::Next(next_pos(pos, n, consumed));
            }
            let ghost p = strs_view(params@);
            let ghost stray0 = st@.stray;
            let ghost target = more_values(b@, p, arg@, pos + 2, st@.entered);
            proof {
                lemma_more_values_range(b@, p, arg@, pos + 2, st@.entered);
            }
            let mut q = pos + 2;
            let mut done = false;
            while q < n && !done
                invariant
                    n == params@.len(),
                    p == strs_view(params@),
                    pos + 2 <= q <= n,
                    names_unique(b@.flags),
                    entries_fit(b@.flags, st@.entered),
                    done ==> target == Ok::<(int, Seq<EntryView>), ErrView>((q as int, st@.entered)),
                    !done ==> target == more_values(b@, p, arg@, q as int, st@.entered),
                    old(st)@ == st0,
                    1 <= pos < n,
                    st@.stray == stray0,
                    st@.unknown == st0.unknown,
                    st@.sub == st0.sub,
                    long_step(b@, p, pos as int, st0) == match target {
                        Err(err) => StepView::Fail(err),
                        Ok(r) => StepView::Next(r.0, LoopView { entered: r.1, stray: stray0, ..st0 }),
                    },
                decreases n - q + (if done { 0int } else { 1int }),
            {
                if !is_positional(params[q].as_str()) {
                    done = true;
                } else {
                    proof {
                        lemma_long_fits(arg@, b@.flags, Some(p[q as int]), None);
                    }
                    match parse_long_flag(arg, b, Some(params[q].as_str()), None) {
                        Err(e) => {
                            assert(target == Err::<(int, Seq<EntryView>), ErrView>(e@));
                            return StepOut::Fail(e);
                        },
                        Ok(Some((l2, (i2, s2)))) => {
                            proof {
                                lemma_insert_fits(b@.flags, st@.entered, (l2@, i2, s2@));
                            }
                            insert_long_flag(&mut st.entered, l2, i2, s2);
                            q += 1;
                        },
                        Ok(None) => {
                            done = true;
                        },
                    }
                }
            }
            StepOut::Next(q)
        },
        Ok(None) => {
            st.unknown.push(arg.to_owned());
            assert(strs_view(st.unknown@) =~= st0.unknown.push(arg@));
            StepOut::Next(next_pos(pos, n, false))
        },
    }
}

/// Whether a flag of a parsed group took the arguments after an end-of-flags
/// marker (see [`group_takes_rest`]).
fn takes_rest(b: &CliBuilder, arg: &str, grouped: &Vec<(String, (usize, Store))>) -> (r: bool)
    ensures
        r == group_takes_rest(arg@, b@.flags, parsed_list_view(grouped@)),
{
    let ghost g = parsed_list_view(grouped@);
    let cs = chars_of(arg);
    let mut i: usize = 0;
    while i < grouped.len()
        invariant
            g == parsed_list_view(grouped@),
            cs@ == arg@,
            i <= grouped@.len(),
            forall|j: int| 0 <= j < i ==> !takes_rest_at(arg@, b@.flags, (#[trigger] g[j]).1 as int),
        decreases grouped@.len() - i,
    {
        let pos = grouped[i].1.0;
        assert(g[i as int].1 == pos);
        if pos >= 1 && pos <= cs.len() {
            let c = cs[pos - 1];
            if let Some(fi) = find_char_flag(&b.flags, c) {
                let f = &b.flags[fi];
                assert(b@.flags[fi as int] == f@);
                proof {
                    crate::control::flag::lemma_flag_view(*f);
                }
                let eq_after = pos < cs.len() && cs[pos] == '=';
                if f.storing && f.required_store && !eq_after {
                    assert(takes_rest_at(arg@, b@.flags, g[i as int].1 as int));
                    return true;
                }
            }
        }
        i += 1;
    }
    false
}

/// Whether a parsed group took the argument after it (see [`group_takes_next`]).
fn takes_next(
    b: &CliBuilder,
    arg: &str,
    next: Option<&str>,
    grouped: &Vec<(String, (usize, Store))>,
) -> (r: bool)
    ensures
        r == group_takes_next(arg@, b@.flags, opt_view(next), parsed_list_view(grouped@)),
{
    let ghost g = parsed_list_view(grouped@);
    let nx = match next {
        Some(nx) => nx,
        None => {
            return false;
        },
    };
    if !is_positional(nx) || grouped.len() == 0 {
        return false;
    }
    let cs = chars_of(arg);
    if cs.len() == 0 {
        return false;
    }
    let last = grouped[grouped.len() - 1].1.0;
    assert(g.last().1 == last);
    if last != arg.len() {
        return false;
    }
    let c = cs[cs.len() - 1];
    assert(c == arg@.last());
    match find_char_flag(&b.flags, c) {
        None => false,
        Some(i) => {
            let f = &b.flags[i];
            assert(b@.flags[i as int] == f@);
            proof {
                crate::control::flag::lemma_flag_view(*f);
            }
            f.storing && match f.store_syntax {
                Some(StoreSyntax::Detached) => true,
                _ => false,
            }
        },
    }
}

/// Records the parsed flags of a group one after the other.
fn insert_group(
    b: &CliBuilder,
    entered: &mut Vec<(String, usize, Store)>,
    grouped: Vec<(String, (usize, Store))>,
)
    requires
        names_unique(b@.flags),
        entries_fit(b@.flags, entries_view(old(entered)@)),
        forall|m: int|
            0 <= m < grouped@.len() ==> entry_fits(
                b@.flags,
                #[trigger] parsed_list_view(grouped@)[m],
            ),
    ensures
        entries_fit(b@.flags, entries_view(final(entered)@)),
        entries_view(final(entered)@) == insert_all(
            entries_view(old(entered)@),
            parsed_list_view(grouped@),
        ),
{
    let ghost e0 = entries_view(entered@);
    let ghost g = parsed_list_view(grouped@);
    let mut rest = grouped;
    while rest.len() > 0
        invariant
            names_unique(b@.flags),
            entries_fit(b@.flags, entries_view(entered@)),
            forall|m: int|
                0 <= m < rest@.len() ==> entry_fits(
                    b@.flags,
                    #[trigger] parsed_list_view(rest@)[m],
                ),
            insert_all(e0, g) == insert_all(entries_view(entered@), parsed_list_view(rest@)),
        decreases rest@.len(),
    {
        let ghost old_rest = parsed_list_view(rest@);
        let (long, (idx, store)) = rest.remove(0);
        assert(parsed_list_view(rest@) =~= old_rest.drop_first());
        assert(old_rest[0] == (long@, idx, store@));
        assert(entry_fits(b@.flags, old_rest[0]));
        assert forall|m: int| 0 <= m < rest@.len() implies entry_fits(
            b@.flags,
            #[trigger] parsed_list_view(rest@)[m],
        ) by {
            assert(parsed_list_view(rest@)[m] == old_rest[m + 1]);
        }
        proof {
            lemma_insert_fits(b@.flags, entries_view(entered@), (long@, idx, store@));
        }
        insert_long_flag(entered, long, idx, store);
    }
    assert(parsed_list_view(rest@) =~= Seq::<EntryView>::empty());
}

fn step_group(b: &CliBuilder, params: &Vec<String>, pos: usize, st: &mut LoopState) -> (r: StepOut)
    requires
        1 <= pos < params@.len(),
        validation_error(b@) is None,
        entries_fit(b@.flags, old(st)@.entered),
    ensures
        entries_fit(b@.flags, final(st)@.entered),
        step_matches(
            r,
            group_step(b@, strs_view(params@), pos as int, old(st)@),
            final(st)@,
            pos as int,
            params@.len() as int,
        ),
{
    let n = params.len();
    let arg = params[pos].as_str();
    let (next, buf_vec) = neighbours(params, pos);
    let buf = as_ref_buf(&buf_vec);
    let has_buf = buf.is_some();
    proof {
        lemma_valid_names_unique(b@);
        lemma_group_fits(arg@, b@.flags, opt_view(next), buf_view(buf), 0, seq![]);
    }
    match parse_grouped_flags(arg, b, next, buf) {
        Err(e) => StepOut::Fail(e),
        Ok(grouped) => {
            let with_eq = contains_eq(arg);
            let consumed = !with_eq && takes_next(b, arg, next, &grouped);
            if has_buf && !takes_rest(b, arg, &grouped) {
                if let Some(bv) = buf {
                    append_strs(&mut st.stray, bv);
                }
            }
            insert_group(b, &mut st.entered, grouped);
            if has_buf {
                StepOut::Stop
            } else {
                StepOut::Next(next_pos(pos, n, consumed))
            }
        },
    }
}

fn step_positional(b: &CliBuilder, params: &Vec<String>, pos: usize, st: &mut LoopState) -> (r:
    StepOut)
    requires
        1 <= pos < params@.len(),
        entries_fit(b@.flags, old(st)@.entered),
    ensures
        entries_fit(b@.flags, final(st)@.entered),
        step_matches(
            r,
            positional_step(b@, strs_view(params@), pos as int, old(st)@),
            final(st)@,
            pos as int,
            params@.len() as int,
        ),
    decreases params@.len(), 1int,
{
    let ghost p = strs_view(params@);
    let ghost st0 = st@;
    let n = params.len();
    let arg = params[pos].as_str();
    assert(pos < n);
    let rest = tail(params, pos + 1);
    assert(strs_view(rest@) =~= p.subrange(pos + 1, p.len() as int));
    match parse_subcommand(arg, b, &rest) {
        Err(e) => StepOut::Fail(e),
        Ok(Some((name, cli))) => {
            st.sub = Some((name, cli));
            StepOut::Stop
        },
        Ok(None) => {
            if b.sub_commands.len() > 0 && !arg.is_empty() {
                st.unknown.push(arg.to_owned());
                assert(strs_view(st.unknown@) =~= st0.unknown.push(arg@));
            } else {
                st.stray.push(arg.to_owned());
                assert(strs_view(st.stray@) =~= st0.stray.push(arg@));
            }
            StepOut::Next(next_pos(pos, n, false))
        },
    }
}

/// Reads the argument at position `pos`.
fn parse_step(b: &CliBuilder, params: &Vec<String>, pos: usize, st: &mut LoopState) -> (r: StepOut)
    requires
        1 <= pos < params@.len(),
        validation_error(b@) is None,
        entries_fit(b@.flags, old(st)@.entered),
    ensures
        entries_fit(b@.flags, final(st)@.entered),
        step_matches(
            r,
            step_spec(b@, strs_view(params@), pos as int, old(st)@),
            final(st)@,
            pos as int,
            params@.len() as int,
        ),
    decreases params@.len(), 2int,
{
    let ghost p = strs_view(params@);
    let arg = params[pos].as_str();
    proof {
        reveal_strlit("--");
        assert("--"@ =~= end_marker());
    }
    if st.unknown.len() > 0 && !b.handle_unknown_args {
        return StepOut::Stop;
    }
    if str_eq(arg, "--") {
        let n = params.len();
        assert(pos < n);
        let rest = tail(params, pos + 1);
        append_strs(&mut st.stray, &rest);
        assert(strs_view(rest@) =~= p.subrange(pos + 1, p.len() as int));
        return StepOut::Stop;
    }
    let dash = starts_with_dash(arg);
    let blen = arg.len();
    if dash && blen == 2 {
        step_short(b, params, pos, st)
    } else if dash && blen > 2 && starts_with(arg, "--") {
        step_long(b, params, pos, st)
    } else if dash && blen > 2 {
        step_group(b, params, pos, st)
    } else {
        step_positional(b, params, pos, st)
    }
}

/// The subcommand `arg` names among `cmds`: the first with exactly that
/// name, or else the only one whose name strictly extends it.
fn choose_subcommand(arg: &str, cmds: &Vec<CliCmd>) -> (r: Option<usize>)
    requires
        arg@.len() > 0,
    ensures
        match r {
            Some(k) => k as int == chosen_cmd(cmds_view(cmds@), arg@) && k < cmds@.len(),
            None => chosen_cmd(cmds_view(cmds@), arg@) == -1,
        },
{
    let ghost cs = cmds_view(cmds@);
    let ghost mut pre: Seq<int> = seq![];
    let mut exact: Option<usize> = None;
    let mut count: usize = 0;
    let mut first: usize = 0;
    let n = cmds.len();
    let mut i: usize = 0;
    while i < n && exact.is_none()
        invariant
            cs == cmds_view(cmds@),
            n == cmds@.len(),
            i <= n,
            count == pre.len(),
            count <= i,
            pre.len() > 0 ==> first == pre[0],
            pre.len() > 0 ==> first < n,
            exact is None ==> exact_cmd_from(cs, arg@, 0) == exact_cmd_from(cs, arg@, i as int),
            exact is None ==> partial_cmds_from(cs, arg@, 0) == pre + partial_cmds_from(
                cs,
                arg@,
                i as int,
            ),
            exact matches Some(k) ==> k == exact_cmd_from(cs, arg@, 0) && k < n,
        decreases n - i,
    {
        let name = cmds[i].name.as_str();
        if starts_with(name, arg) {
            if name.unicode_len() > arg.unicode_len() {
                proof {
                    assert(pre + partial_cmds_from(cs, arg@, i as int) =~= pre.push(i as int)
                        + partial_cmds_from(cs, arg@, i + 1));
                    pre = pre.push(i as int);
                }
                if count == 0 {
                    first = i;
                }
                count += 1;
            } else {
                assert(name@ =~= arg@);
                exact = Some(i);
            }
        } else {
            proof {
                if name@ == arg@ {
                    assert(name@.subrange(0, arg@.len() as int) =~= arg@);
                }
            }
        }
        i += 1;
    }
    match exact {
        Some(k) => Some(k),
        None => {
            assert(pre + partial_cmds_from(cs, arg@, n as int) =~= pre);
            if count == 1 {
                Some(first)
            } else {
                None
            }
        },
    }
}

/// Parse a subcommand named by `arg` (exactly, or as the prefix of a single
/// subcommand's name): its interface is parsed from the arguments after it.
pub fn parse_subcommand(arg: &str, cli: &CliBuilder, args: &Vec<String>) -> (r: Result<
    Option<(String, Cli)>,
    EshuError,
>)
    ensures
        match (r, subcommand_spec(arg@, cli@, strs_view(args@))) {
            (Ok(Some(x)), Ok(Some(y))) => x.0@ == y.0 && x.1@ == y.1,
            (Ok(None), Ok(None)) => true,
            (Err(x), Err(y)) => x@ == y,
            _ => false,
        },
    decreases args@.len() + 1, 5int,
{
    if arg.unicode_len() == 0 {
        return Ok(None);
    }
    let k = match choose_subcommand(arg, &cli.sub_commands) {
        Some(k) => k,
        None => {
            return Ok(None);
        },
    };
    let cmd = &cli.sub_commands[k];
    proof {
        reveal_strlit("0.0.0");
    }
    let version = match &cli.version {
        Some(v) => v.clone(),
        None => "0.0.0".to_owned(),
    };
    let mut inner = CliBuilder::new(cmd.name.as_str()).with_about(cmd.short_about.as_str()).basic().with_version(
        version.as_str(),
    );
    let ghost f0 = inner.flags@;
    let mut extra = clone_flags(&cmd.flags);
    inner.flags.append(&mut extra);
    assert(flags_view(inner.flags@) =~= flags_view(f0) + flags_view(cmd.flags@));
    inner.sub_commands = clone_cmds(&cmd.subcommands);
    inner.auto_execution = cli.auto_execution;
    assert(inner@ == sub_builder(cli@, cli@.sub_commands[k as int]));
    let mut inner_args: Vec<String> = Vec::new();
    inner_args.push(String::new());
    append_strs(&mut inner_args, args);
    assert(strs_view(inner_args@) =~= seq![Seq::<char>::empty()] + strs_view(args@));
    match parse_args(inner, inner_args) {
        Ok(c) => Ok(Some((cmd.name.clone(), c))),
        Err(e) => {
            let mut note = "Parsing arguments for subcommand '".to_owned();
            push_str(&mut note, cmd.name.as_str());
            push_str(&mut note, "'");
            proof {
                reveal_strlit("Parsing arguments for subcommand '");
                reveal_strlit("'");
            }
            assert(note@ =~= sub_note(cmd.name@));
            Err(e.add_ctx(note))
        },
    }
}

/// Validate the builder and parse the arguments (the first one names the program).
pub fn parse_args(cli_builder: CliBuilder, params: Vec<String>) -> (r: Result<Cli, EshuError>)
    ensures
        match (r, parse_spec(cli_builder@, strs_view(params@))) {
            (Ok(c), Ok(v)) => c@ == v,
            (Err(x), Err(y)) => x@ == y,
            _ => false,
        },
    decreases params@.len(), 4int,
{
    match cli_builder.validate_self() {
        Err(e) => {
            return Err(e);
        },
        Ok(()) => {},
    }
    let ghost b = cli_builder@;
    let ghost p = strs_view(params@);
    let mut st = LoopState { entered: Vec::new(), unknown: Vec::new(), stray: Vec::new(), sub: None };
    assert(st@ =~= empty_loop()) by {
        assert(entries_view(st.entered@) =~= seq![]);
        assert(strs_view(st.unknown@) =~= seq![]);
        assert(strs_view(st.stray@) =~= seq![]);
    }
    let n = params.len();
    if n > 0 {
        let mut pos: usize = 1;
        let mut done = false;
        while pos < n && !done
            invariant
                n == params@.len(),
                p == strs_view(params@),
                b == cli_builder@,
                validation_error(b) is None,
                1 <= pos <= n,
                entries_fit(b.flags, st@.entered),
                done ==> parse_loop(b, p, 1, empty_loop()) == Ok::<LoopView, ErrView>(st@),
                !done ==> parse_loop(b, p, 1, empty_loop()) == parse_loop(b, p, pos as int, st@),
            decreases n - pos + (if done { 0int } else { 1int }),
        {
            let ghost s0 = st@;
            match parse_step(&cli_builder, &params, pos, &mut st) {
                StepOut::Next(q) => {
                    proof {
                        let sv = step_spec(b, p, pos as int, s0);
                        if let StepView::Next(q2, v) = sv {
                            assert(v == st@);
                            assert(parse_loop(b, p, pos as int, s0) == parse_loop(b, p, q2, v));
                            if q as int != q2 {
                                assert(parse_loop(b, p, q2, v) == Ok::<LoopView, ErrView>(v));
                                assert(parse_loop(b, p, q as int, v) == Ok::<LoopView, ErrView>(v));
                            }
                        }
                    }
                    pos = q;
                },
                StepOut::Stop => {
                    done = true;
                },
                StepOut::Fail(e) => {
                    return Err(e);
                },
            }
        }
    }
    let ghost s = st@;
    let LoopState { entered, unknown, stray, sub } = st;
    let unknown_args = if cli_builder.handle_unknown_args {
        Some(unknown)
    } else if unknown.len() > 0 {
        proof {
            reveal_strlit("; ");
        }
        let joined = join_strs(&unknown, "; ");
        return Err(EshuError::new("eshu::parser", EshuErrorKind::UnknownArgument(joined)));
    } else {
        None
    };
    let version = match cli_builder.version {
        Some(v) => v,
        None => String::new(),
    };
    let sub_cmd_cli = match sub {
        Some((name, c)) => Some((name, Box::new(c))),
        None => None,
    };
    let cli = Cli {
        name: cli_builder.name,
        version,
        about: cli_builder.about,
        flags: cli_builder.flags,
        sub_commands: cli_builder.sub_commands,
        entered_flags: entered,
        unknown_args,
        stray_positional_args: stray,
        sub_cmd_cli,
        auto_execution: cli_builder.auto_execution,
        author: cli_builder.author,
        publish_date: cli_builder.publish_date,
    };
    Ok(cli)
}

} // verus!
