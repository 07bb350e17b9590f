//! Properties of the parser stated over its specification.

use vstd::prelude::*;
use crate::arg_parser::grouped::grouped_spec;
use crate::arg_parser::parser::{
    entries_insert, entry_fits, long_flag_from, long_flag_spec, long_match, long_store, name_part,
    partial_flags_from, strip_double_dash,
};
use crate::text::{has_eq, has_prefix, index_of, lemma_index_of_from, split_eq};
use crate::arg_parser::{
    chosen_cmd, exact_cmd_from, partial_cmds_from, arg_kind, buf_of, empty_loop, end_marker, entries_fit, insert_all, lemma_group_fits,
    lemma_insert_fits, lemma_long_fits, lemma_short_fits, lemma_valid_names_unique, names_unique,
    more_values, next_of, parse_loop, parse_spec, step_spec, sub_builder, subcommand_spec, ArgKind,
    LoopView, StepView,
};
use crate::cli::builder::{validation_error, BuilderView};
use crate::cli::{entry_index, lemma_entry_index_from, EntryView};
use crate::store::StoreView;
use crate::control::{CmdView, FlagView};

verus! {

/// No two entries share a long name.
pub open spec fn entries_distinct(es: Seq<EntryView>) -> bool {
    forall|i: int, j: int| 0 <= i < j < es.len() ==> es[i].0 != es[j].0
}

/// What every state of a parse keeps: its entries come from the flags and
/// name no flag twice.
pub open spec fn entries_ok(flags: Seq<FlagView>, es: Seq<EntryView>) -> bool {
    entries_fit(flags, es) && entries_distinct(es)
}

proof fn lemma_insert_distinct(es: Seq<EntryView>, e: EntryView)
    requires
        entries_distinct(es),
    ensures
        entries_distinct(entries_insert(es, e)),
{
    lemma_entry_index_from(es, e.0, 0);
}

proof fn lemma_insert_all_ok(flags: Seq<FlagView>, es: Seq<EntryView>, g: Seq<EntryView>)
    requires
        names_unique(flags),
        entries_ok(flags, es),
        entries_fit(flags, g),
    ensures
        entries_ok(flags, insert_all(es, g)),
    decreases g.len(),
{
    if g.len() > 0 {
        assert(entry_fits(flags, g[0]));
        lemma_insert_fits(flags, es, g[0]);
        lemma_insert_distinct(es, g[0]);
        assert forall|k: int| 0 <= k < g.drop_first().len() implies entry_fits(
            flags,
            #[trigger] g.drop_first()[k],
        ) by {
            assert(g.drop_first()[k] == g[k + 1]);
        }
        lemma_insert_all_ok(flags, entries_insert(es, g[0]), g.drop_first());
    }
}

proof fn lemma_more_values_ok(
    b: BuilderView,
    p: Seq<Seq<char>>,
    arg: Seq<char>,
    q: int,
    es: Seq<EntryView>,
)
    requires
        names_unique(b.flags),
        entries_ok(b.flags, es),
    ensures
        more_values(b, p, arg, q, es) matches Ok(r) ==> entries_ok(b.flags, r.1),
    decreases p.len() - q,
{
    if 0 <= q < p.len() && crate::utils::positional(p[q]) {
        lemma_long_fits(arg, b.flags, Some(p[q]), None);
        if let Ok(Some(e)) = long_flag_spec(arg, b.flags, Some(p[q]), None) {
            lemma_insert_fits(b.flags, es, e);
            lemma_insert_distinct(es, e);
            lemma_more_values_ok(b, p, arg, q + 1, entries_insert(es, e));
        }
    }
}

proof fn lemma_step_ok(b: BuilderView, p: Seq<Seq<char>>, pos: int, st: LoopView)
    requires
        validation_error(b) is None,
        entries_ok(b.flags, st.entered),
    ensures
        match step_spec(b, p, pos, st) {
            StepView::Next(_, s) => entries_ok(b.flags, s.entered),
            StepView::Stop(s) => entries_ok(b.flags, s.entered),
            StepView::Fail(_) => true,
        },
{
    lemma_valid_names_unique(b);
    if 1 <= pos < p.len() {
        let arg = p[pos];
        let next = next_of(p, pos);
        let buf = buf_of(p, pos);
        match arg_kind(arg) {
            ArgKind::ShortFlag => {
                lemma_short_fits(arg, b.flags, next, buf);
                if let Ok(Some(e)) = crate::arg_parser::parser::short_flag_spec(
                    arg,
                    b.flags,
                    next,
                    buf,
                ) {
                    lemma_insert_fits(b.flags, st.entered, e);
                    lemma_insert_distinct(st.entered, e);
                }
            },
            ArgKind::LongFlag => {
                lemma_long_fits(arg, b.flags, next, buf);
                if let Ok(Some(e)) = long_flag_spec(arg, b.flags, next, buf) {
                    lemma_insert_fits(b.flags, st.entered, e);
                    lemma_insert_distinct(st.entered, e);
                    lemma_more_values_ok(b, p, arg, pos + 2, entries_insert(st.entered, e));
                }
            },
            ArgKind::Group => {
                lemma_group_fits(arg, b.flags, next, buf, 0, seq![]);
                if let Ok(g) = grouped_spec(arg, b.flags, next, buf) {
                    lemma_insert_all_ok(b.flags, st.entered, g);
                }
            },
            ArgKind::Positional => {},
        }
    }
}

proof fn lemma_loop_ok(b: BuilderView, p: Seq<Seq<char>>, pos: int, st: LoopView)
    requires
        validation_error(b) is None,
        entries_ok(b.flags, st.entered),
    ensures
        parse_loop(b, p, pos, st) matches Ok(s) ==> entries_ok(b.flags, s.entered),
    decreases p.len() - pos,
{
    if 1 <= pos < p.len() {
        lemma_step_ok(b, p, pos, st);
        if let StepView::Next(q, s) = step_spec(b, p, pos, st) {
            if pos < q < p.len() {
                lemma_loop_ok(b, p, q, s);
            }
        }
    }
}

/// Every flag that a successful parse records is one of the builder's flags,
/// holding a store of the kind that flag takes, and no flag is recorded twice.
pub proof fn law_parse_records_defined_flags(b: BuilderView, p: Seq<Seq<char>>)
    ensures
        parse_spec(b, p) matches Ok(c) ==> entries_fit(b.flags, c.entered) && entries_distinct(
            c.entered,
        ),
{
    if validation_error(b) is None {
        lemma_loop_ok(b, p, 1, empty_loop());
    }
}

/// A successful parse hands the unknown arguments over exactly when the
/// builder was told to handle them; otherwise an unknown argument fails it.
pub proof fn law_unknown_args_handed_over(b: BuilderView, p: Seq<Seq<char>>)
    ensures
        parse_spec(b, p) matches Ok(c) ==> (c.unknown is Some <==> b.handle_unknown_args),
{
}

/// With `--` as the first argument after the program name, every later
/// argument is a stray positional argument, and no flag or subcommand is
/// recorded.
pub proof fn law_end_of_flags_first(b: BuilderView, prog: Seq<char>, rest: Seq<Seq<char>>)
    requires
        validation_error(b) is None,
    ensures
        parse_spec(b, seq![prog, end_marker()] + rest) matches Ok(c) && c.stray == rest
            && c.entered.len() == 0 && c.sub is None,
{
    let p = seq![prog, end_marker()] + rest;
    assert(p[1] == end_marker());
    assert(p.subrange(2, p.len() as int) =~= rest);
    let s = LoopView { stray: rest, ..empty_loop() };
    assert(step_spec(b, p, 1, empty_loop()) == StepView::Stop(s));
    assert(parse_loop(b, p, 1, empty_loop()) == Ok::<LoopView, crate::error::ErrView>(s));
}

proof fn lemma_no_flag_named(flags: Seq<FlagView>, q: Seq<char>, k: int)
    requires
        0 <= k,
        forall|j: int| 0 <= j < flags.len() ==> flags[j].long_flag != q,
    ensures
        long_flag_from(flags, q, k) == -1,
    decreases flags.len() - k,
{
    if k < flags.len() {
        lemma_no_flag_named(flags, q, k + 1);
    }
}

proof fn lemma_first_flag_named(flags: Seq<FlagView>, i: int, k: int)
    requires
        0 <= k <= i < flags.len(),
        names_unique(flags),
    ensures
        long_flag_from(flags, flags[i].long_flag, k) == i,
    decreases i - k,
{
    if k < i {
        assert(flags[k].long_flag != flags[i].long_flag);
        lemma_first_flag_named(flags, i, k + 1);
    }
}

proof fn lemma_single_partial(flags: Seq<FlagView>, q: Seq<char>, i: int, k: int)
    requires
        0 <= k,
        0 <= i < flags.len(),
        flags[i].long_flag != q && has_prefix(flags[i].long_flag, q),
        forall|j: int| 0 <= j < flags.len() && j != i ==> !has_prefix(flags[j].long_flag, q),
    ensures
        partial_flags_from(flags, q, k) == (if k <= i {
            seq![i]
        } else {
            Seq::<int>::empty()
        }),
    decreases flags.len() - k,
{
    if k < flags.len() {
        lemma_single_partial(flags, q, i, k + 1);
        if k == i {
            assert(seq![i] + Seq::<int>::empty() =~= seq![i]);
        }
    }
}

proof fn lemma_no_eq_in_prefix(name: Seq<char>, q: Seq<char>)
    requires
        has_prefix(name, q),
        !has_eq(name),
    ensures
        !has_eq(q),
        split_eq(q) is None,
        split_eq(name) is None,
        name_part(q) == q,
        name_part(name) == name,
{
    lemma_index_of_from(name, '=', 0);
    lemma_index_of_from(q, '=', 0);
    if index_of(q, '=') >= 0 {
        assert(name[index_of(q, '=')] == q[index_of(q, '=')]);
    }
}

/// A long flag may be given by any shorter beginning of its name that no other
/// flag's name begins with: `--long` then records what `--long-flag` records
/// (for names without `=`, among flags with distinct names).
pub proof fn law_partial_long_flag(
    flags: Seq<FlagView>,
    i: int,
    q: Seq<char>,
    next: Option<Seq<char>>,
    buf: Option<Seq<Seq<char>>>,
)
    requires
        names_unique(flags),
        0 <= i < flags.len(),
        has_prefix(flags[i].long_flag, q),
        q.len() < flags[i].long_flag.len(),
        !has_eq(flags[i].long_flag),
        forall|j: int| 0 <= j < flags.len() && j != i ==> !has_prefix(flags[j].long_flag, q),
    ensures
        long_flag_spec(end_marker() + q, flags, next, buf) is Ok <==> long_flag_spec(
            end_marker() + flags[i].long_flag,
            flags,
            next,
            buf,
        ) is Ok,
        long_flag_spec(end_marker() + q, flags, next, buf) is Ok ==> long_flag_spec(
            end_marker() + q,
            flags,
            next,
            buf,
        ) == long_flag_spec(end_marker() + flags[i].long_flag, flags, next, buf),
        long_flag_spec(end_marker() + flags[i].long_flag, flags, next, buf) matches Ok(r) ==> (r
            matches Some(e) && e.0 == flags[i].long_flag),
{
    let name = flags[i].long_flag;
    let aq = end_marker() + q;
    let an = end_marker() + name;
    assert(aq.subrange(0, 2) =~= end_marker());
    assert(an.subrange(0, 2) =~= end_marker());
    assert(strip_double_dash(aq) =~= q);
    assert(strip_double_dash(an) =~= name);
    lemma_no_eq_in_prefix(name, q);
    assert(name.subrange(0, name.len() as int) =~= name);
    lemma_no_eq_in_prefix(name, name);
    assert forall|j: int| 0 <= j < flags.len() implies flags[j].long_flag != q by {
        if flags[j].long_flag == q {
            assert(q.subrange(0, q.len() as int) =~= q);
        }
    }
    lemma_no_flag_named(flags, q, 0);
    lemma_single_partial(flags, q, i, 0);
    lemma_first_flag_named(flags, i, 0);
    assert(long_flag_spec(aq, flags, next, buf) == long_match(q, i, flags, next, buf));
    assert(long_flag_spec(an, flags, next, buf) == long_match(name, i, flags, next, buf));
    let rq = long_store(q, i as usize, flags[i], next, buf);
    let rn = long_store(name, i as usize, flags[i], next, buf);
    assert(rq is Ok <==> rn is Ok);
    assert(rq is Ok ==> rq == rn);
}

/// Entering a flag that already holds values appends the new values after
/// the earlier ones; its entry keeps its place and its recorded position, and
/// the other entries stay as they were.
pub proof fn law_values_accumulate(
    es: Seq<EntryView>,
    e: EntryView,
    xs: Seq<Seq<char>>,
    ys: Seq<Seq<char>>,
)
    requires
        entry_index(es, e.0) >= 0,
        es[entry_index(es, e.0)].2 == StoreView::Value(xs),
        e.2 == StoreView::Value(ys),
    ensures
        entries_insert(es, e).len() == es.len(),
        entries_insert(es, e)[entry_index(es, e.0)] == (
            e.0,
            es[entry_index(es, e.0)].1,
            StoreView::Value(xs + ys),
        ),
        forall|j: int|
            0 <= j < es.len() && j != entry_index(es, e.0) ==> entries_insert(es, e)[j] == es[j],
{
    lemma_entry_index_from(es, e.0, 0);
}

/// A flag entered for the first time is recorded after the earlier entries,
/// with its position and store.
pub proof fn law_first_entry_appended(es: Seq<EntryView>, e: EntryView)
    requires
        entry_index(es, e.0) < 0,
    ensures
        entries_insert(es, e) == es.push(e),
{
}

proof fn lemma_no_cmd_named(cmds: Seq<CmdView>, a: Seq<char>, k: int)
    requires
        0 <= k,
        forall|j: int| 0 <= j < cmds.len() ==> cmds[j].name != a,
    ensures
        exact_cmd_from(cmds, a, k) == -1,
    decreases cmds.len() - k,
{
    if k < cmds.len() {
        lemma_no_cmd_named(cmds, a, k + 1);
    }
}

proof fn lemma_first_cmd_named(cmds: Seq<CmdView>, a: Seq<char>, i: int, k: int)
    requires
        0 <= k <= i < cmds.len(),
        cmds[i].name == a,
        forall|j: int| 0 <= j < i ==> cmds[j].name != a,
    ensures
        exact_cmd_from(cmds, a, k) == i,
    decreases i - k,
{
    if k < i {
        lemma_first_cmd_named(cmds, a, i, k + 1);
    }
}

proof fn lemma_single_partial_cmd(cmds: Seq<CmdView>, a: Seq<char>, i: int, k: int)
    requires
        0 <= k,
        0 <= i < cmds.len(),
        has_prefix(cmds[i].name, a) && cmds[i].name.len() > a.len(),
        forall|j: int| 0 <= j < cmds.len() && j != i ==> !has_prefix(cmds[j].name, a),
    ensures
        partial_cmds_from(cmds, a, k) == (if k <= i {
            seq![i]
        } else {
            Seq::<int>::empty()
        }),
    decreases cmds.len() - k,
{
    if k < cmds.len() {
        lemma_single_partial_cmd(cmds, a, i, k + 1);
        if k == i {
            assert(seq![i] + Seq::<int>::empty() =~= seq![i]);
        }
    }
}

/// A subcommand is entered by its exact name (the first with that name), or
/// by any beginning of its name that no other subcommand's name begins with.
pub proof fn law_subcommand_by_name_or_unique_prefix(cmds: Seq<CmdView>, i: int, a: Seq<char>)
    requires
        0 <= i < cmds.len(),
        a.len() > 0,
        has_prefix(cmds[i].name, a),
        cmds[i].name == a ==> forall|j: int| 0 <= j < i ==> cmds[j].name != a,
        cmds[i].name != a ==> forall|j: int|
            0 <= j < cmds.len() && j != i ==> !has_prefix(cmds[j].name, a),
    ensures
        chosen_cmd(cmds, a) == i,
{
    if cmds[i].name == a {
        lemma_first_cmd_named(cmds, a, i, 0);
    } else {
        assert(cmds[i].name.len() > a.len()) by {
            if cmds[i].name.len() == a.len() {
                assert(cmds[i].name =~= cmds[i].name.subrange(0, a.len() as int));
            }
        }
        assert forall|j: int| 0 <= j < cmds.len() implies cmds[j].name != a by {
            if j != i && cmds[j].name == a {
                assert(cmds[j].name.subrange(0, a.len() as int) =~= a);
            }
        }
        lemma_no_cmd_named(cmds, a, 0);
        lemma_single_partial_cmd(cmds, a, i, 0);
    }
}

/// The interface recorded for a subcommand, if any, carries version `v`.
pub open spec fn sub_has_version(st: LoopView, v: Seq<char>) -> bool {
    st.sub matches Some(sc) ==> sc.1.version == v
}

proof fn lemma_parsed_version(b: BuilderView, p: Seq<Seq<char>>)
    ensures
        parse_spec(b, p) matches Ok(c) ==> c.version == b.version->0,
{
}

proof fn lemma_step_sub_version(b: BuilderView, p: Seq<Seq<char>>, pos: int, st: LoopView)
    requires
        b.version is Some,
        sub_has_version(st, b.version->0),
    ensures
        match step_spec(b, p, pos, st) {
            StepView::Next(_, s) => sub_has_version(s, b.version->0),
            StepView::Stop(s) => sub_has_version(s, b.version->0),
            StepView::Fail(_) => true,
        },
{
    if 1 <= pos < p.len() {
        let arg = p[pos];
        if arg_kind(arg) == ArgKind::Positional {
            let rest = p.subrange(pos + 1, p.len() as int);
            let k = chosen_cmd(b.sub_commands, arg);
            if 0 <= k < b.sub_commands.len() {
                let sb = sub_builder(b, b.sub_commands[k]);
                lemma_parsed_version(sb, seq![seq![]] + rest);
            }
            assert(subcommand_spec(arg, b, rest) matches Ok(Some(sc)) ==> sc.1.version
                == b.version->0);
        }
    }
}

proof fn lemma_loop_sub_version(b: BuilderView, p: Seq<Seq<char>>, pos: int, st: LoopView)
    requires
        b.version is Some,
        sub_has_version(st, b.version->0),
    ensures
        parse_loop(b, p, pos, st) matches Ok(s) ==> sub_has_version(s, b.version->0),
    decreases p.len() - pos,
{
    if 1 <= pos < p.len() {
        lemma_step_sub_version(b, p, pos, st);
        if let StepView::Next(q, s) = step_spec(b, p, pos, st) {
            if pos < q < p.len() {
                lemma_loop_sub_version(b, p, q, s);
            }
        }
    }
}

/// An entered subcommand runs under the version of the program: the parsed
/// interface of the subcommand carries the same version as the interface
/// that entered it.
pub proof fn law_subcommand_inherits_version(b: BuilderView, p: Seq<Seq<char>>)
    ensures
        parse_spec(b, p) matches Ok(c) ==> (c.sub matches Some(sc) ==> sc.1.version == c.version),
{
    if validation_error(b) is None {
        lemma_loop_sub_version(b, p, 1, empty_loop());
    }
}

} // verus!
