//! Properties of the parse over runs of flags: the end-of-flags marker after
//! flags that take no value, and unknown flags listed in order.

use vstd::prelude::*;
use vstd::utf8::{encode_utf8, is_ascii_chars, is_ascii_chars_encode_utf8};
use crate::arg_parser::group_laws::{
    lemma_encode_concat, lemma_encode_longer, lemma_has_eq, lemma_plain_arg, lemma_plain_group,
    lemma_plain_takes_nothing, plain_entries, plain_flag,
};
use crate::arg_parser::parser::{
    char_flag_from, entries_insert, long_flag_from, long_flag_spec, partial_flags_from, name_part,
    short_flag_spec, strip_double_dash,
};
use crate::arg_parser::{
    arg_kind, buf_of, buf_follows, empty_loop, end_marker, insert_all, next_of, takes_rest_at,
    parse_loop, parse_spec, seq_join, step_spec, ArgKind, LoopView, StepView,
};
use crate::cli::builder::{validation_error, BuilderView};
use crate::cli::{entry_index, lemma_entry_index_from, EntryView};
use crate::control::FlagView;
use crate::error::{parser_err, ErrView, KindView};
use crate::store::StoreView;
use crate::text::{has_eq, has_prefix, lemma_index_of_from};
use crate::utils::{dash_first, positional};

verus! {

/// A name usable after `--`: not empty, without `=`, and with a UTF-8 length
/// of `--name` that fits in `usize`.
pub open spec fn long_name(n: Seq<char>) -> bool {
    &&& n.len() > 0
    &&& !has_eq(n)
    &&& encode_utf8(end_marker() + n).len() <= usize::MAX
}

/// The long name of a flag that takes no value.
pub open spec fn switch_name(flags: Seq<FlagView>, n: Seq<char>) -> bool {
    &&& long_name(n)
    &&& exists|j: int| 0 <= j < flags.len() && flags[j].long_flag == n
    &&& forall|j: int| 0 <= j < flags.len() && flags[j].long_flag == n ==> !flags[j].storing
}

/// A name that no flag's long name begins with.
pub open spec fn unknown_name(flags: Seq<FlagView>, n: Seq<char>) -> bool {
    &&& long_name(n)
    &&& forall|j: int| 0 <= j < flags.len() ==> !has_prefix(flags[j].long_flag, n)
}

pub(crate) proof fn lemma_long_found(flags: Seq<FlagView>, q: Seq<char>, k: int)
    requires
        0 <= k,
    ensures
        long_flag_from(flags, q, k) >= 0 ==> k <= long_flag_from(flags, q, k) < flags.len()
            && flags[long_flag_from(flags, q, k)].long_flag == q,
        (exists|j: int| k <= j < flags.len() && flags[j].long_flag == q) ==> long_flag_from(
            flags,
            q,
            k,
        ) >= 0,
    decreases flags.len() - k,
{
    if k < flags.len() {
        lemma_long_found(flags, q, k + 1);
        if flags[k].long_flag != q {
            if exists|j: int| k <= j < flags.len() && flags[j].long_flag == q {
                let j = choose|j: int| k <= j < flags.len() && flags[j].long_flag == q;
                assert(k + 1 <= j);
            }
        }
    }
}

proof fn lemma_none_found(flags: Seq<FlagView>, q: Seq<char>, k: int)
    requires
        0 <= k,
        forall|j: int| 0 <= j < flags.len() ==> !has_prefix(flags[j].long_flag, q),
    ensures
        long_flag_from(flags, q, k) == -1,
        partial_flags_from(flags, q, k).len() == 0,
    decreases flags.len() - k,
{
    if k < flags.len() {
        lemma_none_found(flags, q, k + 1);
        if flags[k].long_flag == q {
            assert(flags[k].long_flag.subrange(0, q.len() as int) =~= q);
        }
    }
}

/// Facts on the argument `--name`.
pub(crate) proof fn lemma_long_arg(n: Seq<char>)
    requires
        long_name(n),
    ensures
        arg_kind(end_marker() + n) == ArgKind::LongFlag,
        end_marker() + n != end_marker(),
        strip_double_dash(end_marker() + n) == n,
        name_part(n) == n,
        !has_eq(end_marker() + n),
{
    let a = end_marker() + n;
    assert(a.subrange(0, 2) =~= end_marker());
    assert(a.subrange(2, a.len() as int) =~= n);
    lemma_encode_concat(end_marker(), n);
    lemma_encode_longer(end_marker());
    lemma_encode_longer(n);
    assert(a.len() != end_marker().len());
    lemma_index_of_from(n, '=', 0);
    lemma_index_of_from(a, '=', 0);
    if has_eq(a) {
        let i = crate::text::index_of(a, '=');
        assert(a[i] == '=');
        assert(i >= 2);
        assert(n[i - 2] == '=');
        lemma_has_eq(n, i - 2);
    }
}

proof fn lemma_switch_spec(
    flags: Seq<FlagView>,
    n: Seq<char>,
    next: Option<Seq<char>>,
    buf: Option<Seq<Seq<char>>>,
)
    requires
        switch_name(flags, n),
    ensures
        long_flag_spec(end_marker() + n, flags, next, buf) matches Ok(Some(e)) && e.0 == n && e.2
            == StoreView::Exists,
{
    lemma_long_arg(n);
    lemma_long_found(flags, n, 0);
}

/// An argument that only names flags taking no value: `--name`, or `-c` or a
/// group `-cd…` of such flag characters (of a length that fits in `usize`).
pub open spec fn switch_arg(flags: Seq<FlagView>, a: Seq<char>) -> bool {
    ||| a.len() > 2 && has_prefix(a, end_marker()) && switch_name(
        flags,
        a.subrange(2, a.len() as int),
    )
    ||| 2 <= a.len() <= usize::MAX && a[0] == '-' && forall|j: int|
        1 <= j < a.len() ==> plain_flag(flags, #[trigger] a[j])
}

/// The long names of the flags that an argument of [`switch_arg`] names.
pub open spec fn arg_names(flags: Seq<FlagView>, a: Seq<char>) -> Seq<Seq<char>> {
    if has_prefix(a, end_marker()) {
        seq![a.subrange(2, a.len() as int)]
    } else {
        Seq::new((a.len() - 1) as nat, |j: int| flags[char_flag_from(flags, a[j + 1], 0)].long_flag)
    }
}

/// The state a step leaves (none where it fails).
pub open spec fn step_state(s: StepView) -> LoopView {
    match s {
        StepView::Next(_, v) => v,
        StepView::Stop(v) => v,
        StepView::Fail(_) => empty_loop(),
    }
}

proof fn lemma_found_name(es: Seq<EntryView>, n: Seq<char>, k: int)
    requires
        0 <= k < es.len(),
        es[k].0 == n,
    ensures
        entry_index(es, n) >= 0,
{
    lemma_entry_index_from(es, n, 0);
}

proof fn lemma_insert_names(es: Seq<EntryView>, e: EntryView)
    ensures
        entry_index(entries_insert(es, e), e.0) >= 0,
        forall|x: Seq<char>|
            #[trigger] entry_index(es, x) >= 0 ==> entry_index(entries_insert(es, e), x) >= 0,
{
    lemma_entry_index_from(es, e.0, 0);
    let r = entries_insert(es, e);
    let i = entry_index(es, e.0);
    if i < 0 {
        lemma_found_name(r, e.0, es.len() as int);
    } else {
        lemma_found_name(r, e.0, i);
    }
    assert forall|x: Seq<char>| #[trigger] entry_index(es, x) >= 0 implies entry_index(r, x) >= 0 by {
        lemma_entry_index_from(es, x, 0);
        let k = entry_index(es, x);
        assert(r[k].0 == x);
        lemma_found_name(r, x, k);
    }
}

proof fn lemma_insert_all_names(es: Seq<EntryView>, g: Seq<EntryView>)
    ensures
        forall|k: int| 0 <= k < g.len() ==> entry_index(insert_all(es, g), #[trigger] g[k].0) >= 0,
        forall|x: Seq<char>|
            #[trigger] entry_index(es, x) >= 0 ==> entry_index(insert_all(es, g), x) >= 0,
    decreases g.len(),
{
    if g.len() > 0 {
        lemma_insert_names(es, g[0]);
        lemma_insert_all_names(entries_insert(es, g[0]), g.drop_first());
        assert forall|k: int| 0 <= k < g.len() implies entry_index(
            insert_all(es, g),
            #[trigger] g[k].0,
        ) >= 0 by {
            if k > 0 {
                assert(g[k] == g.drop_first()[k - 1]);
            }
        }
    }
}

/// Reading an argument that only names flags taking no value records them and
/// goes on, or, before an end-of-flags marker, stops with the arguments after
/// the marker as positional arguments.
proof fn lemma_switch_step(b: BuilderView, p: Seq<Seq<char>>, pos: int, st: LoopView)
    requires
        1 <= pos < p.len(),
        switch_arg(b.flags, p[pos]),
        st.unknown.len() == 0,
    ensures
        !buf_follows(p, pos) ==> (step_spec(b, p, pos, st) matches StepView::Next(q, s) && q == pos
            + 1 && s.stray == st.stray && s.unknown == st.unknown && s.sub == st.sub),
        buf_follows(p, pos) ==> (step_spec(b, p, pos, st) matches StepView::Stop(s) && s.stray
            == st.stray + p.subrange(pos + 2, p.len() as int) && s.unknown == st.unknown && s.sub
            == st.sub),
        forall|x: Seq<char>|
            #[trigger] entry_index(st.entered, x) >= 0 ==> entry_index(
                step_state(step_spec(b, p, pos, st)).entered,
                x,
            ) >= 0,
        forall|k: int|
            0 <= k < arg_names(b.flags, p[pos]).len() ==> entry_index(
                step_state(step_spec(b, p, pos, st)).entered,
                #[trigger] arg_names(b.flags, p[pos])[k],
            ) >= 0,
{
    let flags = b.flags;
    let a = p[pos];
    let next = next_of(p, pos);
    let buf = buf_of(p, pos);
    if a.len() > 2 && has_prefix(a, end_marker()) && switch_name(flags, a.subrange(2, a.len() as int)) {
        let n = a.subrange(2, a.len() as int);
        assert(a.subrange(0, 2) =~= end_marker());
        assert(a =~= end_marker() + n);
        lemma_long_arg(n);
        lemma_switch_spec(flags, n, next, buf);
        let e = long_flag_spec(a, flags, next, buf)->Ok_0->Some_0;
        lemma_insert_names(st.entered, e);
        assert(arg_names(flags, a) == seq![n]);
        assert(step_state(step_spec(b, p, pos, st)).entered == entries_insert(st.entered, e));
    } else {
        lemma_plain_arg(flags, a);
        let cs = a.subrange(1, a.len() as int);
        assert(!has_prefix(a, end_marker())) by {
            assert(a.subrange(0, 2)[1] == a[1]);
            assert(end_marker()[1] == '-');
            assert(plain_flag(flags, a[1]));
        }
        if a.len() == 2 {
            assert(plain_flag(flags, a[1]));
            assert(a.last() == a[1]);
            crate::arg_parser::lemma_char_flag_from(flags, a[1], 0);
            let i = char_flag_from(flags, a[1], 0);
            let e = (flags[i].long_flag, i as usize, StoreView::Exists);
            lemma_insert_names(st.entered, e);
            assert(arg_names(flags, a)[0] == flags[i].long_flag);
            assert(step_state(step_spec(b, p, pos, st)).entered == entries_insert(st.entered, e));
        } else {
            lemma_plain_group(flags, next, buf, cs);
            let pe = plain_entries(flags, cs);
            assert forall|i: int| 0 <= i < pe.len() implies !takes_rest_at(
                a,
                flags,
                (#[trigger] pe[i]).1 as int,
            ) by {
                assert(pe[i].1 as int == i + 2);
                assert(a[i + 1] == cs[i]);
                assert(plain_flag(flags, cs[i]));
            }
            lemma_plain_takes_nothing(a, flags, next, cs);
            lemma_insert_all_names(st.entered, pe);
            assert(step_state(step_spec(b, p, pos, st)).entered == insert_all(st.entered, pe));
            assert forall|k: int| 0 <= k < arg_names(flags, a).len() implies entry_index(
                insert_all(st.entered, pe),
                #[trigger] arg_names(flags, a)[k],
            ) >= 0 by {
                assert(cs[k] == a[k + 1]);
                assert(arg_names(flags, a)[k] == pe[k].0);
            }
        }
    }
}

proof fn lemma_switches_loop(
    b: BuilderView,
    p: Seq<Seq<char>>,
    m: int,
    rest: Seq<Seq<char>>,
    pos: int,
    st: LoopView,
)
    requires
        p.len() == m + 2 + rest.len(),
        forall|i: int| 1 <= i <= m ==> switch_arg(b.flags, #[trigger] p[i]),
        p[m + 1] == end_marker(),
        p.subrange(m + 2, p.len() as int) == rest,
        1 <= pos <= m + 1,
        st.unknown.len() == 0,
        st.stray.len() == 0,
        st.sub is None,
        forall|i: int, k: int|
            1 <= i < pos && 0 <= k < arg_names(b.flags, p[i]).len() ==> entry_index(
                st.entered,
                #[trigger] arg_names(b.flags, p[i])[k],
            ) >= 0,
    ensures
        parse_loop(b, p, pos, st) matches Ok(s) && s.stray == rest && s.unknown.len() == 0
            && s.sub is None && forall|i: int, k: int|
            1 <= i <= m && 0 <= k < arg_names(b.flags, p[i]).len() ==> entry_index(
                s.entered,
                #[trigger] arg_names(b.flags, p[i])[k],
            ) >= 0,
    decreases m + 1 - pos,
{
    if pos == m + 1 {
        let s = LoopView { stray: st.stray + rest, ..st };
        assert(st.stray + rest =~= rest);
        assert(step_spec(b, p, pos, st) == StepView::Stop(s));
    } else {
        lemma_switch_step(b, p, pos, st);
        let s1 = step_state(step_spec(b, p, pos, st));
        assert forall|i: int, k: int|
            1 <= i <= pos && 0 <= k < arg_names(b.flags, p[i]).len() implies entry_index(
            s1.entered,
            #[trigger] arg_names(b.flags, p[i])[k],
        ) >= 0 by {
            if i < pos {
                assert(entry_index(st.entered, arg_names(b.flags, p[i])[k]) >= 0);
            }
        }
        assert(st.stray + rest =~= rest);
        if pos == m {
            assert(buf_follows(p, pos));
        } else {
            assert(p[pos + 1] != end_marker()) by {
                if p[pos + 1] == end_marker() {
                    lemma_switch_step(b, p, pos + 1, st);
                }
            }
            assert(!buf_follows(p, pos));
            let s = step_spec(b, p, pos, st)->Next_1;
            lemma_switches_loop(b, p, m, rest, pos + 1, s);
        }
    }
}

/// After any flags that take no value, given by their long names, their
/// characters or groups of them, an end-of-flags marker makes every later
/// argument a stray positional argument, each flag named before it is
/// entered, and no subcommand is.
pub proof fn law_end_of_flags_after_flags(
    b: BuilderView,
    p0: Seq<char>,
    fs: Seq<Seq<char>>,
    rest: Seq<Seq<char>>,
)
    requires
        validation_error(b) is None,
        forall|i: int| 0 <= i < fs.len() ==> switch_arg(b.flags, #[trigger] fs[i]),
    ensures
        parse_spec(b, seq![p0] + fs + seq![end_marker()] + rest) matches Ok(c) && c.stray
            == rest && c.sub is None && forall|i: int, k: int|
            0 <= i < fs.len() && 0 <= k < arg_names(b.flags, fs[i]).len() ==> entry_index(
                c.entered,
                #[trigger] arg_names(b.flags, fs[i])[k],
            ) >= 0,
{
    let p = seq![p0] + fs + seq![end_marker()] + rest;
    let m = fs.len() as int;
    assert forall|i: int| 1 <= i <= m implies switch_arg(b.flags, #[trigger] p[i]) by {
        assert(p[i] == fs[i - 1]);
    }
    assert(p[m + 1] == end_marker());
    assert(p.subrange(m + 2, p.len() as int) =~= rest);
    lemma_switches_loop(b, p, m, rest, 1, empty_loop());
    let c = parse_spec(b, p)->Ok_0;
    assert forall|i: int, k: int|
        0 <= i < fs.len() && 0 <= k < arg_names(b.flags, fs[i]).len() implies entry_index(
        c.entered,
        #[trigger] arg_names(b.flags, fs[i])[k],
    ) >= 0 by {
        assert(p[i + 1] == fs[i]);
        assert(arg_names(b.flags, p[i + 1])[k] == arg_names(b.flags, fs[i])[k]);
    }
}

/// A short flag character that names no flag: an ASCII character other than
/// a dash that no flag has.
pub open spec fn unknown_char(flags: Seq<FlagView>, c: char) -> bool {
    &&& c != '-'
    &&& '\0' <= c <= '\u{7f}'
    &&& char_flag_from(flags, c, 0) < 0
}

/// An argument the flags do not know: `--name` where no flag's long name
/// begins with `name`, or `-c` where no flag has the character `c`.
pub open spec fn unknown_arg(flags: Seq<FlagView>, a: Seq<char>) -> bool {
    ||| a.len() > 2 && has_prefix(a, end_marker()) && unknown_name(
        flags,
        a.subrange(2, a.len() as int),
    )
    ||| a.len() == 2 && a[0] == '-' && unknown_char(flags, a[1])
}

/// The unknown arguments among `args`, in order.
pub open spec fn unknowns_of(flags: Seq<FlagView>, args: Seq<Seq<char>>) -> Seq<Seq<char>>
    decreases args.len(),
{
    if args.len() == 0 {
        seq![]
    } else if unknown_arg(flags, args.last()) {
        unknowns_of(flags, args.drop_last()).push(args.last())
    } else {
        unknowns_of(flags, args.drop_last())
    }
}

/// The other arguments among `args`, in order.
pub open spec fn others_of(flags: Seq<FlagView>, args: Seq<Seq<char>>) -> Seq<Seq<char>>
    decreases args.len(),
{
    if args.len() == 0 {
        seq![]
    } else if unknown_arg(flags, args.last()) {
        others_of(flags, args.drop_last())
    } else {
        others_of(flags, args.drop_last()).push(args.last())
    }
}

proof fn lemma_unknowns_prefix(flags: Seq<FlagView>, args: Seq<Seq<char>>, j: int)
    requires
        0 <= j <= args.len(),
    ensures
        unknowns_of(flags, args.take(j)).len() <= unknowns_of(flags, args).len(),
        forall|i: int|
            0 <= i < unknowns_of(flags, args.take(j)).len() ==> #[trigger] unknowns_of(
                flags,
                args.take(j),
            )[i] == unknowns_of(flags, args)[i],
    decreases args.len() - j,
{
    if j == args.len() {
        assert(args.take(j) =~= args);
    } else {
        lemma_unknowns_prefix(flags, args, j + 1);
        let u0 = unknowns_of(flags, args.take(j));
        let u1 = unknowns_of(flags, args.take(j + 1));
        assert(args.take(j + 1).drop_last() =~= args.take(j));
        assert(u1 == u0 || u1 == u0.push(args.take(j + 1).last()));
        assert forall|i: int| 0 <= i < u0.len() implies #[trigger] u0[i] == unknowns_of(
            flags,
            args,
        )[i] by {
            assert(u0[i] == u1[i]);
        }
    }
}

/// Facts on an unknown argument: how the parser reads it, and that it names
/// nothing.
proof fn lemma_unknown_read(
    flags: Seq<FlagView>,
    a: Seq<char>,
    next: Option<Seq<char>>,
    buf: Option<Seq<Seq<char>>>,
)
    requires
        unknown_arg(flags, a),
    ensures
        a != end_marker(),
        dash_first(a),
        arg_kind(a) == ArgKind::LongFlag ==> long_flag_spec(a, flags, next, buf) == Ok::<
            Option<crate::cli::EntryView>,
            ErrView,
        >(None),
        arg_kind(a) == ArgKind::ShortFlag ==> short_flag_spec(a, flags, next, buf) == Ok::<
            Option<crate::cli::EntryView>,
            ErrView,
        >(None),
        arg_kind(a) == ArgKind::LongFlag || arg_kind(a) == ArgKind::ShortFlag,
{
    if a.len() > 2 && has_prefix(a, end_marker()) && unknown_name(flags, a.subrange(2, a.len() as int)) {
        let n = a.subrange(2, a.len() as int);
        assert(a.subrange(0, 2) =~= end_marker());
        assert(a =~= end_marker() + n);
        lemma_long_arg(n);
        lemma_none_found(flags, n, 0);
    } else {
        assert(is_ascii_chars(a)) by {
            assert forall|i: int| 0 <= i < a.len() implies '\0' <= #[trigger] a[i] <= '\u{7f}' by {}
        }
        is_ascii_chars_encode_utf8(a);
        assert(end_marker()[1] == '-');
        assert(a.last() == a[1]);
    }
}

proof fn lemma_unknown_loop(
    b: BuilderView,
    p: Seq<Seq<char>>,
    args: Seq<Seq<char>>,
    pos: int,
    st: LoopView,
)
    requires
        p.len() == args.len() + 1,
        forall|i: int| 0 <= i < args.len() ==> p[i + 1] == args[i],
        forall|i: int|
            0 <= i < args.len() ==> unknown_arg(b.flags, #[trigger] args[i]) || (positional(args[i])
                && b.sub_commands.len() == 0),
        1 <= pos <= args.len() + 1,
        st.unknown == unknowns_of(b.flags, args.take(pos - 1)),
        st.stray == others_of(b.flags, args.take(pos - 1)),
        st.sub is None,
        b.handle_unknown_args || st.unknown.len() == 0,
    ensures
        parse_loop(b, p, pos, st) matches Ok(s) && s.sub is None && (b.handle_unknown_args ==> (
        s.unknown == unknowns_of(b.flags, args) && s.stray == others_of(b.flags, args))) && (
        !b.handle_unknown_args ==> if unknowns_of(b.flags, args).len() > 0 {
            s.unknown == seq![unknowns_of(b.flags, args)[0]]
        } else {
            s.unknown.len() == 0 && s.stray == others_of(b.flags, args)
        }),
    decreases args.len() + 1 - pos,
{
    let flags = b.flags;
    if pos == args.len() + 1 {
        assert(args.take(pos - 1) =~= args);
    } else {
        let arg = args[pos - 1];
        assert(p[pos] == arg);
        let t0 = args.take(pos - 1);
        let t1 = args.take(pos);
        assert(t1.drop_last() =~= t0);
        assert(t1.last() == arg);
        let s = if unknown_arg(flags, arg) {
            LoopView { unknown: st.unknown.push(arg), ..st }
        } else {
            LoopView { stray: st.stray.push(arg), ..st }
        };
        if unknown_arg(flags, arg) {
            lemma_unknown_read(flags, arg, next_of(p, pos), buf_of(p, pos));
        } else {
            let ps = p.subrange(pos + 1, p.len() as int);
            assert(crate::arg_parser::chosen_cmd(b.sub_commands, arg) < 0);
            assert(crate::arg_parser::subcommand_spec(arg, b, ps) == Ok::<
                Option<(Seq<char>, crate::cli::CliView)>,
                ErrView,
            >(None));
            assert(end_marker()[0] == '-');
        }
        assert(step_spec(b, p, pos, st) == StepView::Next(pos + 1, s));
        if b.handle_unknown_args || !unknown_arg(flags, arg) {
            lemma_unknown_loop(b, p, args, pos + 1, s);
        } else {
            if pos + 1 <= args.len() {
                assert(step_spec(b, p, pos + 1, s) == StepView::Stop(s));
            }
            assert(parse_loop(b, p, pos, st) == Ok::<LoopView, ErrView>(s));
            lemma_unknowns_prefix(flags, args, pos);
            assert(unknowns_of(flags, t1) =~= seq![arg]);
            assert(unknowns_of(flags, t1)[0] == unknowns_of(flags, args)[0]);
        }
    }
}

/// Unknown arguments (`--name` or `-c` that no flag answers to) are handed
/// back in the order given when the builder handles unknown arguments, beside
/// the positional arguments in their order; otherwise the parse fails naming
/// the first unknown argument. (Positional arguments are taken among them only
/// where the interface has no subcommands.)
pub proof fn law_unknown_args_in_order(b: BuilderView, p0: Seq<char>, args: Seq<Seq<char>>)
    requires
        validation_error(b) is None,
        forall|i: int|
            0 <= i < args.len() ==> unknown_arg(b.flags, #[trigger] args[i]) || (positional(args[i])
                && b.sub_commands.len() == 0),
    ensures
        b.handle_unknown_args ==> (parse_spec(b, seq![p0] + args) matches Ok(c) && c.unknown
            == Some(unknowns_of(b.flags, args)) && c.stray == others_of(b.flags, args) && c.sub
            is None),
        !b.handle_unknown_args && unknowns_of(b.flags, args).len() > 0 ==> parse_spec(
            b,
            seq![p0] + args,
        ) == Err::<crate::cli::CliView, ErrView>(
            parser_err(KindView::UnknownArgument(unknowns_of(b.flags, args)[0])),
        ),
        !b.handle_unknown_args && unknowns_of(b.flags, args).len() == 0 ==> (parse_spec(
            b,
            seq![p0] + args,
        ) matches Ok(c) && c.unknown is None && c.stray == others_of(b.flags, args)),
{
    let p = seq![p0] + args;
    assert forall|i: int| 0 <= i < args.len() implies p[i + 1] == args[i] by {}
    assert(args.take(0) =~= Seq::<Seq<char>>::empty());
    lemma_unknown_loop(b, p, args, 1, empty_loop());
    if !b.handle_unknown_args && unknowns_of(b.flags, args).len() > 0 {
        let u = unknowns_of(b.flags, args)[0];
        assert(seq_join(seq![u], "; "@) == u);
    }
}

} // verus!
