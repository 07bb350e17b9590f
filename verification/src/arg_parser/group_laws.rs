//! Properties of grouped short flags: every character must name a flag, and
//! a group ending in a flag with an attached value reads as the separate flags.

use vstd::prelude::*;
use vstd::utf8::{encode_utf8, is_ascii_chars, is_ascii_chars_encode_utf8};
use vstd::utf8::encode_scalar;
use crate::arg_parser::grouped::{
    byte_len, group_char, group_from, group_store, grouped_spec, GroupStep,
};
use crate::arg_parser::parser::{char_flag_from, entries_insert, flag_label, missing, short_flag_spec};
use crate::arg_parser::{
    arg_kind, buf_of, empty_loop, end_marker, group_takes_next, insert_all, next_of, parse_loop,
    parse_spec, step_spec, ArgKind, LoopView, StepView,
};
use crate::cli::{entry_index, entry_index_from, EntryView};
use crate::control::{FlagView, StoreSyntax, StoreType};
use crate::cli::builder::validation_error;
use crate::error::{parser_err, ErrView, KindView};
use crate::store::StoreView;
use crate::text::{has_eq, is_ascii_alpha, lemma_index_of_from, split_eq};

verus! {

/// A character that names a flag taking no value at all.
pub open spec fn plain_flag(flags: Seq<FlagView>, c: char) -> bool {
    &&& is_ascii_alpha(c)
    &&& char_flag_from(flags, c, 0) >= 0
    &&& !flags[char_flag_from(flags, c, 0)].storing
    &&& !flags[char_flag_from(flags, c, 0)].required_store
    &&& flags[char_flag_from(flags, c, 0)].store_type is None
}

/// The entries a group records for the plain flag characters `cs` that
/// follow its dash.
pub open spec fn plain_entries(flags: Seq<FlagView>, cs: Seq<char>) -> Seq<EntryView> {
    Seq::new(
        cs.len(),
        |j: int| (flags[char_flag_from(flags, cs[j], 0)].long_flag, (j + 2) as usize, StoreView::Exists),
    )
}

proof fn lemma_plain_prefix(
    x: Seq<char>,
    flags: Seq<FlagView>,
    next: Option<Seq<char>>,
    buf: Option<Seq<Seq<char>>>,
    cs: Seq<char>,
    k: int,
    out: Seq<EntryView>,
)
    requires
        x.len() > cs.len(),
        x[0] == '-',
        forall|j: int| 0 <= j < cs.len() ==> x[j + 1] == cs[j] && plain_flag(flags, #[trigger] cs[j]),
        1 <= k <= cs.len() + 1,
    ensures
        group_from(x, flags, next, buf, k, out) == group_from(
            x,
            flags,
            next,
            buf,
            cs.len() + 1int,
            out + plain_entries(flags, cs).subrange(k - 1, cs.len() as int),
        ),
    decreases cs.len() + 1 - k,
{
    let pe = plain_entries(flags, cs);
    if k == cs.len() + 1 {
        assert(out + pe.subrange(k - 1, cs.len() as int) =~= out);
    } else {
        let c = cs[k - 1];
        assert(x[k] == c);
        assert(plain_flag(flags, c));
        let e = pe[k - 1];
        assert(group_char(x, flags, next, buf, k, out) == GroupStep::Next(out.push(e)));
        lemma_plain_prefix(x, flags, next, buf, cs, k + 1, out.push(e));
        assert(out.push(e) + pe.subrange(k, cs.len() as int) =~= out + pe.subrange(
            k - 1,
            cs.len() as int,
        ));
    }
}

/// A group of plain flag characters records one entry for each of them.
pub proof fn lemma_plain_group(
    flags: Seq<FlagView>,
    next: Option<Seq<char>>,
    buf: Option<Seq<Seq<char>>>,
    cs: Seq<char>,
)
    requires
        forall|j: int| 0 <= j < cs.len() ==> plain_flag(flags, #[trigger] cs[j]),
    ensures
        grouped_spec(seq!['-'] + cs, flags, next, buf) == Ok::<Seq<EntryView>, crate::error::ErrView>(
            plain_entries(flags, cs),
        ),
{
    let x = seq!['-'] + cs;
    assert forall|j: int| 0 <= j < cs.len() implies x[j + 1] == cs[j] && plain_flag(
        flags,
        #[trigger] cs[j],
    ) by {}
    lemma_plain_prefix(x, flags, next, buf, cs, 1, seq![]);
    assert(Seq::<EntryView>::empty() + plain_entries(flags, cs).subrange(0, cs.len() as int)
        =~= plain_entries(flags, cs));
}

/// A character at position `j` of a group that names a flag and lets the
/// group go on to the next character: the flag requires no value, and where
/// it takes an attached value, no `=` follows it.
pub open spec fn passing_char(flags: Seq<FlagView>, arg: Seq<char>, j: int) -> bool {
    let fi = char_flag_from(flags, arg[j], 0);
    &&& is_ascii_alpha(arg[j])
    &&& fi >= 0
    &&& !flags[fi].required_store
    &&& flags[fi].storing && flags[fi].store_syntax == Some(StoreSyntax::Attached) ==> arg[j + 1]
        != '='
}

proof fn lemma_passing_then_fail(
    arg: Seq<char>,
    flags: Seq<FlagView>,
    next: Option<Seq<char>>,
    buf: Option<Seq<Seq<char>>>,
    k: int,
    j: int,
    out: Seq<EntryView>,
)
    requires
        arg.len() > 0,
        arg[0] == '-',
        1 <= j <= k < arg.len(),
        encode_utf8(arg).len() <= usize::MAX,
        forall|i: int| 1 <= i < k ==> passing_char(flags, arg, i),
        !is_ascii_alpha(arg[k]) || char_flag_from(flags, arg[k], 0) < 0,
    ensures
        group_from(arg, flags, next, buf, j, out) is Err,
    decreases k - j,
{
    if j < k {
        assert(passing_char(flags, arg, j));
        crate::arg_parser::lemma_char_flag_from(flags, arg[j], 0);
        lemma_encode_longer(arg);
        assert(byte_len(arg) >= arg.len());
        match group_char(arg, flags, next, buf, j, out) {
            GroupStep::Next(o) => lemma_passing_then_fail(arg, flags, next, buf, k, j + 1, o),
            _ => assert(false),
        }
    }
}

/// Every character of a group must name a flag: a group whose characters
/// after the dash name flags that let it go on (none requires a value, and no
/// attached value starts) up to one that names no flag (or is no letter) is
/// refused. (The UTF-8 length of the argument fits in `usize`.)
pub proof fn law_group_chars_name_flags(
    arg: Seq<char>,
    flags: Seq<FlagView>,
    next: Option<Seq<char>>,
    buf: Option<Seq<Seq<char>>>,
    k: int,
)
    requires
        arg.len() > 0,
        arg[0] == '-',
        1 <= k < arg.len(),
        encode_utf8(arg).len() <= usize::MAX,
        forall|j: int| 1 <= j < k ==> passing_char(flags, arg, j),
        !is_ascii_alpha(arg[k]) || char_flag_from(flags, arg[k], 0) < 0,
    ensures
        grouped_spec(arg, flags, next, buf) is Err,
{
    lemma_passing_then_fail(arg, flags, next, buf, k, 1, seq![]);
}

/// The name and the store of each entry (what a parsed interface answers).
pub open spec fn stores_of(es: Seq<EntryView>) -> Seq<(Seq<char>, StoreView)> {
    Seq::new(es.len(), |i: int| (es[i].0, es[i].2))
}

proof fn lemma_index_same(es1: Seq<EntryView>, es2: Seq<EntryView>, n: Seq<char>, i: int)
    requires
        stores_of(es1) == stores_of(es2),
    ensures
        entry_index_from(es1, n, i) == entry_index_from(es2, n, i),
    decreases es1.len() - i,
{
    assert(es1.len() == stores_of(es1).len());
    if 0 <= i < es1.len() {
        assert(stores_of(es1)[i] == stores_of(es2)[i]);
        lemma_index_same(es1, es2, n, i + 1);
    }
}

proof fn lemma_insert_same(es1: Seq<EntryView>, es2: Seq<EntryView>, e1: EntryView, e2: EntryView)
    requires
        stores_of(es1) == stores_of(es2),
        e1.0 == e2.0,
        e1.2 == e2.2,
    ensures
        stores_of(entries_insert(es1, e1)) == stores_of(entries_insert(es2, e2)),
{
    lemma_index_same(es1, es2, e1.0, 0);
    assert(es1.len() == stores_of(es1).len() && es2.len() == stores_of(es2).len());
    let i = entry_index(es1, e1.0);
    crate::cli::lemma_entry_index_from(es1, e1.0, 0);
    if i >= 0 {
        assert(stores_of(es1)[i] == stores_of(es2)[i]);
    }
    let r1 = entries_insert(es1, e1);
    let r2 = entries_insert(es2, e2);
    assert forall|k: int| 0 <= k < r1.len() implies stores_of(r1)[k] == stores_of(r2)[k] by {
        if k < es1.len() {
            assert(stores_of(es1)[k] == stores_of(es2)[k]);
        }
    }
    assert(stores_of(r1) =~= stores_of(r2));
}

pub(crate) proof fn lemma_insert_all_concat(es: Seq<EntryView>, a: Seq<EntryView>, b: Seq<EntryView>)
    ensures
        insert_all(es, a + b) == insert_all(insert_all(es, a), b),
    decreases a.len(),
{
    if a.len() == 0 {
        assert(a + b =~= b);
    } else {
        assert((a + b).drop_first() =~= a.drop_first() + b);
        assert((a + b)[0] == a[0]);
        lemma_insert_all_concat(entries_insert(es, a[0]), a.drop_first(), b);
    }
}

pub(crate) proof fn lemma_insert_one(es: Seq<EntryView>, e: EntryView)
    ensures
        insert_all(es, seq![e]) == entries_insert(es, e),
{
    assert(seq![e].drop_first() =~= Seq::<EntryView>::empty());
    assert(seq![e][0] == e);
    assert(insert_all(entries_insert(es, e), Seq::<EntryView>::empty()) == entries_insert(es, e));
}

pub(crate) proof fn lemma_encode_concat(a: Seq<char>, b: Seq<char>)
    ensures
        encode_utf8(a + b) == encode_utf8(a) + encode_utf8(b),
    decreases a.len(),
{
    if a.len() == 0 {
        assert(a + b =~= b);
        assert(encode_utf8(a) + encode_utf8(b) =~= encode_utf8(b));
    } else {
        assert((a + b).drop_first() =~= a.drop_first() + b);
        assert((a + b)[0] == a[0]);
        lemma_encode_concat(a.drop_first(), b);
        assert(encode_utf8(a + b) =~= encode_utf8(a) + encode_utf8(b));
    }
}

pub(crate) proof fn lemma_encode_longer(a: Seq<char>)
    ensures
        encode_utf8(a).len() >= a.len(),
    decreases a.len(),
{
    if a.len() > 0 {
        assert(encode_scalar(a[0] as u32).len() >= 1);
        lemma_encode_longer(a.drop_first());
    }
}

pub(crate) proof fn lemma_no_eq(s: Seq<char>)
    requires
        forall|i: int| 0 <= i < s.len() ==> s[i] != '=',
    ensures
        !has_eq(s),
{
    lemma_index_of_from(s, '=', 0);
}

pub(crate) proof fn lemma_has_eq(s: Seq<char>, i: int)
    requires
        0 <= i < s.len(),
        s[i] == '=',
    ensures
        has_eq(s),
{
    lemma_index_of_from(s, '=', 0);
}

pub(crate) proof fn lemma_plain_takes_nothing(
    arg: Seq<char>,
    flags: Seq<FlagView>,
    next: Option<Seq<char>>,
    cs: Seq<char>,
)
    requires
        cs.len() >= 1,
        arg == seq!['-'] + cs,
        forall|j: int| 0 <= j < cs.len() ==> plain_flag(flags, #[trigger] cs[j]),
    ensures
        !group_takes_next(arg, flags, next, plain_entries(flags, cs)),
{
    assert(arg.last() == cs[cs.len() - 1]);
    assert(plain_flag(flags, cs[cs.len() - 1]));
}

/// Facts on an argument `-cs` whose characters name flags without values.
pub(crate) proof fn lemma_plain_arg(flags: Seq<FlagView>, a: Seq<char>)
    requires
        2 <= a.len() <= usize::MAX,
        a[0] == '-',
        forall|j: int| 1 <= j < a.len() ==> plain_flag(flags, #[trigger] a[j]),
    ensures
        arg_kind(a) == if a.len() == 2 {
            ArgKind::ShortFlag
        } else {
            ArgKind::Group
        },
        a != end_marker(),
        !has_eq(a),
        a == seq!['-'] + a.subrange(1, a.len() as int),
        forall|j: int|
            0 <= j < a.len() - 1 ==> plain_flag(flags, #[trigger] a.subrange(1, a.len() as int)[j]),
{
    assert(plain_flag(flags, a[1]));
    assert(is_ascii_chars(a)) by {
        assert forall|i: int| 0 <= i < a.len() implies '\0' <= #[trigger] a[i] <= '\u{7f}' by {
            if i > 0 {
                assert(plain_flag(flags, a[i]));
            }
        }
    }
    is_ascii_chars_encode_utf8(a);
    assert(byte_len(a) == a.len());
    assert(a.subrange(0, 2)[1] == a[1]);
    assert(end_marker()[1] == '-');
    assert forall|i: int| 0 <= i < a.len() implies a[i] != '=' by {
        if i > 0 {
            assert(plain_flag(flags, a[i]));
        }
    }
    lemma_no_eq(a);
    assert(a =~= seq!['-'] + a.subrange(1, a.len() as int));
    assert forall|j: int| 0 <= j < a.len() - 1 implies plain_flag(
        flags,
        #[trigger] a.subrange(1, a.len() as int)[j],
    ) by {
        assert(a.subrange(1, a.len() as int)[j] == a[j + 1]);
    }
}

/// What the flag `fc` named by `c` records from its attached value `v`.
pub open spec fn attached_result(fc: FlagView, c: char, v: Seq<char>) -> Result<StoreView, ErrView> {
    match fc.store_type {
        Some(StoreType::Value) => Ok(StoreView::Value(seq![v])),
        Some(StoreType::KeyValue) => match split_eq(v) {
            Some(p) => Ok(StoreView::KeyValue(seq![p])),
            None => Err(missing(flag_label(seq![c], fc.long_flag), "-key=value"@)),
        },
        None => Err(
            parser_err(
                KindView::Generic(
                    "Flag '"@ + fc.long_flag
                        + "' does not have a store type but an associated value was found: '"@ + v
                        + "'"@,
                ),
            ),
        ),
    }
}

/// The conditions on the flag `c` that takes an attached value.
pub open spec fn attached_flag(flags: Seq<FlagView>, c: char) -> bool {
    &&& is_ascii_alpha(c)
    &&& char_flag_from(flags, c, 0) >= 0
    &&& flags[char_flag_from(flags, c, 0)].storing
    &&& flags[char_flag_from(flags, c, 0)].store_syntax == Some(StoreSyntax::Attached)
}

proof fn lemma_attached_char(
    chars: Seq<char>,
    flags: Seq<FlagView>,
    k: int,
    out: Seq<EntryView>,
    c: char,
    v: Seq<char>,
)
    requires
        1 <= k,
        k + 1 < chars.len(),
        chars[k] == c,
        chars[k + 1] == '=',
        chars.subrange(k + 2, chars.len() as int) == v,
        attached_flag(flags, c),
    ensures
        group_from(chars, flags, None, None, k, out) == match attached_result(
            flags[char_flag_from(flags, c, 0)],
            c,
            v,
        ) {
            Ok(st) => Ok(
                out.push((flags[char_flag_from(flags, c, 0)].long_flag, (k + 1) as usize, st)),
            ),
            Err(e) => Err(e),
        },
{
    let fc = flags[char_flag_from(flags, c, 0)];
    assert(group_store(fc, chars, k + 1, None, c, None) == Ok::<Option<Seq<Seq<char>>>, ErrView>(
        Some(seq![v]),
    ));
    assert(seq![v].len() == 1 && seq![v][0] == v);
}

/// The arguments of a program with the short flags `cs` in one group, and the
/// flag `c` with its value `v` as a group of its own.
pub open spec fn separate_args(p0: Seq<char>, cs: Seq<char>, c: char, v: Seq<char>) -> Seq<
    Seq<char>,
> {
    seq![p0, seq!['-'] + cs, seq!['-', c, '='] + v]
}

/// The same arguments with `c` and its value at the end of the group.
pub open spec fn joined_args(p0: Seq<char>, cs: Seq<char>, c: char, v: Seq<char>) -> Seq<
    Seq<char>,
> {
    seq![p0, seq!['-'] + cs + seq![c, '='] + v]
}

proof fn lemma_arg_kinds(cs: Seq<char>, flags: Seq<FlagView>, c: char, v: Seq<char>)
    requires
        cs.len() >= 1,
        forall|j: int| 0 <= j < cs.len() ==> plain_flag(flags, #[trigger] cs[j]),
        is_ascii_alpha(c),
        encode_utf8(seq!['-'] + cs + seq![c, '='] + v).len() <= usize::MAX,
    ensures
        arg_kind(seq!['-'] + cs + seq![c, '='] + v) == ArgKind::Group,
        arg_kind(seq!['-', c, '='] + v) == ArgKind::Group,
        arg_kind(seq!['-'] + cs) == if cs.len() >= 2 {
            ArgKind::Group
        } else {
            ArgKind::ShortFlag
        },
        seq!['-'] + cs + seq![c, '='] + v != end_marker(),
        seq!['-', c, '='] + v != end_marker(),
        seq!['-'] + cs != end_marker(),
        has_eq(seq!['-'] + cs + seq![c, '='] + v),
        has_eq(seq!['-', c, '='] + v),
        !has_eq(seq!['-'] + cs),
{
    let n: int = cs.len() as int;
    let g = seq!['-'] + cs;
    let y = seq!['-', c, '='] + v;
    let x = g + seq![c, '='] + v;
    let dce = seq!['-', c, '='];
    let ce = seq![c, '='];
    assert(is_ascii_chars(g)) by {
        assert forall|i: int| 0 <= i < g.len() implies '\0' <= #[trigger] g[i] <= '\u{7f}' by {
            if i > 0 {
                assert(g[i] == cs[i - 1]);
                assert(plain_flag(flags, cs[i - 1]));
            }
        }
    }
    assert(is_ascii_chars(dce)) by {
        assert forall|i: int| 0 <= i < 3 implies '\0' <= #[trigger] dce[i] <= '\u{7f}' by {}
    }
    assert(is_ascii_chars(ce)) by {
        assert forall|i: int| 0 <= i < 2 implies '\0' <= #[trigger] ce[i] <= '\u{7f}' by {}
    }
    is_ascii_chars_encode_utf8(g);
    is_ascii_chars_encode_utf8(dce);
    is_ascii_chars_encode_utf8(ce);
    lemma_encode_concat(g, ce);
    lemma_encode_concat(g + ce, v);
    lemma_encode_concat(dce, v);
    lemma_encode_longer(v);
    assert(byte_len(x) > 2);
    assert(byte_len(y) > 2);
    assert(byte_len(g) == n + 1);
    assert(plain_flag(flags, cs[0]));
    assert(x[1] == cs[0] && g[1] == cs[0] && y[1] == c);
    assert(x.subrange(0, 2)[1] == cs[0]);
    assert(y.subrange(0, 2)[1] == c);
    if n >= 2 {
        assert(g.subrange(0, 2)[1] == cs[0]);
    }
    assert(end_marker()[1] == '-');
    assert forall|i: int| 0 <= i < g.len() implies g[i] != '=' by {
        if i > 0 {
            assert(g[i] == cs[i - 1]);
            assert(plain_flag(flags, cs[i - 1]));
        }
    }
    lemma_no_eq(g);
    assert(x[n + 2] == '=');
    lemma_has_eq(x, n + 2);
    lemma_has_eq(y, 2);
}

proof fn lemma_groups(cs: Seq<char>, flags: Seq<FlagView>, c: char, v: Seq<char>)
    requires
        forall|j: int| 0 <= j < cs.len() ==> plain_flag(flags, #[trigger] cs[j]),
        attached_flag(flags, c),
    ensures
        grouped_spec(seq!['-'] + cs + seq![c, '='] + v, flags, None, None) == match attached_result(
            flags[char_flag_from(flags, c, 0)],
            c,
            v,
        ) {
            Ok(st) => Ok(
                plain_entries(flags, cs).push(
                    (flags[char_flag_from(flags, c, 0)].long_flag, (cs.len() + 2) as usize, st),
                ),
            ),
            Err(e) => Err(e),
        },
        grouped_spec(seq!['-', c, '='] + v, flags, None, None) == match attached_result(
            flags[char_flag_from(flags, c, 0)],
            c,
            v,
        ) {
            Ok(st) => Ok(seq![(flags[char_flag_from(flags, c, 0)].long_flag, 2usize, st)]),
            Err(e) => Err(e),
        },
{
    let n: int = cs.len() as int;
    let x = seq!['-'] + cs + seq![c, '='] + v;
    let y = seq!['-', c, '='] + v;
    assert forall|j: int| 0 <= j < n implies x[j + 1] == cs[j] && plain_flag(
        flags,
        #[trigger] cs[j],
    ) by {}
    lemma_plain_prefix(x, flags, None, None, cs, 1, seq![]);
    assert(Seq::<EntryView>::empty() + plain_entries(flags, cs).subrange(0, n) =~= plain_entries(
        flags,
        cs,
    ));
    assert(x[n + 1] == c && x[n + 2] == '=');
    assert(x.subrange(n + 3, x.len() as int) =~= v);
    lemma_attached_char(x, flags, n + 1, plain_entries(flags, cs), c, v);
    assert(y.subrange(3, y.len() as int) =~= v);
    lemma_attached_char(y, flags, 1, seq![], c, v);
    assert(Seq::<EntryView>::empty().push((flags[char_flag_from(flags, c, 0)].long_flag, 2usize, StoreView::Exists)).len() == 1);
}

/// The entries the separate form records for its first argument `-cs`.
pub open spec fn first_entries(flags: Seq<FlagView>, cs: Seq<char>) -> Seq<EntryView> {
    if cs.len() >= 2 {
        insert_all(seq![], plain_entries(flags, cs))
    } else {
        let i0 = char_flag_from(flags, cs[0], 0);
        entries_insert(seq![], (flags[i0].long_flag, i0 as usize, StoreView::Exists))
    }
}

proof fn lemma_joined_loop(
    b: crate::cli::builder::BuilderView,
    p0: Seq<char>,
    cs: Seq<char>,
    c: char,
    v: Seq<char>,
)
    requires
        cs.len() >= 1,
        forall|j: int| 0 <= j < cs.len() ==> plain_flag(b.flags, #[trigger] cs[j]),
        attached_flag(b.flags, c),
        encode_utf8(seq!['-'] + cs + seq![c, '='] + v).len() <= usize::MAX,
    ensures
        parse_loop(b, joined_args(p0, cs, c, v), 1, empty_loop()) == match attached_result(
            b.flags[char_flag_from(b.flags, c, 0)],
            c,
            v,
        ) {
            Ok(st) => Ok(
                LoopView {
                    entered: insert_all(
                        seq![],
                        plain_entries(b.flags, cs).push(
                            (
                                b.flags[char_flag_from(b.flags, c, 0)].long_flag,
                                (cs.len() + 2) as usize,
                                st,
                            ),
                        ),
                    ),
                    ..empty_loop()
                },
            ),
            Err(e) => Err(e),
        },
{
    let joi = joined_args(p0, cs, c, v);
    let x = seq!['-'] + cs + seq![c, '='] + v;
    assert(joi[1] == x);
    crate::arg_parser::lemma_char_flag_from(b.flags, c, 0);
    lemma_arg_kinds(cs, b.flags, c, v);
    lemma_groups(cs, b.flags, c, v);
    assert(next_of(joi, 1) is None && buf_of(joi, 1) is None);
    let st = step_spec(b, joi, 1, empty_loop());
    match attached_result(b.flags[char_flag_from(b.flags, c, 0)], c, v) {
        Ok(sv) => {
            let g = plain_entries(b.flags, cs).push(
                (b.flags[char_flag_from(b.flags, c, 0)].long_flag, (cs.len() + 2) as usize, sv),
            );
            let s = LoopView { entered: insert_all(seq![], g), ..empty_loop() };
            assert(st == StepView::Next(2, s));
            assert(parse_loop(b, joi, 2, s) == Ok::<LoopView, ErrView>(s));
            assert(parse_loop(b, joi, 1, empty_loop()) == parse_loop(b, joi, 2, s));
        },
        Err(e) => {
            assert(st == StepView::Fail(e));
            assert(parse_loop(b, joi, 1, empty_loop()) == Err::<LoopView, ErrView>(e));
        },
    }
}

proof fn lemma_separate_loop(
    b: crate::cli::builder::BuilderView,
    p0: Seq<char>,
    cs: Seq<char>,
    c: char,
    v: Seq<char>,
)
    requires
        cs.len() >= 1,
        forall|j: int| 0 <= j < cs.len() ==> plain_flag(b.flags, #[trigger] cs[j]),
        attached_flag(b.flags, c),
        encode_utf8(seq!['-'] + cs + seq![c, '='] + v).len() <= usize::MAX,
    ensures
        parse_loop(b, separate_args(p0, cs, c, v), 1, empty_loop()) == match attached_result(
            b.flags[char_flag_from(b.flags, c, 0)],
            c,
            v,
        ) {
            Ok(st) => Ok(
                LoopView {
                    entered: insert_all(
                        first_entries(b.flags, cs),
                        seq![(b.flags[char_flag_from(b.flags, c, 0)].long_flag, 2usize, st)],
                    ),
                    ..empty_loop()
                },
            ),
            Err(e) => Err(e),
        },
{
    let flags = b.flags;
    let sep = separate_args(p0, cs, c, v);
    crate::arg_parser::lemma_char_flag_from(flags, c, 0);
    crate::arg_parser::lemma_char_flag_from(flags, cs[0], 0);
    let g = seq!['-'] + cs;
    let y = seq!['-', c, '='] + v;
    assert(sep[1] == g && sep[2] == y);
    lemma_arg_kinds(cs, flags, c, v);
    lemma_groups(cs, flags, c, v);
    assert(next_of(sep, 1) == Some(y)) by {
        assert(y[1] == c);
        assert(end_marker()[1] == '-');
    }
    assert(buf_of(sep, 1) is None && buf_of(sep, 2) is None && next_of(sep, 2) is None);
    let s1 = LoopView { entered: first_entries(flags, cs), ..empty_loop() };
    if cs.len() >= 2 {
        lemma_plain_group(flags, Some(y), None, cs);
        let pe = plain_entries(flags, cs);
        lemma_plain_takes_nothing(g, flags, Some(y), cs);
        assert(step_spec(b, sep, 1, empty_loop()) == StepView::Next(2, s1));
    } else {
        let i0 = char_flag_from(flags, cs[0], 0);
        assert(plain_flag(flags, cs[0]));
        assert(g.last() == cs[0]);
        let e0 = (flags[i0].long_flag, i0 as usize, StoreView::Exists);
        assert(short_flag_spec(g, flags, Some(y), None) == Ok::<Option<EntryView>, ErrView>(
            Some(e0),
        ));
        assert(step_spec(b, sep, 1, empty_loop()) == StepView::Next(2, s1));
    }
    assert(parse_loop(b, sep, 1, empty_loop()) == parse_loop(b, sep, 2, s1));
    match attached_result(flags[char_flag_from(flags, c, 0)], c, v) {
        Ok(sv) => {
            let s2 = LoopView {
                entered: insert_all(
                    first_entries(flags, cs),
                    seq![(flags[char_flag_from(flags, c, 0)].long_flag, 2usize, sv)],
                ),
                ..empty_loop()
            };
            assert(step_spec(b, sep, 2, s1) == StepView::Next(3, s2));
            assert(parse_loop(b, sep, 3, s2) == Ok::<LoopView, ErrView>(s2));
            assert(parse_loop(b, sep, 2, s1) == parse_loop(b, sep, 3, s2));
        },
        Err(e) => {
            assert(step_spec(b, sep, 2, s1) == StepView::Fail(e));
            assert(parse_loop(b, sep, 2, s1) == Err::<LoopView, ErrView>(e));
        },
    }
}

/// A group may end in a flag that takes an attached value: `-abC=Argument`
/// reads as `-ab -C=Argument`. The two argument lists fail with the same
/// error, or both succeed and record the same flags with the same stores, the
/// same positional and unknown arguments and no subcommand; for a valid
/// builder and a value the flag accepts, both succeed. (The characters `cs`
/// before `c` name flags that take no value, and the UTF-8 length of the
/// joined argument fits in `usize`.)
pub proof fn law_group_reads_as_separate_flags(
    b: crate::cli::builder::BuilderView,
    p0: Seq<char>,
    cs: Seq<char>,
    c: char,
    v: Seq<char>,
)
    requires
        cs.len() >= 1,
        forall|j: int| 0 <= j < cs.len() ==> plain_flag(b.flags, #[trigger] cs[j]),
        attached_flag(b.flags, c),
        encode_utf8(seq!['-'] + cs + seq![c, '='] + v).len() <= usize::MAX,
    ensures
        parse_spec(b, separate_args(p0, cs, c, v)) is Ok <==> parse_spec(
            b,
            joined_args(p0, cs, c, v),
        ) is Ok,
        parse_spec(b, separate_args(p0, cs, c, v)) is Err ==> parse_spec(
            b,
            separate_args(p0, cs, c, v),
        ) == parse_spec(b, joined_args(p0, cs, c, v)),
        parse_spec(b, separate_args(p0, cs, c, v)) matches Ok(c1) ==> (parse_spec(
            b,
            joined_args(p0, cs, c, v),
        ) matches Ok(c2) && stores_of(c1.entered) == stores_of(c2.entered) && c1.stray
            == c2.stray && c1.unknown == c2.unknown && c1.sub == c2.sub),
        validation_error(b) is None && attached_result(
            b.flags[char_flag_from(b.flags, c, 0)],
            c,
            v,
        ) is Ok ==> parse_spec(b, separate_args(p0, cs, c, v)) is Ok && parse_spec(
            b,
            joined_args(p0, cs, c, v),
        ) is Ok,
{
    let flags = b.flags;
    lemma_separate_loop(b, p0, cs, c, v);
    lemma_joined_loop(b, p0, cs, c, v);
    crate::arg_parser::lemma_char_flag_from(flags, c, 0);
    crate::arg_parser::lemma_char_flag_from(flags, cs[0], 0);
    let fc = flags[char_flag_from(flags, c, 0)];
    let pe = plain_entries(flags, cs);
    if let Ok(sv) = attached_result(fc, c, v) {
        let es = seq![(fc.long_flag, 2usize, sv)];
        let ej = (fc.long_flag, (cs.len() + 2) as usize, sv);
        // the joined group records the plain flags, then the flag with its value
        assert(pe + seq![ej] =~= pe.push(ej));
        lemma_insert_all_concat(seq![], pe, seq![ej]);
        lemma_insert_one(insert_all(seq![], pe), ej);
        lemma_insert_one(first_entries(flags, cs), es[0]);
        // the separate form's first argument records the plain flags alike
        if cs.len() < 2 {
            let i0 = char_flag_from(flags, cs[0], 0);
            assert(plain_flag(flags, cs[0]));
            assert(pe =~= seq![pe[0]]);
            lemma_insert_one(seq![], pe[0]);
            lemma_insert_same(
                seq![],
                seq![],
                (flags[i0].long_flag, i0 as usize, StoreView::Exists),
                pe[0],
            );
        }
        assert(stores_of(first_entries(flags, cs)) == stores_of(insert_all(seq![], pe)));
        lemma_insert_same(first_entries(flags, cs), insert_all(seq![], pe), es[0], ej);
    }
}

} // verus!