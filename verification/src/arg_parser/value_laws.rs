//! Values of a long flag given as a list: `--name a b` reads as
//! `--name a --name b`.

use vstd::prelude::*;
use crate::arg_parser::group_laws::{lemma_insert_all_concat, lemma_insert_one};
use crate::arg_parser::marker_laws::{lemma_long_arg, lemma_long_found, long_name};
use crate::arg_parser::parser::{entries_insert, long_flag_from, long_flag_spec};
use crate::arg_parser::{
    buf_follows, buf_of, empty_loop, end_marker, insert_all, more_values, next_of, parse_loop,
    parse_spec, step_spec, LoopView, StepView,
};
use crate::cli::builder::{validation_error, BuilderView};
use crate::cli::EntryView;
use crate::control::{FlagView, StoreSyntax, StoreType};
use crate::error::ErrView;
use crate::store::StoreView;
use crate::utils::positional;

verus! {

/// The long name of a flag that stores detached values: every flag with that
/// name does.
pub open spec fn value_name(flags: Seq<FlagView>, n: Seq<char>) -> bool {
    &&& long_name(n)
    &&& exists|j: int| 0 <= j < flags.len() && flags[j].long_flag == n
    &&& forall|j: int|
        0 <= j < flags.len() && flags[j].long_flag == n ==> flags[j].storing
            && flags[j].store_syntax == Some(StoreSyntax::Detached) && flags[j].store_type
            == Some(StoreType::Value)
}

/// `--name v0 v1 …`: the values listed after the flag.
pub open spec fn listed_args(p0: Seq<char>, n: Seq<char>, vs: Seq<Seq<char>>) -> Seq<Seq<char>> {
    seq![p0, end_marker() + n] + vs
}

/// `--name v0 --name v1 …`: the flag given again before each value.
pub open spec fn repeated_args(p0: Seq<char>, n: Seq<char>, vs: Seq<Seq<char>>) -> Seq<Seq<char>> {
    seq![p0] + Seq::new(
        2 * vs.len(),
        |i: int|
            if i % 2 == 0 {
                end_marker() + n
            } else {
                vs[i / 2]
            },
    )
}

/// The entry the flag `n` records for each value.
pub open spec fn value_entries(flags: Seq<FlagView>, n: Seq<char>, vs: Seq<Seq<char>>) -> Seq<
    EntryView,
> {
    Seq::new(
        vs.len(),
        |j: int| (n, long_flag_from(flags, n, 0) as usize, StoreView::Value(seq![vs[j]])),
    )
}

proof fn lemma_value_spec(flags: Seq<FlagView>, n: Seq<char>, v: Seq<char>)
    requires
        value_name(flags, n),
        positional(v),
    ensures
        long_flag_spec(end_marker() + n, flags, Some(v), None) == Ok::<Option<EntryView>, ErrView>(
            Some((n, long_flag_from(flags, n, 0) as usize, StoreView::Value(seq![v]))),
        ),
{
    lemma_long_arg(n);
    lemma_long_found(flags, n, 0);
}

proof fn lemma_more_listed(
    b: BuilderView,
    p: Seq<Seq<char>>,
    n: Seq<char>,
    vs: Seq<Seq<char>>,
    q: int,
    es: Seq<EntryView>,
)
    requires
        value_name(b.flags, n),
        p.len() == vs.len() + 2,
        forall|i: int| 0 <= i < vs.len() ==> p[i + 2] == vs[i] && positional(#[trigger] vs[i]),
        2 <= q <= p.len(),
    ensures
        more_values(b, p, end_marker() + n, q, es) == Ok::<(int, Seq<EntryView>), ErrView>(
            (
                p.len() as int,
                insert_all(es, value_entries(b.flags, n, vs).subrange(q - 2, vs.len() as int)),
            ),
        ),
    decreases p.len() - q,
{
    let evs = value_entries(b.flags, n, vs);
    if q == p.len() {
        assert(evs.subrange(q - 2, vs.len() as int) =~= Seq::<EntryView>::empty());
    } else {
        let v = vs[q - 2];
        assert(p[q] == v);
        lemma_value_spec(b.flags, n, v);
        lemma_more_listed(b, p, n, vs, q + 1, entries_insert(es, evs[q - 2]));
        let t = evs.subrange(q - 2, vs.len() as int);
        assert(t[0] == evs[q - 2]);
        assert(t.drop_first() =~= evs.subrange(q - 1, vs.len() as int));
    }
}

proof fn lemma_fold_values(flags: Seq<FlagView>, n: Seq<char>, vs: Seq<Seq<char>>, j: int)
    requires
        1 <= j <= vs.len(),
    ensures
        insert_all(seq![], value_entries(flags, n, vs).take(j)) == seq![
            (n, long_flag_from(flags, n, 0) as usize, StoreView::Value(vs.take(j))),
        ],
    decreases j,
{
    let evs = value_entries(flags, n, vs);
    let idx = long_flag_from(flags, n, 0) as usize;
    if j == 1 {
        assert(evs.take(1) =~= seq![evs[0]]);
        lemma_insert_one(seq![], evs[0]);
        assert(vs.take(1) =~= seq![vs[0]]);
    } else {
        lemma_fold_values(flags, n, vs, j - 1);
        assert(evs.take(j) =~= evs.take(j - 1) + seq![evs[j - 1]]);
        lemma_insert_all_concat(seq![], evs.take(j - 1), seq![evs[j - 1]]);
        let es = insert_all(seq![], evs.take(j - 1));
        lemma_insert_one(es, evs[j - 1]);
        assert(crate::cli::entry_index(es, n) == 0);
        assert(vs.take(j - 1) + seq![vs[j - 1]] =~= vs.take(j));
    }
}

proof fn lemma_repeated_at(p0: Seq<char>, n: Seq<char>, vs: Seq<Seq<char>>, i: int)
    requires
        0 <= i < vs.len(),
    ensures
        repeated_args(p0, n, vs).len() == 2 * vs.len() + 1,
        repeated_args(p0, n, vs)[2 * i + 1] == end_marker() + n,
        repeated_args(p0, n, vs)[2 * i + 2] == vs[i],
{
    assert((2 * i) % 2 == 0);
    assert((2 * i + 1) % 2 == 1);
    assert((2 * i + 1) / 2 == i);
}

#[verifier::rlimit(30)]
proof fn lemma_repeated_loop(
    b: BuilderView,
    p0: Seq<char>,
    n: Seq<char>,
    vs: Seq<Seq<char>>,
    j: int,
    st: LoopView,
)
    requires
        value_name(b.flags, n),
        forall|i: int| 0 <= i < vs.len() ==> positional(#[trigger] vs[i]),
        0 <= j <= vs.len(),
        st == (LoopView {
            entered: insert_all(seq![], value_entries(b.flags, n, vs).take(j)),
            ..empty_loop()
        }),
    ensures
        parse_loop(b, repeated_args(p0, n, vs), 2 * j + 1, st) == Ok::<LoopView, ErrView>(
            LoopView { entered: insert_all(seq![], value_entries(b.flags, n, vs)), ..empty_loop() },
        ),
    decreases vs.len() - j,
{
    let p = repeated_args(p0, n, vs);
    let evs = value_entries(b.flags, n, vs);
    let a = end_marker() + n;
    assert(p.len() == 2 * vs.len() + 1);
    if j == vs.len() {
        assert(evs.take(j) =~= evs);
    } else {
        let pos = 2 * j + 1;
        let v = vs[j];
        lemma_repeated_at(p0, n, vs, j);
        assert(positional(v));
        lemma_long_arg(n);
        assert(end_marker()[0] == '-');
        assert(!buf_follows(p, pos));
        assert(next_of(p, pos) == Some(v));
        assert(buf_of(p, pos) is None);
        lemma_value_spec(b.flags, n, v);
        let entered = entries_insert(st.entered, evs[j]);
        if j + 1 < vs.len() {
            lemma_repeated_at(p0, n, vs, j + 1);
        }
        assert(more_values(b, p, a, pos + 2, entered) == Ok::<(int, Seq<EntryView>), ErrView>(
            (pos + 2, entered),
        ));
        let s = LoopView { entered, ..st };
        assert(step_spec(b, p, pos, st) == StepView::Next(pos + 2, s));
        assert(evs.take(j + 1) =~= evs.take(j) + seq![evs[j]]);
        lemma_insert_all_concat(seq![], evs.take(j), seq![evs[j]]);
        lemma_insert_one(st.entered, evs[j]);
        lemma_repeated_loop(b, p0, n, vs, j + 1, s);
    }
}

#[verifier::rlimit(30)]
proof fn lemma_listed(b: BuilderView, p0: Seq<char>, n: Seq<char>, vs: Seq<Seq<char>>)
    requires
        value_name(b.flags, n),
        vs.len() > 0,
        forall|i: int| 0 <= i < vs.len() ==> positional(#[trigger] vs[i]),
    ensures
        parse_loop(b, listed_args(p0, n, vs), 1, empty_loop()) == Ok::<LoopView, ErrView>(
            LoopView {
                entered: insert_all(seq![], value_entries(b.flags, n, vs)),
                ..empty_loop()
            },
        ),
{
    let flags = b.flags;
    let a = end_marker() + n;
    let evs = value_entries(flags, n, vs);
    let final_st = LoopView { entered: insert_all(seq![], evs), ..empty_loop() };
    lemma_long_arg(n);
    assert(end_marker()[0] == '-');
    let p1 = listed_args(p0, n, vs);
    assert forall|i: int| 0 <= i < vs.len() implies p1[i + 2] == vs[i] && positional(
        #[trigger] vs[i],
    ) by {}
    assert(p1[1] == a && p1[2] == vs[0]);
    assert(!buf_follows(p1, 1));
    assert(next_of(p1, 1) == Some(vs[0]));
    assert(buf_of(p1, 1) is None);
    lemma_value_spec(flags, n, vs[0]);
    let e0 = evs[0];
    lemma_more_listed(b, p1, n, vs, 3, entries_insert(seq![], e0));
    assert(evs.subrange(1, vs.len() as int) =~= evs.drop_first());
    assert(insert_all(seq![], evs) == insert_all(entries_insert(seq![], e0), evs.drop_first()));
    assert(step_spec(b, p1, 1, empty_loop()) == StepView::Next(p1.len() as int, final_st));
    assert(parse_loop(b, p1, p1.len() as int, final_st) == Ok::<LoopView, ErrView>(final_st));
    assert(parse_loop(b, p1, 1, empty_loop()) == parse_loop(b, p1, p1.len() as int, final_st));
}

proof fn lemma_repeated(b: BuilderView, p0: Seq<char>, n: Seq<char>, vs: Seq<Seq<char>>)
    requires
        value_name(b.flags, n),
        forall|i: int| 0 <= i < vs.len() ==> positional(#[trigger] vs[i]),
    ensures
        parse_loop(b, repeated_args(p0, n, vs), 1, empty_loop()) == Ok::<LoopView, ErrView>(
            LoopView {
                entered: insert_all(seq![], value_entries(b.flags, n, vs)),
                ..empty_loop()
            },
        ),
{
    assert(value_entries(b.flags, n, vs).take(0) =~= Seq::<EntryView>::empty());
    lemma_repeated_loop(b, p0, n, vs, 0, empty_loop());
}

/// A long flag that stores detached values takes the values listed after it:
/// `--name v0 v1 …` reads as `--name v0 --name v1 …`. Both succeed alike and
/// record the one flag with all the values in order, with no positional
/// argument and no subcommand.
pub proof fn law_values_listed_or_repeated(
    b: BuilderView,
    p0: Seq<char>,
    n: Seq<char>,
    vs: Seq<Seq<char>>,
)
    requires
        validation_error(b) is None,
        value_name(b.flags, n),
        vs.len() > 0,
        forall|i: int| 0 <= i < vs.len() ==> positional(#[trigger] vs[i]),
    ensures
        parse_spec(b, listed_args(p0, n, vs)) matches Ok(c1) && parse_spec(
            b,
            repeated_args(p0, n, vs),
        ) matches Ok(c2) && c1 == c2 && c1.entered == seq![
            (n, long_flag_from(b.flags, n, 0) as usize, StoreView::Value(vs)),
        ] && c1.stray.len() == 0 && c1.sub is None,
{
    let evs = value_entries(b.flags, n, vs);
    lemma_listed(b, p0, n, vs);
    lemma_repeated(b, p0, n, vs);
    lemma_fold_values(b.flags, n, vs, vs.len() as int);
    assert(evs.take(vs.len() as int) =~= evs);
    assert(vs.take(vs.len() as int) =~= vs);
}

} // verus!
