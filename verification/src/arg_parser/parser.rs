//! Parsing of single short flags and long flags, recording entered flags,
//! and the shared pieces of value handling.

use vstd::prelude::*;
use crate::cli::builder::{lemma_builder_view, CliBuilder};
use crate::control::cmd::flags_view;
use crate::cli::{entries_view, entry_index, find_entry, lemma_entry_index_from, EntryView};
use crate::control::flag::lemma_flag_view;
use crate::control::{CliFlag, FlagView, StoreSyntax, StoreType};
use crate::error::{parser_err, strs_view, EshuError, EshuErrorKind, ErrView, KindView};
use crate::store::{kv_insert, KvMap, PairView, Store, StoreView};
use crate::text::{has_prefix, push_char, push_str, split_eq, split_once_eq, starts_with, str_eq};
use crate::utils::{is_positional, positional};

verus! {

broadcast use {lemma_flag_view, lemma_builder_view};

/// `-` then `what`, then ` (--` and the long name of the flag and `)`.
pub open spec fn flag_label(what: Seq<char>, long: Seq<char>) -> Seq<char> {
    seq!['-'] + what + " (--"@ + long + ")"@
}

/// The error for a flag that lacks its argument, or got a malformed one.
pub open spec fn missing(flag: Seq<char>, syntax: Seq<char>) -> ErrView {
    parser_err(KindView::MissingArgument { flag, expected_syntax: syntax })
}

/// The pairs `k=v` of a list of arguments inserted into `m`, or the first
/// argument without `=`.
pub open spec fn kv_list(b: Seq<Seq<char>>, m: Seq<PairView>) -> Result<Seq<PairView>, Seq<char>>
    decreases b.len(),
{
    if b.len() == 0 {
        Ok(m)
    } else {
        match split_eq(b[0]) {
            None => Err(b[0]),
            Some(p) => kv_list(b.drop_first(), kv_insert(m, p.0, p.1)),
        }
    }
}

/// The view of a parsed flag `(long name, (position, store))`.
pub open spec fn parsed_view(p: (String, (usize, Store))) -> EntryView {
    (p.0@, p.1.0, p.1.1@)
}

/// The first position at or after `i` of a flag with short character `c`, or -1.
pub open spec fn char_flag_from(flags: Seq<FlagView>, c: char, i: int) -> int
    decreases flags.len() - i,
{
    if i < 0 || i >= flags.len() {
        -1
    } else if flags[i].flag_char == Some(c) {
        i
    } else {
        char_flag_from(flags, c, i + 1)
    }
}

/// The value a storing short flag takes from the next argument.
pub open spec fn detached_value(f: FlagView, next: Option<Seq<char>>) -> Option<Seq<char>> {
    if f.store_syntax == Some(StoreSyntax::Detached) && next is Some && positional(next->0) {
        next
    } else {
        None
    }
}

/// What a matched short flag `-c` records (`i` is its position among the flags).
pub open spec fn short_store(
    f: FlagView,
    i: usize,
    c: char,
    next: Option<Seq<char>>,
    buf: Option<Seq<Seq<char>>>,
) -> Result<EntryView, ErrView> {
    let label = flag_label(seq![c], f.long_flag);
    let value = detached_value(f, next);
    if !f.storing {
        Ok((f.long_flag, i, StoreView::Exists))
    } else if buf is Some {
        match f.store_type {
            None => Err(missing(label, "VALUE"@)),
            Some(StoreType::Value) => Ok((f.long_flag, i, StoreView::Value(buf->0))),
            Some(StoreType::KeyValue) => match kv_list(buf->0, seq![]) {
                Ok(m) => Ok((f.long_flag, i, StoreView::KeyValue(m))),
                Err(_) => Err(missing(label, "-key=value"@)),
            },
        }
    } else if f.required_store && value is None {
        match f.store_syntax {
            None => Err(missing(label, "VALUE"@)),
            Some(StoreSyntax::Attached) => Err(missing(label, seq!['-', c] + "=VALUE"@)),
            Some(StoreSyntax::Detached) => Err(missing(label, seq!['-', c] + " VALUE"@)),
        }
    } else if value is Some {
        match f.store_type {
            None => Err(missing(label, "VALUE"@)),
            Some(StoreType::Value) => Ok((f.long_flag, i, StoreView::Value(seq![value->0]))),
            Some(StoreType::KeyValue) => match split_eq(value->0) {
                Some(p) => Ok((f.long_flag, i, StoreView::KeyValue(seq![p]))),
                None => Err(missing(label, "-key=value"@)),
            },
        }
    } else {
        Ok((f.long_flag, i, StoreView::Exists))
    }
}

/// What [`parse_short_flag`] gives for the argument `-c`.
pub open spec fn short_flag_spec(
    arg: Seq<char>,
    flags: Seq<FlagView>,
    next: Option<Seq<char>>,
    buf: Option<Seq<Seq<char>>>,
) -> Result<Option<EntryView>, ErrView> {
    if flags.len() == 0 {
        Ok(None)
    } else if arg.len() == 0 {
        Err(parser_err(KindView::EmptyString("Argument must not be empty"@)))
    } else {
        let i = char_flag_from(flags, arg.last(), 0);
        if i < 0 {
            Ok(None)
        } else {
            match short_store(flags[i], i as usize, arg.last(), next, buf) {
                Ok(e) => Ok(Some(e)),
                Err(e) => Err(e),
            }
        }
    }
}

/// A store agrees with a flag's store type: values only for value flags,
/// pairs only for key-value flags.
pub open spec fn store_fits(s: StoreView, t: Option<StoreType>) -> bool {
    &&& s is Value ==> t == Some(StoreType::Value)
    &&& s is KeyValue ==> t == Some(StoreType::KeyValue)
}

/// An entry that some flag of `flags` could have produced.
pub open spec fn entry_fits(flags: Seq<FlagView>, e: EntryView) -> bool {
    exists|j: int| 0 <= j < flags.len() && flags[j].long_flag == e.0 && store_fits(e.2, flags[j].store_type)
}

/// The pairs of `n` inserted one after the other into `m`.
pub open spec fn kv_insert_all(m: Seq<PairView>, n: Seq<PairView>) -> Seq<PairView>
    decreases n.len(),
{
    if n.len() == 0 {
        m
    } else {
        kv_insert_all(kv_insert(m, n[0].0, n[0].1), n.drop_first())
    }
}

/// The store of a flag entered again: values are appended, pairs inserted,
/// and a flag that so far only existed takes the new store.
pub open spec fn merge_store(old: StoreView, new: StoreView) -> StoreView {
    match old {
        StoreView::Exists => new,
        StoreView::Value(v) => match new {
            StoreView::Value(w) => StoreView::Value(v + w),
            _ => StoreView::Value(v),
        },
        StoreView::KeyValue(m) => match new {
            StoreView::KeyValue(n) => StoreView::KeyValue(kv_insert_all(m, n)),
            _ => StoreView::KeyValue(m),
        },
    }
}

/// Recording an entered flag: a new name is added with its position and
/// store, a known one has the new store merged into its store.
pub open spec fn entries_insert(es: Seq<EntryView>, e: EntryView) -> Seq<EntryView> {
    let i = entry_index(es, e.0);
    if i < 0 {
        es.push(e)
    } else {
        es.update(i, (e.0, es[i].1, merge_store(es[i].2, e.2)))
    }
}

/// Recording `e` does not mix values and pairs under one name.
pub open spec fn insert_compatible(es: Seq<EntryView>, e: EntryView) -> bool {
    let i = entry_index(es, e.0);
    i >= 0 ==> !(es[i].2 is Value && e.2 is KeyValue) && !(es[i].2 is KeyValue && e.2 is Value)
}

/// A copy of a list of strings.
pub fn clone_strs(v: &Vec<String>) -> (r: Vec<String>)
    ensures
        r@ == v@,
{
    let mut r: Vec<String> = Vec::new();
    let mut i: usize = 0;
    while i < v.len()
        invariant
            i <= v@.len(),
            r@ == v@.subrange(0, i as int),
        decreases v@.len() - i,
    {
        r.push(v[i].clone());
        i += 1;
    }
    r
}

/// A one-character string.
pub fn char_string(c: char) -> (r: String)
    ensures
        r@ == seq![c],
{
    let mut s = String::new();
    push_char(&mut s, c);
    assert(s@ =~= seq![c]);
    s
}

/// The label of a flag for error messages.
pub fn label(what: &str, long: &str) -> (r: String)
    ensures
        r@ == flag_label(what@, long@),
{
    let mut s = String::new();
    push_char(&mut s, '-');
    push_str(&mut s, what);
    push_str(&mut s, " (--");
    push_str(&mut s, long);
    push_str(&mut s, ")");
    assert(s@ =~= flag_label(what@, long@));
    s
}

/// The error for a missing or malformed flag argument.
pub fn missing_error(flag: String, syntax: String) -> (r: EshuError)
    ensures
        r@ == missing(flag@, syntax@),
{
    EshuError::new(
        "eshu::parser",
        EshuErrorKind::MissingArgument { flag, expected_syntax: syntax },
    )
}

/// A string: `-`, the character, then `tail`.
pub fn dash_char_then(c: char, tail: &str) -> (r: String)
    ensures
        r@ == seq!['-', c] + tail@,
{
    let mut s = String::new();
    push_char(&mut s, '-');
    push_char(&mut s, c);
    push_str(&mut s, tail);
    assert(s@ =~= seq!['-', c] + tail@);
    s
}

/// The pairs `key=value` of a list of arguments, or the position of the first
/// argument without `=`.
pub fn kv_from_list(list: &Vec<String>) -> (r: Result<KvMap, usize>)
    ensures
        match (r, kv_list(strs_view(list@), seq![])) {
            (Ok(m), Ok(w)) => m@ == w,
            (Err(i), Err(bad)) => i < list@.len() && list@[i as int]@ == bad,
            _ => false,
        },
{
    let ghost l = strs_view(list@);
    let mut m = KvMap::new();
    let mut i: usize = 0;
    assert(l.subrange(0, l.len() as int) =~= l);
    while i < list.len()
        invariant
            l == strs_view(list@),
            i <= list@.len(),
            kv_list(l, seq![]) == kv_list(l.subrange(i as int, l.len() as int), m@),
        decreases list@.len() - i,
    {
        let ghost rest = l.subrange(i as int, l.len() as int);
        assert(rest[0] == list@[i as int]@);
        assert(rest.drop_first() =~= l.subrange(i + 1, l.len() as int));
        match split_once_eq(list[i].as_str()) {
            None => {
                return Err(i);
            },
            Some((k, v)) => {
                m.insert(k, v);
            },
        }
        i += 1;
    }
    Ok(m)
}

/// Records an entered flag into the list of entered flags: a new name is
/// added, a known one has the new store merged into its store.
pub fn insert_long_flag(
    entered_flags: &mut Vec<(String, usize, Store)>,
    long_flag: String,
    index: usize,
    store: Store,
)
    requires
        insert_compatible(entries_view(old(entered_flags)@), (long_flag@, index, store@)),
    ensures
        entries_view(final(entered_flags)@) == entries_insert(
            entries_view(old(entered_flags)@),
            (long_flag@, index, store@),
        ),
{
    let ghost es = entries_view(entered_flags@);
    proof {
        lemma_entry_index_from(es, long_flag@, 0);
    }
    match find_entry(entered_flags, long_flag.as_str()) {
        None => {
            let ghost e = (long_flag@, index, store@);
            entered_flags.push((long_flag, index, store));
            assert(entries_view(entered_flags@) =~= es.push(e));
        },
        Some(i) => {
            let ghost before = entered_flags@;
            let (name, idx, old_store) = entered_flags.remove(i);
            assert(name@ == es[i as int].0);
            assert(entered_flags@ =~= before.remove(i as int));
            let merged = merge_into(old_store, store);
            entered_flags.insert(i, (name, idx, merged));
            assert(entered_flags@ =~= before.update(i as int, entered_flags@[i as int]));
            assert(entries_view(entered_flags@) =~= es.update(
                i as int,
                (long_flag@, es[i as int].1, merge_store(es[i as int].2, store@)),
            ));
        },
    }
}

fn merge_into(old: Store, new: Store) -> (r: Store)
    requires
        !(old@ is Value && new@ is KeyValue) && !(old@ is KeyValue && new@ is Value),
    ensures
        r@ == merge_store(old@, new@),
{
    match old {
        Store::Exists => new,
        Store::Value(mut v) => {
            match new {
                Store::Value(w) => {
                    let ghost v0 = v@;
                    let mut i: usize = 0;
                    while i < w.len()
                        invariant
                            i <= w@.len(),
                            v@ == v0 + w@.subrange(0, i as int),
                        decreases w@.len() - i,
                    {
                        v.push(w[i].clone());
                        i += 1;
                    }
                    assert(strs_view(v@) =~= strs_view(v0) + strs_view(w@));
                    Store::Value(v)
                },
                _ => Store::Value(v),
            }
        },
        Store::KeyValue(mut m) => {
            match new {
                Store::KeyValue(n) => {
                    let ghost m0 = m@;
                    let pairs = n.entries();
                    let ghost nv = n@;
                    let mut i: usize = 0;
                    assert(nv.subrange(0, nv.len() as int) =~= nv);
                    while i < pairs.len()
                        invariant
                            crate::store::pairs_view(pairs@) == nv,
                            i <= pairs@.len(),
                            kv_insert_all(m0, nv) == kv_insert_all(
                                m@,
                                nv.subrange(i as int, nv.len() as int),
                            ),
                        decreases pairs@.len() - i,
                    {
                        let ghost rest = nv.subrange(i as int, nv.len() as int);
                        assert(rest.drop_first() =~= nv.subrange(i + 1, nv.len() as int));
                        m.insert(pairs[i].0.clone(), pairs[i].1.clone());
                        i += 1;
                    }
                    Store::KeyValue(m)
                },
                _ => Store::KeyValue(m),
            }
        },
    }
}

/// The view of an optional argument.
pub open spec fn opt_view(a: Option<&str>) -> Option<Seq<char>> {
    match a {
        Some(s) => Some(s@),
        None => None,
    }
}

/// The view of the arguments after an end-of-flags marker, if one follows.
pub open spec fn buf_view(b: Option<&Vec<String>>) -> Option<Seq<Seq<char>>> {
    match b {
        Some(v) => Some(strs_view(v@)),
        None => None,
    }
}

/// A flag parser's result agrees with its specification.
pub open spec fn parsed_matches(
    r: Result<Option<(String, (usize, Store))>, EshuError>,
    s: Result<Option<EntryView>, ErrView>,
) -> bool {
    match (r, s) {
        (Ok(Some(p)), Ok(Some(e))) => parsed_view(p) == e,
        (Ok(None), Ok(None)) => true,
        (Err(x), Err(y)) => x@ == y,
        _ => false,
    }
}

/// The position of the first flag with short character `c`.
pub fn find_char_flag(flags: &Vec<CliFlag>, c: char) -> (r: Option<usize>)
    ensures
        match r {
            Some(i) => i == char_flag_from(flags_view(flags@), c, 0) && i < flags@.len(),
            None => char_flag_from(flags_view(flags@), c, 0) == -1,
        },
{
    let ghost fs = flags_view(flags@);
    let mut i: usize = 0;
    while i < flags.len()
        invariant
            fs == flags_view(flags@),
            i <= flags@.len(),
            char_flag_from(fs, c, 0) == char_flag_from(fs, c, i as int),
        decreases flags@.len() - i,
    {
        if flags[i].flag_char == Some(c) {
            return Some(i);
        }
        i += 1;
    }
    None
}

fn short_store_exec(
    f: &CliFlag,
    i: usize,
    c: char,
    next_arg: Option<&str>,
    buf: Option<&Vec<String>>,
) -> (r: Result<(String, (usize, Store)), EshuError>)
    ensures
        match (r, short_store(f@, i, c, opt_view(next_arg), buf_view(buf))) {
            (Ok(p), Ok(e)) => parsed_view(p) == e,
            (Err(x), Err(y)) => x@ == y,
            _ => false,
        },
{
    let cs = char_string(c);
    if !f.storing {
        return Ok((f.long_flag.clone(), (i, Store::Exists)));
    }
    let mut value: Option<String> = None;
    if let Some(StoreSyntax::Detached) = f.store_syntax {
        if let Some(next_argument) = next_arg {
            if is_positional(next_argument) {
                value = Some(next_argument.to_owned());
            }
        }
    }
    assert(match value {
        Some(v) => detached_value(f@, opt_view(next_arg)) == Some(v@),
        None => detached_value(f@, opt_view(next_arg)) is None,
    });
    if let Some(b) = buf {
        let lab = label(cs.as_str(), f.long_flag.as_str());
        return match f.store_type {
            None => Err(missing_error(lab, "VALUE".to_owned())),
            Some(StoreType::Value) => Ok((f.long_flag.clone(), (i, Store::Value(clone_strs(b))))),
            Some(StoreType::KeyValue) => match kv_from_list(b) {
                Ok(m) => Ok((f.long_flag.clone(), (i, Store::KeyValue(m)))),
                Err(_) => Err(missing_error(lab, "-key=value".to_owned())),
            },
        };
    }
    if f.required_store && value.is_none() {
        let lab = label(cs.as_str(), f.long_flag.as_str());
        return match f.store_syntax {
            None => Err(missing_error(lab, "VALUE".to_owned())),
            Some(StoreSyntax::Attached) => Err(missing_error(lab, dash_char_then(c, "=VALUE"))),
            Some(StoreSyntax::Detached) => Err(missing_error(lab, dash_char_then(c, " VALUE"))),
        };
    }
    match value {
        Some(val) => {
            let lab = label(cs.as_str(), f.long_flag.as_str());
            match f.store_type {
                None => Err(missing_error(lab, "VALUE".to_owned())),
                Some(StoreType::Value) => {
                    let mut v: Vec<String> = Vec::new();
                    v.push(val);
                    assert(strs_view(v@) =~= seq![v@[0]@]);
                    Ok((f.long_flag.clone(), (i, Store::Value(v))))
                },
                Some(StoreType::KeyValue) => match split_once_eq(val.as_str()) {
                    Some((k, w)) => {
                        let mut m = KvMap::new();
                        m.insert(k, w);
                        Ok((f.long_flag.clone(), (i, Store::KeyValue(m))))
                    },
                    None => Err(missing_error(lab, "-key=value".to_owned())),
                },
            }
        },
        None => Ok((f.long_flag.clone(), (i, Store::Exists))),
    }
}

/// Parse a short flag `-f` (the argument's last character names the flag);
/// handles a detached value in `next_arg`.
pub fn parse_short_flag(
    arg: &str,
    cli: &CliBuilder,
    next_arg: Option<&str>,
    detached_list_args: Option<&Vec<String>>,
) -> (r: Result<Option<(String, (usize, Store))>, EshuError>)
    ensures
        parsed_matches(
            r,
            short_flag_spec(arg@, cli@.flags, opt_view(next_arg), buf_view(detached_list_args)),
        ),
{
    if cli.flags.len() == 0 {
        return Ok(None);
    }
    let n = arg.unicode_len();
    if n == 0 {
        return Err(
            EshuError::new(
                "eshu::parser",
                EshuErrorKind::EmptyString("Argument must not be empty".to_owned()),
            ),
        );
    }
    let c = arg.get_char(n - 1);
    match find_char_flag(&cli.flags, c) {
        None => Ok(None),
        Some(i) => match short_store_exec(&cli.flags[i], i, c, next_arg, detached_list_args) {
            Ok(p) => Ok(Some(p)),
            Err(e) => Err(e),
        },
    }
}

/// The argument with a leading `--` removed.
pub open spec fn strip_double_dash(arg: Seq<char>) -> Seq<char> {
    if has_prefix(arg, seq!['-', '-']) {
        arg.subrange(2, arg.len() as int)
    } else {
        arg
    }
}

/// The name part of a long flag argument: what comes before the first `=`.
pub open spec fn name_part(a: Seq<char>) -> Seq<char> {
    match split_eq(a) {
        Some(p) => p.0,
        None => a,
    }
}

/// The first position at or after `i` of a flag with long name `p`, or -1.
pub open spec fn long_flag_from(flags: Seq<FlagView>, p: Seq<char>, i: int) -> int
    decreases flags.len() - i,
{
    if i < 0 || i >= flags.len() {
        -1
    } else if flags[i].long_flag == p {
        i
    } else {
        long_flag_from(flags, p, i + 1)
    }
}

/// The positions from `i` on of the flags whose long name strictly extends `p`.
pub open spec fn partial_flags_from(flags: Seq<FlagView>, p: Seq<char>, i: int) -> Seq<int>
    decreases flags.len() - i,
{
    if i < 0 || i >= flags.len() {
        seq![]
    } else if flags[i].long_flag != p && has_prefix(flags[i].long_flag, p) {
        seq![i] + partial_flags_from(flags, p, i + 1)
    } else {
        partial_flags_from(flags, p, i + 1)
    }
}

/// What a matched storing long flag records; `a` is the argument without its
/// leading `--`.
pub open spec fn long_store(
    a: Seq<char>,
    i: usize,
    f: FlagView,
    next: Option<Seq<char>>,
    buf: Option<Seq<Seq<char>>>,
) -> Result<EntryView, ErrView> {
    let dd = "--"@ + f.long_flag;
    let lab = flag_label(a, f.long_flag);
    match f.store_syntax {
        None => Err(missing(dd, "--[FLAG]"@)),
        Some(syn) => {
            let value = match syn {
                StoreSyntax::Attached => match split_eq(a) {
                    Some(p) => Some(p.1),
                    None => None,
                },
                StoreSyntax::Detached => if next is Some && positional(next->0) {
                    next
                } else {
                    None
                },
            };
            if buf is Some {
                match f.store_type {
                    None => Err(missing(lab, "--store-type"@)),
                    Some(StoreType::Value) => Ok((f.long_flag, i, StoreView::Value(buf->0))),
                    Some(StoreType::KeyValue) => match kv_list(buf->0, seq![]) {
                        Ok(m) => Ok((f.long_flag, i, StoreView::KeyValue(m))),
                        Err(bad) => Err(missing(flag_label(bad, f.long_flag), "-key=value"@)),
                    },
                }
            } else if f.required_store && value is None {
                Err(
                    missing(
                        dd,
                        match syn {
                            StoreSyntax::Attached => dd + "=VALUE"@,
                            StoreSyntax::Detached => dd + " VALUE"@,
                        },
                    ),
                )
            } else if value is Some {
                match f.store_type {
                    None => Err(missing(lab, "--store-type"@)),
                    Some(StoreType::Value) => Ok(
                        (f.long_flag, i, StoreView::Value(seq![value->0])),
                    ),
                    Some(StoreType::KeyValue) => match split_eq(value->0) {
                        Some(p) => Ok((f.long_flag, i, StoreView::KeyValue(seq![p]))),
                        None => Err(missing(lab, "-key=value"@)),
                    },
                }
            } else {
                Ok((f.long_flag, i, StoreView::Exists))
            }
        },
    }
}

/// What a long flag at position `i` records.
pub open spec fn long_match(
    a: Seq<char>,
    i: int,
    flags: Seq<FlagView>,
    next: Option<Seq<char>>,
    buf: Option<Seq<Seq<char>>>,
) -> Result<Option<EntryView>, ErrView> {
    if flags[i].storing {
        match long_store(a, i as usize, flags[i], next, buf) {
            Ok(e) => Ok(Some(e)),
            Err(e) => Err(e),
        }
    } else {
        Ok(Some((flags[i].long_flag, i as usize, StoreView::Exists)))
    }
}

/// What [`parse_long_flag`] gives: an exact name match first, otherwise the
/// single flag whose name extends the given one.
pub open spec fn long_flag_spec(
    arg: Seq<char>,
    flags: Seq<FlagView>,
    next: Option<Seq<char>>,
    buf: Option<Seq<Seq<char>>>,
) -> Result<Option<EntryView>, ErrView> {
    let a = strip_double_dash(arg);
    let p = name_part(a);
    let e = long_flag_from(flags, p, 0);
    if e >= 0 {
        long_match(a, e, flags, next, buf)
    } else {
        let ps = partial_flags_from(flags, p, 0);
        if ps.len() == 1 {
            long_match(a, ps[0], flags, next, buf)
        } else {
            Ok(None)
        }
    }
}

pub proof fn lemma_long_flag_from(flags: Seq<FlagView>, p: Seq<char>, i: int)
    requires
        0 <= i,
    ensures
        long_flag_from(flags, p, i) == -1 || (i <= long_flag_from(flags, p, i) < flags.len()),
    decreases flags.len() - i,
{
    if i < flags.len() && flags[i].long_flag != p {
        lemma_long_flag_from(flags, p, i + 1);
    }
}

pub proof fn lemma_partial_flags_from(flags: Seq<FlagView>, p: Seq<char>, i: int)
    requires
        0 <= i,
    ensures
        forall|k: int|
            0 <= k < partial_flags_from(flags, p, i).len() ==> i <= #[trigger] partial_flags_from(
                flags,
                p,
                i,
            )[k] < flags.len(),
    decreases flags.len() - i,
{
    if i < flags.len() {
        lemma_partial_flags_from(flags, p, i + 1);
        let r = partial_flags_from(flags, p, i + 1);
        if flags[i].long_flag != p && has_prefix(flags[i].long_flag, p) {
            let t = seq![i] + r;
            assert forall|k: int| 0 <= k < t.len() implies i <= #[trigger] t[k] < flags.len() by {
                if k > 0 {
                    assert(t[k] == r[k - 1]);
                }
            }
        }
    }
}

fn long_store_exec(
    a: &str,
    i: usize,
    f: &CliFlag,
    next_arg: Option<&str>,
    buf: Option<&Vec<String>>,
) -> (r: Result<(String, (usize, Store)), EshuError>)
    ensures
        match (r, long_store(a@, i, f@, opt_view(next_arg), buf_view(buf))) {
            (Ok(p), Ok(e)) => parsed_view(p) == e,
            (Err(x), Err(y)) => x@ == y,
            _ => false,
        },
{
    let mut dd = "--".to_owned();
    push_str(&mut dd, f.long_flag.as_str());
    let syn = match f.store_syntax {
        Some(syn) => syn,
        None => {
            return Err(missing_error(dd, "--[FLAG]".to_owned()));
        },
    };
    let mut value: Option<String> = None;
    match syn {
        StoreSyntax::Attached => {
            if let Some((_, val)) = split_once_eq(a) {
                value = Some(val);
            }
        },
        StoreSyntax::Detached => {
            if let Some(next_argument) = next_arg {
                if is_positional(next_argument) {
                    value = Some(next_argument.to_owned());
                }
            }
        },
    }
    let lab = label(a, f.long_flag.as_str());
    if let Some(b) = buf {
        return match f.store_type {
            None => Err(missing_error(lab, "--store-type".to_owned())),
            Some(StoreType::Value) => Ok((f.long_flag.clone(), (i, Store::Value(clone_strs(b))))),
            Some(StoreType::KeyValue) => match kv_from_list(b) {
                Ok(m) => Ok((f.long_flag.clone(), (i, Store::KeyValue(m)))),
                Err(k) => Err(
                    missing_error(label(b[k].as_str(), f.long_flag.as_str()), "-key=value".to_owned()),
                ),
            },
        };
    }
    if f.required_store && value.is_none() {
        let mut req = dd.clone();
        match syn {
            StoreSyntax::Attached => push_str(&mut req, "=VALUE"),
            StoreSyntax::Detached => push_str(&mut req, " VALUE"),
        }
        return Err(missing_error(dd, req));
    }
    match value {
        Some(val) => match f.store_type {
            None => Err(missing_error(lab, "--store-type".to_owned())),
            Some(StoreType::Value) => {
                let mut v: Vec<String> = Vec::new();
                v.push(val);
                assert(strs_view(v@) =~= seq![v@[0]@]);
                Ok((f.long_flag.clone(), (i, Store::Value(v))))
            },
            Some(StoreType::KeyValue) => match split_once_eq(val.as_str()) {
                Some((k, w)) => {
                    let mut m = KvMap::new();
                    m.insert(k, w);
                    Ok((f.long_flag.clone(), (i, Store::KeyValue(m))))
                },
                None => Err(missing_error(lab, "-key=value".to_owned())),
            },
        },
        None => Ok((f.long_flag.clone(), (i, Store::Exists))),
    }
}

fn long_match_exec(
    a: &str,
    i: usize,
    cli: &CliBuilder,
    next_arg: Option<&str>,
    buf: Option<&Vec<String>>,
) -> (r: Result<Option<(String, (usize, Store))>, EshuError>)
    requires
        i < cli@.flags.len(),
    ensures
        parsed_matches(r, long_match(a@, i as int, cli@.flags, opt_view(next_arg), buf_view(buf))),
{
    let f = &cli.flags[i];
    if f.storing {
        match long_store_exec(a, i, f, next_arg, buf) {
            Ok(p) => Ok(Some(p)),
            Err(e) => Err(e),
        }
    } else {
        Ok(Some((f.long_flag.clone(), (i, Store::Exists))))
    }
}

/// Parse a long flag `--name`, `--name=value` or a unique prefix of a name
/// (also reached for `-C=value`, which the caller classifies as long).
pub fn parse_long_flag(
    arg: &str,
    cli: &CliBuilder,
    next_arg: Option<&str>,
    detached_list_args: Option<&Vec<String>>,
) -> (r: Result<Option<(String, (usize, Store))>, EshuError>)
    ensures
        parsed_matches(
            r,
            long_flag_spec(arg@, cli@.flags, opt_view(next_arg), buf_view(detached_list_args)),
        ),
{
    let ghost fs = cli@.flags;
    let a: String = if starts_with(arg, "--") {
        proof {
            reveal_strlit("--");
            assert("--"@ =~= seq!['-', '-']);
        }
        arg.substring_char(2, arg.unicode_len()).to_owned()
    } else {
        proof {
            reveal_strlit("--");
            assert("--"@ =~= seq!['-', '-']);
        }
        arg.to_owned()
    };
    assert(a@ == strip_double_dash(arg@));
    let p: String = match split_once_eq(a.as_str()) {
        Some((left, _)) => left,
        None => a.clone(),
    };
    assert(p@ == name_part(a@));
    let mut partials: Vec<usize> = Vec::new();
    let mut i: usize = 0;
    proof {
        lemma_long_flag_from(fs, p@, 0);
        lemma_partial_flags_from(fs, p@, 0);
    }
    while i < cli.flags.len()
        invariant
            fs == cli@.flags,
            fs.len() == cli.flags@.len(),
            a@ == strip_double_dash(arg@),
            p@ == name_part(a@),
            i <= fs.len(),
            long_flag_from(fs, p@, 0) == long_flag_from(fs, p@, i as int),
            partial_flags_from(fs, p@, 0) == partials@.map_values(|k: usize| k as int)
                + partial_flags_from(fs, p@, i as int),
        decreases fs.len() - i,
    {
        if str_eq(p.as_str(), cli.flags[i].long_flag.as_str()) {
            assert(fs[i as int].long_flag == p@);
            assert(long_flag_from(fs, p@, i as int) == i);
            return long_match_exec(a.as_str(), i, cli, next_arg, detached_list_args);
        } else if starts_with(cli.flags[i].long_flag.as_str(), p.as_str()) {
            let ghost before = partials@;
            partials.push(i);
            assert(partials@.map_values(|k: usize| k as int) =~= before.map_values(
                |k: usize| k as int,
            ).push(i as int));
            assert(partial_flags_from(fs, p@, i as int) == seq![i as int] + partial_flags_from(
                fs,
                p@,
                i + 1,
            ));
            assert(before.map_values(|k: usize| k as int).push(i as int) + partial_flags_from(
                fs,
                p@,
                i + 1,
            ) =~= before.map_values(|k: usize| k as int) + (seq![i as int] + partial_flags_from(
                fs,
                p@,
                i + 1,
            )));
        }
        i += 1;
    }
    assert(partial_flags_from(fs, p@, i as int) =~= Seq::<int>::empty());
    assert(partials@.map_values(|k: usize| k as int) + Seq::<int>::empty() =~= partials@.map_values(
        |k: usize| k as int,
    ));
    if partials.len() == 1 {
        let k = partials[0];
        assert(partial_flags_from(fs, p@, 0)[0] == k as int);
        return long_match_exec(a.as_str(), k, cli, next_arg, detached_list_args);
    }
    Ok(None)
}

} // verus!
