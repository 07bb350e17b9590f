//! Parsing of grouped short flags such as `-abc` or `-abC=value`.

use vstd::prelude::*;
use vstd::utf8::{encode_utf8, is_ascii_chars, is_ascii_chars_encode_utf8};
use crate::arg_parser::parser::{
    buf_view, char_flag_from, char_string, clone_strs, dash_char_then, find_char_flag,
    flag_label, kv_from_list, kv_list, label, missing, missing_error, opt_view, parsed_view,
};
use crate::cli::builder::{lemma_builder_view, CliBuilder};
use crate::cli::EntryView;
use crate::control::flag::lemma_flag_view;
use crate::control::{CliFlag, FlagView, StoreSyntax, StoreType};
use crate::error::{parser_err, strs_view, EshuError, EshuErrorKind, ErrView, KindView};
use crate::store::{KvMap, Store, StoreView};
use crate::text::{
    char_is_ascii_alpha, chars_of, is_ascii_alpha, push_char, push_str, split_eq,
    split_once_eq, string_from_chars,
};
use crate::utils::{is_positional, positional};

verus! {

broadcast use {lemma_flag_view, lemma_builder_view};

/// The UTF-8 length of an argument, as `str::len` gives it.
pub open spec fn byte_len(chars: Seq<char>) -> int {
    (encode_utf8(chars).len() as usize) as int
}

/// The values a grouped flag at character position `index` (counted from 1)
/// takes: the rest of the group after `=`, the next argument, or the
/// arguments after an end-of-flags marker.
pub open spec fn group_store(
    f: FlagView,
    chars: Seq<char>,
    index: int,
    next: Option<Seq<char>>,
    c: char,
    buf: Option<Seq<Seq<char>>>,
) -> Result<Option<Seq<Seq<char>>>, ErrView> {
    let lab = flag_label(seq![c], f.long_flag);
    let rest = chars.subrange(index + 1, chars.len() as int);
    if !f.storing {
        Ok(None)
    } else {
        match f.store_syntax {
            Some(StoreSyntax::Attached) => {
                let stored: Option<Seq<Seq<char>>> = if index < chars.len() && chars[index] == '=' {
                    Some(seq![rest])
                } else {
                    None
                };
                if stored is None && f.required_store {
                    if buf is Some {
                        Ok(buf)
                    } else if index == byte_len(chars) {
                        Err(missing(lab, seq!['-', c] + "=VALUE"@))
                    } else {
                        Ok(Some(seq![chars.subrange(index, chars.len() as int)]))
                    }
                } else {
                    Ok(stored)
                }
            },
            Some(StoreSyntax::Detached) => {
                let stored: Option<Seq<Seq<char>>> = if index == byte_len(chars) && next is Some
                    && positional(next->0) {
                    Some(seq![next->0])
                } else {
                    None
                };
                if f.required_store && stored is None {
                    if buf is Some {
                        Ok(buf)
                    } else {
                        Err(missing(lab, seq!['-', c] + " VALUE"@))
                    }
                } else {
                    Ok(stored)
                }
            },
            None => Ok(None),
        }
    }
}

/// The outcome of one character of a group.
pub enum GroupStep {
    /// Go on with the next character, having recorded these entries.
    Next(Seq<EntryView>),
    /// The group is done (a value took the rest of it).
    Done(Seq<EntryView>),
    Fail(ErrView),
}

/// What the character at position `k` of the group adds to `out`.
pub open spec fn group_char(
    chars: Seq<char>,
    flags: Seq<FlagView>,
    next: Option<Seq<char>>,
    buf: Option<Seq<Seq<char>>>,
    k: int,
    out: Seq<EntryView>,
) -> GroupStep {
    let c = chars[k];
    let index = k + 1;
    if !is_ascii_alpha(c) {
        GroupStep::Fail(parser_err(KindView::Generic("Invalid flag character: "@ + seq![c])))
    } else {
        let fi = char_flag_from(flags, c, 0);
        if fi < 0 {
            GroupStep::Fail(
                parser_err(KindView::Generic("Flag character '"@ + seq![c] + "' not found"@)),
            )
        } else {
            let f = flags[fi];
            let lab = flag_label(seq![c], f.long_flag);
            let pos = index as usize;
            match group_store(f, chars, index, next, c, buf) {
                Err(e) => GroupStep::Fail(e),
                Ok(None) => if f.required_store {
                    GroupStep::Fail(missing(lab, seq!['-', c] + "=VALUE"@))
                } else {
                    GroupStep::Next(
                        out.push(
                            (
                                f.long_flag,
                                pos,
                                match f.store_type {
                                    Some(StoreType::Value) => StoreView::Value(seq![]),
                                    Some(StoreType::KeyValue) => StoreView::KeyValue(seq![]),
                                    None => StoreView::Exists,
                                },
                            ),
                        ),
                    )
                },
                Ok(Some(sv)) => if sv.len() <= 1 {
                    let s0 = if sv.len() == 1 {
                        sv[0]
                    } else {
                        seq![]
                    };
                    match f.store_type {
                        Some(StoreType::Value) => GroupStep::Done(
                            out.push((f.long_flag, pos, StoreView::Value(seq![s0]))),
                        ),
                        Some(StoreType::KeyValue) => match split_eq(s0) {
                            Some(p) => GroupStep::Done(
                                out.push((f.long_flag, pos, StoreView::KeyValue(seq![p]))),
                            ),
                            None => GroupStep::Fail(missing(lab, "-key=value"@)),
                        },
                        None => GroupStep::Fail(
                            parser_err(
                                KindView::Generic(
                                    "Flag '"@ + f.long_flag
                                        + "' does not have a store type but an associated value was found: '"@
                                        + s0 + "'"@,
                                ),
                            ),
                        ),
                    }
                } else {
                    match f.store_type {
                        Some(StoreType::Value) => GroupStep::Next(
                            out.push((f.long_flag, pos, StoreView::Value(sv))),
                        ),
                        Some(StoreType::KeyValue) => match kv_list(sv, seq![]) {
                            Ok(m) => GroupStep::Next(
                                out.push((f.long_flag, pos, StoreView::KeyValue(m))),
                            ),
                            Err(bad) => GroupStep::Fail(
                                missing(flag_label(bad, f.long_flag), "-key=value"@),
                            ),
                        },
                        None => GroupStep::Next(out),
                    }
                },
            }
        }
    }
}

/// The entries of the group from character position `k` on, after `out`.
pub open spec fn group_from(
    chars: Seq<char>,
    flags: Seq<FlagView>,
    next: Option<Seq<char>>,
    buf: Option<Seq<Seq<char>>>,
    k: int,
    out: Seq<EntryView>,
) -> Result<Seq<EntryView>, ErrView>
    decreases chars.len() - k,
{
    if k < 0 || k >= chars.len() {
        Ok(out)
    } else if k == 0 && chars[0] == '-' {
        group_from(chars, flags, next, buf, 1, out)
    } else {
        match group_char(chars, flags, next, buf, k, out) {
            GroupStep::Next(o) => group_from(chars, flags, next, buf, k + 1, o),
            GroupStep::Done(o) => Ok(o),
            GroupStep::Fail(e) => Err(e),
        }
    }
}

/// What [`parse_grouped_flags`] gives for the group `arg`.
pub open spec fn grouped_spec(
    arg: Seq<char>,
    flags: Seq<FlagView>,
    next: Option<Seq<char>>,
    buf: Option<Seq<Seq<char>>>,
) -> Result<Seq<EntryView>, ErrView> {
    group_from(arg, flags, next, buf, 0, seq![])
}

/// The views of a list of parsed flags.
pub open spec fn parsed_list_view(v: Seq<(String, (usize, Store))>) -> Seq<EntryView> {
    Seq::new(v.len(), |i: int| parsed_view(v[i]))
}

fn get_flag_store(
    flag: &CliFlag,
    args: &Vec<char>,
    index: usize,
    arg: &str,
    next_arg: Option<&str>,
    c: char,
    detached_list_args: Option<&Vec<String>>,
) -> (r: Result<Option<Vec<String>>, EshuError>)
    requires
        args@ == arg@,
        1 <= index <= args@.len(),
        is_ascii_chars(args@.subrange(0, index as int)),
    ensures
        match (r, group_store(flag@, arg@, index as int, opt_view(next_arg), c, buf_view(detached_list_args))) {
            (Ok(Some(v)), Ok(Some(w))) => strs_view(v@) == w,
            (Ok(None), Ok(None)) => true,
            (Err(x), Err(y)) => x@ == y,
            _ => false,
        },
{
    let n = args.len();
    if !flag.storing {
        return Ok(None);
    }
    match flag.store_syntax {
        Some(StoreSyntax::Attached) => {
            let mut stored: Option<Vec<String>> = None;
            if index < n && args[index] == '=' {
                let mut v: Vec<String> = Vec::new();
                v.push(string_from_chars(args, index + 1, n));
                assert(strs_view(v@) =~= seq![args@.subrange(index + 1, n as int)]);
                stored = Some(v);
            }
            if stored.is_none() && flag.required_store {
                if let Some(b) = detached_list_args {
                    return Ok(Some(clone_strs(b)));
                }
                if index == arg.len() {
                    let lab = label(char_string(c).as_str(), flag.long_flag.as_str());
                    return Err(missing_error(lab, dash_char_then(c, "=VALUE")));
                }
                if index == n {
                    assert(args@.subrange(0, index as int) =~= args@);
                    proof {
                        is_ascii_chars_encode_utf8(args@);
                    }
                    assert(false);
                }
                let mut v: Vec<String> = Vec::new();
                v.push(string_from_chars(args, index, n));
                assert(strs_view(v@) =~= seq![args@.subrange(index as int, n as int)]);
                return Ok(Some(v));
            }
            Ok(stored)
        },
        Some(StoreSyntax::Detached) => {
            let mut stored: Option<Vec<String>> = None;
            if index == arg.len() {
                if let Some(next) = next_arg {
                    if is_positional(next) {
                        let mut v: Vec<String> = Vec::new();
                        v.push(next.to_owned());
                        assert(strs_view(v@) =~= seq![next@]);
                        stored = Some(v);
                    }
                }
            }
            if flag.required_store && stored.is_none() {
                if let Some(b) = detached_list_args {
                    return Ok(Some(clone_strs(b)));
                }
                let lab = label(char_string(c).as_str(), flag.long_flag.as_str());
                return Err(missing_error(lab, dash_char_then(c, " VALUE")));
            }
            Ok(stored)
        },
        None => Ok(None),
    }
}

/// The exec outcome of one character of a group.
enum GroupOutcome {
    Next,
    Done,
    Fail(EshuError),
}

fn generic_error(msg: String) -> (r: EshuError)
    ensures
        r@ == parser_err(KindView::Generic(msg@)),
{
    EshuError::new("eshu::parser", EshuErrorKind::Generic(msg))
}

fn group_char_exec(
    cli: &CliBuilder,
    args: &Vec<char>,
    k: usize,
    arg: &str,
    next_arg: Option<&str>,
    buf: Option<&Vec<String>>,
    out: &mut Vec<(String, (usize, Store))>,
) -> (r: GroupOutcome)
    requires
        args@ == arg@,
        k < args@.len(),
        is_ascii_chars(args@.subrange(0, k as int)),
    ensures
        match (
            r,
            group_char(
                arg@,
                cli@.flags,
                opt_view(next_arg),
                buf_view(buf),
                k as int,
                parsed_list_view(old(out)@),
            ),
        ) {
            (GroupOutcome::Next, GroupStep::Next(o)) => parsed_list_view(final(out)@) == o,
            (GroupOutcome::Done, GroupStep::Done(o)) => parsed_list_view(final(out)@) == o,
            (GroupOutcome::Fail(x), GroupStep::Fail(y)) => x@ == y,
            _ => false,
        },
{
    let ghost o0 = parsed_list_view(out@);
    let n = args.len();
    let c = args[k];
    let index = k + 1;
    if !char_is_ascii_alpha(c) {
        let mut msg = "Invalid flag character: ".to_owned();
        push_char(&mut msg, c);
        assert(msg@ =~= "Invalid flag character: "@ + seq![c]);
        return GroupOutcome::Fail(generic_error(msg));
    }
    let fi = match find_char_flag(&cli.flags, c) {
        Some(fi) => fi,
        None => {
            let mut msg = "Flag character '".to_owned();
            push_char(&mut msg, c);
            push_str(&mut msg, "' not found");
            assert(msg@ =~= "Flag character '"@ + seq![c] + "' not found"@);
            return GroupOutcome::Fail(generic_error(msg));
        },
    };
    let flag = &cli.flags[fi];
    assert(args@.subrange(0, index as int) =~= args@.subrange(0, k as int).push(c));
    let stored = match get_flag_store(flag, args, index, arg, next_arg, c, buf) {
        Ok(s) => s,
        Err(e) => {
            return GroupOutcome::Fail(e);
        },
    };
    let cs = char_string(c);
    match stored {
        None => {
            if flag.required_store {
                let lab = label(cs.as_str(), flag.long_flag.as_str());
                return GroupOutcome::Fail(missing_error(lab, dash_char_then(c, "=VALUE")));
            }
            let store = match flag.store_type {
                Some(StoreType::Value) => {
                    let v: Vec<String> = Vec::new();
                    assert(strs_view(v@) =~= seq![]);
                    Store::Value(v)
                },
                Some(StoreType::KeyValue) => Store::KeyValue(KvMap::new()),
                None => Store::Exists,
            };
            out.push((flag.long_flag.clone(), (index, store)));
            assert(parsed_list_view(out@) =~= o0.push(parsed_view(out@[out@.len() - 1])));
            GroupOutcome::Next
        },
        Some(sv) => {
            if sv.len() <= 1 {
                let s0 = if sv.len() == 1 {
                    sv[0].clone()
                } else {
                    String::new()
                };
                match flag.store_type {
                    Some(StoreType::Value) => {
                        let mut v: Vec<String> = Vec::new();
                        v.push(s0);
                        assert(strs_view(v@) =~= seq![v@[0]@]);
                        out.push((flag.long_flag.clone(), (index, Store::Value(v))));
                        assert(parsed_list_view(out@) =~= o0.push(
                            parsed_view(out@[out@.len() - 1]),
                        ));
                        GroupOutcome::Done
                    },
                    Some(StoreType::KeyValue) => match split_once_eq(s0.as_str()) {
                        Some((key, val)) => {
                            let mut m = KvMap::new();
                            m.insert(key, val);
                            out.push((flag.long_flag.clone(), (index, Store::KeyValue(m))));
                            assert(parsed_list_view(out@) =~= o0.push(
                                parsed_view(out@[out@.len() - 1]),
                            ));
                            GroupOutcome::Done
                        },
                        None => {
                            let lab = label(cs.as_str(), flag.long_flag.as_str());
                            GroupOutcome::Fail(missing_error(lab, "-key=value".to_owned()))
                        },
                    },
                    None => {
                        let mut msg = "Flag '".to_owned();
                        push_str(&mut msg, flag.long_flag.as_str());
                        push_str(
                            &mut msg,
                            "' does not have a store type but an associated value was found: '",
                        );
                        push_str(&mut msg, s0.as_str());
                        push_str(&mut msg, "'");
                        GroupOutcome::Fail(generic_error(msg))
                    },
                }
            } else {
                match flag.store_type {
                    Some(StoreType::Value) => {
                        out.push((flag.long_flag.clone(), (index, Store::Value(sv))));
                        assert(parsed_list_view(out@) =~= o0.push(
                            parsed_view(out@[out@.len() - 1]),
                        ));
                        GroupOutcome::Next
                    },
                    Some(StoreType::KeyValue) => match kv_from_list(&sv) {
                        Ok(m) => {
                            out.push((flag.long_flag.clone(), (index, Store::KeyValue(m))));
                            assert(parsed_list_view(out@) =~= o0.push(
                                parsed_view(out@[out@.len() - 1]),
                            ));
                            GroupOutcome::Next
                        },
                        Err(bad) => {
                            let lab = label(sv[bad].as_str(), flag.long_flag.as_str());
                            GroupOutcome::Fail(missing_error(lab, "-key=value".to_owned()))
                        },
                    },
                    None => GroupOutcome::Next,
                }
            }
        },
    }
}

/// Handles grouped short flags: each character after the leading dash names
/// a flag; a storing flag may take the rest of the group after `=`, the next
/// argument, or the arguments after an end-of-flags marker.
pub fn parse_grouped_flags(
    arg: &str,
    cli_builder: &CliBuilder,
    next_arg: Option<&str>,
    detached_list_args: Option<&Vec<String>>,
) -> (r: Result<Vec<(String, (usize, Store))>, EshuError>)
    ensures
        match (
            r,
            grouped_spec(arg@, cli_builder@.flags, opt_view(next_arg), buf_view(detached_list_args)),
        ) {
            (Ok(v), Ok(w)) => parsed_list_view(v@) == w,
            (Err(x), Err(y)) => x@ == y,
            _ => false,
        },
{
    let ghost fs = cli_builder@.flags;
    let ghost nx = opt_view(next_arg);
    let ghost bf = buf_view(detached_list_args);
    let args = chars_of(arg);
    let n = args.len();
    let mut out: Vec<(String, (usize, Store))> = Vec::new();
    let mut k: usize = 0;
    assert(parsed_list_view(out@) =~= seq![]);
    while k < n
        invariant
            args@ == arg@,
            n == args@.len(),
            fs == cli_builder@.flags,
            nx == opt_view(next_arg),
            bf == buf_view(detached_list_args),
            k <= n,
            is_ascii_chars(args@.subrange(0, k as int)),
            grouped_spec(arg@, fs, nx, bf) == group_from(
                arg@,
                fs,
                nx,
                bf,
                k as int,
                parsed_list_view(out@),
            ),
        decreases n - k,
    {
        let c = args[k];
        if k == 0 && c == '-' {
            assert(args@.subrange(0, 1) =~= seq!['-']);
            k = 1;
        } else {
            match group_char_exec(cli_builder, &args, k, arg, next_arg, detached_list_args, &mut out) {
                GroupOutcome::Next => {
                    assert(args@.subrange(0, k + 1) =~= args@.subrange(0, k as int).push(c));
                    k += 1;
                },
                GroupOutcome::Done => {
                    return Ok(out);
                },
                GroupOutcome::Fail(e) => {
                    return Err(e);
                },
            }
        }
    }
    Ok(out)
}

} // verus!
