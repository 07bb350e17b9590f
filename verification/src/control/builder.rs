//! The builder of a [`CliFlag`].

use vstd::prelude::*;
use crate::control::flag::lemma_flag_view;
use crate::control::{CliFlag, FlagView, StoreSyntax, StoreType};
use crate::error::{builder_err, EshuError, EshuErrorKind, EshuResult, ErrView, KindView};
use crate::text::{has_prefix, has_white, is_ascii_alpha, is_white, char_is_ascii_alpha, push_str};
use crate::utils::{contains_whitespace, dash_first, starts_with_dash};

verus! {

broadcast use lemma_flag_view;

/// Builder for a [`CliFlag`]; consider calling it through `CliFlag::new`.
#[derive(Debug)]
pub struct CliFlagBuilder {
    flag_char: Option<char>,
    long_flag: String,
    short_about: String,
    long_about: String,
    required_store: bool,
    storing: bool,
    store_type: Option<StoreType>,
    store_syntax: Option<StoreSyntax>,
}

impl View for CliFlagBuilder {
    type V = FlagView;

    /// The flag as configured so far, not yet validated.
    closed spec fn view(&self) -> FlagView {
        FlagView {
            flag_char: self.flag_char,
            long_flag: self.long_flag@,
            short_about: self.short_about@,
            long_about: self.long_about@,
            required_store: self.required_store,
            storing: self.storing,
            store_type: self.store_type,
            store_syntax: self.store_syntax,
        }
    }
}

/// A fresh builder for a flag named `name`.
pub open spec fn fresh_flag(name: Seq<char>) -> FlagView {
    FlagView {
        flag_char: None,
        long_flag: name,
        short_about: seq![],
        long_about: seq![],
        required_store: false,
        storing: false,
        store_type: None,
        store_syntax: None,
    }
}

/// `--`
pub open spec fn double_dash() -> Seq<char> {
    seq!['-', '-']
}

/// What [`CliFlagBuilder::build`] gives for a configured flag `b`.
pub open spec fn build_flag(b: FlagView) -> Result<FlagView, ErrView> {
    if b.required_store && !b.storing {
        Err(builder_err(KindView::Storage("Flags that require arguments must accept them"@)))
    } else if b.flag_char is Some && !is_ascii_alpha(b.flag_char->0) {
        Err(builder_err(KindView::InvalidFlagName("Flag must be a letter"@)))
    } else if b.long_flag.len() == 0 {
        Err(builder_err(KindView::EmptyString("Flag name must not be empty"@)))
    } else if dash_first(b.long_flag) && !has_prefix(b.long_flag, double_dash()) {
        Err(
            builder_err(
                KindView::InvalidFlagName(
                    "Flag name must not start with a dash. Got: "@ + b.long_flag,
                ),
            ),
        )
    } else {
        let name = if dash_first(b.long_flag) {
            b.long_flag.subrange(2, b.long_flag.len() as int)
        } else {
            b.long_flag
        };
        if name.len() == 0 {
            Err(builder_err(KindView::EmptyString("Flag name must not be empty"@)))
        } else if dash_first(name) {
            Err(
                builder_err(
                    KindView::InvalidFlagName(
                        "Flag name must not start with a dash. Got: "@ + b.long_flag,
                    ),
                ),
            )
        } else if has_white(name) {
            Err(builder_err(KindView::InvalidFlagName("Flag name must not contain whitespace"@)))
        } else if b.short_about.len() == 0 || b.long_about.len() == 0 {
            Err(builder_err(KindView::EmptyString("Short and long about must not be empty"@)))
        } else if b.storing && (b.store_syntax is None || b.store_type is None) {
            Err(
                builder_err(
                    KindView::Storage(
                        "Flags that accept arguments must have a store type, store kind and store syntax set"@,
                    ),
                ),
            )
        } else {
            Ok(FlagView { long_flag: name, ..b })
        }
    }
}

fn builder_error(kind: EshuErrorKind) -> (r: EshuError)
    ensures
        r@ == builder_err(kind@),
{
    EshuError::new("eshu::builder", kind)
}

fn text(s: &str) -> (r: String)
    ensures
        r@ == s@,
{
    s.to_owned()
}

impl CliFlagBuilder {
    /// Create a new flag using the builder; consider calling via `CliFlag::new`.
    pub fn new(name: &str) -> (r: CliFlagBuilder)
        ensures
            r@ == fresh_flag(name@),
    {
        CliFlagBuilder {
            flag_char: None,
            long_flag: text(name),
            short_about: String::new(),
            long_about: String::new(),
            required_store: false,
            storing: false,
            store_type: None,
            store_syntax: None,
        }
    }

    /// Add the optional short flag character, e.g. `-f`.
    pub fn with_flag_char(self, flag_char: char) -> (r: CliFlagBuilder)
        ensures
            r@ == (FlagView { flag_char: Some(flag_char), ..self@ }),
    {
        let mut b = self;
        b.flag_char = Some(flag_char);
        b
    }

    /// Change the long flag or name, e.g. `--flag-name`. Checked by `build`.
    pub fn change_long_flag(self, long_flag: &str) -> (r: CliFlagBuilder)
        ensures
            r@ == (FlagView { long_flag: long_flag@, ..self@ }),
    {
        let mut b = self;
        b.long_flag = text(long_flag);
        b
    }

    /// Change both about texts.
    pub fn with_about(self, short_about: &str, long_about: &str) -> (r: CliFlagBuilder)
        ensures
            r@ == (FlagView { short_about: short_about@, long_about: long_about@, ..self@ }),
    {
        let mut b = self;
        b.short_about = text(short_about);
        b.long_about = text(long_about);
        b
    }

    /// Change the short about text.
    pub fn with_short_about(self, short_about: &str) -> (r: CliFlagBuilder)
        ensures
            r@ == (FlagView { short_about: short_about@, ..self@ }),
    {
        let mut b = self;
        b.short_about = text(short_about);
        b
    }

    /// Change the long about text.
    pub fn with_long_about(self, long_about: &str) -> (r: CliFlagBuilder)
        ensures
            r@ == (FlagView { long_about: long_about@, ..self@ }),
    {
        let mut b = self;
        b.long_about = text(long_about);
        b
    }

    /// Mark the flag as storing required arguments of the given type and syntax.
    pub fn with_required_store(self, store_type: StoreType, store_syntax: StoreSyntax) -> (r:
        CliFlagBuilder)
        ensures
            r@ == (FlagView {
                storing: true,
                required_store: true,
                store_type: Some(store_type),
                store_syntax: Some(store_syntax),
                ..self@
            }),
    {
        let mut b = self;
        b.storing = true;
        b.required_store = true;
        b.store_type = Some(store_type);
        b.store_syntax = Some(store_syntax);
        b
    }

    /// Mark the flag as storing optional arguments of the given type and syntax.
    pub fn with_store(self, store_type: StoreType, store_syntax: StoreSyntax) -> (r:
        CliFlagBuilder)
        ensures
            r@ == (FlagView {
                storing: true,
                store_type: Some(store_type),
                store_syntax: Some(store_syntax),
                ..self@
            }),
    {
        let mut b = self;
        b.store_type = Some(store_type);
        b.store_syntax = Some(store_syntax);
        b.storing = true;
        b
    }

    /// Validate the configured flag and build it.
    pub fn build(self) -> (r: EshuResult<CliFlag>)
        ensures
            match (r, build_flag(self@)) {
                (Ok(f), Ok(v)) => f@ == v,
                (Err(e), Err(v)) => e@ == v,
                _ => false,
            },
    {
        let ghost v = self@;
        let mut b = self;
        proof {
            reveal_strlit("--");
            assert("--"@ =~= double_dash());
        }
        if b.required_store && !b.storing {
            return Err(
                builder_error(
                    EshuErrorKind::Storage(text("Flags that require arguments must accept them")),
                ),
            );
        }
        if let Some(c) = b.flag_char {
            if !char_is_ascii_alpha(c) {
                return Err(
                    builder_error(EshuErrorKind::InvalidFlagName(text("Flag must be a letter"))),
                );
            }
        }
        if b.long_flag.as_str().is_empty() {
            return Err(
                builder_error(EshuErrorKind::EmptyString(text("Flag name must not be empty"))),
            );
        }
        if starts_with_dash(b.long_flag.as_str()) {
            if crate::text::starts_with(b.long_flag.as_str(), "--") {
                let n = b.long_flag.unicode_len();
                let rest = b.long_flag.as_str().substring_char(2, n).to_owned();
                if rest.as_str().is_empty() {
                    return Err(
                        builder_error(EshuErrorKind::EmptyString(text("Flag name must not be empty"))),
                    );
                }
                if starts_with_dash(rest.as_str()) {
                    let mut msg = text("Flag name must not start with a dash. Got: ");
                    push_str(&mut msg, b.long_flag.as_str());
                    return Err(builder_error(EshuErrorKind::InvalidFlagName(msg)));
                }
                b.long_flag = rest;
            } else {
                let mut msg = text("Flag name must not start with a dash. Got: ");
                push_str(&mut msg, b.long_flag.as_str());
                return Err(builder_error(EshuErrorKind::InvalidFlagName(msg)));
            }
        }
        if contains_whitespace(b.long_flag.as_str()) {
            return Err(
                builder_error(
                    EshuErrorKind::InvalidFlagName(text("Flag name must not contain whitespace")),
                ),
            );
        }
        if b.short_about.as_str().is_empty() || b.long_about.as_str().is_empty() {
            return Err(
                builder_error(
                    EshuErrorKind::EmptyString(text("Short and long about must not be empty")),
                ),
            );
        }
        if b.storing && (b.store_syntax.is_none() || b.store_type.is_none()) {
            return Err(
                builder_error(
                    EshuErrorKind::Storage(
                        text(
                            "Flags that accept arguments must have a store type, store kind and store syntax set",
                        ),
                    ),
                ),
            );
        }
        Ok(
            CliFlag {
                flag_char: b.flag_char,
                long_flag: b.long_flag,
                short_about: b.short_about,
                long_about: b.long_about,
                required_store: b.required_store,
                storing: b.storing,
                store_type: b.store_type,
                store_syntax: b.store_syntax,
            },
        )
    }
}

/// A built flag has a usable long name: not empty, not starting with a dash
/// and without whitespace. A name given as `--name` loses its two dashes,
/// any other name is kept as given, and everything else of the flag is kept.
pub proof fn law_built_flag_name(b: FlagView)
    ensures
        build_flag(b) matches Ok(f) ==> {
            &&& f.long_flag.len() > 0
            &&& !dash_first(f.long_flag)
            &&& !has_white(f.long_flag)
            &&& (if dash_first(b.long_flag) {
                b.long_flag == double_dash() + f.long_flag
            } else {
                b.long_flag == f.long_flag
            })
            &&& f == FlagView { long_flag: f.long_flag, ..b }
        },
        has_white(b.long_flag) ==> build_flag(b) is Err,
{
    if let Ok(f) = build_flag(b) {
        if dash_first(b.long_flag) {
            assert(b.long_flag.subrange(0, 2) == double_dash());
            assert(b.long_flag =~= double_dash() + f.long_flag);
        }
    }
    if has_white(b.long_flag) && build_flag(b) is Ok {
        let i = choose|i: int| 0 <= i < b.long_flag.len() && is_white(#[trigger] b.long_flag[i]);
        let f = build_flag(b)->Ok_0;
        if dash_first(b.long_flag) {
            assert(b.long_flag.subrange(0, 2) == double_dash());
            if i < 2 {
                assert(b.long_flag[i] == '-');
            } else {
                assert(f.long_flag[i - 2] == b.long_flag[i]);
            }
        } else {
            assert(f.long_flag[i] == b.long_flag[i]);
        }
    }
}

} // verus!
