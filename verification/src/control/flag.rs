//! The flag definition.

use vstd::prelude::*;
use crate::control::builder::{fresh_flag, CliFlagBuilder};
use crate::control::{StoreSyntax, StoreType};
use crate::error::{builder_err, EshuError, EshuErrorKind, EshuResult, ErrView, KindView};
use crate::text::{char_is_ascii_alpha, chars_of, find_char, has_white, index_of, is_ascii_alpha};
use crate::utils::{contains_whitespace, dash_first, starts_with_dash};

verus! {

/// Defines a flag: its names, help texts and whether and how it stores arguments.
#[derive(Debug)]
pub struct CliFlag {
    pub(crate) flag_char: Option<char>,
    pub(crate) long_flag: String,
    pub(crate) short_about: String,
    pub(crate) long_about: String,
    pub(crate) required_store: bool,
    pub(crate) storing: bool,
    pub(crate) store_type: Option<StoreType>,
    pub(crate) store_syntax: Option<StoreSyntax>,
}

/// The mathematical value of a [`CliFlag`].
pub struct FlagView {
    pub flag_char: Option<char>,
    pub long_flag: Seq<char>,
    pub short_about: Seq<char>,
    pub long_about: Seq<char>,
    pub required_store: bool,
    pub storing: bool,
    pub store_type: Option<StoreType>,
    pub store_syntax: Option<StoreSyntax>,
}

impl View for CliFlag {
    type V = FlagView;

    closed spec fn view(&self) -> FlagView {
        FlagView {
            flag_char: self.flag_char,
            long_flag: self.long_flag@,
            short_about: self.short_about@,
            long_about: self.long_about@,
            required_store: self.required_store,
            storing: self.storing,
            store_type: self.store_type,
            store_syntax: self.store_syntax,
        }
    }
}

/// The view of a flag, field by field (for the crate's own modules).
pub(crate) broadcast proof fn lemma_flag_view(f: CliFlag)
    ensures
        #[trigger] f@ == (FlagView {
            flag_char: f.flag_char,
            long_flag: f.long_flag@,
            short_about: f.short_about@,
            long_about: f.long_about@,
            required_store: f.required_store,
            storing: f.storing,
            store_type: f.store_type,
            store_syntax: f.store_syntax,
        }),
{
}

impl Clone for CliFlag {
    fn clone(&self) -> (r: Self)
        ensures
            r == *self,
    {
        CliFlag {
            flag_char: self.flag_char,
            long_flag: self.long_flag.clone(),
            short_about: self.short_about.clone(),
            long_about: self.long_about.clone(),
            required_store: self.required_store,
            storing: self.storing,
            store_type: self.store_type,
            store_syntax: self.store_syntax,
        }
    }
}

/// What [`CliFlag::new_custom`] gives for the flag `f` it is asked to make.
pub open spec fn custom_flag(f: FlagView) -> Result<FlagView, ErrView> {
    if f.long_flag.len() == 0 {
        Err(builder_err(KindView::EmptyString("Flag name must not be empty"@)))
    } else if f.required_store && !f.storing {
        Err(builder_err(KindView::Storage("Flags that require arguments must accept them"@)))
    } else if f.flag_char is Some && !is_ascii_alpha(f.flag_char->0) {
        Err(builder_err(KindView::InvalidFlagName("Short flag must be a letter"@)))
    } else if dash_first(f.long_flag) {
        Err(
            builder_err(
                KindView::InvalidFlagName("Flag name must not start with a dash or double dash"@),
            ),
        )
    } else if has_white(f.long_flag) {
        Err(builder_err(KindView::InvalidFlagName("Flag name must not contain whitespace"@)))
    } else if index_of(f.short_about, '\n') >= 0 {
        Err(builder_err(KindView::Generic("Short about must not contain newlines"@)))
    } else if f.storing && (f.store_syntax is None || f.store_type is None) {
        Err(
            builder_err(
                KindView::Storage(
                    "Flags that accept arguments must have a store type, store kind and store syntax set"@,
                ),
            ),
        )
    } else {
        Ok(f)
    }
}

fn flag_error(kind: EshuErrorKind) -> (r: EshuError)
    ensures
        r@ == builder_err(kind@),
{
    EshuError::new("eshu::builder", kind)
}

impl CliFlag {
    /// Create a new flag using the builder.
    pub fn new(name: &str) -> (r: CliFlagBuilder)
        ensures
            r@ == fresh_flag(name@),
    {
        CliFlagBuilder::new(name)
    }

    /// Create a new custom flag, validating the parameters (the about texts may be empty).
    pub fn new_custom(
        flag_char: Option<char>,
        long_flag: String,
        short_about: String,
        long_about: String,
        required_store: bool,
        storing: bool,
        store_type: Option<StoreType>,
        store_syntax: Option<StoreSyntax>,
    ) -> (r: EshuResult<CliFlag>)
        ensures
            match (
                r,
                custom_flag(
                    FlagView {
                        flag_char,
                        long_flag: long_flag@,
                        short_about: short_about@,
                        long_about: long_about@,
                        required_store,
                        storing,
                        store_type,
                        store_syntax,
                    },
                ),
            ) {
                (Ok(f), Ok(v)) => f@ == v,
                (Err(e), Err(v)) => e@ == v,
                _ => false,
            },
    {
        if long_flag.as_str().is_empty() {
            return Err(flag_error(EshuErrorKind::EmptyString("Flag name must not be empty".to_owned())));
        }
        if required_store && !storing {
            return Err(
                flag_error(
                    EshuErrorKind::Storage("Flags that require arguments must accept them".to_owned()),
                ),
            );
        }
        if let Some(c) = flag_char {
            if !char_is_ascii_alpha(c) {
                return Err(
                    flag_error(EshuErrorKind::InvalidFlagName("Short flag must be a letter".to_owned())),
                );
            }
        }
        if starts_with_dash(long_flag.as_str()) {
            return Err(
                flag_error(
                    EshuErrorKind::InvalidFlagName(
                        "Flag name must not start with a dash or double dash".to_owned(),
                    ),
                ),
            );
        }
        if contains_whitespace(long_flag.as_str()) {
            return Err(
                flag_error(
                    EshuErrorKind::InvalidFlagName("Flag name must not contain whitespace".to_owned()),
                ),
            );
        }
        if find_char(&chars_of(short_about.as_str()), '\n').is_some() {
            return Err(
                flag_error(EshuErrorKind::Generic("Short about must not contain newlines".to_owned())),
            );
        }
        if storing && (store_syntax.is_none() || store_type.is_none()) {
            return Err(
                flag_error(
                    EshuErrorKind::Storage(
                        "Flags that accept arguments must have a store type, store kind and store syntax set".to_owned(),
                    ),
                ),
            );
        }
        Ok(
            CliFlag {
                flag_char,
                long_flag,
                short_about,
                long_about,
                required_store,
                storing,
                store_type,
                store_syntax,
            },
        )
    }

    /// A flag made of the given parts, as the builder of a CLI defines its own
    /// `help` and `version` flags.
    pub(crate) fn from_parts(
        flag_char: Option<char>,
        long_flag: &str,
        short_about: &str,
        long_about: &str,
    ) -> (r: CliFlag)
        ensures
            r@ == (FlagView {
                flag_char,
                long_flag: long_flag@,
                short_about: short_about@,
                long_about: long_about@,
                required_store: false,
                storing: false,
                store_type: None,
                store_syntax: None,
            }),
    {
        CliFlag {
            flag_char,
            long_flag: long_flag.to_owned(),
            short_about: short_about.to_owned(),
            long_about: long_about.to_owned(),
            required_store: false,
            storing: false,
            store_type: None,
            store_syntax: None,
        }
    }
}

/// A custom flag is made only for a usable long name: one that is not empty,
/// does not start with a dash and holds no whitespace; the flag made is the
/// one asked for.
pub proof fn law_custom_flag_name(f: FlagView)
    ensures
        custom_flag(f) matches Ok(g) ==> g == f && f.long_flag.len() > 0 && !dash_first(
            f.long_flag,
        ) && !has_white(f.long_flag),
        has_white(f.long_flag) || f.long_flag.len() == 0 || dash_first(f.long_flag) ==> custom_flag(
            f,
        ) is Err,
{
}

} // verus!
