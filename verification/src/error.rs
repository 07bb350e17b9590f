//! The error values of the builder and the parser.

use vstd::prelude::*;
use crate::text::push_str;

verus! {

/// The structured leaf error type for builder and parser operations.
#[derive(Debug)]
pub enum EshuErrorKind {
    /// Generic or internal development error
    Generic(String),
    /// Configuration or storage syntax validation error
    Storage(String),
    /// An empty string was provided where a value was required
    EmptyString(String),
    /// Invalid character or format in a program or subcommand name
    InvalidName(String),
    /// Invalid character or format in a flag name or flag character
    InvalidFlagName(String),
    /// Two flags share a name or a short character
    Duplicate(String),
    /// Developer configuration error: no flags or subcommands registered on a non-basic CLI
    NoFlagsOrCommands,
    /// One or more unknown arguments were passed on the command line
    UnknownArgument(String),
    /// A flag requiring an argument was passed without one
    MissingArgument {
        /// The flag name (e.g., `--flag` or `-f`)
        flag: String,
        /// The expected syntax for the flag's argument
        expected_syntax: String,
    },
}

/// The mathematical value of an [`EshuErrorKind`].
pub enum KindView {
    Generic(Seq<char>),
    Storage(Seq<char>),
    EmptyString(Seq<char>),
    InvalidName(Seq<char>),
    InvalidFlagName(Seq<char>),
    Duplicate(Seq<char>),
    NoFlagsOrCommands,
    UnknownArgument(Seq<char>),
    MissingArgument { flag: Seq<char>, expected_syntax: Seq<char> },
}

impl View for EshuErrorKind {
    type V = KindView;

    open spec fn view(&self) -> KindView {
        match self {
            EshuErrorKind::Generic(m) => KindView::Generic(m@),
            EshuErrorKind::Storage(m) => KindView::Storage(m@),
            EshuErrorKind::EmptyString(m) => KindView::EmptyString(m@),
            EshuErrorKind::InvalidName(m) => KindView::InvalidName(m@),
            EshuErrorKind::InvalidFlagName(m) => KindView::InvalidFlagName(m@),
            EshuErrorKind::Duplicate(m) => KindView::Duplicate(m@),
            EshuErrorKind::NoFlagsOrCommands => KindView::NoFlagsOrCommands,
            EshuErrorKind::UnknownArgument(m) => KindView::UnknownArgument(m@),
            EshuErrorKind::MissingArgument { flag, expected_syntax } => KindView::MissingArgument {
                flag: flag@,
                expected_syntax: expected_syntax@,
            },
        }
    }
}

/// The human readable message of an error kind.
pub open spec fn kind_message(k: KindView) -> Seq<char> {
    match k {
        KindView::Generic(m) => m,
        KindView::Storage(m) => m,
        KindView::EmptyString(m) => m,
        KindView::InvalidName(m) => m,
        KindView::InvalidFlagName(m) => m,
        KindView::Duplicate(m) => m,
        KindView::NoFlagsOrCommands => "No flags or commands set, add at least one."@,
        KindView::UnknownArgument(a) => "Usage error: Unknown argument(s): "@ + a,
        KindView::MissingArgument { flag, expected_syntax } => "Usage error: Flag '"@ + flag
            + "' requires an argument. Please provide one via the following syntax: '"@
            + expected_syntax + "'"@,
    }
}

impl EshuErrorKind {
    /// The human readable message of this error kind.
    pub fn message(&self) -> (r: String)
        ensures
            r@ == kind_message(self@),
    {
        match self {
            EshuErrorKind::Generic(m) | EshuErrorKind::Storage(m) | EshuErrorKind::EmptyString(m)
            | EshuErrorKind::InvalidName(m) | EshuErrorKind::InvalidFlagName(m)
            | EshuErrorKind::Duplicate(m) => m.clone(),
            EshuErrorKind::NoFlagsOrCommands => {
                let mut s = String::new();
                push_str(&mut s, "No flags or commands set, add at least one.");
                s
            },
            EshuErrorKind::UnknownArgument(a) => {
                let mut s = String::new();
                push_str(&mut s, "Usage error: Unknown argument(s): ");
                push_str(&mut s, a.as_str());
                s
            },
            EshuErrorKind::MissingArgument { flag, expected_syntax } => {
                let mut s = String::new();
                push_str(&mut s, "Usage error: Flag '");
                push_str(&mut s, flag.as_str());
                push_str(
                    &mut s,
                    "' requires an argument. Please provide one via the following syntax: '",
                );
                push_str(&mut s, expected_syntax.as_str());
                push_str(&mut s, "'");
                s
            },
        }
    }
}

/// An error of the builder or the parser: where it arose, what it is, and the
/// context notes added while it travelled up from nested subcommands.
#[derive(Debug)]
pub struct EshuError {
    source: String,
    kind: EshuErrorKind,
    context: Vec<String>,
}

/// The mathematical value of an [`EshuError`].
pub struct ErrView {
    pub source: Seq<char>,
    pub kind: KindView,
    pub context: Seq<Seq<char>>,
}

/// The views of a sequence of strings.
pub open spec fn strs_view(v: Seq<String>) -> Seq<Seq<char>> {
    Seq::new(v.len(), |i: int| v[i]@)
}

/// Each note after a newline.
pub open spec fn notes_text(notes: Seq<Seq<char>>) -> Seq<char>
    decreases notes.len(),
{
    if notes.len() == 0 {
        seq![]
    } else {
        notes_text(notes.drop_last()) + ("\n"@ + notes.last())
    }
}

/// An error as one text: source, message, and the context notes.
pub open spec fn report_text(e: ErrView) -> Seq<char> {
    e.source + ": "@ + kind_message(e.kind) + notes_text(e.context)
}

/// The error raised by the builder module.
pub open spec fn builder_err(k: KindView) -> ErrView {
    ErrView { source: "eshu::builder"@, kind: k, context: seq![] }
}

/// The error raised by the parser module.
pub open spec fn parser_err(k: KindView) -> ErrView {
    ErrView { source: "eshu::parser"@, kind: k, context: seq![] }
}

impl View for EshuError {
    type V = ErrView;

    closed spec fn view(&self) -> ErrView {
        ErrView { source: self.source@, kind: self.kind@, context: strs_view(self.context@) }
    }
}

impl EshuError {
    /// A new error with no context notes.
    pub fn new(source: &str, kind: EshuErrorKind) -> (r: EshuError)
        ensures
            r@ == (ErrView { source: source@, kind: kind@, context: seq![] }),
    {
        let mut s = String::new();
        push_str(&mut s, source);
        let r = EshuError { source: s, kind, context: Vec::new() };
        assert(strs_view(r.context@) =~= seq![]);
        r
    }

    /// The module in which the error arose (`eshu::builder` or `eshu::parser`).
    pub fn source_name(&self) -> (r: &str)
        ensures
            r@ == self@.source,
    {
        self.source.as_str()
    }

    /// The leaf error.
    pub fn kind(&self) -> (r: &EshuErrorKind)
        ensures
            r@ == self@.kind,
    {
        &self.kind
    }

    /// The context notes, oldest first.
    pub fn context(&self) -> (r: &Vec<String>)
        ensures
            strs_view(r@) == self@.context,
    {
        &self.context
    }

    /// The error as one text: its source, a colon and its message, then each
    /// context note on a line of its own.
    pub fn report(&self) -> (r: String)
        ensures
            r@ == report_text(self@),
    {
        let mut s = self.source.clone();
        push_str(&mut s, ": ");
        let m = self.kind.message();
        push_str(&mut s, m.as_str());
        let ghost head = s@;
        let ghost ctx = strs_view(self.context@);
        let mut i: usize = 0;
        while i < self.context.len()
            invariant
                i <= self.context@.len(),
                ctx == strs_view(self.context@),
                s@ == head + notes_text(ctx.subrange(0, i as int)),
            decreases self.context@.len() - i,
        {
            let ghost s0 = s@;
            push_str(&mut s, "\n");
            push_str(&mut s, self.context[i].as_str());
            assert(ctx.subrange(0, i + 1).drop_last() =~= ctx.subrange(0, i as int));
            assert(s@ =~= s0 + ("\n"@ + ctx[i as int]));
            i += 1;
        }
        assert(ctx.subrange(0, ctx.len() as int) =~= ctx);
        s
    }

    /// The same error with one more context note.
    pub fn add_ctx(self, note: String) -> (r: EshuError)
        ensures
            r@ == (ErrView { context: self@.context.push(note@), ..self@ }),
    {
        let mut e = self;
        let ghost old_ctx = e.context@;
        e.context.push(note);
        assert(strs_view(e.context@) =~= strs_view(old_ctx).push(note@));
        e
    }
}

/// Crate-level result type.
pub type EshuResult<T> = Result<T, EshuError>;

} // verus!
