//! The help text: a terminal writer that keeps track of the column, pads to
//! indentation levels and wraps words at the terminal's width.

use vstd::prelude::*;
use crate::cli::{Cli, CliView};
use crate::control::cmd::lemma_cmd_view;
use crate::control::flag::lemma_flag_view;
use crate::control::{CliCmd, CliFlag, CmdView, FlagView, StoreSyntax, StoreType};
use crate::error::strs_view;
use crate::text::{chars_of, lines, lines_of, push_char, split_whitespace, words_of};

verus! {

broadcast use {lemma_cmd_view, lemma_flag_view};

/// The version of this library, named in the footer of every help text.
pub const ESHU_VERSION: &'static str = "0.1.0";

/// Where to learn more about this library, named in the footer of every help text.
pub const ESHU_HOMEPAGE: &'static str = "https://github.com/xqhare/eshu";

/// `x`, saturated at `usize::MAX`.
pub open spec fn sat(x: int) -> int {
    if x > usize::MAX {
        usize::MAX as int
    } else {
        x
    }
}

/// The indentation per level for a terminal `max_width` columns wide: a third
/// of the width, but at least 20 and at most 40.
pub open spec fn indent_amount(max_width: int) -> int {
    let third = max_width / 3;
    if third < 20 {
        20
    } else if third > 40 {
        40
    } else {
        third
    }
}

/// Indentation of the help text.
pub struct Indentation {
    /// The width of the terminal.
    pub max_width: usize,
    /// The amount of indentation per level.
    pub amount: usize,
}

impl Indentation {
    /// The indentation for a terminal `max_width` columns wide.
    pub fn new(max_width: usize) -> (r: Indentation)
        ensures
            r.max_width == max_width,
            r.amount == indent_amount(max_width as int),
    {
        let third = max_width / 3;
        let amount = if third < 20 {
            20
        } else if third > 40 {
            40
        } else {
            third
        };
        Indentation { max_width, amount }
    }
}

/// The state of a [`TermWriter`]: what it wrote, its column, the terminal
/// width and the indentation per level.
pub struct WriterView {
    pub buffer: Seq<char>,
    pub col: int,
    pub max_width: int,
    pub amount: int,
}

/// The position of the last newline of `s`, or -1.
pub open spec fn last_nl(s: Seq<char>) -> int
    decreases s.len(),
{
    if s.len() == 0 {
        -1
    } else if s.last() == '\n' {
        s.len() - 1
    } else {
        last_nl(s.drop_last())
    }
}

/// Writing `s`: after a newline the column is the length of the text after
/// the last one, otherwise it grows by the length of `s`.
pub open spec fn w_push(w: WriterView, s: Seq<char>) -> WriterView {
    WriterView {
        buffer: w.buffer + s,
        col: if last_nl(s) >= 0 {
            s.len() - last_nl(s) - 1
        } else {
            sat(w.col + s.len())
        },
        ..w
    }
}

/// `n` spaces.
pub open spec fn spaces(n: int) -> Seq<char> {
    Seq::new(n as nat, |i: int| ' ')
}

/// Padding with spaces up to the column of indentation level `level`.
pub open spec fn w_pad(w: WriterView, level: int) -> WriterView {
    let target = sat(w.amount * level);
    let padding = if target > w.col {
        target - w.col
    } else {
        0
    };
    WriterView { buffer: w.buffer + spaces(padding), col: sat(w.col + padding), ..w }
}

/// Writing `s` `n` times.
pub open spec fn w_push_n(w: WriterView, s: Seq<char>, n: int) -> WriterView
    decreases n,
{
    if n <= 0 {
        w
    } else {
        w_push_n(w_push(w, s), s, n - 1)
    }
}

/// Dropping the last two characters written (the column stays).
pub open spec fn w_trunc(w: WriterView) -> WriterView {
    WriterView {
        buffer: w.buffer.subrange(
            0,
            if w.buffer.len() >= 2 {
                w.buffer.len() - 2
            } else {
                0
            },
        ),
        ..w
    }
}

/// Writing one word of a wrapped text: on a new line indented to `level` if
/// it would not fit in the width, otherwise after a space unless it starts
/// the line.
pub open spec fn w_word(w: WriterView, word: Seq<char>, level: int, line_start: bool) -> WriterView {
    let w1 = if sat(sat(w.col + word.len()) + 1) > w.max_width {
        w_pad(w_push(w, "\n"@), level)
    } else if !line_start {
        w_push(w, " "@)
    } else {
        w
    };
    w_push(w1, word)
}

/// Writing the words of a line.
pub open spec fn w_words(w: WriterView, words: Seq<Seq<char>>, level: int, line_start: bool) -> WriterView
    decreases words.len(),
{
    if words.len() == 0 {
        w
    } else {
        w_words(w_word(w, words[0], level, line_start), words.drop_first(), level, false)
    }
}

/// Writing wrapped lines; each ends with a newline and the indentation of `level`.
pub open spec fn w_lines(w: WriterView, ls: Seq<Seq<char>>, level: int) -> WriterView
    decreases ls.len(),
{
    if ls.len() == 0 {
        w
    } else {
        w_lines(
            w_pad(w_push(w_words(w, words_of(ls[0]), level, true), "\n"@), level),
            ls.drop_first(),
            level,
        )
    }
}

/// Writing `text` wrapped at the width and indented to `level`.
pub open spec fn w_wrap(w: WriterView, text: Seq<char>, level: int) -> WriterView {
    w_lines(w, lines_of(text), level)
}

/// The column after writing `b`: the number of characters after its last newline.
pub open spec fn col_of(b: Seq<char>) -> int {
    b.len() - last_nl(b) - 1
}

proof fn lemma_last_nl_concat(b: Seq<char>, s: Seq<char>)
    ensures
        last_nl(b + s) == if last_nl(s) >= 0 {
            b.len() + last_nl(s)
        } else {
            last_nl(b)
        },
    decreases s.len(),
{
    if s.len() == 0 {
        assert(b + s =~= b);
    } else {
        assert((b + s).drop_last() =~= b + s.drop_last());
        lemma_last_nl_concat(b, s.drop_last());
    }
}

proof fn lemma_last_nl_bounds(b: Seq<char>)
    ensures
        -1 <= last_nl(b) < b.len(),
    decreases b.len(),
{
    if b.len() > 0 {
        lemma_last_nl_bounds(b.drop_last());
    }
}

proof fn lemma_no_nl_in_spaces(n: int)
    requires
        n >= 0,
    ensures
        last_nl(spaces(n)) == -1,
    decreases n,
{
    if n > 0 {
        assert(spaces(n).drop_last() =~= spaces(n - 1));
        lemma_no_nl_in_spaces(n - 1);
    }
}

/// The writer keeps its column right: writing text or padding leaves it at
/// the number of characters after the last newline written, as long as the
/// amounts stay within `usize`.
pub proof fn law_column_tracks_line(w: WriterView, s: Seq<char>, level: int)
    requires
        w.col == col_of(w.buffer),
        w.buffer.len() + s.len() <= usize::MAX,
        w.buffer.len() + sat(w.amount * level) <= usize::MAX,
    ensures
        w_push(w, s).col == col_of(w_push(w, s).buffer),
        w_pad(w, level).col == col_of(w_pad(w, level).buffer),
{
    lemma_last_nl_bounds(w.buffer);
    lemma_last_nl_bounds(s);
    lemma_last_nl_concat(w.buffer, s);
    let target = sat(w.amount * level);
    let padding = if target > w.col {
        target - w.col
    } else {
        0
    };
    lemma_no_nl_in_spaces(padding);
    lemma_last_nl_concat(w.buffer, spaces(padding));
}

/// Writes text to a buffer for a terminal, keeping track of the column.
pub struct TermWriter {
    /// The text written so far.
    pub buffer: String,
    current_col: usize,
    indent: Indentation,
}

impl View for TermWriter {
    type V = WriterView;

    closed spec fn view(&self) -> WriterView {
        WriterView {
            buffer: self.buffer@,
            col: self.current_col as int,
            max_width: self.indent.max_width as int,
            amount: self.indent.amount as int,
        }
    }
}

/// `a * b`, saturated at `usize::MAX`.
fn saturating_mul(a: usize, b: usize) -> (r: usize)
    ensures
        r == sat(a * b),
{
    if b == 0 {
        assert(a * b == 0) by (nonlinear_arith)
            requires
                b == 0,
        ;
        0
    } else if a > usize::MAX / b {
        assert(a * b > usize::MAX) by (nonlinear_arith)
            requires
                b > 0,
                a > usize::MAX / b,
        ;
        usize::MAX
    } else {
        assert(a * b <= usize::MAX) by (nonlinear_arith)
            requires
                b > 0,
                a <= usize::MAX / b,
        ;
        a * b
    }
}

impl TermWriter {
    /// A writer for a terminal `max_width` columns wide, with nothing written.
    pub fn new(max_width: usize) -> (r: TermWriter)
        ensures
            r@ == (WriterView {
                buffer: seq![],
                col: 0,
                max_width: max_width as int,
                amount: indent_amount(max_width as int),
            }),
    {
        TermWriter { buffer: String::new(), current_col: 0, indent: Indentation::new(max_width) }
    }

    /// Pushes text and updates the column: where the column counted the
    /// characters after the last newline of the buffer, it still does.
    pub fn push_str(&mut self, s: &str)
        ensures
            final(self)@ == w_push(old(self)@, s@),
            old(self)@.col == col_of(old(self)@.buffer) && old(self)@.buffer.len() + s@.len()
                <= usize::MAX ==> final(self)@.col == col_of(final(self)@.buffer),
    {
        let ghost w0 = self@;
        proof {
            if w0.col == col_of(w0.buffer) && w0.buffer.len() + s@.len() <= usize::MAX {
                law_column_tracks_line(w0, s@, 0);
            }
        }
        crate::text::push_str(&mut self.buffer, s);
        let cs = chars_of(s);
        let mut k = cs.len();
        let mut found = false;
        assert(cs@.subrange(0, k as int) =~= s@);
        while k > 0 && !found
            invariant
                cs@ == s@,
                k <= cs@.len(),
                !found ==> last_nl(s@) == last_nl(cs@.subrange(0, k as int)),
                found ==> last_nl(s@) == k as int && k < cs@.len(),
            decreases k + (if found { 0int } else { 1int }),
        {
            let ghost pre = cs@.subrange(0, k as int);
            if cs[k - 1] == '\n' {
                found = true;
                k = k - 1;
            } else {
                assert(pre.drop_last() =~= cs@.subrange(0, k - 1));
                k = k - 1;
            }
        }
        if found {
            self.current_col = cs.len() - k - 1;
        } else {
            assert(cs@.subrange(0, 0) =~= Seq::<char>::empty());
            self.current_col = self.current_col.saturating_add(cs.len());
        }
    }

    /// Pads the current line with spaces up to the column of `target_level`;
    /// where the column counted the characters after the last newline of the
    /// buffer, it still does.
    pub fn pad_to_column(&mut self, target_level: usize)
        ensures
            final(self)@ == w_pad(old(self)@, target_level as int),
            old(self)@.col == col_of(old(self)@.buffer) && old(self)@.buffer.len() + sat(
                old(self)@.amount * target_level,
            ) <= usize::MAX ==> final(self)@.col == col_of(final(self)@.buffer),
    {
        let ghost w0 = self@;
        proof {
            if w0.col == col_of(w0.buffer) && w0.buffer.len() + sat(w0.amount * target_level)
                <= usize::MAX {
                law_column_tracks_line(w0, seq![], target_level as int);
            }
        }
        let target = saturating_mul(self.indent.amount, target_level);
        let padding_needed = target.saturating_sub(self.current_col);
        let ghost b0 = self.buffer@;
        let ghost c0 = self.current_col;
        let ghost mw = self.indent.max_width;
        let ghost am = self.indent.amount;
        let mut i: usize = 0;
        while i < padding_needed
            invariant
                i <= padding_needed,
                self.current_col == c0,
                self.indent.max_width == mw,
                self.indent.amount == am,
                self.buffer@ == b0 + spaces(i as int),
            decreases padding_needed - i,
        {
            push_char(&mut self.buffer, ' ');
            assert(spaces(i as int).push(' ') =~= spaces(i + 1));
            i += 1;
        }
        self.current_col = self.current_col.saturating_add(padding_needed);
    }

    /// Writes `text` word by word, wrapping at the terminal's width and
    /// indenting wrapped and following lines to `target_level`.
    pub fn wrap_text(&mut self, text: &str, target_level: usize)
        ensures
            final(self)@ == w_wrap(old(self)@, text@, target_level as int),
    {
        let ls = lines(text);
        let ghost lv = strs_view(ls@);
        let ghost w0 = self@;
        let ghost level = target_level as int;
        let mut i: usize = 0;
        assert(lv.subrange(0, lv.len() as int) =~= lv);
        while i < ls.len()
            invariant
                lv == strs_view(ls@),
                lv == lines_of(text@),
                i <= ls@.len(),
                level == target_level as int,
                w_wrap(w0, text@, level) == w_lines(self@, lv.subrange(i as int, lv.len() as int), level),
            decreases ls@.len() - i,
        {
            let ghost rest = lv.subrange(i as int, lv.len() as int);
            assert(rest.drop_first() =~= lv.subrange(i + 1, lv.len() as int));
            let words = split_whitespace(ls[i].as_str());
            let ghost wv = strs_view(words@);
            let ghost start = self@;
            let mut line_start = true;
            let mut j: usize = 0;
            assert(wv.subrange(0, wv.len() as int) =~= wv);
            while j < words.len()
                invariant
                    wv == strs_view(words@),
                    rest.len() > 0,
                    wv == words_of(rest[0]),
                    level == target_level as int,
                    j <= words@.len(),
                    line_start == (j == 0),
                    w_words(start, wv, level, true) == w_words(
                        self@,
                        wv.subrange(j as int, wv.len() as int),
                        level,
                        line_start,
                    ),
                decreases words@.len() - j,
            {
                let ghost wrest = wv.subrange(j as int, wv.len() as int);
                assert(wrest.drop_first() =~= wv.subrange(j + 1, wv.len() as int));
                let word = words[j].as_str();
                let word_len = word.unicode_len();
                if self.current_col.saturating_add(word_len).saturating_add(1) > self.indent.max_width {
                    self.push_str("\n");
                    self.pad_to_column(target_level);
                } else if !line_start {
                    self.push_str(" ");
                }
                self.push_str(word);
                line_start = false;
                j += 1;
            }
            self.push_str("\n");
            self.pad_to_column(target_level);
            i += 1;
        }
    }
}

/// The store part of a flag's usage: `=VALUE`, `[=VALUE]`, ` VALUE` or
/// ` [VALUE]` (with `KEY=VALUE` for key-value flags), or nothing.
pub open spec fn store_suffix(f: FlagView) -> Seq<char> {
    if f.storing {
        let v = match f.store_type {
            Some(StoreType::KeyValue) => "KEY=VALUE"@,
            _ => "VALUE"@,
        };
        match f.store_syntax {
            Some(StoreSyntax::Attached) => if f.required_store {
                "="@ + v
            } else {
                "[="@ + v + "]"@
            },
            Some(StoreSyntax::Detached) => if f.required_store {
                " "@ + v
            } else {
                " ["@ + v + "]"@
            },
            None => seq![],
        }
    } else {
        seq![]
    }
}

/// A value that a flag may leave out is shown in square brackets in the help
/// text: the usage part of a storing flag whose value is optional starts with
/// `[` (after the space of a detached value) and ends with `]`, while that of
/// the same flag requiring its value holds no bracket at all.
pub proof fn law_optional_value_bracketed(f: FlagView)
    requires
        f.storing,
        f.store_syntax is Some,
    ensures
        !f.required_store ==> {
            let s = store_suffix(f);
            &&& s.len() > 2
            &&& s[0] == '[' || (s[0] == ' ' && s[1] == '[')
            &&& s.last() == ']'
        },
        forall|i: int|
            0 <= i < store_suffix(FlagView { required_store: true, ..f }).len() ==> #[trigger] store_suffix(
                FlagView { required_store: true, ..f },
            )[i] != '[' && store_suffix(FlagView { required_store: true, ..f })[i] != ']',
        store_suffix(f) != store_suffix(FlagView { required_store: !f.required_store, ..f }),
{
    reveal_strlit("KEY=VALUE");
    reveal_strlit("VALUE");
    reveal_strlit("=");
    reveal_strlit("[=");
    reveal_strlit("]");
    reveal_strlit(" ");
    reveal_strlit(" [");
    let r = FlagView { required_store: true, ..f };
    let o = FlagView { required_store: false, ..f };
    assert(store_suffix(o).last() == ']');
    assert(store_suffix(r).len() == 0 || store_suffix(r).last() != ']');
}

/// The usage of a flag: its short form (or spaces) and its long form, each
/// with the store part.
pub open spec fn h_flag_syntax(w: WriterView, f: FlagView) -> WriterView {
    let suffix = store_suffix(f);
    let w1 = match f.flag_char {
        Some(c) => w_push(w_push(w_push(w_push(w, "-"@), seq![c]), suffix), " "@),
        None => w_push(w_push_n(w_push(w_push(w, " "@), " "@), " "@, suffix.len() as int), " "@),
    };
    w_push(w_push(w_push(w1, "--"@), f.long_flag), suffix)
}

/// A flag in the help text: its names, usage and descriptions in columns.
pub open spec fn h_flag(w: WriterView, f: FlagView) -> WriterView {
    let w1 = w_push(w, " "@);
    let w2 = match f.flag_char {
        Some(c) => w_push(w1, seq!['-', c]),
        None => w_push(w_push(w1, " "@), " "@),
    };
    let w3 = w_push(w_pad(w2, 1), "--"@ + f.long_flag);
    let w4 = h_flag_syntax(w_push(w_pad(w3, 2), "Usage: "@), f);
    let w5 = w_push(w_wrap(w_pad(w4, 3), f.short_about, 3), "\n"@);
    if f.long_flag.len() > 0 {
        w_push(w_wrap(w_pad(w5, 3), f.long_about, 3), "\n"@)
    } else {
        w5
    }
}

/// Flags `i..` of a list, each followed by a blank line.
pub open spec fn h_flags(w: WriterView, fs: Seq<FlagView>, i: int) -> WriterView
    decreases fs.len() - i,
{
    if i < 0 || i >= fs.len() {
        w
    } else {
        h_flags(w_push(h_flag(w, fs[i]), "\n\n"@), fs, i + 1)
    }
}

/// A subcommand in the help text, with its flags and its own subcommands.
pub open spec fn h_cmd(w: WriterView, c: CmdView) -> WriterView
    decreases c, 1int, 0int,
{
    let w1 = w_wrap(
        w_pad(w_push(w_push(w, " "@), c.name), 1),
        c.short_about + "\n"@ + c.long_about,
        1,
    );
    let w2 = w_push(w1, "\n"@);
    let w3 = if c.flags.len() > 0 {
        w_trunc(
            h_flags(
                w_push(w_push(w2, "All available flags for this command:"@), "\n\n"@),
                c.flags,
                0,
            ),
        )
    } else {
        w2
    };
    let w4 = if c.subcommands.len() > 0 {
        let w3a = if c.flags.len() > 0 {
            w_push(w_push(w3, "\n\n"@), "\n\n"@)
        } else {
            w3
        };
        w_trunc(
            h_sub_cmds(
                w_push(w_push(w3a, "All available sub-commands for this command:"@), "\n\n"@),
                c,
                0,
            ),
        )
    } else {
        w3
    };
    w_push(w4, "\n"@)
}

/// Subcommands `i..` of `c`, each followed by a blank line.
pub open spec fn h_sub_cmds(w: WriterView, c: CmdView, i: int) -> WriterView
    decreases c, 0int, c.subcommands.len() - i,
{
    if i < 0 || i >= c.subcommands.len() {
        w
    } else {
        h_sub_cmds(w_push(h_cmd(w, c.subcommands[i]), "\n\n"@), c, i + 1)
    }
}

/// Commands `i..` of a list, each followed by a blank line.
pub open spec fn h_cmds(w: WriterView, cs: Seq<CmdView>, i: int) -> WriterView
    decreases cs.len() - i,
{
    if i < 0 || i >= cs.len() {
        w
    } else {
        h_cmds(w_push(h_cmd(w, cs[i]), "\n\n"@), cs, i + 1)
    }
}

/// The head of the help text: the name and the version.
pub open spec fn h_header(w: WriterView, c: CliView) -> WriterView {
    w_push(w_push(w_push(w_push(w, c.name), "\n"@), "Version: "@ + c.version), "\n\n"@)
}

/// The body of the help text: the about text, the flags and the commands.
pub open spec fn h_body(w: WriterView, c: CliView) -> WriterView {
    let w1 = w_push(w_push(w, c.about), "\n\n"@);
    let w2 = if c.flags.len() > 0 {
        w_trunc(h_flags(w_push(w_push(w1, "All available flags:"@), "\n\n"@), c.flags, 0))
    } else {
        w1
    };
    let w3 = if c.sub_commands.len() > 0 {
        let w2a = if c.flags.len() > 0 {
            w_push(w_push(w2, "\n\n"@), "\n\n"@)
        } else {
            w2
        };
        w_trunc(
            h_cmds(w_push(w_push(w2a, "All available commands:"@), "\n\n"@), c.sub_commands, 0),
        )
    } else {
        w2
    };
    w_push(w3, "\n\n"@)
}

/// The footer of every help text.
pub open spec fn footer_text() -> Seq<char> {
    "This CLI experience is provided by Eshu, version "@ + ESHU_VERSION@
        + ".\nFor more information, visit "@ + ESHU_HOMEPAGE@
}

/// The help text of an interface for a terminal `max_width` columns wide.
pub open spec fn help_text(c: CliView, max_width: int) -> Seq<char> {
    let w0 = WriterView {
        buffer: seq![],
        col: 0,
        max_width,
        amount: indent_amount(max_width),
    };
    w_wrap(h_body(h_header(w0, c), c), footer_text(), 0).buffer
}

fn make_flag_syntax(flag: &CliFlag, out: &mut TermWriter)
    ensures
        final(out)@ == h_flag_syntax(old(out)@, flag@),
{
    let mut suffix = String::new();
    if flag.storing {
        let val_str = match flag.store_type {
            Some(StoreType::KeyValue) => "KEY=VALUE",
            _ => "VALUE",
        };
        match flag.store_syntax {
            Some(StoreSyntax::Attached) => {
                if flag.required_store {
                    crate::text::push_str(&mut suffix, "=");
                    crate::text::push_str(&mut suffix, val_str);
                } else {
                    crate::text::push_str(&mut suffix, "[=");
                    crate::text::push_str(&mut suffix, val_str);
                    crate::text::push_str(&mut suffix, "]");
                }
            },
            Some(StoreSyntax::Detached) => {
                if flag.required_store {
                    crate::text::push_str(&mut suffix, " ");
                    crate::text::push_str(&mut suffix, val_str);
                } else {
                    crate::text::push_str(&mut suffix, " [");
                    crate::text::push_str(&mut suffix, val_str);
                    crate::text::push_str(&mut suffix, "]");
                }
            },
            None => {},
        }
    }
    assert(suffix@ =~= store_suffix(flag@));
    match flag.flag_char {
        Some(c) => {
            out.push_str("-");
            let mut cs = String::new();
            push_char(&mut cs, c);
            assert(cs@ =~= seq![c]);
            out.push_str(cs.as_str());
            out.push_str(suffix.as_str());
            out.push_str(" ");
        },
        None => {
            out.push_str(" ");
            out.push_str(" ");
            let n = suffix.unicode_len();
            let ghost w0 = out@;
            let mut i: usize = 0;
            while i < n
                invariant
                    i <= n,
                    w_push_n(w0, " "@, n as int) == w_push_n(out@, " "@, n - i),
                decreases n - i,
            {
                out.push_str(" ");
                i += 1;
            }
            out.push_str(" ");
        },
    }
    out.push_str("--");
    out.push_str(flag.long_flag.as_str());
    out.push_str(suffix.as_str());
}

fn make_flag(flag: &CliFlag, out: &mut TermWriter)
    ensures
        final(out)@ == h_flag(old(out)@, flag@),
{
    out.push_str(" ");
    match flag.flag_char {
        Some(c) => {
            let mut s = String::new();
            push_char(&mut s, '-');
            push_char(&mut s, c);
            assert(s@ =~= seq!['-', c]);
            out.push_str(s.as_str());
        },
        None => {
            out.push_str(" ");
            out.push_str(" ");
        },
    }
    out.pad_to_column(1);
    let mut long = String::new();
    crate::text::push_str(&mut long, "--");
    crate::text::push_str(&mut long, flag.long_flag.as_str());
    out.push_str(long.as_str());
    out.pad_to_column(2);
    out.push_str("Usage: ");
    make_flag_syntax(flag, out);
    out.pad_to_column(3);
    out.wrap_text(flag.short_about.as_str(), 3);
    out.push_str("\n");
    if flag.long_flag.unicode_len() > 0 {
        out.pad_to_column(3);
        out.wrap_text(flag.long_about.as_str(), 3);
        out.push_str("\n");
    }
}

/// Drops the last two characters written.
fn truncate_two(out: &mut TermWriter)
    ensures
        final(out)@ == w_trunc(old(out)@),
{
    let cs = chars_of(out.buffer.as_str());
    let n = cs.len();
    let keep = if n >= 2 {
        n - 2
    } else {
        0
    };
    out.buffer = crate::text::string_from_chars(&cs, 0, keep);
}

fn make_flags(flags: &Vec<CliFlag>, out: &mut TermWriter)
    ensures
        final(out)@ == h_flags(old(out)@, crate::control::cmd::flags_view(flags@), 0),
{
    let ghost fs = crate::control::cmd::flags_view(flags@);
    let ghost w0 = out@;
    let mut i: usize = 0;
    while i < flags.len()
        invariant
            fs == crate::control::cmd::flags_view(flags@),
            i <= flags@.len(),
            h_flags(w0, fs, 0) == h_flags(out@, fs, i as int),
        decreases flags@.len() - i,
    {
        make_flag(&flags[i], out);
        out.push_str("\n\n");
        i += 1;
    }
}

fn make_subcmd(cmd: &CliCmd, out: &mut TermWriter)
    ensures
        final(out)@ == h_cmd(old(out)@, cmd@),
    decreases cmd, 1int,
{
    let ghost c = cmd@;
    out.push_str(" ");
    out.push_str(cmd.name.as_str());
    out.pad_to_column(1);
    let mut about = cmd.short_about.clone();
    crate::text::push_str(&mut about, "\n");
    crate::text::push_str(&mut about, cmd.long_about.as_str());
    out.wrap_text(about.as_str(), 1);
    out.push_str("\n");
    let has_flags = cmd.flags.len() > 0;
    if has_flags {
        out.push_str("All available flags for this command:");
        out.push_str("\n\n");
        make_flags(&cmd.flags, out);
        truncate_two(out);
    }
    if cmd.subcommands.len() > 0 {
        if has_flags {
            out.push_str("\n\n");
            out.push_str("\n\n");
        }
        out.push_str("All available sub-commands for this command:");
        out.push_str("\n\n");
        let ghost w0 = out@;
        let mut i: usize = 0;
        while i < cmd.subcommands.len()
            invariant
                c == cmd@,
                i <= cmd.subcommands@.len(),
                h_sub_cmds(w0, c, 0) == h_sub_cmds(out@, c, i as int),
            decreases cmd.subcommands@.len() - i,
        {
            assert(cmd.subcommands@[i as int]@ == c.subcommands[i as int]);
            make_subcmd(&cmd.subcommands[i], out);
            out.push_str("\n\n");
            i += 1;
        }
        truncate_two(out);
    }
    out.push_str("\n");
}

fn make_header(cli: &Cli, out: &mut TermWriter)
    ensures
        final(out)@ == h_header(old(out)@, cli@),
{
    out.push_str(cli.name.as_str());
    out.push_str("\n");
    let mut v = String::new();
    crate::text::push_str(&mut v, "Version: ");
    crate::text::push_str(&mut v, cli.version.as_str());
    out.push_str(v.as_str());
    out.push_str("\n\n");
}

fn make_body(cli: &Cli, out: &mut TermWriter)
    ensures
        final(out)@ == h_body(old(out)@, cli@),
{
    let ghost c = cli@;
    out.push_str(cli.about.as_str());
    out.push_str("\n\n");
    let has_flags = cli.flags.len() > 0;
    if has_flags {
        out.push_str("All available flags:");
        out.push_str("\n\n");
        make_flags(&cli.flags, out);
        truncate_two(out);
    }
    if cli.sub_commands.len() > 0 {
        if has_flags {
            out.push_str("\n\n");
            out.push_str("\n\n");
        }
        out.push_str("All available commands:");
        out.push_str("\n\n");
        let ghost w0 = out@;
        let mut i: usize = 0;
        while i < cli.sub_commands.len()
            invariant
                c == cli@,
                i <= cli.sub_commands@.len(),
                h_cmds(w0, c.sub_commands, 0) == h_cmds(out@, c.sub_commands, i as int),
            decreases cli.sub_commands@.len() - i,
        {
            make_subcmd(&cli.sub_commands[i], out);
            out.push_str("\n\n");
            i += 1;
        }
        truncate_two(out);
    }
    out.push_str("\n\n");
}

fn make_footer(out: &mut TermWriter)
    ensures
        final(out)@ == w_wrap(old(out)@, footer_text(), 0),
{
    let mut text = String::new();
    crate::text::push_str(&mut text, "This CLI experience is provided by Eshu, version ");
    crate::text::push_str(&mut text, ESHU_VERSION);
    crate::text::push_str(&mut text, ".\nFor more information, visit ");
    crate::text::push_str(&mut text, ESHU_HOMEPAGE);
    out.wrap_text(text.as_str(), 0);
}

/// The help text of an interface, laid out for a terminal `max_width`
/// columns wide.
pub fn help(cli: &Cli, max_width: usize) -> (r: String)
    ensures
        r@ == help_text(cli@, max_width as int),
{
    let mut out = TermWriter::new(max_width);
    make_header(cli, &mut out);
    make_body(cli, &mut out);
    make_footer(&mut out);
    out.buffer
}

} // verus!
