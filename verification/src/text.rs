//! Character-level helpers on strings, each with the exact meaning of the
//! corresponding `str` / `char` operation stated over `Seq<char>`.

use vstd::prelude::*;

verus! {

/// `char::is_ascii_alphabetic`
pub open spec fn is_ascii_alpha(c: char) -> bool {
    ('a' <= c && c <= 'z') || ('A' <= c && c <= 'Z')
}

/// `char::is_whitespace`: the Unicode `White_Space` property.
pub open spec fn is_white(c: char) -> bool {
    let u = c as u32;
    ||| u == 0x20
    ||| 0x09 <= u <= 0x0d
    ||| u == 0x85
    ||| u == 0xa0
    ||| u == 0x1680
    ||| 0x2000 <= u <= 0x200a
    ||| u == 0x2028
    ||| u == 0x2029
    ||| u == 0x202f
    ||| u == 0x205f
    ||| u == 0x3000
}

/// Executable `char::is_ascii_alphabetic`.
pub fn char_is_ascii_alpha(c: char) -> (r: bool)
    ensures
        r == is_ascii_alpha(c),
{
    ('a' <= c && c <= 'z') || ('A' <= c && c <= 'Z')
}

/// Executable `char::is_whitespace`.
pub fn char_is_white(c: char) -> (r: bool)
    ensures
        r == is_white(c),
{
    let u = c as u32;
    u == 0x20 || (0x09 <= u && u <= 0x0d) || u == 0x85 || u == 0xa0 || u == 0x1680 || (0x2000
        <= u && u <= 0x200a) || u == 0x2028 || u == 0x2029 || u == 0x202f || u == 0x205f || u
        == 0x3000
}

/// The characters of a string, one by one.
pub fn chars_of(s: &str) -> (r: Vec<char>)
    ensures
        r@ == s@,
{
    let n = s.unicode_len();
    let mut v: Vec<char> = Vec::new();
    let mut i: usize = 0;
    while i < n
        invariant
            n == s@.len(),
            i <= n,
            v@ == s@.subrange(0, i as int),
        decreases n - i,
    {
        v.push(s.get_char(i));
        i += 1;
    }
    v
}

/// Appends one character to a string by calling `String::push`, which std
/// documents as appending the character to the end of the string. Trusted:
/// the contract claims that afterwards the string holds its old characters
/// followed by `c`, and nothing else.
#[verifier::external_body]
pub(crate) fn push_char(s: &mut String, c: char)
    ensures
        final(s)@ == old(s)@.push(c),
{
    s.push(c);
}

/// Appends a string slice to a string (`String::push_str`).
pub fn push_str(s: &mut String, t: &str)
    ensures
        final(s)@ == old(s)@ + t@,
{
    s.append(t);
}

/// A new string holding `v[from..to]`.
pub fn string_from_chars(v: &Vec<char>, from: usize, to: usize) -> (r: String)
    requires
        from <= to <= v@.len(),
    ensures
        r@ == v@.subrange(from as int, to as int),
{
    let mut s = String::new();
    let mut i = from;
    while i < to
        invariant
            from <= i <= to <= v@.len(),
            s@ == v@.subrange(from as int, i as int),
        decreases to - i,
    {
        push_char(&mut s, v[i]);
        i += 1;
    }
    s
}

/// Whether two strings hold the same characters.
pub fn str_eq(a: &str, b: &str) -> (r: bool)
    ensures
        r == (a@ == b@),
{
    let x = chars_of(a);
    let y = chars_of(b);
    if x.len() != y.len() {
        return false;
    }
    let mut i: usize = 0;
    while i < x.len()
        invariant
            x@ == a@,
            y@ == b@,
            x@.len() == y@.len(),
            i <= x@.len(),
            forall|j: int| 0 <= j < i ==> x@[j] == y@[j],
        decreases x@.len() - i,
    {
        if x[i] != y[i] {
            return false;
        }
        i += 1;
    }
    assert(a@ =~= b@);
    true
}


/// `s.starts_with(p)`
pub open spec fn has_prefix(s: Seq<char>, p: Seq<char>) -> bool {
    p.len() <= s.len() && s.subrange(0, p.len() as int) == p
}

/// The first index at or after `i` at which `s` holds `c`, or -1.
pub open spec fn index_of_from(s: Seq<char>, c: char, i: int) -> int
    decreases s.len() - i,
{
    if i < 0 || i >= s.len() {
        -1
    } else if s[i] == c {
        i
    } else {
        index_of_from(s, c, i + 1)
    }
}

/// The first index of `c` in `s`, or -1.
pub open spec fn index_of(s: Seq<char>, c: char) -> int {
    index_of_from(s, c, 0)
}

/// `s.split_once('=')`: the parts before and after the first `=`.
pub open spec fn split_eq(s: Seq<char>) -> Option<(Seq<char>, Seq<char>)> {
    let i = index_of(s, '=');
    if i < 0 {
        None
    } else {
        Some((s.subrange(0, i), s.subrange(i + 1, s.len() as int)))
    }
}

/// `s.contains('=')`
pub open spec fn has_eq(s: Seq<char>) -> bool {
    index_of(s, '=') >= 0
}

/// `s.contains(char::is_whitespace)`
pub open spec fn has_white(s: Seq<char>) -> bool {
    exists|i: int| 0 <= i < s.len() && is_white(#[trigger] s[i])
}

pub proof fn lemma_index_of_from(s: Seq<char>, c: char, i: int)
    requires
        0 <= i,
    ensures
        index_of_from(s, c, i) == -1 || (i <= index_of_from(s, c, i) < s.len() && s[index_of_from(
            s,
            c,
            i,
        )] == c),
        forall|j: int|
            i <= j < s.len() && (index_of_from(s, c, i) == -1 || j < index_of_from(s, c, i))
                ==> s[j] != c,
    decreases s.len() - i,
{
    if i < s.len() && s[i] != c {
        lemma_index_of_from(s, c, i + 1);
    }
}

/// The first index of `c` in `v`.
pub fn find_char(v: &Vec<char>, c: char) -> (r: Option<usize>)
    ensures
        match r {
            Some(i) => i == index_of(v@, c),
            None => index_of(v@, c) == -1,
        },
{
    let mut i: usize = 0;
    while i < v.len()
        invariant
            i <= v@.len(),
            index_of(v@, c) == index_of_from(v@, c, i as int),
        decreases v@.len() - i,
    {
        if v[i] == c {
            return Some(i);
        }
        i += 1;
    }
    None
}

/// `s.split_once('=')`
pub fn split_once_eq(s: &str) -> (r: Option<(String, String)>)
    ensures
        match (r, split_eq(s@)) {
            (Some(p), Some(q)) => p.0@ == q.0 && p.1@ == q.1,
            (None, None) => true,
            _ => false,
        },
{
    let v = chars_of(s);
    proof {
        lemma_index_of_from(v@, '=', 0);
    }
    match find_char(&v, '=') {
        None => None,
        Some(k) => Some((string_from_chars(&v, 0, k), string_from_chars(&v, k + 1, v.len()))),
    }
}

/// `s.contains('=')`
pub fn contains_eq(s: &str) -> (r: bool)
    ensures
        r == has_eq(s@),
{
    let v = chars_of(s);
    let mut i: usize = 0;
    while i < v.len()
        invariant
            v@ == s@,
            i <= v@.len(),
            index_of(v@, '=') == index_of_from(v@, '=', i as int),
        decreases v@.len() - i,
    {
        if v[i] == '=' {
            return true;
        }
        i += 1;
    }
    false
}

/// `s.starts_with(p)`
pub fn starts_with(s: &str, p: &str) -> (r: bool)
    ensures
        r == has_prefix(s@, p@),
{
    let x = chars_of(s);
    let y = chars_of(p);
    if y.len() > x.len() {
        return false;
    }
    let mut i: usize = 0;
    while i < y.len()
        invariant
            x@ == s@,
            y@ == p@,
            y@.len() <= x@.len(),
            i <= y@.len(),
            forall|j: int| 0 <= j < i ==> x@[j] == y@[j],
        decreases y@.len() - i,
    {
        if x[i] != y[i] {
            assert(s@.subrange(0, p@.len() as int)[i as int] != p@[i as int]);
            return false;
        }
        i += 1;
    }
    assert(s@.subrange(0, p@.len() as int) =~= p@);
    true
}


/// A line without the `\r` of a `\r\n` ending.
pub open spec fn strip_cr(l: Seq<char>) -> Seq<char> {
    if l.len() > 0 && l.last() == '\r' {
        l.drop_last()
    } else {
        l
    }
}

/// The lines of `s` from position `i` on, `cur` being the line read so far
/// (`str::lines`: a final empty line is not one).
pub open spec fn lines_acc(s: Seq<char>, i: int, cur: Seq<char>) -> Seq<Seq<char>>
    decreases s.len() - i,
{
    if i < 0 || i >= s.len() {
        if cur.len() > 0 {
            seq![cur]
        } else {
            seq![]
        }
    } else if s[i] == '\n' {
        seq![strip_cr(cur)] + lines_acc(s, i + 1, seq![])
    } else {
        lines_acc(s, i + 1, cur.push(s[i]))
    }
}

/// `s.lines()`
pub open spec fn lines_of(s: Seq<char>) -> Seq<Seq<char>> {
    lines_acc(s, 0, seq![])
}

/// The words of `s` from position `i` on, `cur` being the word read so far.
pub open spec fn words_acc(s: Seq<char>, i: int, cur: Seq<char>) -> Seq<Seq<char>>
    decreases s.len() - i,
{
    if i < 0 || i >= s.len() {
        if cur.len() > 0 {
            seq![cur]
        } else {
            seq![]
        }
    } else if is_white(s[i]) {
        (if cur.len() > 0 {
            seq![cur]
        } else {
            seq![]
        }) + words_acc(s, i + 1, seq![])
    } else {
        words_acc(s, i + 1, cur.push(s[i]))
    }
}

/// `s.split_whitespace()`: the maximal runs of characters that are not white space.
pub open spec fn words_of(s: Seq<char>) -> Seq<Seq<char>> {
    words_acc(s, 0, seq![])
}

/// `s.trim_start()`: `s` without its leading white space.
pub open spec fn trim_start(s: Seq<char>) -> Seq<char>
    decreases s.len(),
{
    if s.len() > 0 && is_white(s[0]) {
        trim_start(s.drop_first())
    } else {
        s
    }
}

/// The lines of a text (`str::lines`).
pub fn lines(text: &str) -> (r: Vec<String>)
    ensures
        crate::error::strs_view(r@) == lines_of(text@),
{
    let cs = chars_of(text);
    let ghost t = text@;
    let mut out: Vec<String> = Vec::new();
    let mut cur: Vec<char> = Vec::new();
    let mut i: usize = 0;
    while i < cs.len()
        invariant
            cs@ == t,
            i <= cs@.len(),
            lines_of(t) == crate::error::strs_view(out@) + lines_acc(t, i as int, cur@),
        decreases cs@.len() - i,
    {
        let ghost o0 = crate::error::strs_view(out@);
        if cs[i] == '\n' {
            let n = cur.len();
            let line = if n > 0 && cur[n - 1] == '\r' {
                string_from_chars(&cur, 0, n - 1)
            } else {
                string_from_chars(&cur, 0, n)
            };
            assert(line@ =~= strip_cr(cur@));
            out.push(line);
            cur = Vec::new();
            assert(crate::error::strs_view(out@) + lines_acc(t, i + 1, seq![]) =~= o0 + (seq![
                line@,
            ] + lines_acc(t, i + 1, seq![])));
        } else {
            cur.push(cs[i]);
        }
        i += 1;
    }
    if cur.len() > 0 {
        let ghost o0 = crate::error::strs_view(out@);
        let line = string_from_chars(&cur, 0, cur.len());
        assert(line@ =~= cur@);
        out.push(line);
        assert(crate::error::strs_view(out@) =~= o0 + seq![cur@]);
    } else {
        assert(crate::error::strs_view(out@) + lines_acc(t, i as int, cur@) =~= crate::error::strs_view(
            out@,
        ));
    }
    out
}

/// The words of a line (`str::split_whitespace`).
pub fn split_whitespace(line: &str) -> (r: Vec<String>)
    ensures
        crate::error::strs_view(r@) == words_of(line@),
{
    let cs = chars_of(line);
    let ghost t = line@;
    let mut out: Vec<String> = Vec::new();
    let mut cur: Vec<char> = Vec::new();
    let mut i: usize = 0;
    while i < cs.len()
        invariant
            cs@ == t,
            i <= cs@.len(),
            words_of(t) == crate::error::strs_view(out@) + words_acc(t, i as int, cur@),
        decreases cs@.len() - i,
    {
        let ghost o0 = crate::error::strs_view(out@);
        let ghost c0 = cur@;
        if char_is_white(cs[i]) {
            assert(words_acc(t, i as int, c0) == (if c0.len() > 0 {
                seq![c0]
            } else {
                Seq::<Seq<char>>::empty()
            }) + words_acc(t, i + 1, seq![]));
            if cur.len() > 0 {
                let word = string_from_chars(&cur, 0, cur.len());
                assert(word@ =~= cur@);
                out.push(word);
                cur = Vec::new();
                assert(crate::error::strs_view(out@) + words_acc(t, i + 1, seq![]) =~= o0 + (seq![
                    word@,
                ] + words_acc(t, i + 1, seq![])));
            } else {
                assert(cur@ =~= Seq::<char>::empty());
                assert(crate::error::strs_view(out@) + words_acc(t, i + 1, seq![]) =~= o0 + (
                Seq::<Seq<char>>::empty() + words_acc(t, i + 1, seq![])));
            }
        } else {
            cur.push(cs[i]);
            assert(words_acc(t, i as int, c0) == words_acc(t, i + 1, cur@));
        }
        i += 1;
    }
    if cur.len() > 0 {
        let ghost o0 = crate::error::strs_view(out@);
        let word = string_from_chars(&cur, 0, cur.len());
        assert(word@ =~= cur@);
        out.push(word);
        assert(crate::error::strs_view(out@) =~= o0 + seq![cur@]);
    } else {
        assert(crate::error::strs_view(out@) + words_acc(t, i as int, cur@) =~= crate::error::strs_view(
            out@,
        ));
    }
    out
}

/// Whether `s`, once its leading white space is trimmed, starts with `.` or
/// `'` (a line that roff would read as a request).
pub fn starts_like_request(s: &str) -> (r: bool)
    ensures
        r == (trim_start(s@).len() > 0 && (trim_start(s@)[0] == '.' || trim_start(s@)[0]
            == '\'')),
{
    let cs = chars_of(s);
    let mut i: usize = 0;
    assert(s@.subrange(0, s@.len() as int) =~= s@);
    while i < cs.len() && char_is_white(cs[i])
        invariant
            cs@ == s@,
            i <= cs@.len(),
            trim_start(s@) == trim_start(s@.subrange(i as int, s@.len() as int)),
        decreases cs@.len() - i,
    {
        assert(s@.subrange(i as int, s@.len() as int).drop_first() =~= s@.subrange(
            i + 1,
            s@.len() as int,
        ));
        i += 1;
    }
    if i < cs.len() {
        assert(trim_start(s@) == s@.subrange(i as int, s@.len() as int));
        cs[i] == '.' || cs[i] == '\''
    } else {
        assert(s@.subrange(i as int, s@.len() as int) =~= Seq::<char>::empty());
        false
    }
}

} // verus!
