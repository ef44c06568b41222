//! Character-level helpers shared by the two lexers.
use vstd::prelude::*;
use vstd::string::*;

verus! {

/// Relies on String::remove: removing index 0 of a non-empty string returns
/// its first character and shifts the rest down.
#[verifier::external_body]
fn string_remove_first(s: &mut String) -> (c: char)
    requires
        old(s)@.len() > 0,
    ensures
        c == old(s)@[0],
        final(s)@ == old(s)@.drop_first(),
{
    s.remove(0)
}

/// Relies on String::push: appends one character.
#[verifier::external_body]
pub fn push_char(s: &mut String, c: char)
    ensures
        final(s)@ == old(s)@.push(c),
{
    s.push(c)
}

/// The characters that carry Unicode's White_Space property.
pub open spec fn is_space(c: char) -> bool {
    ('\t' <= c && c <= '\r') || c == ' ' || c == '\u{85}' || c == '\u{a0}' || c == '\u{1680}'
        || ('\u{2000}' <= c && c <= '\u{200a}') || c == '\u{2028}' || c == '\u{2029}'
        || c == '\u{202f}' || c == '\u{205f}' || c == '\u{3000}'
}

/// Relies on char::is_whitespace, which tests the White_Space property.
#[verifier::external_body]
pub fn is_whitespace(c: char) -> (r: bool)
    ensures
        r == is_space(c),
{
    c.is_whitespace()
}

pub open spec fn is_alpha(c: char) -> bool {
    ('a' <= c && c <= 'z') || ('A' <= c && c <= 'Z')
}

pub open spec fn is_digit(c: char) -> bool {
    '0' <= c && c <= '9'
}

pub open spec fn is_alnum(c: char) -> bool {
    is_alpha(c) || is_digit(c)
}

pub fn is_ascii_alphabetic(c: char) -> (r: bool)
    ensures
        r == is_alpha(c),
{
    ('a' <= c && c <= 'z') || ('A' <= c && c <= 'Z')
}

pub fn is_ascii_digit(c: char) -> (r: bool)
    ensures
        r == is_digit(c),
{
    '0' <= c && c <= '9'
}

/// Removes and returns the first character of `input`.
pub fn chop_character(input: &mut String) -> (c: char)
    requires
        old(input)@.len() > 0,
    ensures
        c == old(input)@[0],
        final(input)@ == old(input)@.drop_first(),
{
    string_remove_first(input)
}

/// The character at `i`, if there is one.
pub fn char_at(input: &String, i: usize) -> (r: Option<char>)
    ensures
        i < input@.len() ==> r == Some(input@[i as int]),
        i >= input@.len() ==> r.is_none(),
{
    let n = input.as_str().unicode_len();
    if i < n {
        Some(input.as_str().get_char(i))
    } else {
        None
    }
}

/// Whether `s` is exactly the text `lit`.
pub fn text_is(s: &String, lit: &str) -> (r: bool)
    ensures
        r == (s@ == lit@),
{
    let n = s.as_str().unicode_len();
    let m = lit.unicode_len();
    if n != m {
        return false;
    }
    let mut i: usize = 0;
    while i < n
        invariant
            n == s@.len(),
            m == lit@.len(),
            n == m,
            i <= n,
            forall|j: int| 0 <= j < i ==> s@[j] == lit@[j],
        decreases n - i,
    {
        if s.as_str().get_char(i) != lit.get_char(i) {
            return false;
        }
        i += 1;
    }
    assert(s@ =~= lit@);
    true
}

/// A copy of `s` without its double-quote characters.
pub open spec fn unquoted(s: Seq<char>) -> Seq<char>
    decreases s.len(),
{
    if s.len() == 0 {
        s
    } else if s.last() == '"' {
        unquoted(s.drop_last())
    } else {
        unquoted(s.drop_last()).push(s.last())
    }
}

/// Removes every double-quote character from `s`.
pub fn strip_quotes(s: &String) -> (r: String)
    ensures
        r@ == unquoted(s@),
{
    let n = s.as_str().unicode_len();
    let mut r = String::new();
    let mut i: usize = 0;
    while i < n
        invariant
            n == s@.len(),
            i <= n,
            r@ == unquoted(s@.take(i as int)),
        decreases n - i,
    {
        let c = s.as_str().get_char(i);
        assert(s@.take(i as int + 1).drop_last() =~= s@.take(i as int));
        if c != '"' {
            push_char(&mut r, c);
        }
        i += 1;
    }
    assert(s@.take(n as int) =~= s@);
    r
}

} // verus!

verus! {

/// Where a token starts: file name, line (from 1) and column (from 1).
#[derive(Debug, Clone)]
pub struct FileLoc {
    pub filename: String,
    pub row: usize,
    pub col: usize,
}

/// Why a numeric or string lexeme could not be read.
#[derive(Debug, Clone, Copy, PartialEq, Eq, Structural)]
pub enum LexErrorKind {
    /// A number holds a second decimal point.
    SecondDecimalPoint,
    /// A number holds a second exponent marker.
    SecondExponent,
    /// A quoted string is not closed before the end of the text.
    UnterminatedString,
    /// The text holds too many characters to number its columns.
    TooLong,
}

/// A lexeme that could not be read, and where it starts.
#[derive(Debug, Clone)]
pub struct LexError {
    pub kind: LexErrorKind,
    pub loc: FileLoc,
}

/// A character that no token starts with; it is skipped.
#[derive(Debug, Clone)]
pub struct Stray {
    pub ch: char,
    pub loc: FileLoc,
}

/// A character, its file, line and column.
pub type StrayView = (char, Seq<char>, nat, nat);

impl Stray {
    pub open spec fn view(&self) -> StrayView {
        (self.ch, self.loc.filename@, self.loc.row as nat, self.loc.col as nat)
    }
}

pub open spec fn stray_views(s: Seq<Stray>) -> Seq<StrayView> {
    s.map_values(|x: Stray| x.view())
}

/// A lexing error as kind, line and column.
pub type LexErrorView = (LexErrorKind, nat, nat);

impl LexError {
    pub open spec fn view(&self) -> LexErrorView {
        (self.kind, self.loc.row as nat, self.loc.col as nat)
    }
}

/// The number of leading characters of `s` before its first line feed.
pub open spec fn line_run(s: Seq<char>) -> nat
    decreases s.len(),
{
    if s.len() == 0 || s[0] == '\n' {
        0
    } else {
        1 + line_run(s.drop_first())
    }
}

pub proof fn lemma_line_run_bound(s: Seq<char>)
    ensures
        line_run(s) <= s.len(),
        line_run(s) < s.len() ==> s[line_run(s) as int] == '\n',
        forall|i: int| 0 <= i < line_run(s) ==> s[i] != '\n',
    decreases s.len(),
{
    if s.len() > 0 && s[0] != '\n' {
        lemma_line_run_bound(s.drop_first());
        assert forall|i: int| 0 <= i < line_run(s) implies s[i] != '\n' by {
            if i > 0 {
                assert(s[i] == s.drop_first()[i - 1]);
            }
        }
    }
}

/// A comment runs through its line feed, or to the end of the text.
pub open spec fn comment_len(s: Seq<char>) -> nat {
    if line_run(s) < s.len() {
        line_run(s) + 1
    } else {
        s.len()
    }
}

/// Consumes characters up to and including the next line feed, or all of
/// them when there is none; returns how many were consumed.
pub fn skip_line(input: &mut String) -> (n: usize)
    ensures
        n == comment_len(old(input)@),
        final(input)@ == old(input)@.skip(n as int),
{
    proof {
        lemma_line_run_bound(old(input)@);
    }
    let ghost orig = input@;
    let total = input.as_str().unicode_len();
    let mut n: usize = 0;
    while input.as_str().unicode_len() > 0
        invariant
            orig == old(input)@,
            total == orig.len(),
            n <= orig.len(),
            input@ == orig.skip(n as int),
            n <= line_run(orig),
        decreases input@.len(),
    {
        assert(input@[0] == orig[n as int]);
        let c = chop_character(input);
        n += 1;
        assert(input@ =~= orig.skip(n as int));
        if c == '\n' {
            proof {
                lemma_line_run_bound(orig);
                if n - 1 < line_run(orig) {
                    assert(orig[n - 1] != '\n');
                }
            }
            return n;
        }
        proof {
            lemma_line_run_bound(orig);
            if n > line_run(orig) {
                assert(orig[line_run(orig) as int] == '\n');
            }
        }
    }
    n
}

} // verus!
