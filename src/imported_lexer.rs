//! Lexer of the imported lattice format: `name: keyword, param=value, ...`
//! statements, `&` line continuations, `!` comments and `%` expression lines.
use vstd::prelude::*;
use vstd::string::*;
use crate::text::{
    char_at, chop_character, comment_len, is_alnum, is_alpha, is_ascii_alphabetic, is_ascii_digit,
    is_digit, is_space, is_whitespace, lemma_line_run_bound, line_run, push_char, skip_line,
    stray_views, FileLoc, LexError, LexErrorKind, LexErrorView, Stray, StrayView,
};

verus! {

#[derive(Debug, Clone, Copy, PartialEq, Eq, Structural)]
pub enum TokenType {
    Word,
    Value,
    Ocurly,
    Ccurly,
    Oparen,
    Cparen,
    Comma,
    Assign,
    Colon,
    EleStr,
    RpnExpr,
    LineEnd,
    LineJoin,
    Eof,
}

#[derive(Debug, Clone)]
pub struct Token {
    pub token_type: TokenType,
    pub value: String,
    pub loc: FileLoc,
}

/// Kind, text, file, line and column of a token.
pub type TokenView = (TokenType, Seq<char>, Seq<char>, nat, nat);

impl Token {
    pub open spec fn view(&self) -> TokenView {
        (self.token_type, self.value@, self.loc.filename@, self.loc.row as nat, self.loc.col as nat)
    }
}

pub open spec fn token_views(s: Seq<Token>) -> Seq<TokenView> {
    s.map_values(|t: Token| t.view())
}

/// A copy of `t`.
pub fn clone_token(t: &Token) -> (r: Token)
    ensures
        r.view() == t.view(),
{
    Token {
        token_type: t.token_type,
        value: t.value.clone(),
        loc: FileLoc { filename: t.loc.filename.clone(), row: t.loc.row, col: t.loc.col },
    }
}

/// Tokens and skipped characters, in the order of the text.
pub type LexedView = (Seq<TokenView>, Seq<StrayView>);

/// The result of lexing a whole text.
#[derive(Debug, Clone)]
pub struct Lexed {
    pub tokens: Vec<Token>,
    pub stray: Vec<Stray>,
}

impl Lexed {
    pub open spec fn view(&self) -> LexedView {
        (token_views(self.tokens@), stray_views(self.stray@))
    }
}

pub open spec fn is_word_char(c: char) -> bool {
    c == '_' || is_alnum(c) || c == '.' || c == '$' || c == '-'
}

/// How many leading characters of `s` may continue a word.
pub open spec fn word_run(s: Seq<char>) -> nat
    decreases s.len(),
{
    if s.len() > 0 && is_word_char(s[0]) {
        1 + word_run(s.drop_first())
    } else {
        0
    }
}

pub proof fn lemma_word_run_bound(s: Seq<char>)
    ensures
        word_run(s) <= s.len(),
    decreases s.len(),
{
    if s.len() > 0 && is_word_char(s[0]) {
        lemma_word_run_bound(s.drop_first());
    }
}

/// How many leading characters of `s` are not a double quote.
pub open spec fn quote_run(s: Seq<char>) -> nat
    decreases s.len(),
{
    if s.len() == 0 || s[0] == '"' {
        0
    } else {
        1 + quote_run(s.drop_first())
    }
}

pub proof fn lemma_quote_run_bound(s: Seq<char>)
    ensures
        quote_run(s) <= s.len(),
        quote_run(s) < s.len() ==> s[quote_run(s) as int] == '"',
    decreases s.len(),
{
    if s.len() > 0 && s[0] != '"' {
        lemma_quote_run_bound(s.drop_first());
    }
}

/// How many leading characters of `s` are white space.
pub open spec fn space_run(s: Seq<char>) -> nat
    decreases s.len(),
{
    if s.len() > 0 && is_space(s[0]) {
        1 + space_run(s.drop_first())
    } else {
        0
    }
}

pub proof fn lemma_space_run_bound(s: Seq<char>)
    ensures
        space_run(s) <= s.len(),
    decreases s.len(),
{
    if s.len() > 0 && is_space(s[0]) {
        lemma_space_run_bound(s.drop_first());
    }
}

/// The length of a quoted string at the start of `s` (which starts with a
/// double quote): the opening quote, the next character whatever it is,
/// then characters up to and including the next double quote.
pub open spec fn string_len(s: Seq<char>) -> Option<nat> {
    let q = quote_run(s.skip(2));
    if s.len() >= 2 && q + 2 < s.len() {
        Some(q + 3)
    } else {
        None
    }
}

pub open spec fn shift_run(k: nat, r: Result<(nat, bool), LexErrorKind>) -> Result<
    (nat, bool),
    LexErrorKind,
> {
    match r {
        Ok((n, w)) => Ok((n + k, w)),
        Err(e) => Err(e),
    }
}

/// How many leading characters of `s` continue a number, and whether the
/// lexeme turned out to be a word, given what it already holds.
pub open spec fn number_run(s: Seq<char>, word: bool, dec: bool, exp: bool) -> Result<
    (nat, bool),
    LexErrorKind,
>
    decreases s.len(),
{
    if s.len() == 0 {
        Ok((0, word))
    } else if is_digit(s[0]) {
        shift_run(1, number_run(s.drop_first(), word, dec, exp))
    } else if s[0] == 'e' && s.len() > 1 && s[1] == '-' {
        if exp {
            Err(LexErrorKind::SecondExponent)
        } else {
            shift_run(2, number_run(s.skip(2), word, dec, true))
        }
    } else if s[0] == 'e' {
        if exp && !word {
            Err(LexErrorKind::SecondExponent)
        } else {
            shift_run(1, number_run(s.drop_first(), word, dec, true))
        }
    } else if s[0] == '.' {
        if dec {
            Err(LexErrorKind::SecondDecimalPoint)
        } else {
            shift_run(1, number_run(s.drop_first(), word, true, exp))
        }
    } else if is_alpha(s[0]) {
        shift_run(1, number_run(s.drop_first(), true, dec, exp))
    } else {
        Ok((0, word))
    }
}

pub proof fn lemma_number_run_bound(s: Seq<char>, word: bool, dec: bool, exp: bool)
    ensures
        number_run(s, word, dec, exp) matches Ok((n, _)) ==> n <= s.len(),
    decreases s.len(),
{
    if s.len() == 0 {
    } else if is_digit(s[0]) {
        lemma_number_run_bound(s.drop_first(), word, dec, exp);
    } else if s[0] == 'e' && s.len() > 1 && s[1] == '-' {
        lemma_number_run_bound(s.skip(2), word, dec, true);
    } else if s[0] == 'e' {
        lemma_number_run_bound(s.drop_first(), word, dec, true);
    } else if s[0] == '.' {
        lemma_number_run_bound(s.drop_first(), word, true, exp);
    } else if is_alpha(s[0]) {
        lemma_number_run_bound(s.drop_first(), true, dec, exp);
    }
}

/// The single-character tokens.
pub open spec fn punctuation(c: char) -> Option<TokenType> {
    if c == '(' {
        Some(TokenType::Oparen)
    } else if c == ')' {
        Some(TokenType::Cparen)
    } else if c == '&' {
        Some(TokenType::LineJoin)
    } else if c == ',' {
        Some(TokenType::Comma)
    } else if c == '=' {
        Some(TokenType::Assign)
    } else if c == '{' {
        Some(TokenType::Ocurly)
    } else if c == '}' {
        Some(TokenType::Ccurly)
    } else if c == ':' {
        Some(TokenType::Colon)
    } else {
        None
    }
}

pub open spec fn with_token(t: TokenView, r: Result<LexedView, LexErrorView>) -> Result<
    LexedView,
    LexErrorView,
> {
    match r {
        Ok(v) => Ok((seq![t] + v.0, v.1)),
        Err(e) => Err(e),
    }
}

pub open spec fn with_stray(x: StrayView, r: Result<LexedView, LexErrorView>) -> Result<
    LexedView,
    LexErrorView,
> {
    match r {
        Ok(v) => Ok((v.0, seq![x] + v.1)),
        Err(e) => Err(e),
    }
}

pub open spec fn after(done: LexedView, r: Result<LexedView, LexErrorView>) -> Result<
    LexedView,
    LexErrorView,
> {
    match r {
        Ok(v) => Ok((done.0 + v.0, done.1 + v.1)),
        Err(e) => Err(e),
    }
}

/// Whether a line feed after a token of kind `last` ends a statement.
pub open spec fn ends_line(last: Option<TokenType>) -> bool {
    last is Some && last != Some(TokenType::LineEnd)
}

/// Whether a comment after a token of kind `last` ends a statement.
pub open spec fn comment_ends_line(last: Option<TokenType>) -> bool {
    last is Some && last != Some(TokenType::LineEnd) && last != Some(TokenType::LineJoin)
}

/// What lexing `s` gives when it starts at line `row`, column `col` of
/// `file`, after a token of kind `last` (`None` before the first token).
/// The tokens end with an end-of-file token.
#[verifier::opaque]
pub open spec fn lex(
    s: Seq<char>,
    file: Seq<char>,
    row: nat,
    col: nat,
    last: Option<TokenType>,
) -> Result<LexedView, LexErrorView>
    decreases s.len(),
{
    if s.len() == 0 {
        Ok((seq![(TokenType::Eof, "EOF"@, file, row, col)], seq![]))
    } else {
        let c = s[0];
        if is_space(c) {
            if c == '\n' {
                if ends_line(last) {
                    with_token(
                        (TokenType::LineEnd, "LineEnd"@, file, row, col),
                        lex(s.drop_first(), file, row + 1, 1, Some(TokenType::LineEnd)),
                    )
                } else {
                    lex(s.drop_first(), file, row + 1, 1, last)
                }
            } else {
                lex(s.drop_first(), file, row, col + 1, last)
            }
        } else if is_alpha(c) {
            let n = 1 + word_run(s.drop_first());
            proof {
                lemma_word_run_bound(s.drop_first());
            }
            with_token(
                (TokenType::Word, s.take(n as int), file, row, col),
                lex(s.skip(n as int), file, row, col + n, Some(TokenType::Word)),
            )
        } else if c == '"' {
            match string_len(s) {
                Some(n) => with_token(
                    (TokenType::EleStr, s.take(n as int), file, row, col),
                    lex(s.skip(n as int), file, row, col + n, Some(TokenType::EleStr)),
                ),
                None => Err((LexErrorKind::UnterminatedString, row, col)),
            }
        } else if is_digit(c) || c == '-' {
            proof {
                lemma_number_run_bound(s.drop_first(), false, false, false);
            }
            match number_run(s.drop_first(), false, false, false) {
                Ok((k, w)) => {
                    let kind = if w {
                        TokenType::Word
                    } else {
                        TokenType::Value
                    };
                    with_token(
                        (kind, s.take((k + 1) as int), file, row, col),
                        lex(s.skip((k + 1) as int), file, row, col + k + 1, Some(kind)),
                    )
                },
                Err(e) => Err((e, row, col)),
            }
        } else if punctuation(c) is Some {
            with_token(
                (punctuation(c)->0, seq![c], file, row, col),
                lex(s.drop_first(), file, row, col + 1, punctuation(c)),
            )
        } else if c == '%' && col == 1 {
            let w = space_run(s.drop_first());
            proof {
                lemma_space_run_bound(s.drop_first());
                lemma_line_run_bound(s.drop_first().skip(w as int));
            }
            let body = s.drop_first().skip(w as int);
            with_token(
                (TokenType::RpnExpr, body.take(line_run(body) as int), file, row, col + w),
                lex(
                    body.skip(comment_len(body) as int),
                    file,
                    row + 1,
                    1,
                    Some(TokenType::RpnExpr),
                ),
            )
        } else if c == '!' {
            proof {
                lemma_line_run_bound(s);
            }
            if comment_ends_line(last) {
                with_token(
                    (TokenType::LineEnd, "LineEnd"@, file, row, col),
                    lex(s.skip(comment_len(s) as int), file, row + 1, 1, Some(TokenType::LineEnd)),
                )
            } else {
                lex(s.skip(comment_len(s) as int), file, row + 1, 1, last)
            }
        } else {
            with_stray((c, file, row, col), lex(s.drop_first(), file, row, col, last))
        }
    }
}

/// Whether token `i` of `t` is half of a continuation: a `&` right before a
/// line end, or a line end right after a `&`.
pub open spec fn is_join(t: Seq<TokenView>, i: int) -> bool {
    (t[i].0 == TokenType::LineJoin && i + 1 < t.len() && t[i + 1].0 == TokenType::LineEnd) || (
    t[i].0 == TokenType::LineEnd && i >= 1 && t[i - 1].0 == TokenType::LineJoin)
}

/// The first `n` tokens of `t` without the continuations.
pub open spec fn joined(t: Seq<TokenView>, n: nat) -> Seq<TokenView>
    decreases n,
{
    if n == 0 {
        seq![]
    } else if is_join(t, n - 1) {
        joined(t, (n - 1) as nat)
    } else {
        joined(t, (n - 1) as nat).push(t[n - 1])
    }
}

/// The tokens of a whole text: lexed from its start, continuations removed.
pub open spec fn tokenized(s: Seq<char>, file: Seq<char>) -> Result<LexedView, LexErrorView> {
    match lex(s, file, 1, 1, None) {
        Ok(v) => Ok((joined(v.0, v.0.len()), v.1)),
        Err(e) => Err(e),
    }
}

} // verus!

verus! {

/// Reads a word: the first character of `input` and then every character
/// that may continue a word.
pub fn parse_word(input: &mut String, loc: FileLoc) -> (r: Token)
    requires
        old(input)@.len() > 0,
    ensures
        ({
            let n = 1 + word_run(old(input)@.drop_first());
            &&& n <= old(input)@.len()
            &&& r.token_type == TokenType::Word
            &&& r.value@ == old(input)@.take(n as int)
            &&& final(input)@ == old(input)@.skip(n as int)
            &&& r.loc == loc
        }),
{
    proof {
        lemma_word_run_bound(old(input)@.drop_first());
    }
    let ghost orig = input@;
    let mut name = String::new();
    let c = chop_character(input);
    push_char(&mut name, c);
    loop
        invariant
            orig == old(input)@,
            orig.len() > 0,
            name@.len() >= 1,
            name@ + input@ == orig,
            word_run(orig.drop_first()) == (name@.len() - 1) + word_run(input@),
        ensures
            name@ + input@ == orig,
            word_run(input@) == 0,
        decreases input@.len(),
    {
        match char_at(input, 0) {
            Some(c) => {
                if c == '_' || is_ascii_alphabetic(c) || is_ascii_digit(c) || c == '.' || c == '$'
                    || c == '-' {
                    let c = chop_character(input);
                    assert(name@.push(c) + input@ =~= orig);
                    push_char(&mut name, c);
                } else {
                    break;
                }
            },
            None => {
                break;
            },
        }
    }
    assert(orig.take(name@.len() as int) =~= name@);
    assert(orig.skip(name@.len() as int) =~= input@);
    Token { token_type: TokenType::Word, value: name, loc }
}

/// Reads a quoted string, quotes included.
pub fn parse_string(input: &mut String, loc: FileLoc) -> (r: Result<Token, LexErrorKind>)
    requires
        old(input)@.len() > 0,
    ensures
        match string_len(old(input)@) {
            Some(n) => {
                &&& n <= old(input)@.len()
                &&& r matches Ok(t)
                &&& t.token_type == TokenType::EleStr
                &&& t.value@ == old(input)@.take(n as int)
                &&& final(input)@ == old(input)@.skip(n as int)
                &&& t.loc == loc
            },
            None => r == Err::<Token, LexErrorKind>(LexErrorKind::UnterminatedString),
        },
{
    let ghost orig = input@;
    proof {
        lemma_quote_run_bound(orig.skip(2));
    }
    let mut name = String::new();
    let c = chop_character(input);
    push_char(&mut name, c);
    if input.as_str().unicode_len() == 0 {
        return Err(LexErrorKind::UnterminatedString);
    }
    let c = chop_character(input);
    push_char(&mut name, c);
    assert(input@ =~= orig.skip(2));
    loop
        invariant
            orig == old(input)@,
            orig.len() >= 2,
            name@.len() >= 2,
            name@ + input@ == orig,
            quote_run(orig.skip(2)) == (name@.len() - 2) + quote_run(input@),
        ensures
            name@ + input@ == orig,
            name@.len() >= 2,
            quote_run(orig.skip(2)) == (name@.len() - 2) + quote_run(input@),
            quote_run(input@) == 0,
        decreases input@.len(),
    {
        match char_at(input, 0) {
            Some(c) => {
                if c == '"' {
                    break;
                }
                let c = chop_character(input);
                assert(name@.push(c) + input@ =~= orig);
                push_char(&mut name, c);
            },
            None => {
                break;
            },
        }
    }
    if input.as_str().unicode_len() == 0 {
        return Err(LexErrorKind::UnterminatedString);
    }
    let c = chop_character(input);
    assert(name@.push(c) + input@ =~= orig);
    push_char(&mut name, c);
    assert(orig.take(name@.len() as int) =~= name@);
    assert(orig.skip(name@.len() as int) =~= input@);
    Ok(Token { token_type: TokenType::EleStr, value: name, loc })
}

/// Reads a number: the first character of `input` (a digit or a minus sign),
/// then digits, at most one decimal point and one exponent marker. A letter
/// in it makes the lexeme a word.
pub fn parse_digit(input: &mut String, loc: FileLoc) -> (r: Result<Token, LexErrorKind>)
    requires
        old(input)@.len() > 0,
    ensures
        match number_run(old(input)@.drop_first(), false, false, false) {
            Ok((k, w)) => {
                &&& k + 1 <= old(input)@.len()
                &&& r matches Ok(t)
                &&& t.token_type == (if w {
                    TokenType::Word
                } else {
                    TokenType::Value
                })
                &&& t.value@ == old(input)@.take((k + 1) as int)
                &&& final(input)@ == old(input)@.skip((k + 1) as int)
                &&& t.loc == loc
            },
            Err(e) => r == Err::<Token, LexErrorKind>(e),
        },
{
    proof {
        lemma_number_run_bound(old(input)@.drop_first(), false, false, false);
    }
    let ghost orig = input@;
    let mut actually_a_word = false;
    let mut already_decimal = false;
    let mut already_exp = false;
    let mut value = String::new();
    let c = chop_character(input);
    push_char(&mut value, c);
    loop
        invariant
            orig == old(input)@,
            orig.len() > 0,
            value@.len() >= 1,
            value@ + input@ == orig,
            number_run(orig.drop_first(), false, false, false) == shift_run(
                (value@.len() - 1) as nat,
                number_run(input@, actually_a_word, already_decimal, already_exp),
            ),
        ensures
            value@.len() >= 1,
            value@ + input@ == orig,
            number_run(orig.drop_first(), false, false, false) == shift_run(
                (value@.len() - 1) as nat,
                number_run(input@, actually_a_word, already_decimal, already_exp),
            ),
            number_run(input@, actually_a_word, already_decimal, already_exp) == Ok::<
                (nat, bool),
                LexErrorKind,
            >((0, actually_a_word)),
        decreases input@.len(),
    {
        let c0 = char_at(input, 0);
        let c1 = char_at(input, 1);
        match c0 {
            None => {
                break;
            },
            Some(c) => {
                if is_ascii_digit(c) {
                    let c = chop_character(input);
                    assert(value@.push(c) + input@ =~= orig);
                    push_char(&mut value, c);
                } else if c == 'e' && c1 == Some('-') {
                    if already_exp {
                        return Err(LexErrorKind::SecondExponent);
                    }
                    already_exp = true;
                    let ghost before = input@;
                    let a = chop_character(input);
                    let b = chop_character(input);
                    assert(before.skip(2) =~= input@);
                    assert(value@.push(a).push(b) + input@ =~= orig);
                    push_char(&mut value, a);
                    push_char(&mut value, b);
                } else if c == 'e' {
                    if already_exp && !actually_a_word {
                        return Err(LexErrorKind::SecondExponent);
                    }
                    already_exp = true;
                    let c = chop_character(input);
                    assert(value@.push(c) + input@ =~= orig);
                    push_char(&mut value, c);
                } else if c == '.' {
                    if already_decimal {
                        return Err(LexErrorKind::SecondDecimalPoint);
                    }
                    already_decimal = true;
                    let c = chop_character(input);
                    assert(value@.push(c) + input@ =~= orig);
                    push_char(&mut value, c);
                } else if is_ascii_alphabetic(c) {
                    actually_a_word = true;
                    let c = chop_character(input);
                    assert(value@.push(c) + input@ =~= orig);
                    push_char(&mut value, c);
                } else {
                    break;
                }
            },
        }
    }
    assert(orig.take(value@.len() as int) =~= value@);
    assert(orig.skip(value@.len() as int) =~= input@);
    let token_type = if actually_a_word {
        TokenType::Word
    } else {
        TokenType::Value
    };
    Ok(Token { token_type, value, loc })
}

/// Reads an expression line whose `%` has been consumed: leading white
/// space is skipped (each character moves the column on), the rest of the
/// line is the expression, and its line feed is consumed.
pub fn parse_rpn_expr(input: &mut String, loc: FileLoc) -> (r: Token)
    requires
        loc.col + old(input)@.len() <= usize::MAX,
    ensures
        ({
            let w = space_run(old(input)@);
            let body = old(input)@.skip(w as int);
            &&& w <= old(input)@.len()
            &&& r.token_type == TokenType::RpnExpr
            &&& r.value@ == body.take(line_run(body) as int)
            &&& final(input)@ == body.skip(comment_len(body) as int)
            &&& r.loc.filename == loc.filename
            &&& r.loc.row == loc.row
            &&& r.loc.col == loc.col + w
        }),
{
    let ghost orig = input@;
    proof {
        lemma_space_run_bound(orig);
    }
    let ghost loc0 = loc;
    let mut loc = loc;
    let ghost col0 = loc.col;
    let mut skipped: usize = 0;
    loop
        invariant
            orig == old(input)@,
            skipped <= orig.len(),
            input@ == orig.skip(skipped as int),
            loc.col == col0 + skipped,
            loc.filename == loc0.filename,
            loc.row == loc0.row,
            col0 == loc0.col,
            col0 + orig.len() <= usize::MAX,
            space_run(orig) == skipped + space_run(input@),
        ensures
            input@ == orig.skip(skipped as int),
            loc.col == col0 + skipped,
            space_run(orig) == skipped,
        decreases input@.len(),
    {
        match char_at(input, 0) {
            Some(c) => {
                if is_whitespace(c) {
                    chop_character(input);
                    skipped += 1;
                    loc.col = loc.col + 1;
                    assert(input@ =~= orig.skip(skipped as int));
                } else {
                    break;
                }
            },
            None => {
                break;
            },
        }
    }
    let ghost body = input@;
    proof {
        lemma_line_run_bound(body);
    }
    let mut name = String::new();
    loop
        invariant
            body == orig.skip(skipped as int),
            name@ + input@ == body,
            line_run(body) == name@.len() + line_run(input@),
        ensures
            name@ + input@ == body,
            line_run(body) == name@.len() + line_run(input@),
            line_run(input@) == 0,
        decreases input@.len(),
    {
        match char_at(input, 0) {
            Some(c) => {
                if c == '\n' {
                    break;
                }
                let c = chop_character(input);
                assert(name@.push(c) + input@ =~= body);
                push_char(&mut name, c);
            },
            None => {
                break;
            },
        }
    }
    assert(body.take(name@.len() as int) =~= name@);
    if input.as_str().unicode_len() > 0 {
        chop_character(input);
        assert(input@ =~= body.skip((name@.len() + 1) as int));
    } else {
        assert(input@ =~= body.skip(name@.len() as int));
    }
    Token { token_type: TokenType::RpnExpr, value: name, loc }
}

} // verus!

verus! {

/// The lower-case form of a text, as `str::to_lowercase` gives it.
pub uninterp spec fn lower_of(s: Seq<char>) -> Seq<char>;

/// Relies on str::to_lowercase: the lower-case form depends on the
/// characters alone.
#[verifier::external_body]
pub(crate) fn lowercase(s: &str) -> (r: String)
    ensures
        r@ == lower_of(s@),
{
    s.to_lowercase()
}

pub proof fn lemma_after_token(d: LexedView, t: TokenView, r: Result<LexedView, LexErrorView>)
    ensures
        after(d, with_token(t, r)) == after((d.0.push(t), d.1), r),
{
    if let Ok(v) = r {
        assert(d.0 + (seq![t] + v.0) =~= d.0.push(t) + v.0);
    }
}

pub proof fn lemma_after_stray(d: LexedView, x: StrayView, r: Result<LexedView, LexErrorView>)
    ensures
        after(d, with_stray(x, r)) == after((d.0, d.1.push(x)), r),
{
    if let Ok(v) = r {
        assert(d.1 + (seq![x] + v.1) =~= d.1.push(x) + v.1);
    }
}

fn loc_at(filename: &str, row: usize, col: usize) -> (r: FileLoc)
    ensures
        r.filename@ == filename@,
        r.row == row,
        r.col == col,
{
    FileLoc { filename: String::from_str(filename), row, col }
}

fn one_char(c: char) -> (r: String)
    ensures
        r@ == seq![c],
{
    let mut s = String::new();
    push_char(&mut s, c);
    assert(s@ =~= seq![c]);
    s
}

fn punctuation_of(c: char) -> (r: Option<TokenType>)
    ensures
        r == punctuation(c),
{
    if c == '(' {
        Some(TokenType::Oparen)
    } else if c == ')' {
        Some(TokenType::Cparen)
    } else if c == '&' {
        Some(TokenType::LineJoin)
    } else if c == ',' {
        Some(TokenType::Comma)
    } else if c == '=' {
        Some(TokenType::Assign)
    } else if c == '{' {
        Some(TokenType::Ocurly)
    } else if c == '}' {
        Some(TokenType::Ccurly)
    } else if c == ':' {
        Some(TokenType::Colon)
    } else {
        None
    }
}

pub open spec fn last_kind(t: Seq<Token>) -> Option<TokenType> {
    if t.len() == 0 {
        None
    } else {
        Some(t.last().token_type)
    }
}

/// Splits a text into tokens, ending with an end-of-file token, before
/// continuations are joined.
#[verifier::rlimit(100)]
#[verifier::spinoff_prover]
pub fn lex_text(contents: String, filename: &str) -> (r: Result<Lexed, LexError>)
    requires
        contents@.len() < usize::MAX,
    ensures
        match r {
            Ok(l) => lex(contents@, filename@, 1, 1, None) == Ok::<LexedView, LexErrorView>(
                l.view(),
            ),
            Err(e) => lex(contents@, filename@, 1, 1, None) == Err::<LexedView, LexErrorView>(
                e.view(),
            ),
        },
{
    let ghost orig = contents@;
    let ghost file = filename@;
    let mut rest = contents;
    let total = rest.as_str().unicode_len();
    let mut tokens: Vec<Token> = Vec::new();
    let mut stray: Vec<Stray> = Vec::new();
    let mut row: usize = 1;
    let mut col: usize = 1;
    let ghost mut consumed: int = 0;
    proof {
        assert(token_views(tokens@) =~= seq![]);
        assert(stray_views(stray@) =~= seq![]);
        assert(orig.skip(0) =~= orig);
        if let Ok(v) = lex(orig, file, 1, 1, None) {
            assert(seq![] + v.0 =~= v.0);
            assert(seq![] + v.1 =~= v.1);
        }
    }
    while rest.as_str().unicode_len() > 0
        invariant
            orig == contents@,
            orig.len() == total,
            total < usize::MAX,
            file == filename@,
            0 <= consumed <= total,
            rest@ == orig.skip(consumed),
            1 <= row <= 1 + consumed,
            1 <= col <= 1 + consumed,
            lex(orig, file, 1, 1, None) == after(
                (token_views(tokens@), stray_views(stray@)),
                lex(rest@, file, row as nat, col as nat, last_kind(tokens@)),
            ),
        decreases rest@.len(),
    {
        let ghost s = rest@;
        let ghost d = (token_views(tokens@), stray_views(stray@));
        let last = if tokens.len() == 0 {
            None
        } else {
            Some(tokens[tokens.len() - 1].token_type)
        };
        assert(last == last_kind(tokens@));
        let c = rest.as_str().get_char(0);
        if is_whitespace(c) {
            chop_character(&mut rest);
            proof {
                consumed = consumed + 1;
                assert(rest@ =~= orig.skip(consumed));
            }
            if c == '\n' {
                if last.is_some() && last != Some(TokenType::LineEnd) {
                    let tok = Token {
                        token_type: TokenType::LineEnd,
                        value: String::from_str("LineEnd"),
                        loc: loc_at(filename, row, col),
                    };
                    proof {
                        assert(lex(s, file, row as nat, col as nat, last) == with_token(
                            tok.view(),
                            lex(rest@, file, (row + 1) as nat, 1, Some(TokenType::LineEnd)),
                        )) by {
                            reveal(lex);
                        }
                        lemma_after_token(
                            d,
                            tok.view(),
                            lex(rest@, file, (row + 1) as nat, 1, Some(TokenType::LineEnd)),
                        );
                    }
                    tokens.push(tok);
                    assert(token_views(tokens@) =~= d.0.push(tokens@.last().view()));
                } else {
                    assert(lex(s, file, row as nat, col as nat, last) == lex(
                        rest@,
                        file,
                        (row + 1) as nat,
                        1,
                        last,
                    )) by {
                        reveal(lex);
                    }
                }
                row += 1;
                col = 1;
            } else {
                assert(lex(s, file, row as nat, col as nat, last) == lex(
                    rest@,
                    file,
                    row as nat,
                    (col + 1) as nat,
                    last,
                )) by {
                    reveal(lex);
                }
                col += 1;
            }
        } else if is_ascii_alphabetic(c) {
            let tok = parse_word(&mut rest, loc_at(filename, row, col));
            let n = tok.value.as_str().unicode_len();
            proof {
                assert(lex(s, file, row as nat, col as nat, last) == with_token(
                    tok.view(),
                    lex(rest@, file, row as nat, (col + n) as nat, Some(TokenType::Word)),
                )) by {
                    reveal(lex);
                }
                lemma_after_token(
                    d,
                    tok.view(),
                    lex(rest@, file, row as nat, (col + n) as nat, Some(TokenType::Word)),
                );
                consumed = consumed + n;
                assert(rest@ =~= orig.skip(consumed));
            }
            col += n;
            tokens.push(tok);
            assert(token_views(tokens@) =~= d.0.push(tokens@.last().view()));
        } else if c == '"' {
            match parse_string(&mut rest, loc_at(filename, row, col)) {
                Ok(tok) => {
                    let n = tok.value.as_str().unicode_len();
                    proof {
                        assert(lex(s, file, row as nat, col as nat, last) == with_token(
                            tok.view(),
                            lex(rest@, file, row as nat, (col + n) as nat, Some(TokenType::EleStr)),
                        )) by {
                            reveal(lex);
                        }
                        lemma_after_token(
                            d,
                            tok.view(),
                            lex(rest@, file, row as nat, (col + n) as nat, Some(TokenType::EleStr)),
                        );
                        consumed = consumed + n;
                        assert(rest@ =~= orig.skip(consumed));
                    }
                    col += n;
                    tokens.push(tok);
                    assert(token_views(tokens@) =~= d.0.push(tokens@.last().view()));
                },
                Err(kind) => {
                    assert(lex(s, file, row as nat, col as nat, last) == Err::<
                        LexedView,
                        LexErrorView,
                    >((kind, row as nat, col as nat))) by {
                        reveal(lex);
                    }
                    return Err(LexError { kind, loc: loc_at(filename, row, col) });
                },
            }
        } else if is_ascii_digit(c) || c == '-' {
            match parse_digit(&mut rest, loc_at(filename, row, col)) {
                Ok(tok) => {
                    let n = tok.value.as_str().unicode_len();
                    let ghost kind = tok.token_type;
                    proof {
                        assert(lex(s, file, row as nat, col as nat, last) == with_token(
                            tok.view(),
                            lex(rest@, file, row as nat, (col + n) as nat, Some(kind)),
                        )) by {
                            reveal(lex);
                        }
                        lemma_after_token(
                            d,
                            tok.view(),
                            lex(rest@, file, row as nat, (col + n) as nat, Some(kind)),
                        );
                        consumed = consumed + n;
                        assert(rest@ =~= orig.skip(consumed));
                    }
                    col += n;
                    tokens.push(tok);
                    assert(token_views(tokens@) =~= d.0.push(tokens@.last().view()));
                },
                Err(kind) => {
                    assert(lex(s, file, row as nat, col as nat, last) == Err::<
                        LexedView,
                        LexErrorView,
                    >((kind, row as nat, col as nat))) by {
                        reveal(lex);
                    }
                    return Err(LexError { kind, loc: loc_at(filename, row, col) });
                },
            }
        } else if punctuation_of(c).is_some() {
            let token_type = punctuation_of(c).unwrap();
            chop_character(&mut rest);
            let tok = Token { token_type, value: one_char(c), loc: loc_at(filename, row, col) };
            proof {
                assert(lex(s, file, row as nat, col as nat, last) == with_token(
                    tok.view(),
                    lex(rest@, file, row as nat, (col + 1) as nat, Some(token_type)),
                )) by {
                    reveal(lex);
                }
                lemma_after_token(
                    d,
                    tok.view(),
                    lex(rest@, file, row as nat, (col + 1) as nat, Some(token_type)),
                );
                consumed = consumed + 1;
                assert(rest@ =~= orig.skip(consumed));
            }
            col += 1;
            tokens.push(tok);
            assert(token_views(tokens@) =~= d.0.push(tokens@.last().view()));
        } else if c == '%' && col == 1 {
            chop_character(&mut rest);
            let ghost s1 = rest@;
            let tok = parse_rpn_expr(&mut rest, loc_at(filename, row, col));
            proof {
                lemma_space_run_bound(s1);
                lemma_line_run_bound(s1.skip(space_run(s1) as int));
                assert(s.drop_first() == s1);
                assert(lex(s, file, row as nat, col as nat, last) == with_token(
                    tok.view(),
                    lex(rest@, file, (row + 1) as nat, 1, Some(TokenType::RpnExpr)),
                )) by {
                    reveal(lex);
                }
                lemma_after_token(
                    d,
                    tok.view(),
                    lex(rest@, file, (row + 1) as nat, 1, Some(TokenType::RpnExpr)),
                );
                consumed = consumed + (s.len() - rest@.len());
                assert(rest@ =~= orig.skip(consumed));
            }
            row += 1;
            col = 1;
            tokens.push(tok);
            assert(token_views(tokens@) =~= d.0.push(tokens@.last().view()));
        } else if c == '!' {
            let n = skip_line(&mut rest);
            proof {
                lemma_line_run_bound(s);
                consumed = consumed + n;
                assert(rest@ =~= orig.skip(consumed));
            }
            if last.is_some() && last != Some(TokenType::LineEnd) && last != Some(
                TokenType::LineJoin,
            ) {
                let tok = Token {
                    token_type: TokenType::LineEnd,
                    value: String::from_str("LineEnd"),
                    loc: loc_at(filename, row, col),
                };
                proof {
                    assert(lex(s, file, row as nat, col as nat, last) == with_token(
                        tok.view(),
                        lex(rest@, file, (row + 1) as nat, 1, Some(TokenType::LineEnd)),
                    )) by {
                        reveal(lex);
                    }
                    lemma_after_token(
                        d,
                        tok.view(),
                        lex(rest@, file, (row + 1) as nat, 1, Some(TokenType::LineEnd)),
                    );
                }
                tokens.push(tok);
                assert(token_views(tokens@) =~= d.0.push(tokens@.last().view()));
            } else {
                assert(lex(s, file, row as nat, col as nat, last) == lex(
                    rest@,
                    file,
                    (row + 1) as nat,
                    1,
                    last,
                )) by {
                    reveal(lex);
                }
            }
            row += 1;
            col = 1;
        } else {
            chop_character(&mut rest);
            let x = Stray { ch: c, loc: loc_at(filename, row, col) };
            proof {
                assert(lex(s, file, row as nat, col as nat, last) == with_stray(
                    x.view(),
                    lex(rest@, file, row as nat, col as nat, last),
                )) by {
                    reveal(lex);
                }
                lemma_after_stray(d, x.view(), lex(rest@, file, row as nat, col as nat, last));
                consumed = consumed + 1;
                assert(rest@ =~= orig.skip(consumed));
            }
            stray.push(x);
            assert(stray_views(stray@) =~= d.1.push(stray@.last().view()));
        }
    }
    let ghost d = (token_views(tokens@), stray_views(stray@));
    let eof = Token {
        token_type: TokenType::Eof,
        value: String::from_str("EOF"),
        loc: loc_at(filename, row, col),
    };
    proof {
        assert(lex(rest@, file, row as nat, col as nat, last_kind(tokens@)) == Ok::<
            LexedView,
            LexErrorView,
        >((seq![eof.view()], seq![]))) by {
            reveal(lex);
        }
        assert(d.0 + seq![eof.view()] =~= d.0.push(eof.view()));
        assert(d.1 + seq![] =~= d.1);
    }
    tokens.push(eof);
    assert(token_views(tokens@) =~= d.0.push(tokens@.last().view()));
    Ok(Lexed { tokens, stray })
}

/// Removes each `&` that stands right before a line end, together with
/// that line end, so that a continued statement reads as one line.
pub fn join_lines(tokens: &Vec<Token>) -> (r: Vec<Token>)
    ensures
        token_views(r@) == joined(token_views(tokens@), tokens@.len()),
{
    let ghost t = token_views(tokens@);
    let n = tokens.len();
    let mut out: Vec<Token> = Vec::new();
    let mut i: usize = 0;
    assert(token_views(out@) =~= seq![]);
    while i < n
        invariant
            t == token_views(tokens@),
            n == tokens@.len(),
            i <= n,
            token_views(out@) == joined(t, i as nat),
        decreases n - i,
    {
        let this = tokens[i].token_type;
        let next_is_end = i + 1 < n && tokens[i + 1].token_type == TokenType::LineEnd;
        let prev_is_join = i >= 1 && tokens[i - 1].token_type == TokenType::LineJoin;
        assert(t[i as int].0 == this);
        proof {
            if i + 1 < n {
                assert(t[i + 1].0 == tokens@[i + 1].token_type);
            }
            if i >= 1 {
                assert(t[i - 1].0 == tokens@[i - 1].token_type);
            }
        }
        if !((this == TokenType::LineJoin && next_is_end) || (this == TokenType::LineEnd
            && prev_is_join)) {
            let tok = clone_token(&tokens[i]);
            let ghost before = token_views(out@);
            out.push(tok);
            assert(token_views(out@) =~= before.push(t[i as int]));
        }
        i += 1;
    }
    out
}

/// Splits an already lower-case text into tokens and joins continued lines.
pub fn tokenize_text(contents: String, filename: &str) -> (r: Result<Lexed, LexError>)
    requires
        contents@.len() < usize::MAX,
    ensures
        match r {
            Ok(l) => tokenized(contents@, filename@) == Ok::<LexedView, LexErrorView>(l.view()),
            Err(e) => tokenized(contents@, filename@) == Err::<LexedView, LexErrorView>(e.view()),
        },
{
    let lexed = lex_text(contents, filename)?;
    let tokens = join_lines(&lexed.tokens);
    Ok(Lexed { tokens, stray: lexed.stray })
}

/// Splits the text of an imported lattice file into tokens. The text is
/// read in lower case, as the format does not distinguish case.
pub fn tokenize_file_contents(contents: &str, filename: &str) -> (r: Result<Lexed, LexError>)
    ensures
        lower_of(contents@).len() < usize::MAX ==> match r {
            Ok(l) => tokenized(lower_of(contents@), filename@) == Ok::<LexedView, LexErrorView>(
                l.view(),
            ),
            Err(e) => tokenized(lower_of(contents@), filename@) == Err::<
                LexedView,
                LexErrorView,
            >(e.view()),
        },
        lower_of(contents@).len() >= usize::MAX ==> (r matches Err(e) && e.kind
            == LexErrorKind::TooLong),
{
    let lowered = lowercase(contents);
    if lowered.as_str().unicode_len() == usize::MAX {
        return Err(LexError { kind: LexErrorKind::TooLong, loc: loc_at(filename, 1, 1) });
    }
    tokenize_text(lowered, filename)
}

} // verus!
