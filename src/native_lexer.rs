//! Lexer of the native lattice format: words, numbers, braces and colons,
//! with `//` line comments.
use vstd::prelude::*;
use vstd::string::*;
use crate::text::{
    char_at, chop_character, comment_len, is_alnum, is_alpha, is_ascii_alphabetic, is_ascii_digit,
    is_digit, is_space, is_whitespace, lemma_line_run_bound, push_char, skip_line, stray_views,
    FileLoc, LexError, LexErrorKind,
    LexErrorView, Stray, StrayView,
};

verus! {

#[derive(Debug, Clone, Copy, PartialEq, Eq, Structural)]
pub enum TokenType {
    Word,
    Value,
    Ocurly,
    Ccurly,
    Colon,
}

#[derive(Debug, Clone)]
pub struct Token {
    pub token_type: TokenType,
    pub value: String,
    pub loc: FileLoc,
}

/// Kind, text, file, line and column of a token.
pub type TokenView = (TokenType, Seq<char>, Seq<char>, nat, nat);

impl Token {
    pub open spec fn view(&self) -> TokenView {
        (self.token_type, self.value@, self.loc.filename@, self.loc.row as nat, self.loc.col as nat)
    }
}

pub open spec fn token_views(s: Seq<Token>) -> Seq<TokenView> {
    s.map_values(|t: Token| t.view())
}

/// Tokens and skipped characters, in the order of the text.
pub type LexedView = (Seq<TokenView>, Seq<StrayView>);

/// The result of lexing a whole text.
#[derive(Debug, Clone)]
pub struct Lexed {
    pub tokens: Vec<Token>,
    pub stray: Vec<Stray>,
}

impl Lexed {
    pub open spec fn view(&self) -> LexedView {
        (token_views(self.tokens@), stray_views(self.stray@))
    }
}

pub open spec fn is_word_char(c: char) -> bool {
    c == '_' || is_alnum(c)
}

/// How many leading characters of `s` may continue a word.
pub open spec fn word_run(s: Seq<char>) -> nat
    decreases s.len(),
{
    if s.len() > 0 && is_word_char(s[0]) {
        1 + word_run(s.drop_first())
    } else {
        0
    }
}

pub proof fn lemma_word_run_bound(s: Seq<char>)
    ensures
        word_run(s) <= s.len(),
    decreases s.len(),
{
    if s.len() > 0 && is_word_char(s[0]) {
        lemma_word_run_bound(s.drop_first());
    }
}

pub open spec fn shift_run(k: nat, r: Result<nat, LexErrorKind>) -> Result<nat, LexErrorKind> {
    match r {
        Ok(n) => Ok(n + k),
        Err(e) => Err(e),
    }
}

/// How many leading characters of `s` continue a number, given whether it
/// already holds a decimal point and an exponent marker.
pub open spec fn number_run(s: Seq<char>, dec: bool, exp: bool) -> Result<nat, LexErrorKind>
    decreases s.len(),
{
    if s.len() == 0 {
        Ok(0)
    } else if is_digit(s[0]) {
        shift_run(1, number_run(s.drop_first(), dec, exp))
    } else if s[0] == 'e' && s.len() > 1 && s[1] == '-' {
        if exp {
            Err(LexErrorKind::SecondExponent)
        } else {
            shift_run(2, number_run(s.skip(2), dec, true))
        }
    } else if s[0] == 'e' {
        if exp {
            Err(LexErrorKind::SecondExponent)
        } else {
            shift_run(1, number_run(s.drop_first(), dec, true))
        }
    } else if s[0] == '.' {
        if dec {
            Err(LexErrorKind::SecondDecimalPoint)
        } else {
            shift_run(1, number_run(s.drop_first(), true, exp))
        }
    } else {
        Ok(0)
    }
}

pub proof fn lemma_number_run_bound(s: Seq<char>, dec: bool, exp: bool)
    ensures
        number_run(s, dec, exp) matches Ok(n) ==> n <= s.len(),
    decreases s.len(),
{
    if s.len() == 0 {
    } else if is_digit(s[0]) {
        lemma_number_run_bound(s.drop_first(), dec, exp);
    } else if s[0] == 'e' && s.len() > 1 && s[1] == '-' {
        lemma_number_run_bound(s.skip(2), dec, true);
    } else if s[0] == 'e' {
        lemma_number_run_bound(s.drop_first(), dec, true);
    } else if s[0] == '.' {
        lemma_number_run_bound(s.drop_first(), true, exp);
    }
}

pub open spec fn with_token(t: TokenView, r: Result<LexedView, LexErrorView>) -> Result<
    LexedView,
    LexErrorView,
> {
    match r {
        Ok(v) => Ok((seq![t] + v.0, v.1)),
        Err(e) => Err(e),
    }
}

pub open spec fn with_stray(x: StrayView, r: Result<LexedView, LexErrorView>) -> Result<
    LexedView,
    LexErrorView,
> {
    match r {
        Ok(v) => Ok((v.0, seq![x] + v.1)),
        Err(e) => Err(e),
    }
}

pub open spec fn after(done: LexedView, r: Result<LexedView, LexErrorView>) -> Result<
    LexedView,
    LexErrorView,
> {
    match r {
        Ok(v) => Ok((done.0 + v.0, done.1 + v.1)),
        Err(e) => Err(e),
    }
}

/// The single-character tokens.
pub open spec fn punctuation(c: char) -> Option<TokenType> {
    if c == '{' {
        Some(TokenType::Ocurly)
    } else if c == '}' {
        Some(TokenType::Ccurly)
    } else if c == ':' {
        Some(TokenType::Colon)
    } else {
        None
    }
}

/// What lexing `s` gives when it starts at line `row`, column `col` of `file`.
pub open spec fn lex(s: Seq<char>, file: Seq<char>, row: nat, col: nat) -> Result<
    LexedView,
    LexErrorView,
>
    decreases s.len(),
{
    if s.len() == 0 {
        Ok((seq![], seq![]))
    } else {
        let c = s[0];
        if is_space(c) {
            if c == '\n' {
                lex(s.drop_first(), file, row + 1, 1)
            } else {
                lex(s.drop_first(), file, row, col + 1)
            }
        } else if is_alpha(c) {
            let n = 1 + word_run(s.drop_first());
            proof {
                lemma_word_run_bound(s.drop_first());
            }
            with_token((TokenType::Word, s.take((n) as int), file, row, col), lex(s.skip((n) as int), file, row, col + n))
        } else if is_digit(c) || c == '-' {
            proof {
                lemma_number_run_bound(s.drop_first(), false, false);
            }
            match number_run(s.drop_first(), false, false) {
                Ok(k) => with_token(
                    (TokenType::Value, s.take((k + 1) as int), file, row, col),
                    lex(s.skip((k + 1) as int), file, row, col + k + 1),
                ),
                Err(e) => Err((e, row, col)),
            }
        } else if punctuation(c) is Some {
            with_token(
                (punctuation(c)->0, seq![c], file, row, col),
                lex(s.drop_first(), file, row, col + 1),
            )
        } else if c == '/' && s.len() > 1 && s[1] == '/' {
            proof {
                lemma_line_run_bound(s);
            }
            lex(s.skip(comment_len(s) as int), file, row + 1, 1)
        } else {
            with_stray((c, file, row, col), lex(s.drop_first(), file, row, col))
        }
    }
}

/// Reads a word: the first character of `input` and then every character
/// that may continue a word.
pub fn parse_word(input: &mut String, loc: FileLoc) -> (r: Token)
    requires
        old(input)@.len() > 0,
    ensures
        ({
            let n = 1 + word_run(old(input)@.drop_first());
            &&& n <= old(input)@.len()
            &&& r.token_type == TokenType::Word
            &&& r.value@ == old(input)@.take((n) as int)
            &&& final(input)@ == old(input)@.skip((n) as int)
            &&& r.loc == loc
        }),
{
    proof {
        lemma_word_run_bound(old(input)@.drop_first());
    }
    let ghost orig = input@;
    let mut name = String::new();
    let c = chop_character(input);
    push_char(&mut name, c);
    loop
        invariant
            orig == old(input)@,
            orig.len() > 0,
            name@.len() >= 1,
            name@ + input@ == orig,
            word_run(orig.drop_first()) == (name@.len() - 1) + word_run(input@),
        ensures
            name@ + input@ == orig,
            word_run(input@) == 0,
        decreases input@.len(),
    {
        match char_at(input, 0) {
            Some(c) => {
                if c == '_' || is_ascii_alphabetic(c) || is_ascii_digit(c) {
                    let c = chop_character(input);
                    proof {
                        assert(name@.push(c) + input@ =~= orig);
                    }
                    push_char(&mut name, c);
                } else {
                    break;
                }
            },
            None => {
                break;
            },
        }
    }
    assert(orig.take(name@.len() as int) =~= name@);
    assert(orig.skip(name@.len() as int) =~= input@);
    Token { token_type: TokenType::Word, value: name, loc }
}

/// Reads a number: the first character of `input` (a digit or a minus sign)
/// and then digits, at most one decimal point and at most one exponent
/// marker `e` or `e-`.
pub fn parse_digit(input: &mut String, loc: FileLoc) -> (r: Result<Token, LexErrorKind>)
    requires
        old(input)@.len() > 0,
    ensures
        match number_run(old(input)@.drop_first(), false, false) {
            Ok(k) => {
                &&& k + 1 <= old(input)@.len()
                &&& r matches Ok(t)
                &&& t.token_type == TokenType::Value
                &&& t.value@ == old(input)@.take((k + 1) as int)
                &&& final(input)@ == old(input)@.skip((k + 1) as int)
                &&& t.loc == loc
            },
            Err(e) => r == Err::<Token, LexErrorKind>(e),
        },
{
    proof {
        lemma_number_run_bound(old(input)@.drop_first(), false, false);
    }
    let ghost orig = input@;
    let mut already_decimal = false;
    let mut already_exp = false;
    let mut value = String::new();
    let c = chop_character(input);
    push_char(&mut value, c);
    loop
        invariant
            orig == old(input)@,
            orig.len() > 0,
            value@.len() >= 1,
            value@ + input@ == orig,
            number_run(orig.drop_first(), false, false) == shift_run(
                (value@.len() - 1) as nat,
                number_run(input@, already_decimal, already_exp),
            ),
        ensures
            value@.len() >= 1,
            value@ + input@ == orig,
            number_run(orig.drop_first(), false, false) == shift_run(
                (value@.len() - 1) as nat,
                number_run(input@, already_decimal, already_exp),
            ),
            number_run(input@, already_decimal, already_exp) == Ok::<nat, LexErrorKind>(0),
        decreases input@.len(),
    {
        let c0 = char_at(input, 0);
        let c1 = char_at(input, 1);
        match c0 {
            None => {
                break;
            },
            Some(c) => {
                if is_ascii_digit(c) {
                    let c = chop_character(input);
                    assert(value@.push(c) + input@ =~= orig);
                    push_char(&mut value, c);
                } else if c == 'e' && c1 == Some('-') {
                    if already_exp {
                        return Err(LexErrorKind::SecondExponent);
                    }
                    already_exp = true;
                    let ghost before = input@;
                    let a = chop_character(input);
                    let b = chop_character(input);
                    assert(before.skip(2) =~= input@);
                    assert(value@.push(a).push(b) + input@ =~= orig);
                    push_char(&mut value, a);
                    push_char(&mut value, b);
                } else if c == 'e' {
                    if already_exp {
                        return Err(LexErrorKind::SecondExponent);
                    }
                    already_exp = true;
                    let c = chop_character(input);
                    assert(value@.push(c) + input@ =~= orig);
                    push_char(&mut value, c);
                } else if c == '.' {
                    if already_decimal {
                        return Err(LexErrorKind::SecondDecimalPoint);
                    }
                    already_decimal = true;
                    let c = chop_character(input);
                    assert(value@.push(c) + input@ =~= orig);
                    push_char(&mut value, c);
                } else {
                    break;
                }
            },
        }
    }
    assert(orig.take(value@.len() as int) =~= value@);
    assert(orig.skip(value@.len() as int) =~= input@);
    Ok(Token { token_type: TokenType::Value, value, loc })
}

} // verus!

verus! {

pub proof fn lemma_after_token(d: LexedView, t: TokenView, r: Result<LexedView, LexErrorView>)
    ensures
        after(d, with_token(t, r)) == after((d.0.push(t), d.1), r),
{
    if let Ok(v) = r {
        assert(d.0 + (seq![t] + v.0) =~= d.0.push(t) + v.0);
    }
}

pub proof fn lemma_after_stray(d: LexedView, x: StrayView, r: Result<LexedView, LexErrorView>)
    ensures
        after(d, with_stray(x, r)) == after((d.0, d.1.push(x)), r),
{
    if let Ok(v) = r {
        assert(d.1 + (seq![x] + v.1) =~= d.1.push(x) + v.1);
    }
}

pub fn loc_at(filename: &str, row: usize, col: usize) -> (r: FileLoc)
    ensures
        r.filename@ == filename@,
        r.row == row,
        r.col == col,
{
    FileLoc { filename: String::from_str(filename), row, col }
}

fn one_char(c: char) -> (r: String)
    ensures
        r@ == seq![c],
{
    let mut s = String::new();
    push_char(&mut s, c);
    assert(s@ =~= seq![c]);
    s
}

/// Splits the text of a native lattice file into tokens. Characters that
/// start no token are skipped and reported in `stray`; a malformed number
/// is an error.
pub fn tokenize_file_contents(contents: String, filename: &str) -> (r: Result<Lexed, LexError>)
    requires
        contents@.len() < usize::MAX,
    ensures
        match r {
            Ok(l) => lex(contents@, filename@, 1, 1) == Ok::<LexedView, LexErrorView>(l.view()),
            Err(e) => lex(contents@, filename@, 1, 1) == Err::<LexedView, LexErrorView>(e.view()),
        },
{
    let ghost orig = contents@;
    let ghost file = filename@;
    let mut rest = contents;
    let total = rest.as_str().unicode_len();
    let mut tokens: Vec<Token> = Vec::new();
    let mut stray: Vec<Stray> = Vec::new();
    let mut row: usize = 1;
    let mut col: usize = 1;
    let ghost mut consumed: int = 0;
    proof {
        assert(token_views(tokens@) =~= seq![]);
        assert(stray_views(stray@) =~= seq![]);
        assert(orig.skip(0) =~= orig);
        if let Ok(v) = lex(orig, file, 1, 1) {
            assert(seq![] + v.0 =~= v.0);
            assert(seq![] + v.1 =~= v.1);
        }
    }
    while rest.as_str().unicode_len() > 0
        invariant
            orig == contents@,
            orig.len() == total,
            total < usize::MAX,
            file == filename@,
            0 <= consumed <= total,
            rest@ == orig.skip(consumed),
            1 <= row <= 1 + consumed,
            1 <= col <= 1 + consumed,
            lex(orig, file, 1, 1) == after(
                (token_views(tokens@), stray_views(stray@)),
                lex(rest@, file, row as nat, col as nat),
            ),
        decreases rest@.len(),
    {
        let ghost s = rest@;
        let ghost d = (token_views(tokens@), stray_views(stray@));
        let c = rest.as_str().get_char(0);
        let c1 = char_at(&rest, 1);
        if is_whitespace(c) {
            chop_character(&mut rest);
            proof {
                consumed = consumed + 1;
                assert(rest@ =~= orig.skip(consumed));
            }
            if c == '\n' {
                row += 1;
                col = 1;
            } else {
                col += 1;
            }
        } else if is_ascii_alphabetic(c) {
            let loc = loc_at(filename, row, col);
            let tok = parse_word(&mut rest, loc);
            let n = tok.value.as_str().unicode_len();
            proof {
                lemma_after_token(d, tok.view(), lex(rest@, file, row as nat, (col + n) as nat));
                consumed = consumed + n;
                assert(rest@ =~= orig.skip(consumed));
            }
            col += n;
            tokens.push(tok);
            assert(token_views(tokens@) =~= d.0.push(tokens@.last().view()));
        } else if is_ascii_digit(c) || c == '-' {
            let loc = loc_at(filename, row, col);
            match parse_digit(&mut rest, loc) {
                Ok(tok) => {
                    let n = tok.value.as_str().unicode_len();
                    proof {
                        lemma_after_token(
                            d,
                            tok.view(),
                            lex(rest@, file, row as nat, (col + n) as nat),
                        );
                        consumed = consumed + n;
                        assert(rest@ =~= orig.skip(consumed));
                    }
                    col += n;
                    tokens.push(tok);
                    assert(token_views(tokens@) =~= d.0.push(tokens@.last().view()));
                },
                Err(kind) => {
                    assert(lex(s, file, row as nat, col as nat) == Err::<LexedView, LexErrorView>(
                        (kind, row as nat, col as nat),
                    ));
                    return Err(LexError { kind, loc: loc_at(filename, row, col) });
                },
            }
        } else if c == '{' || c == '}' || c == ':' {
            chop_character(&mut rest);
            let token_type = if c == '{' {
                TokenType::Ocurly
            } else if c == '}' {
                TokenType::Ccurly
            } else {
                TokenType::Colon
            };
            let tok = Token { token_type, value: one_char(c), loc: loc_at(filename, row, col) };
            proof {
                lemma_after_token(d, tok.view(), lex(rest@, file, row as nat, (col + 1) as nat));
                consumed = consumed + 1;
                assert(rest@ =~= orig.skip(consumed));
            }
            col += 1;
            tokens.push(tok);
            assert(token_views(tokens@) =~= d.0.push(tokens@.last().view()));
        } else if c == '/' && c1 == Some('/') {
            let n = skip_line(&mut rest);
            proof {
                lemma_line_run_bound(s);
                consumed = consumed + n;
                assert(rest@ =~= orig.skip(consumed));
            }
            row += 1;
            col = 1;
        } else {
            chop_character(&mut rest);
            let x = Stray { ch: c, loc: loc_at(filename, row, col) };
            proof {
                lemma_after_stray(d, x.view(), lex(rest@, file, row as nat, col as nat));
                consumed = consumed + 1;
                assert(rest@ =~= orig.skip(consumed));
            }
            stray.push(x);
            assert(stray_views(stray@) =~= d.1.push(stray@.last().view()));
        }
    }
    proof {
        let d = (token_views(tokens@), stray_views(stray@));
        assert(d.0 + seq![] =~= d.0);
        assert(d.1 + seq![] =~= d.1);
    }
    Ok(Lexed { tokens, stray })
}

} // verus!
