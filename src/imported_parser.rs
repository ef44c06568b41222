//! Parser of the imported lattice format. Statements become element
//! templates, ignored names and named lines in a `Library`; expression
//! parameters and `%` lines become the steps of an expression program, in
//! the order in which they are to be evaluated.
use vstd::prelude::*;
use crate::imported_lexer::{clone_token, token_views, Token, TokenType, TokenView};
use crate::text::{strip_quotes, text_is, unquoted};

verus! {

#[derive(Debug, Clone, Copy, PartialEq, Eq, Structural)]
pub enum ImportErrorKind {
    /// The tokens end inside a statement.
    UnexpectedEnd,
    /// A statement has no line end after it.
    UnterminatedStatement,
    /// A statement does not start with a name.
    ExpectedName,
    /// A statement's name is not followed by a colon.
    ExpectedColon,
    /// A statement's colon is not followed by a keyword.
    ExpectedKeyword,
    /// A statement's keyword is not known.
    UnknownKeyword,
    /// A parameter is not of the form `name = value`.
    MalformedParameter,
    /// A `line` statement has no opening parenthesis.
    ExpectedOparen,
    /// A member of a `line` is neither a word nor a quoted name.
    ExpectedMember,
    /// A `line` statement goes on after its closing parenthesis.
    ExpectedLineEnd,
    /// A token that starts no statement.
    CannotHandle,
}

/// What went wrong, at which token of the list that was given.
#[derive(Debug, Clone, Copy, PartialEq, Eq, Structural)]
pub struct ImportError {
    pub kind: ImportErrorKind,
    pub at: usize,
}

pub type ImportErrorView = (ImportErrorKind, nat);

impl ImportError {
    pub open spec fn view(&self) -> ImportErrorView {
        (self.kind, self.at as nat)
    }
}

/// A parameter's value: a number as written, or the index of the
/// expression-program step whose result it takes.
#[derive(Debug, Clone)]
pub enum ParamValue {
    Number(String),
    Expr(usize),
}

pub enum ValueView {
    Number(Seq<char>),
    Expr(nat),
}

impl ParamValue {
    pub open spec fn view(&self) -> ValueView {
        match self {
            ParamValue::Number(s) => ValueView::Number(s@),
            ParamValue::Expr(k) => ValueView::Expr(*k as nat),
        }
    }
}

#[derive(Debug, Clone)]
pub struct Param {
    pub name: String,
    pub value: ParamValue,
}

pub type ParamView = (Seq<char>, ValueView);

impl Param {
    pub open spec fn view(&self) -> ParamView {
        (self.name@, self.value.view())
    }
}

pub open spec fn param_views(s: Seq<Param>) -> Seq<ParamView> {
    s.map_values(|p: Param| p.view())
}

/// The kind of a statement, before energies are known.
#[derive(Debug, Clone)]
pub enum IntermedType {
    Drift,
    AccCav,
    Kick,
    Moni,
    Bend,
    Quad,
    Sext,
    Line(Vec<String>),
    Ignore,
}

pub enum KindView {
    Drift,
    AccCav,
    Kick,
    Moni,
    Bend,
    Quad,
    Sext,
    Line(Seq<Seq<char>>),
    Ignore,
}

pub open spec fn texts(s: Seq<String>) -> Seq<Seq<char>> {
    s.map_values(|x: String| x@)
}

impl IntermedType {
    pub open spec fn view(&self) -> KindView {
        match self {
            IntermedType::Drift => KindView::Drift,
            IntermedType::AccCav => KindView::AccCav,
            IntermedType::Kick => KindView::Kick,
            IntermedType::Moni => KindView::Moni,
            IntermedType::Bend => KindView::Bend,
            IntermedType::Quad => KindView::Quad,
            IntermedType::Sext => KindView::Sext,
            IntermedType::Line(v) => KindView::Line(texts(v@)),
            IntermedType::Ignore => KindView::Ignore,
        }
    }
}

/// A named statement: its kind and parameters.
#[derive(Debug, Clone)]
pub struct ElegantElement {
    pub name: String,
    pub intermed_type: IntermedType,
    pub params: Vec<Param>,
}

pub type ElementView = (Seq<char>, KindView, Seq<ParamView>);

impl ElegantElement {
    pub open spec fn view(&self) -> ElementView {
        (self.name@, self.intermed_type.view(), param_views(self.params@))
    }
}

pub open spec fn element_views(s: Seq<ElegantElement>) -> Seq<ElementView> {
    s.map_values(|e: ElegantElement| e.view())
}

/// A step of the expression program: its text, and whether its result is
/// taken as a parameter value (a `%` line only updates the store).
#[derive(Debug, Clone)]
pub struct RpnStep {
    pub text: String,
    pub yields_value: bool,
}

pub type StepView = (Seq<char>, bool);

pub open spec fn step_views(s: Seq<RpnStep>) -> Seq<StepView> {
    s.map_values(|x: RpnStep| (x.text@, x.yields_value))
}

/// A named line and the names it holds.
#[derive(Debug, Clone)]
pub struct LineDef {
    pub name: String,
    pub members: Vec<String>,
}

pub type LineView = (Seq<char>, Seq<Seq<char>>);

pub open spec fn line_views(s: Seq<LineDef>) -> Seq<LineView> {
    s.map_values(|l: LineDef| (l.name@, texts(l.members@)))
}

/// Element templates, ignored names and lines, each in the order in which
/// they were defined (a later definition of a name wins), and the
/// expression program.
#[derive(Debug, Clone)]
pub struct Library {
    pub elements: Vec<ElegantElement>,
    pub ignored: Vec<String>,
    pub lines: Vec<LineDef>,
    pub program: Vec<RpnStep>,
}

pub type LibView = (Seq<ElementView>, Seq<Seq<char>>, Seq<LineView>, Seq<StepView>);

impl Library {
    pub open spec fn view(&self) -> LibView {
        (
            element_views(self.elements@),
            texts(self.ignored@),
            line_views(self.lines@),
            step_views(self.program@),
        )
    }
}

/// Parameters that name files or columns, which are passed over.
pub open spec fn ignored_param(name: Seq<char>) -> bool {
    name == "zwake"@ || name == "trwake"@ || name == "zwakefile"@ || name == "tcolumn"@ || name
        == "wzcolumn"@ || name == "trwakefile"@ || name == "wxcolumn"@ || name == "wycolumn"@
        || name == "systematic_multipoles"@ || name == "insert_from"@ || name == "output_file"@
}

pub open spec fn is_name_token(k: TokenType) -> bool {
    k == TokenType::Word || k == TokenType::EleStr
}

/// Parameters from token `i` of a statement up to its line end, with the
/// texts of the expressions they hold; `next` is the program index that
/// the first of those expressions gets.
pub open spec fn params_from(t: Seq<TokenView>, i: nat, next: nat) -> Result<
    (Seq<ParamView>, Seq<Seq<char>>),
    ImportErrorView,
>
    decreases t.len() + 3 - i,
{
    if i >= t.len() {
        Err((ImportErrorKind::UnexpectedEnd, t.len()))
    } else if t[i as int].0 == TokenType::LineEnd {
        Ok((seq![], seq![]))
    } else if t[i as int].0 == TokenType::Comma {
        params_from(t, i + 1, next)
    } else if ignored_param(t[i as int].1) {
        params_from(t, i + 3, next)
    } else if i + 2 >= t.len() {
        Err((ImportErrorKind::UnexpectedEnd, t.len()))
    } else if t[i as int].0 != TokenType::Word || t[(i + 1) as int].0 != TokenType::Assign || !(t[(i + 2) as int].0 == TokenType::Value || t[(i + 2) as int].0 == TokenType::EleStr) {
        Err((ImportErrorKind::MalformedParameter, i))
    } else if t[(i + 2) as int].0 == TokenType::Value {
        match params_from(t, i + 3, next) {
            Ok((ps, es)) => Ok((seq![(t[i as int].1, ValueView::Number(t[(i + 2) as int].1))] + ps, es)),
            Err(e) => Err(e),
        }
    } else {
        match params_from(t, i + 3, next + 1) {
            Ok((ps, es)) => Ok(
                (
                    seq![(t[i as int].1, ValueView::Expr(next))] + ps,
                    seq![unquoted(t[(i + 2) as int].1)] + es,
                ),
            ),
            Err(e) => Err(e),
        }
    }
}

pub open spec fn has_param(ps: Seq<ParamView>, name: Seq<char>) -> bool {
    exists|k: int| 0 <= k < ps.len() && #[trigger] ps[k].0 == name
}

/// The parameters of a statement: those after its fourth token, and a zero
/// length `l` when none is given.
pub open spec fn param_list(t: Seq<TokenView>, next: nat) -> Result<
    (Seq<ParamView>, Seq<Seq<char>>),
    ImportErrorView,
> {
    let r = if t.len() > 4 {
        params_from(t, 4, next)
    } else {
        Ok((seq![], seq![]))
    };
    match r {
        Ok((ps, es)) => Ok(
            (
                if has_param(ps, "l"@) {
                    ps
                } else {
                    ps.push(("l"@, ValueView::Number("0"@)))
                },
                es,
            ),
        ),
        Err(e) => Err(e),
    }
}

/// Names of a line from token `i` to its closing parenthesis, which must
/// end the statement.
pub open spec fn members_from(t: Seq<TokenView>, i: nat) -> Result<Seq<Seq<char>>, ImportErrorView>
    decreases t.len() - i,
{
    if i >= t.len() {
        Err((ImportErrorKind::UnexpectedEnd, t.len()))
    } else if t[i as int].0 == TokenType::Cparen {
        if i + 1 >= t.len() {
            Err((ImportErrorKind::UnexpectedEnd, t.len()))
        } else if t[(i + 1) as int].0 != TokenType::LineEnd {
            Err((ImportErrorKind::ExpectedLineEnd, i + 1))
        } else {
            Ok(seq![])
        }
    } else if t[i as int].0 == TokenType::Comma {
        members_from(t, i + 1)
    } else if !is_name_token(t[i as int].0) {
        Err((ImportErrorKind::ExpectedMember, i))
    } else {
        match members_from(t, i + 1) {
            Ok(ms) => Ok(seq![unquoted(t[i as int].1)] + ms),
            Err(e) => Err(e),
        }
    }
}

/// The kinds that statement keywords map to.
#[derive(Debug, Clone, Copy, PartialEq, Eq, Structural)]
pub enum Keyword {
    Ignore,
    Drift,
    AccCav,
    Quad,
    Kick,
    Moni,
    Bend,
    Sext,
    Line,
}

pub open spec fn keyword_of(k: Seq<char>) -> Option<Keyword> {
    if k == "charge"@ || k == "magnify"@ || k == "malign"@ || k == "watch"@ || k == "watchpoint"@
        || k == "mark"@ {
        Some(Keyword::Ignore)
    } else if k == "drift"@ || k == "marker"@ || k == "scraper"@ || k == "ecol"@ || k
        == "wiggler"@ {
        Some(Keyword::Drift)
    } else if k == "rfcw"@ || k == "rfdf"@ {
        Some(Keyword::AccCav)
    } else if k == "kquad"@ {
        Some(Keyword::Quad)
    } else if k == "hkick"@ || k == "vkick"@ {
        Some(Keyword::Kick)
    } else if k == "monitor"@ || k == "moni"@ {
        Some(Keyword::Moni)
    } else if k == "csrcsbend"@ || k == "rben"@ || k == "sben"@ || k == "sbend"@ {
        Some(Keyword::Bend)
    } else if k == "ksext"@ {
        Some(Keyword::Sext)
    } else if k == "line"@ {
        Some(Keyword::Line)
    } else {
        None
    }
}

/// The template kind of a keyword that takes parameters.
pub open spec fn template_kind(k: Keyword) -> KindView {
    match k {
        Keyword::Drift => KindView::Drift,
        Keyword::AccCav => KindView::AccCav,
        Keyword::Quad => KindView::Quad,
        Keyword::Kick => KindView::Kick,
        Keyword::Moni => KindView::Moni,
        Keyword::Bend => KindView::Bend,
        Keyword::Sext => KindView::Sext,
        Keyword::Line => KindView::Line(seq![]),
        Keyword::Ignore => KindView::Ignore,
    }
}

/// The element that the tokens of one statement (ending with its line end)
/// define, with the texts of the expressions its parameters hold.
pub open spec fn statement(t: Seq<TokenView>, next: nat) -> Result<
    (ElementView, Seq<Seq<char>>),
    ImportErrorView,
> {
    if t.len() < 3 {
        Err((ImportErrorKind::UnexpectedEnd, t.len()))
    } else if !is_name_token(t[0].0) {
        Err((ImportErrorKind::ExpectedName, 0))
    } else if t[1].0 != TokenType::Colon {
        Err((ImportErrorKind::ExpectedColon, 1))
    } else if t[2].0 != TokenType::Word {
        Err((ImportErrorKind::ExpectedKeyword, 2))
    } else {
        let name = unquoted(t[0].1);
        match keyword_of(t[2].1) {
            None => Err((ImportErrorKind::UnknownKeyword, 2)),
            Some(Keyword::Ignore) => Ok(((name, KindView::Ignore, seq![]), seq![])),
            Some(Keyword::Line) => {
                if t.len() <= 4 {
                    Err((ImportErrorKind::UnexpectedEnd, t.len()))
                } else if t[4].0 != TokenType::Oparen {
                    Err((ImportErrorKind::ExpectedOparen, 4))
                } else {
                    match members_from(t, 5) {
                        Ok(ms) => Ok(((name, KindView::Line(ms), seq![]), seq![])),
                        Err(e) => Err(e),
                    }
                }
            },
            Some(k) => match param_list(t, next) {
                Ok((ps, es)) => Ok(((name, template_kind(k), ps), es)),
                Err(e) => Err(e),
            },
        }
    }
}

/// The index of the first line end at or after `i`.
pub open spec fn line_end_from(t: Seq<TokenView>, i: nat) -> Option<nat>
    decreases t.len() - i,
{
    if i >= t.len() {
        None
    } else if t[i as int].0 == TokenType::LineEnd {
        Some(i)
    } else {
        line_end_from(t, i + 1)
    }
}

pub proof fn lemma_line_end_from(t: Seq<TokenView>, i: nat)
    ensures
        line_end_from(t, i) matches Some(j) ==> i <= j < t.len() && t[j as int].0
            == TokenType::LineEnd,
        line_end_from(t, i) is None ==> forall|k: int| i <= k < t.len() ==> t[k].0
            != TokenType::LineEnd,
    decreases t.len() - i,
{
    if i < t.len() && t[i as int].0 != TokenType::LineEnd {
        lemma_line_end_from(t, i + 1);
    }
}

/// The first index at or after `i` that is not a line end.
pub open spec fn skip_line_ends(t: Seq<TokenView>, i: nat) -> nat
    decreases t.len() - i,
{
    if i < t.len() && t[i as int].0 == TokenType::LineEnd {
        skip_line_ends(t, i + 1)
    } else {
        i
    }
}

pub proof fn lemma_skip_line_ends(t: Seq<TokenView>, i: nat)
    ensures
        i <= skip_line_ends(t, i),
        skip_line_ends(t, i) > i ==> skip_line_ends(t, i) <= t.len(),
    decreases t.len() - i,
{
    if i < t.len() && t[i as int].0 == TokenType::LineEnd {
        lemma_skip_line_ends(t, i + 1);
    }
}

/// The library with one more statement's element and expressions.
pub open spec fn store(lib: LibView, e: ElementView, es: Seq<Seq<char>>) -> LibView {
    let program = lib.3 + es.map_values(|x: Seq<char>| (x, true));
    match e.1 {
        KindView::Ignore => (lib.0, lib.1.push(e.0), lib.2, program),
        KindView::Line(ms) => (lib.0, lib.1, lib.2.push((e.0, ms)), program),
        _ => (lib.0.push(e), lib.1, lib.2, program),
    }
}

/// What reading the tokens from `i` on adds to `lib`.
pub open spec fn library_from(t: Seq<TokenView>, i: nat, lib: LibView) -> Result<
    LibView,
    ImportErrorView,
>
    decreases t.len() - i,
{
    if i >= t.len() {
        Ok(lib)
    } else if t[i as int].0 == TokenType::RpnExpr {
        proof {
            lemma_skip_line_ends(t, i + 1);
        }
        library_from(
            t,
            skip_line_ends(t, i + 1),
            (lib.0, lib.1, lib.2, lib.3.push((t[i as int].1, false))),
        )
    } else if is_name_token(t[i as int].0) && i + 1 >= t.len() {
        Err((ImportErrorKind::UnexpectedEnd, t.len()))
    } else if is_name_token(t[i as int].0) && t[(i + 1) as int].0 == TokenType::Colon {
        proof {
            lemma_line_end_from(t, i);
        }
        match line_end_from(t, i) {
            None => Err((ImportErrorKind::UnterminatedStatement, i)),
            Some(j) => match statement(t.subrange(i as int, (j + 1) as int), lib.3.len()) {
                Err((k, at)) => Err((k, i + at)),
                Ok((e, es)) => {
                    proof {
                        lemma_skip_line_ends(t, j + 1);
                    }
                    library_from(t, skip_line_ends(t, j + 1), store(lib, e, es))
                },
            },
        }
    } else if t[i as int].0 == TokenType::Eof {
        Ok(lib)
    } else {
        Err((ImportErrorKind::CannotHandle, i))
    }
}

} // verus!

verus! {

/// Whether token `ind` has kind `tok_type`.
pub fn compare_tokentype_at(token_list: &[Token], ind: usize, tok_type: TokenType) -> (r: bool)
    requires
        ind < token_list@.len(),
    ensures
        r == (token_views(token_list@)[ind as int].0 == tok_type),
{
    token_list[ind].token_type == tok_type
}

/// The tokens of the statement that starts at `*ind`, up to and including
/// its line end; `*ind` is left on that line end.
pub fn get_tokens_for_next_ele(token_list: &[Token], ind: &mut usize) -> (r: Vec<Token>)
    requires
        line_end_from(token_views(token_list@), *old(ind) as nat) is Some,
    ensures
        line_end_from(token_views(token_list@), *old(ind) as nat) == Some(*final(ind) as nat),
        token_views(r@) == token_views(token_list@).subrange(
            *old(ind) as int,
            *final(ind) + 1,
        ),
{
    let ghost t = token_views(token_list@);
    let ghost start = *ind;
    proof {
        lemma_line_end_from(t, start as nat);
    }
    let mut out: Vec<Token> = Vec::new();
    assert(token_views(out@) =~= t.subrange(start as int, start as int));
    while token_list[*ind].token_type != TokenType::LineEnd
        invariant
            t == token_views(token_list@),
            start <= *ind,
            line_end_from(t, start as nat) == line_end_from(t, *ind as nat),
            line_end_from(t, *ind as nat) is Some,
            *ind < token_list@.len(),
            token_views(out@) == t.subrange(start as int, *ind as int),
        decreases token_list@.len() - *ind,
    {
        proof {
            lemma_line_end_from(t, (*ind + 1) as nat);
        }
        let tok = clone_token(&token_list[*ind]);
        let ghost before = token_views(out@);
        assert(t[*ind as int] == token_list@[*ind as int].view());
        out.push(tok);
        assert(token_views(out@) =~= before.push(t[*ind as int]));
        assert(token_views(out@) =~= t.subrange(start as int, *ind + 1));
        *ind += 1;
        proof {
            lemma_line_end_from(t, *ind as nat);
        }
    }
    let tok = clone_token(&token_list[*ind]);
    let ghost before = token_views(out@);
    assert(t[*ind as int] == token_list@[*ind as int].view());
    out.push(tok);
    assert(token_views(out@) =~= before.push(t[*ind as int]));
    assert(token_views(out@) =~= t.subrange(start as int, *ind + 1));
    out
}

fn clone_text(s: &String) -> (r: String)
    ensures
        r@ == s@,
{
    s.clone()
}

/// Whether a parameter names a file or a column, and is passed over.
pub fn is_ignored_param(name: &String) -> (r: bool)
    ensures
        r == ignored_param(name@),
{
    text_is(name, "zwake") || text_is(name, "trwake") || text_is(name, "zwakefile") || text_is(
        name,
        "tcolumn",
    ) || text_is(name, "wzcolumn") || text_is(name, "trwakefile") || text_is(name, "wxcolumn")
        || text_is(name, "wycolumn") || text_is(name, "systematic_multipoles") || text_is(
        name,
        "insert_from",
    ) || text_is(name, "output_file")
}

pub open spec fn prepend_params(
    ps: Seq<ParamView>,
    es: Seq<Seq<char>>,
    r: Result<(Seq<ParamView>, Seq<Seq<char>>), ImportErrorView>,
) -> Result<(Seq<ParamView>, Seq<Seq<char>>), ImportErrorView> {
    match r {
        Ok((qs, fs)) => Ok((ps + qs, es + fs)),
        Err(e) => Err(e),
    }
}

pub open spec fn value_steps(es: Seq<Seq<char>>) -> Seq<StepView> {
    es.map_values(|x: Seq<char>| (x, true))
}

fn has_length_param(params: &Vec<Param>) -> (r: bool)
    ensures
        r == has_param(param_views(params@), "l"@),
{
    let mut i: usize = 0;
    while i < params.len()
        invariant
            i <= params@.len(),
            forall|k: int| 0 <= k < i ==> (#[trigger] param_views(params@)[k]).0 != "l"@,
        decreases params@.len() - i,
    {
        if text_is(&params[i].name, "l") {
            assert(param_views(params@)[i as int].0 == "l"@);
            return true;
        }
        i += 1;
    }
    false
}

/// The parameters of a statement whose tokens end with its line end. Each
/// expression parameter adds a step to `program`; a zero length `l` is added
/// when none is given.
pub fn get_param_list(token_list: &[Token], program: &mut Vec<RpnStep>) -> (r: Result<
    Vec<Param>,
    ImportError,
>)
    ensures
        match param_list(token_views(token_list@), old(program)@.len()) {
            Ok((ps, es)) => r matches Ok(v) && param_views(v@) == ps && step_views(final(program)@)
                == step_views(old(program)@) + value_steps(es),
            Err(e) => r matches Err(x) && x.view() == e,
        },
{
    let ghost t = token_views(token_list@);
    let ghost n0 = program@.len();
    let mut params: Vec<Param> = Vec::new();
    let ghost mut exprs: Seq<Seq<char>> = seq![];
    assert(param_views(params@) =~= seq![]);
    assert(step_views(program@) =~= step_views(old(program)@) + value_steps(exprs));
    if token_list.len() > 4 {
        let mut ind: usize = 4;
        proof {
            let r = params_from(t, 4, n0);
            if let Ok((qs, fs)) = r {
                assert(seq![] + qs =~= qs);
                assert(seq![] + fs =~= fs);
            }
        }
        loop
            invariant
                t == token_views(token_list@),
                t.len() == token_list@.len(),
                t.len() > 4,
                n0 == old(program)@.len(),
                4 <= ind <= token_list@.len(),
                step_views(program@) == step_views(old(program)@) + value_steps(exprs),
                program@.len() == n0 + exprs.len(),
                params_from(t, 4, n0) == prepend_params(
                    param_views(params@),
                    exprs,
                    params_from(t, ind as nat, n0 + exprs.len()),
                ),
            ensures
                step_views(program@) == step_views(old(program)@) + value_steps(exprs),
                params_from(t, 4, n0) == Ok::<
                    (Seq<ParamView>, Seq<Seq<char>>),
                    ImportErrorView,
                >((param_views(params@), exprs)),
            decreases token_list@.len() - ind,
        {
            if ind >= token_list.len() {
                return Err(ImportError { kind: ImportErrorKind::UnexpectedEnd, at: token_list.len() });
            }
            assert(t[ind as int] == token_list@[ind as int].view());
            let kind = token_list[ind].token_type;
            if kind == TokenType::LineEnd {
                proof {
                    assert(param_views(params@) + seq![] =~= param_views(params@));
                    assert(exprs + seq![] =~= exprs);
                }
                break;
            }
            if kind == TokenType::Comma {
                ind += 1;
                continue;
            }
            if is_ignored_param(&token_list[ind].value) {
                if token_list.len() - ind <= 3 {
                    assert(params_from(t, (ind + 3) as nat, n0 + exprs.len()) == Err::<
                        (Seq<ParamView>, Seq<Seq<char>>),
                        ImportErrorView,
                    >((ImportErrorKind::UnexpectedEnd, t.len())));
                    return Err(
                        ImportError { kind: ImportErrorKind::UnexpectedEnd, at: token_list.len() },
                    );
                }
                ind += 3;
                continue;
            }
            if token_list.len() - ind <= 2 {
                return Err(ImportError { kind: ImportErrorKind::UnexpectedEnd, at: token_list.len() });
            }
            assert(t[ind + 1] == token_list@[ind + 1].view());
            assert(t[ind + 2] == token_list@[ind + 2].view());
            let vkind = token_list[ind + 2].token_type;
            if kind != TokenType::Word || token_list[ind + 1].token_type != TokenType::Assign || !(
            vkind == TokenType::Value || vkind == TokenType::EleStr) {
                return Err(ImportError { kind: ImportErrorKind::MalformedParameter, at: ind });
            }
            let name = clone_text(&token_list[ind].value);
            let ghost before = param_views(params@);
            if vkind == TokenType::Value {
                let p = Param { name, value: ParamValue::Number(clone_text(&token_list[ind + 2].value)) };
                proof {
                    let r = params_from(t, (ind + 3) as nat, n0 + exprs.len());
                    if let Ok((qs, fs)) = r {
                        assert(before + (seq![p.view()] + qs) =~= before.push(p.view()) + qs);
                    }
                }
                let ghost pv = p.view();
                params.push(p);
                assert(param_views(params@) =~= before.push(pv));
            } else {
                let text = strip_quotes(&token_list[ind + 2].value);
                let k = program.len();
                let ghost tv = text@;
                let ghost steps0 = step_views(program@);
                program.push(RpnStep { text, yields_value: true });
                let p = Param { name, value: ParamValue::Expr(k) };
                proof {
                    let r = params_from(t, (ind + 3) as nat, n0 + exprs.len() + 1);
                    if let Ok((qs, fs)) = r {
                        assert(before + (seq![p.view()] + qs) =~= before.push(p.view()) + qs);
                        assert(exprs + (seq![tv] + fs) =~= exprs.push(tv) + fs);
                    }
                    assert(step_views(program@) =~= steps0.push((tv, true)));
                    assert(value_steps(exprs.push(tv)) =~= value_steps(exprs).push((tv, true)));
                    exprs = exprs.push(tv);
                }
                let ghost pv = p.view();
                params.push(p);
                assert(param_views(params@) =~= before.push(pv));
            }
            ind += 3;
        }
    } else {
        assert(exprs =~= seq![]);
    }
    if !has_length_param(&params) {
        let ghost before = param_views(params@);
        params.push(Param { name: String::from_str("l"), value: ParamValue::Number(String::from_str("0")) });
        assert(param_views(params@) =~= before.push(("l"@, ValueView::Number("0"@))));
    }
    Ok(params)
}

} // verus!

verus! {

/// The kind that a statement keyword maps to.
pub fn keyword_kind(k: &String) -> (r: Option<Keyword>)
    ensures
        r == keyword_of(k@),
{
    if text_is(k, "charge") || text_is(k, "magnify") || text_is(k, "malign") || text_is(k, "watch")
        || text_is(k, "watchpoint") || text_is(k, "mark") {
        Some(Keyword::Ignore)
    } else if text_is(k, "drift") || text_is(k, "marker") || text_is(k, "scraper") || text_is(
        k,
        "ecol",
    ) || text_is(k, "wiggler") {
        Some(Keyword::Drift)
    } else if text_is(k, "rfcw") || text_is(k, "rfdf") {
        Some(Keyword::AccCav)
    } else if text_is(k, "kquad") {
        Some(Keyword::Quad)
    } else if text_is(k, "hkick") || text_is(k, "vkick") {
        Some(Keyword::Kick)
    } else if text_is(k, "monitor") || text_is(k, "moni") {
        Some(Keyword::Moni)
    } else if text_is(k, "csrcsbend") || text_is(k, "rben") || text_is(k, "sben") || text_is(
        k,
        "sbend",
    ) {
        Some(Keyword::Bend)
    } else if text_is(k, "ksext") {
        Some(Keyword::Sext)
    } else if text_is(k, "line") {
        Some(Keyword::Line)
    } else {
        None
    }
}

/// The names of a `line` statement, read from token 5 on.
pub fn parse_line_members(token_list: &[Token]) -> (r: Result<Vec<String>, ImportError>)
    ensures
        match members_from(token_views(token_list@), 5) {
            Ok(ms) => r matches Ok(v) && texts(v@) == ms,
            Err(e) => r matches Err(x) && x.view() == e,
        },
{
    let ghost t = token_views(token_list@);
    let mut out: Vec<String> = Vec::new();
    let mut ind: usize = 5;
    assert(texts(out@) =~= seq![]);
    proof {
        if let Ok(ms) = members_from(t, 5) {
            assert(seq![] + ms =~= ms);
        }
    }
    loop
        invariant
            t == token_views(token_list@),
            t.len() == token_list@.len(),
            members_from(t, 5) == match members_from(t, ind as nat) {
                Ok(ms) => Ok(texts(out@) + ms),
                Err(e) => Err(e),
            },
        decreases token_list@.len() - ind,
    {
        if ind >= token_list.len() {
            return Err(ImportError { kind: ImportErrorKind::UnexpectedEnd, at: token_list.len() });
        }
        assert(t[ind as int] == token_list@[ind as int].view());
        let kind = token_list[ind].token_type;
        if kind == TokenType::Cparen {
            if ind + 1 >= token_list.len() {
                return Err(ImportError { kind: ImportErrorKind::UnexpectedEnd, at: token_list.len() });
            }
            assert(t[ind + 1] == token_list@[ind + 1].view());
            if token_list[ind + 1].token_type != TokenType::LineEnd {
                return Err(ImportError { kind: ImportErrorKind::ExpectedLineEnd, at: ind + 1 });
            }
            assert(texts(out@) + seq![] =~= texts(out@));
            return Ok(out);
        }
        if kind == TokenType::Comma {
            ind += 1;
            continue;
        }
        if !(kind == TokenType::Word || kind == TokenType::EleStr) {
            return Err(ImportError { kind: ImportErrorKind::ExpectedMember, at: ind });
        }
        let name = strip_quotes(&token_list[ind].value);
        let ghost before = texts(out@);
        proof {
            if let Ok(ms) = members_from(t, (ind + 1) as nat) {
                assert(before + (seq![name@] + ms) =~= before.push(name@) + ms);
            }
        }
        let ghost nv = name@;
        out.push(name);
        assert(texts(out@) =~= before.push(nv));
        ind += 1;
    }
}

/// The element that the tokens of one statement define; its parameters'
/// expressions are added to `program`.
pub fn get_next_ele_from_tokens(token_list: &[Token], program: &mut Vec<RpnStep>) -> (r: Result<
    ElegantElement,
    ImportError,
>)
    ensures
        match statement(token_views(token_list@), old(program)@.len()) {
            Ok((e, es)) => r matches Ok(x) && x.view() == e && step_views(final(program)@)
                == step_views(old(program)@) + value_steps(es),
            Err(e) => r matches Err(x) && x.view() == e,
        },
{
    let ghost t = token_views(token_list@);
    if token_list.len() < 3 {
        return Err(ImportError { kind: ImportErrorKind::UnexpectedEnd, at: token_list.len() });
    }
    assert(t[0] == token_list@[0].view());
    assert(t[1] == token_list@[1].view());
    assert(t[2] == token_list@[2].view());
    let k0 = token_list[0].token_type;
    if !(k0 == TokenType::Word || k0 == TokenType::EleStr) {
        return Err(ImportError { kind: ImportErrorKind::ExpectedName, at: 0 });
    }
    if token_list[1].token_type != TokenType::Colon {
        return Err(ImportError { kind: ImportErrorKind::ExpectedColon, at: 1 });
    }
    if token_list[2].token_type != TokenType::Word {
        return Err(ImportError { kind: ImportErrorKind::ExpectedKeyword, at: 2 });
    }
    let name = strip_quotes(&token_list[0].value);
    match keyword_kind(&token_list[2].value) {
        None => Err(ImportError { kind: ImportErrorKind::UnknownKeyword, at: 2 }),
        Some(Keyword::Ignore) => {
            let e = ElegantElement { name, intermed_type: IntermedType::Ignore, params: Vec::new() };
            assert(param_views(e.params@) =~= seq![]);
            assert(step_views(program@) =~= step_views(old(program)@) + value_steps(seq![]));
            Ok(e)
        },
        Some(Keyword::Line) => {
            if token_list.len() <= 4 {
                return Err(ImportError { kind: ImportErrorKind::UnexpectedEnd, at: token_list.len() });
            }
            assert(t[4] == token_list@[4].view());
            if token_list[4].token_type != TokenType::Oparen {
                return Err(ImportError { kind: ImportErrorKind::ExpectedOparen, at: 4 });
            }
            let members = parse_line_members(token_list)?;
            let e = ElegantElement {
                name,
                intermed_type: IntermedType::Line(members),
                params: Vec::new(),
            };
            assert(param_views(e.params@) =~= seq![]);
            assert(step_views(program@) =~= step_views(old(program)@) + value_steps(seq![]));
            Ok(e)
        },
        Some(k) => {
            let params = get_param_list(token_list, program)?;
            let intermed_type = match k {
                Keyword::Drift => IntermedType::Drift,
                Keyword::AccCav => IntermedType::AccCav,
                Keyword::Quad => IntermedType::Quad,
                Keyword::Kick => IntermedType::Kick,
                Keyword::Moni => IntermedType::Moni,
                Keyword::Bend => IntermedType::Bend,
                _ => IntermedType::Sext,
            };
            Ok(ElegantElement { name, intermed_type, params })
        },
    }
}

pub open spec fn empty_library() -> LibView {
    (seq![], seq![], seq![], seq![])
}

impl Library {
    /// An empty library.
    pub fn new() -> (r: Library)
        ensures
            r.view() == empty_library(),
    {
        let r = Library {
            elements: Vec::new(),
            ignored: Vec::new(),
            lines: Vec::new(),
            program: Vec::new(),
        };
        assert(r.view().0 =~= seq![]);
        assert(r.view().1 =~= seq![]);
        assert(r.view().2 =~= seq![]);
        assert(r.view().3 =~= seq![]);
        r
    }

    /// Defines an element template; it shadows an earlier one of its name.
    pub fn add_element(&mut self, value: ElegantElement)
        ensures
            final(self).view() == (
                old(self).view().0.push(value.view()),
                old(self).view().1,
                old(self).view().2,
                old(self).view().3,
            ),
    {
        let ghost v = value.view();
        let ghost before = element_views(self.elements@);
        self.elements.push(value);
        assert(element_views(self.elements@) =~= before.push(v));
    }

    /// Records a name whose statements contribute nothing to a line.
    pub fn ignore(&mut self, name: String)
        ensures
            final(self).view() == (
                old(self).view().0,
                old(self).view().1.push(name@),
                old(self).view().2,
                old(self).view().3,
            ),
    {
        let ghost v = name@;
        let ghost before = texts(self.ignored@);
        self.ignored.push(name);
        assert(texts(self.ignored@) =~= before.push(v));
    }

    /// Defines a line; it shadows an earlier one of its name.
    pub fn add_line(&mut self, name: String, elements: Vec<String>)
        ensures
            final(self).view() == (
                old(self).view().0,
                old(self).view().1,
                old(self).view().2.push((name@, texts(elements@))),
                old(self).view().3,
            ),
    {
        let ghost v = (name@, texts(elements@));
        let ghost before = line_views(self.lines@);
        self.lines.push(LineDef { name, members: elements });
        assert(line_views(self.lines@) =~= before.push(v));
    }
}

pub proof fn lemma_params_error_at(t: Seq<TokenView>, i: nat, next: nat)
    ensures
        params_from(t, i, next) matches Err((_, at)) ==> at <= t.len(),
    decreases t.len() + 3 - i,
{
    if i < t.len() && t[i as int].0 != TokenType::LineEnd {
        if t[i as int].0 == TokenType::Comma {
            lemma_params_error_at(t, i + 1, next);
        } else if ignored_param(t[i as int].1) {
            lemma_params_error_at(t, i + 3, next);
        } else {
            lemma_params_error_at(t, i + 3, next);
            lemma_params_error_at(t, i + 3, next + 1);
        }
    }
}

pub proof fn lemma_members_error_at(t: Seq<TokenView>, i: nat)
    ensures
        members_from(t, i) matches Err((_, at)) ==> at <= t.len(),
    decreases t.len() - i,
{
    if i < t.len() && t[i as int].0 != TokenType::Cparen {
        lemma_members_error_at(t, i + 1);
    }
}

pub proof fn lemma_statement_error_at(t: Seq<TokenView>, next: nat)
    ensures
        statement(t, next) matches Err((_, at)) ==> at <= t.len(),
{
    if t.len() > 4 {
        lemma_params_error_at(t, 4, next);
    }
    lemma_members_error_at(t, 5);
}

/// Reads the statement that starts at `*ind` into `store`, and leaves `*ind`
/// on the statement's line end.
pub fn add_ele_to_store(token_list: &[Token], ind: &mut usize, store: &mut Library) -> (r: Result<
    (),
    ImportError,
>)
    requires
        line_end_from(token_views(token_list@), *old(ind) as nat) is Some,
    ensures
        ({
            let t = token_views(token_list@);
            let j = line_end_from(t, *old(ind) as nat)->0;
            match statement(t.subrange(*old(ind) as int, (j + 1) as int), old(store).view().3.len()) {
                Ok((e, es)) => r is Ok && *final(ind) == j && final(store).view() == crate::imported_parser::store(
                    old(store).view(),
                    e,
                    es,
                ),
                Err((k, at)) => r matches Err(x) && x.view() == (k, (*old(ind) + at) as nat),
            }
        }),
{
    let ghost t = token_views(token_list@);
    let start = *ind;
    let total = token_list.len();
    proof {
        lemma_line_end_from(t, start as nat);
    }
    let toks = get_tokens_for_next_ele(token_list, ind);
    let ghost old_view = store.view();
    let ghost n = step_views(store.program@).len();
    assert(store.program@.len() == n);
    let new_ele = match get_next_ele_from_tokens(toks.as_slice(), &mut store.program) {
        Ok(e) => e,
        Err(e) => {
            proof {
                lemma_line_end_from(t, start as nat);
                lemma_statement_error_at(token_views(toks@), n);
                assert(t.len() == token_list@.len());
                assert(token_views(toks@).len() == toks@.len());
                assert(e.at <= toks@.len());
                assert(*ind < t.len());
                assert(token_views(toks@).len() == *ind + 1 - start);
            }
            return Err(ImportError { kind: e.kind, at: start + e.at });
        },
    };
    let ghost ev = new_ele.view();
    let ElegantElement { name, intermed_type, params } = new_ele;
    match intermed_type {
        IntermedType::Ignore => store.ignore(name),
        IntermedType::Line(contents) => store.add_line(name, contents),
        other => store.add_element(ElegantElement { name, intermed_type: other, params }),
    }
    Ok(())
}

} // verus!

verus! {

/// The first line end at or after `start`, if any.
pub fn find_line_end(token_list: &[Token], start: usize) -> (r: Option<usize>)
    ensures
        match line_end_from(token_views(token_list@), start as nat) {
            Some(j) => r == Some(j as usize),
            None => r is None,
        },
{
    let ghost t = token_views(token_list@);
    let mut i = start;
    while i < token_list.len()
        invariant
            t == token_views(token_list@),
            t.len() == token_list@.len(),
            start <= i,
            line_end_from(t, start as nat) == line_end_from(t, i as nat),
        decreases token_list@.len() - i,
    {
        assert(t[i as int] == token_list@[i as int].view());
        if token_list[i].token_type == TokenType::LineEnd {
            return Some(i);
        }
        i += 1;
    }
    None
}

/// The first index at or after `start` that is not a line end.
pub fn skip_line_ends_from(token_list: &[Token], start: usize) -> (r: usize)
    ensures
        r as nat == skip_line_ends(token_views(token_list@), start as nat),
{
    let ghost t = token_views(token_list@);
    let mut i = start;
    while i < token_list.len() && token_list[i].token_type == TokenType::LineEnd
        invariant
            t == token_views(token_list@),
            t.len() == token_list@.len(),
            skip_line_ends(t, start as nat) == skip_line_ends(t, i as nat),
        decreases token_list@.len() - i,
    {
        assert(t[i as int] == token_list@[i as int].view());
        i += 1;
    }
    proof {
        if i < token_list.len() {
            assert(t[i as int] == token_list@[i as int].view());
        }
    }
    i
}

/// Reads the statements and expression lines of an imported lattice file
/// into a library, up to the end-of-file token.
pub fn parse_tokens(token_list: &[Token]) -> (r: Result<Library, ImportError>)
    ensures
        match library_from(token_views(token_list@), 0, empty_library()) {
            Ok(l) => r matches Ok(x) && x.view() == l,
            Err(e) => r matches Err(x) && x.view() == e,
        },
{
    let ghost t = token_views(token_list@);
    let total = token_list.len();
    let mut store = Library::new();
    let mut ind: usize = 0;
    loop
        invariant
            t == token_views(token_list@),
            t.len() == token_list@.len(),
            total == token_list@.len(),
            library_from(t, 0, empty_library()) == library_from(t, ind as nat, store.view()),
        decreases token_list@.len() - ind,
    {
        if ind >= token_list.len() {
            return Ok(store);
        }
        assert(t[ind as int] == token_list@[ind as int].view());
        let kind = token_list[ind].token_type;
        let is_name = kind == TokenType::Word || kind == TokenType::EleStr;
        if kind == TokenType::RpnExpr {
            let ghost before = store.view();
            let text = clone_text(&token_list[ind].value);
            store.program.push(RpnStep { text, yields_value: false });
            assert(step_views(store.program@) =~= before.3.push((t[ind as int].1, false)));
            let next = skip_line_ends_from(token_list, ind + 1);
            proof {
                lemma_skip_line_ends(t, (ind + 1) as nat);
            }
            ind = next;
        } else if is_name && ind + 1 >= token_list.len() {
            return Err(ImportError { kind: ImportErrorKind::UnexpectedEnd, at: token_list.len() });
        } else if is_name && compare_tokentype_at(token_list, ind + 1, TokenType::Colon) {
            match find_line_end(token_list, ind) {
                None => {
                    return Err(ImportError { kind: ImportErrorKind::UnterminatedStatement, at: ind });
                },
                Some(_) => {},
            }
            proof {
                lemma_line_end_from(t, ind as nat);
            }
            add_ele_to_store(token_list, &mut ind, &mut store)?;
            let next = skip_line_ends_from(token_list, ind + 1);
            proof {
                lemma_skip_line_ends(t, (ind + 1) as nat);
            }
            ind = next;
        } else if kind == TokenType::Eof {
            return Ok(store);
        } else {
            return Err(ImportError { kind: ImportErrorKind::CannotHandle, at: ind });
        }
    }
}

} // verus!
