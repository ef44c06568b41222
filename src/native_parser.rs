//! Parser of the native lattice format:
//! `beam { design_ke: <v> particles { (<z> <dE>)* } }` and
//! `accelerator { initial_ke: <v> (<kind>: <values>)* }`.
//! Numbers stay as their literal text; they are converted where the beam and
//! the elements are built.
use vstd::prelude::*;
use crate::native_lexer::{token_views, Token, TokenType, TokenView};
use crate::text::text_is;

verus! {

#[derive(Debug, Clone, Copy, PartialEq, Eq, Structural)]
pub enum NativeErrorKind {
    /// A token of another kind stands where this kind was expected.
    Expected(TokenType),
    /// The first item of a `beam` block is not `design_ke`.
    ExpectedDesignKe,
    /// The first item of an `accelerator` block is not `initial_ke`.
    ExpectedInitialKe,
    /// A `beam` block holds an item other than `particles`.
    UnknownBeamItem,
    /// An `accelerator` block names an unknown element kind.
    UnknownElement,
    /// The tokens end inside a block.
    UnexpectedEnd,
}

/// What went wrong, at which token (the token count for the end).
#[derive(Debug, Clone, Copy, PartialEq, Eq, Structural)]
pub struct NativeError {
    pub kind: NativeErrorKind,
    pub at: usize,
}

pub type NativeErrorView = (NativeErrorKind, nat);

impl NativeError {
    pub open spec fn view(&self) -> NativeErrorView {
        (self.kind, self.at as nat)
    }
}

/// The element kinds of the native format.
#[derive(Debug, Clone, Copy, PartialEq, Eq, Structural)]
pub enum NativeKind {
    Drift,
    Corrector,
    Quad,
    Sext,
    Dipole,
    AccCav,
}

/// One particle: position offset and energy deviation, as written.
#[derive(Debug, Clone)]
pub struct Particle {
    pub z: String,
    pub delta_energy: String,
}

/// One element line: its kind and its values, as written.
#[derive(Debug, Clone)]
pub struct ElementStatement {
    pub kind: NativeKind,
    pub values: Vec<String>,
}

/// A `beam` block: the design kinetic energy and the particles after it.
#[derive(Debug, Clone)]
pub struct BeamBlock {
    pub design_ke: String,
    pub particles: Vec<Particle>,
}

/// An `accelerator` block: the initial kinetic energy and its elements.
#[derive(Debug, Clone)]
pub struct AcceleratorBlock {
    pub initial_ke: String,
    pub elements: Vec<ElementStatement>,
}

/// The blocks of a native lattice file, each list in the order of the file.
#[derive(Debug, Clone)]
pub struct NativeLattice {
    pub beams: Vec<BeamBlock>,
    pub accelerators: Vec<AcceleratorBlock>,
}

pub type ParticleView = (Seq<char>, Seq<char>);

pub type StatementView = (NativeKind, Seq<Seq<char>>);

pub type BeamView = (Seq<char>, Seq<ParticleView>);

pub type AccView = (Seq<char>, Seq<StatementView>);

pub type LatticeView = (Seq<BeamView>, Seq<AccView>);

pub open spec fn texts(s: Seq<String>) -> Seq<Seq<char>> {
    s.map_values(|x: String| x@)
}

impl Particle {
    pub open spec fn view(&self) -> ParticleView {
        (self.z@, self.delta_energy@)
    }
}

impl ElementStatement {
    pub open spec fn view(&self) -> StatementView {
        (self.kind, texts(self.values@))
    }
}

impl BeamBlock {
    pub open spec fn view(&self) -> BeamView {
        (self.design_ke@, self.particles@.map_values(|p: Particle| p.view()))
    }
}

impl AcceleratorBlock {
    pub open spec fn view(&self) -> AccView {
        (self.initial_ke@, self.elements@.map_values(|e: ElementStatement| e.view()))
    }
}

impl NativeLattice {
    pub open spec fn view(&self) -> LatticeView {
        (
            self.beams@.map_values(|b: BeamBlock| b.view()),
            self.accelerators@.map_values(|a: AcceleratorBlock| a.view()),
        )
    }
}

/// The error for a missing or mismatched token at `i`, if any.
pub open spec fn expect(t: Seq<TokenView>, i: nat, k: TokenType) -> Option<NativeErrorView> {
    if i >= t.len() {
        Some((NativeErrorKind::UnexpectedEnd, t.len()))
    } else if t[i as int].0 != k {
        Some((NativeErrorKind::Expected(k), i))
    } else {
        None
    }
}

/// Particles from `i` to the closing brace: the list and the brace's index.
pub open spec fn particles_from(t: Seq<TokenView>, i: nat) -> Result<
    (Seq<ParticleView>, nat),
    NativeErrorView,
>
    decreases t.len() - i,
{
    if i >= t.len() {
        Err((NativeErrorKind::UnexpectedEnd, t.len()))
    } else if t[i as int].0 == TokenType::Ccurly {
        Ok((seq![], i))
    } else if expect(t, i, TokenType::Value) is Some {
        Err(expect(t, i, TokenType::Value)->0)
    } else if expect(t, i + 1, TokenType::Value) is Some {
        Err(expect(t, i + 1, TokenType::Value)->0)
    } else {
        match particles_from(t, i + 2) {
            Ok((ps, j)) => Ok((seq![(t[i as int].1, t[(i + 1) as int].1)] + ps, j)),
            Err(e) => Err(e),
        }
    }
}

pub proof fn lemma_particles_from_end(t: Seq<TokenView>, i: nat)
    ensures
        particles_from(t, i) matches Ok((_, j)) ==> i <= j < t.len() && t[j as int].0
            == TokenType::Ccurly,
    decreases t.len() - i,
{
    if i < t.len() && t[i as int].0 != TokenType::Ccurly && expect(t, i, TokenType::Value) is None
        && expect(t, i + 1, TokenType::Value) is None {
        lemma_particles_from_end(t, i + 2);
    }
}

/// Items of a `beam` block from `i` to its closing brace.
pub open spec fn beam_items(t: Seq<TokenView>, i: nat) -> Result<
    (Seq<ParticleView>, nat),
    NativeErrorView,
>
    decreases t.len() - i,
{
    if i >= t.len() {
        Err((NativeErrorKind::UnexpectedEnd, t.len()))
    } else if t[i as int].0 == TokenType::Ccurly {
        Ok((seq![], i))
    } else if t[i as int].1 != "particles"@ {
        Err((NativeErrorKind::UnknownBeamItem, i))
    } else if expect(t, i + 1, TokenType::Ocurly) is Some {
        Err(expect(t, i + 1, TokenType::Ocurly)->0)
    } else {
        proof {
            lemma_particles_from_end(t, i + 2);
        }
        match particles_from(t, i + 2) {
            Ok((ps, j)) => match beam_items(t, j + 1) {
                Ok((qs, k)) => Ok((ps + qs, k)),
                Err(e) => Err(e),
            },
            Err(e) => Err(e),
        }
    }
}

pub proof fn lemma_beam_items_end(t: Seq<TokenView>, i: nat)
    ensures
        beam_items(t, i) matches Ok((_, j)) ==> i <= j < t.len() && t[j as int].0
            == TokenType::Ccurly,
    decreases t.len() - i,
{
    if i < t.len() && t[i as int].0 != TokenType::Ccurly && t[i as int].1 == "particles"@ && expect(
        t,
        i + 1,
        TokenType::Ocurly,
    ) is None {
        lemma_particles_from_end(t, i + 2);
        if let Ok((_, j)) = particles_from(t, i + 2) {
            lemma_beam_items_end(t, j + 1);
        }
    }
}

/// The header shared by both blocks: `{ <word>: <value>` after the keyword
/// at `i`; `wrong` is the error when the word is not `word`.
pub open spec fn header(
    t: Seq<TokenView>,
    i: nat,
    word: Seq<char>,
    wrong: NativeErrorKind,
) -> Option<NativeErrorView> {
    if expect(t, i + 1, TokenType::Ocurly) is Some {
        expect(t, i + 1, TokenType::Ocurly)
    } else if expect(t, i + 2, TokenType::Word) is Some {
        expect(t, i + 2, TokenType::Word)
    } else if t[(i + 2) as int].1 != word {
        Some((wrong, i + 2))
    } else if expect(t, i + 3, TokenType::Colon) is Some {
        expect(t, i + 3, TokenType::Colon)
    } else {
        expect(t, i + 4, TokenType::Value)
    }
}

/// The `beam` block whose keyword is at `i`, and the index of its closing brace.
pub open spec fn beam_block(t: Seq<TokenView>, i: nat) -> Result<(BeamView, nat), NativeErrorView> {
    if header(t, i, "design_ke"@, NativeErrorKind::ExpectedDesignKe) is Some {
        Err(header(t, i, "design_ke"@, NativeErrorKind::ExpectedDesignKe)->0)
    } else {
        match beam_items(t, i + 5) {
            Ok((ps, j)) => Ok(((t[(i + 4) as int].1, ps), j)),
            Err(e) => Err(e),
        }
    }
}

/// The kind of an element keyword and how many values follow it.
pub open spec fn element_kind(word: Seq<char>) -> Option<(NativeKind, nat)> {
    if word == "drift"@ {
        Some((NativeKind::Drift, 1))
    } else if word == "corrector"@ {
        Some((NativeKind::Corrector, 1))
    } else if word == "quad"@ {
        Some((NativeKind::Quad, 1))
    } else if word == "sext"@ {
        Some((NativeKind::Sext, 1))
    } else if word == "dipole"@ {
        Some((NativeKind::Dipole, 2))
    } else if word == "acccav"@ {
        Some((NativeKind::AccCav, 4))
    } else {
        None
    }
}

/// `a` value tokens from `i` on.
pub open spec fn values_at(t: Seq<TokenView>, i: nat, a: nat) -> Result<
    Seq<Seq<char>>,
    NativeErrorView,
>
    decreases a,
{
    if a == 0 {
        Ok(seq![])
    } else if expect(t, i, TokenType::Value) is Some {
        Err(expect(t, i, TokenType::Value)->0)
    } else {
        match values_at(t, i + 1, (a - 1) as nat) {
            Ok(vs) => Ok(seq![t[i as int].1] + vs),
            Err(e) => Err(e),
        }
    }
}

pub proof fn lemma_values_at_in_bounds(t: Seq<TokenView>, i: nat, a: nat)
    ensures
        values_at(t, i, a) is Ok && a > 0 ==> i + a <= t.len(),
        values_at(t, i, a) matches Ok(vs) ==> vs.len() == a,
    decreases a,
{
    if a > 0 && expect(t, i, TokenType::Value) is None {
        lemma_values_at_in_bounds(t, i + 1, (a - 1) as nat);
    }
}

/// Element lines of an `accelerator` block from `i` to its closing brace.
pub open spec fn acc_items(t: Seq<TokenView>, i: nat) -> Result<
    (Seq<StatementView>, nat),
    NativeErrorView,
>
    decreases t.len() - i,
{
    if i >= t.len() {
        Err((NativeErrorKind::UnexpectedEnd, t.len()))
    } else if t[i as int].0 == TokenType::Ccurly {
        Ok((seq![], i))
    } else {
        match element_kind(t[i as int].1) {
            None => Err((NativeErrorKind::UnknownElement, i)),
            Some((kind, a)) => {
                if expect(t, i + 1, TokenType::Colon) is Some {
                    Err(expect(t, i + 1, TokenType::Colon)->0)
                } else {
                    proof {
                        lemma_values_at_in_bounds(t, i + 2, a);
                    }
                    match values_at(t, i + 2, a) {
                        Ok(vs) => match acc_items(t, i + 2 + a) {
                            Ok((es, k)) => Ok((seq![(kind, vs)] + es, k)),
                            Err(e) => Err(e),
                        },
                        Err(e) => Err(e),
                    }
                }
            },
        }
    }
}

pub proof fn lemma_acc_items_end(t: Seq<TokenView>, i: nat)
    ensures
        acc_items(t, i) matches Ok((_, j)) ==> i <= j < t.len() && t[j as int].0
            == TokenType::Ccurly,
    decreases t.len() - i,
{
    if i < t.len() && t[i as int].0 != TokenType::Ccurly {
        if let Some((kind, a)) = element_kind(t[i as int].1) {
            lemma_values_at_in_bounds(t, i + 2, a);
            if values_at(t, i + 2, a) is Ok {
                lemma_acc_items_end(t, i + 2 + a);
            }
        }
    }
}

/// The `accelerator` block whose keyword is at `i`, and the index of its
/// closing brace.
pub open spec fn acc_block(t: Seq<TokenView>, i: nat) -> Result<(AccView, nat), NativeErrorView> {
    if header(t, i, "initial_ke"@, NativeErrorKind::ExpectedInitialKe) is Some {
        Err(header(t, i, "initial_ke"@, NativeErrorKind::ExpectedInitialKe)->0)
    } else {
        match acc_items(t, i + 5) {
            Ok((es, j)) => Ok(((t[(i + 4) as int].1, es), j)),
            Err(e) => Err(e),
        }
    }
}

/// The blocks from token `i` on. Tokens outside blocks are passed over.
pub open spec fn lattice_from(t: Seq<TokenView>, i: nat) -> Result<LatticeView, NativeErrorView>
    decreases t.len() - i,
{
    if i >= t.len() {
        Ok((seq![], seq![]))
    } else if t[i as int].0 == TokenType::Word && t[i as int].1 == "beam"@ {
        proof {
            lemma_beam_items_end(t, i + 5);
        }
        match beam_block(t, i) {
            Ok((b, j)) => match lattice_from(t, j + 1) {
                Ok(l) => Ok((seq![b] + l.0, l.1)),
                Err(e) => Err(e),
            },
            Err(e) => Err(e),
        }
    } else if t[i as int].0 == TokenType::Word && t[i as int].1 == "accelerator"@ {
        proof {
            lemma_acc_items_end(t, i + 5);
        }
        match acc_block(t, i) {
            Ok((a, j)) => match lattice_from(t, j + 1) {
                Ok(l) => Ok((l.0, seq![a] + l.1)),
                Err(e) => Err(e),
            },
            Err(e) => Err(e),
        }
    } else {
        lattice_from(t, i + 1)
    }
}

} // verus!

verus! {

pub open spec fn prepend<X>(acc: Seq<X>, r: Result<(Seq<X>, nat), NativeErrorView>) -> Result<
    (Seq<X>, nat),
    NativeErrorView,
> {
    match r {
        Ok((xs, j)) => Ok((acc + xs, j)),
        Err(e) => Err(e),
    }
}

pub proof fn lemma_prepend_one<X>(acc: Seq<X>, x: X, r: Result<(Seq<X>, nat), NativeErrorView>)
    ensures
        prepend(acc, match r {
            Ok((xs, j)) => Ok((seq![x] + xs, j)),
            Err(e) => Err(e),
        }) == prepend(acc.push(x), r),
{
    if let Ok((xs, j)) = r {
        assert(acc + (seq![x] + xs) =~= acc.push(x) + xs);
    }
}

pub proof fn lemma_prepend_many<X>(acc: Seq<X>, r: Result<(Seq<X>, nat), NativeErrorView>)
    ensures
        prepend(seq![], r) == r,
        r matches Ok((xs, j)) ==> prepend(acc, r) == Ok::<(Seq<X>, nat), NativeErrorView>(
            (acc + xs, j),
        ),
{
    if let Ok((xs, j)) = r {
        assert(seq![] + xs =~= xs);
    }
}

pub open spec fn particle_views(v: Seq<Particle>) -> Seq<ParticleView> {
    v.map_values(|p: Particle| p.view())
}

pub open spec fn statement_views(v: Seq<ElementStatement>) -> Seq<StatementView> {
    v.map_values(|e: ElementStatement| e.view())
}

pub open spec fn particles_result(r: Result<(Vec<Particle>, usize), NativeError>) -> Result<
    (Seq<ParticleView>, nat),
    NativeErrorView,
> {
    match r {
        Ok((v, j)) => Ok((particle_views(v@), j as nat)),
        Err(e) => Err(e.view()),
    }
}

pub open spec fn statements_result(r: Result<(Vec<ElementStatement>, usize), NativeError>) -> Result<
    (Seq<StatementView>, nat),
    NativeErrorView,
> {
    match r {
        Ok((v, j)) => Ok((statement_views(v@), j as nat)),
        Err(e) => Err(e.view()),
    }
}

/// Checks that token `ind` exists and has kind `expected`.
pub fn token_check(token_list: &[Token], ind: usize, expected: TokenType) -> (r: Result<
    (),
    NativeError,
>)
    ensures
        r is Ok <==> expect(token_views(token_list@), ind as nat, expected) is None,
        r matches Err(e) ==> expect(token_views(token_list@), ind as nat, expected) == Some(
            e.view(),
        ),
{
    if ind >= token_list.len() {
        Err(NativeError { kind: NativeErrorKind::UnexpectedEnd, at: token_list.len() })
    } else if token_list[ind].token_type != expected {
        Err(NativeError { kind: NativeErrorKind::Expected(expected), at: ind })
    } else {
        Ok(())
    }
}

fn clone_text(s: &String) -> (r: String)
    ensures
        r@ == s@,
{
    s.clone()
}

/// Reads `(z dE)` pairs from `start` up to the closing brace.
pub fn parse_particles(token_list: &[Token], start: usize) -> (r: Result<
    (Vec<Particle>, usize),
    NativeError,
>)
    ensures
        particles_result(r) == particles_from(token_views(token_list@), start as nat),
{
    let ghost t = token_views(token_list@);
    let mut out: Vec<Particle> = Vec::new();
    let mut i = start;
    proof {
        lemma_prepend_many(particle_views(out@), particles_from(t, start as nat));
        assert(particle_views(out@) =~= seq![]);
    }
    loop
        invariant
            t == token_views(token_list@),
            particles_from(t, start as nat) == prepend(particle_views(out@), particles_from(t, i as nat)),
        decreases token_list.len() - i,
    {
        if i >= token_list.len() {
            return Err(NativeError { kind: NativeErrorKind::UnexpectedEnd, at: token_list.len() });
        }
        if token_list[i].token_type == TokenType::Ccurly {
            proof {
                lemma_prepend_many(particle_views(out@), particles_from(t, i as nat));
            }
            return Ok((out, i));
        }
        token_check(token_list, i, TokenType::Value)?;
        token_check(token_list, i + 1, TokenType::Value)?;
        let p = Particle {
            z: clone_text(&token_list[i].value),
            delta_energy: clone_text(&token_list[i + 1].value),
        };
        proof {
            assert(t[i as int] == token_list@[i as int].view());
            assert(t[i + 1] == token_list@[i + 1].view());
            assert(p.view() == (t[i as int].1, t[i + 1].1));
            assert(particles_from(t, i as nat) == match particles_from(t, (i + 2) as nat) {
                Ok((ps, j)) => Ok((seq![p.view()] + ps, j)),
                Err(e) => Err(e),
            });
            lemma_prepend_one(particle_views(out@), p.view(), particles_from(t, (i + 2) as nat));
        }
        let ghost before = particle_views(out@);
        let ghost pv = p.view();
        out.push(p);
        assert(particle_views(out@) =~= before.push(pv));
        i = i + 2;
    }
}

} // verus!

verus! {

/// Reads the items of a `beam` block from `start` up to its closing brace.
pub fn parse_beam_items(token_list: &[Token], start: usize) -> (r: Result<
    (Vec<Particle>, usize),
    NativeError,
>)
    ensures
        particles_result(r) == beam_items(token_views(token_list@), start as nat),
{
    let ghost t = token_views(token_list@);
    let mut out: Vec<Particle> = Vec::new();
    let mut i = start;
    proof {
        lemma_prepend_many(particle_views(out@), beam_items(t, start as nat));
        assert(particle_views(out@) =~= seq![]);
    }
    loop
        invariant
            t == token_views(token_list@),
            beam_items(t, start as nat) == prepend(particle_views(out@), beam_items(t, i as nat)),
        decreases token_list.len() - i,
    {
        if i >= token_list.len() {
            return Err(NativeError { kind: NativeErrorKind::UnexpectedEnd, at: token_list.len() });
        }
        assert(t[i as int] == token_list@[i as int].view());
        if token_list[i].token_type == TokenType::Ccurly {
            proof {
                lemma_prepend_many(particle_views(out@), beam_items(t, i as nat));
            }
            return Ok((out, i));
        }
        if !text_is(&token_list[i].value, "particles") {
            return Err(NativeError { kind: NativeErrorKind::UnknownBeamItem, at: i });
        }
        token_check(token_list, i + 1, TokenType::Ocurly)?;
        let (ps, j) = parse_particles(token_list, i + 2)?;
        proof {
            lemma_particles_from_end(t, (i + 2) as nat);
            let rest = beam_items(t, (j + 1) as nat);
            assert(beam_items(t, i as nat) == match rest {
                Ok((qs, k)) => Ok((particle_views(ps@) + qs, k)),
                Err(e) => Err(e),
            });
            if let Ok((qs, k)) = rest {
                assert(particle_views(out@) + (particle_views(ps@) + qs) =~= particle_views(
                    out@ + ps@,
                ) + qs);
            }
        }
        let mut ps = ps;
        out.append(&mut ps);
        i = j + 1;
    }
}

} // verus!

verus! {

/// Reads `count` value tokens from `start` on.
pub fn parse_values(token_list: &[Token], start: usize, count: usize) -> (r: Result<
    Vec<String>,
    NativeError,
>)
    ensures
        match r {
            Ok(v) => values_at(token_views(token_list@), start as nat, count as nat) == Ok::<
                Seq<Seq<char>>,
                NativeErrorView,
            >(texts(v@)),
            Err(e) => values_at(token_views(token_list@), start as nat, count as nat) == Err::<
                Seq<Seq<char>>,
                NativeErrorView,
            >(e.view()),
        },
{
    let ghost t = token_views(token_list@);
    let mut out: Vec<String> = Vec::new();
    let mut k: usize = 0;
    assert(texts(out@) =~= seq![]);
    while k < count
        invariant
            t == token_views(token_list@),
            k <= count,
            k > 0 ==> start + k <= token_list.len(),
            values_at(t, start as nat, count as nat) == match values_at(
                t,
                (start + k) as nat,
                (count - k) as nat,
            ) {
                Ok(vs) => Ok(texts(out@) + vs),
                Err(e) => Err(e),
            },
        decreases count - k,
    {
        if start >= token_list.len() || k >= token_list.len() - start {
            return Err(NativeError { kind: NativeErrorKind::UnexpectedEnd, at: token_list.len() });
        }
        token_check(token_list, start + k, TokenType::Value)?;
        assert(t[start + k] == token_list@[start + k].view());
        let v = clone_text(&token_list[start + k].value);
        proof {
            if let Ok(vs) = values_at(t, (start + k + 1) as nat, (count - k - 1) as nat) {
                assert(texts(out@) + (seq![v@] + vs) =~= texts(out@).push(v@) + vs);
            }
        }
        let ghost before = texts(out@);
        out.push(v);
        assert(texts(out@) =~= before.push(v@));
        k += 1;
    }
    assert(texts(out@) + seq![] =~= texts(out@));
    Ok(out)
}

/// The kind and value count of an element keyword.
pub fn element_kind_of(word: &String) -> (r: Option<(NativeKind, usize)>)
    ensures
        match element_kind(word@) {
            Some((k, a)) => r == Some((k, a as usize)),
            None => r is None,
        },
{
    if text_is(word, "drift") {
        Some((NativeKind::Drift, 1))
    } else if text_is(word, "corrector") {
        Some((NativeKind::Corrector, 1))
    } else if text_is(word, "quad") {
        Some((NativeKind::Quad, 1))
    } else if text_is(word, "sext") {
        Some((NativeKind::Sext, 1))
    } else if text_is(word, "dipole") {
        Some((NativeKind::Dipole, 2))
    } else if text_is(word, "acccav") {
        Some((NativeKind::AccCav, 4))
    } else {
        None
    }
}

/// Reads the element lines of an `accelerator` block from `start` up to its
/// closing brace.
pub fn parse_acc_items(token_list: &[Token], start: usize) -> (r: Result<
    (Vec<ElementStatement>, usize),
    NativeError,
>)
    ensures
        statements_result(r) == acc_items(token_views(token_list@), start as nat),
{
    let ghost t = token_views(token_list@);
    let mut out: Vec<ElementStatement> = Vec::new();
    let mut i = start;
    proof {
        lemma_prepend_many(statement_views(out@), acc_items(t, start as nat));
        assert(statement_views(out@) =~= seq![]);
    }
    loop
        invariant
            t == token_views(token_list@),
            acc_items(t, start as nat) == prepend(statement_views(out@), acc_items(t, i as nat)),
        decreases token_list.len() - i,
    {
        if i >= token_list.len() {
            return Err(NativeError { kind: NativeErrorKind::UnexpectedEnd, at: token_list.len() });
        }
        assert(t[i as int] == token_list@[i as int].view());
        if token_list[i].token_type == TokenType::Ccurly {
            proof {
                lemma_prepend_many(statement_views(out@), acc_items(t, i as nat));
            }
            return Ok((out, i));
        }
        let (kind, count) = match element_kind_of(&token_list[i].value) {
            Some(x) => x,
            None => {
                return Err(NativeError { kind: NativeErrorKind::UnknownElement, at: i });
            },
        };
        token_check(token_list, i + 1, TokenType::Colon)?;
        let values = parse_values(token_list, i + 2, count)?;
        proof {
            lemma_values_at_in_bounds(t, (i + 2) as nat, count as nat);
        }
        let e = ElementStatement { kind, values };
        proof {
            assert(e.view() == (kind, texts(e.values@)));
            lemma_prepend_one(statement_views(out@), e.view(), acc_items(t, (i + 2 + count) as nat));
        }
        let ghost before = statement_views(out@);
        let ghost ev = e.view();
        out.push(e);
        assert(statement_views(out@) =~= before.push(ev));
        i = i + 2 + count;
    }
}

pub open spec fn header_result(r: Result<(), NativeError>) -> Option<NativeErrorView> {
    match r {
        Ok(()) => None,
        Err(e) => Some(e.view()),
    }
}

/// Checks `{ <word>: <value>` after the keyword at `ind`.
fn check_header(token_list: &[Token], ind: usize, word: &str, wrong: NativeErrorKind) -> (r: Result<
    (),
    NativeError,
>)
    requires
        ind < token_list.len(),
    ensures
        header_result(r) == header(token_views(token_list@), ind as nat, word@, wrong),
{
    let ghost t = token_views(token_list@);
    token_check(token_list, ind + 1, TokenType::Ocurly)?;
    token_check(token_list, ind + 2, TokenType::Word)?;
    assert(t[ind + 2] == token_list@[ind + 2].view());
    if !text_is(&token_list[ind + 2].value, word) {
        return Err(NativeError { kind: wrong, at: ind + 2 });
    }
    token_check(token_list, ind + 3, TokenType::Colon)?;
    token_check(token_list, ind + 4, TokenType::Value)?;
    Ok(())
}

/// Reads the blocks of a native lattice file from its tokens. Tokens outside
/// the `beam` and `accelerator` blocks are passed over.
pub fn parse_tokens(token_list: &[Token]) -> (r: Result<NativeLattice, NativeError>)
    ensures
        match r {
            Ok(l) => lattice_from(token_views(token_list@), 0) == Ok::<
                LatticeView,
                NativeErrorView,
            >(l.view()),
            Err(e) => lattice_from(token_views(token_list@), 0) == Err::<
                LatticeView,
                NativeErrorView,
            >(e.view()),
        },
{
    let ghost t = token_views(token_list@);
    let mut beams: Vec<BeamBlock> = Vec::new();
    let mut accelerators: Vec<AcceleratorBlock> = Vec::new();
    let mut ind: usize = 0;
    proof {
        assert(beams@.map_values(|b: BeamBlock| b.view()) =~= seq![]);
        assert(accelerators@.map_values(|a: AcceleratorBlock| a.view()) =~= seq![]);
        if let Ok(l) = lattice_from(t, 0) {
            assert(seq![] + l.0 =~= l.0);
            assert(seq![] + l.1 =~= l.1);
        }
    }
    while ind < token_list.len()
        invariant
            t == token_views(token_list@),
            lattice_from(t, 0) == match lattice_from(t, ind as nat) {
                Ok(l) => Ok(
                    (
                        beams@.map_values(|b: BeamBlock| b.view()) + l.0,
                        accelerators@.map_values(|a: AcceleratorBlock| a.view()) + l.1,
                    ),
                ),
                Err(e) => Err(e),
            },
        decreases token_list.len() - ind,
    {
        let ghost bv = beams@.map_values(|b: BeamBlock| b.view());
        let ghost av = accelerators@.map_values(|a: AcceleratorBlock| a.view());
        assert(t[ind as int] == token_list@[ind as int].view());
        let is_word = token_list[ind].token_type == TokenType::Word;
        if is_word && text_is(&token_list[ind].value, "beam") {
            check_header(token_list, ind, "design_ke", NativeErrorKind::ExpectedDesignKe)?;
            let (particles, j) = parse_beam_items(token_list, ind + 5)?;
            assert(t[ind + 4] == token_list@[ind + 4].view());
            let b = BeamBlock { design_ke: clone_text(&token_list[ind + 4].value), particles };
            proof {
                lemma_beam_items_end(t, (ind + 5) as nat);
                if let Ok(l) = lattice_from(t, (j + 1) as nat) {
                    assert(bv + (seq![b.view()] + l.0) =~= bv.push(b.view()) + l.0);
                }
            }
            let ghost bw = b.view();
            beams.push(b);
            assert(beams@.map_values(|b: BeamBlock| b.view()) =~= bv.push(bw));
            ind = j + 1;
        } else if is_word && text_is(&token_list[ind].value, "accelerator") {
            check_header(token_list, ind, "initial_ke", NativeErrorKind::ExpectedInitialKe)?;
            let (elements, j) = parse_acc_items(token_list, ind + 5)?;
            assert(t[ind + 4] == token_list@[ind + 4].view());
            let a = AcceleratorBlock { initial_ke: clone_text(&token_list[ind + 4].value), elements };
            proof {
                lemma_acc_items_end(t, (ind + 5) as nat);
                if let Ok(l) = lattice_from(t, (j + 1) as nat) {
                    assert(av + (seq![a.view()] + l.1) =~= av.push(a.view()) + l.1);
                }
            }
            let ghost aw = a.view();
            accelerators.push(a);
            assert(accelerators@.map_values(|a: AcceleratorBlock| a.view()) =~= av.push(aw));
            ind = j + 1;
        } else {
            ind += 1;
        }
    }
    let l = NativeLattice { beams, accelerators };
    assert(l.view().0 + seq![] =~= l.view().0);
    assert(l.view().1 + seq![] =~= l.view().1);
    Ok(l)
}

} // verus!
