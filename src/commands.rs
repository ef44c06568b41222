//! The words of the interactive command loop.
use vstd::prelude::*;
use crate::text::text_is;

verus! {

#[derive(Debug, Clone, Copy, PartialEq, Eq, Structural)]
pub enum Token {
    Exit,
    Track,
    Error,
    Print,
    Save,
    LoadLattice,
    LoadBeam,
    AddBreakPoint,
    Reset,
    Help,
}

/// The command that a word names; `Error` for a word that names none.
pub open spec fn command_of(w: Seq<char>) -> Token {
    if w == "exit"@ || w == "quit"@ {
        Token::Exit
    } else if w == "track"@ {
        Token::Track
    } else if w == "print"@ {
        Token::Print
    } else if w == "save"@ {
        Token::Save
    } else if w == "load_lattice"@ {
        Token::LoadLattice
    } else if w == "load_beam"@ {
        Token::LoadBeam
    } else if w == "break"@ {
        Token::AddBreakPoint
    } else if w == "reset"@ {
        Token::Reset
    } else if w == "help"@ {
        Token::Help
    } else {
        Token::Error
    }
}

/// Reads one command word.
pub fn lex(text: &String) -> (r: Token)
    ensures
        r == command_of(text@),
{
    if text_is(text, "exit") || text_is(text, "quit") {
        Token::Exit
    } else if text_is(text, "track") {
        Token::Track
    } else if text_is(text, "print") {
        Token::Print
    } else if text_is(text, "save") {
        Token::Save
    } else if text_is(text, "load_lattice") {
        Token::LoadLattice
    } else if text_is(text, "load_beam") {
        Token::LoadBeam
    } else if text_is(text, "break") {
        Token::AddBreakPoint
    } else if text_is(text, "reset") {
        Token::Reset
    } else if text_is(text, "help") {
        Token::Help
    } else {
        Token::Error
    }
}

} // verus!
