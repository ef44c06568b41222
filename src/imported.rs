//! Reading an imported lattice file: lexing, parsing into a library and
//! expanding the requested line.
use vstd::prelude::*;
use vstd::string::*;
use crate::expansion::{expand, expand_line, ExpandError};
use crate::imported_lexer::{lower_of, lowercase, tokenize_file_contents, tokenized};
use crate::imported_parser::{
    element_views, empty_library, library_from, parse_tokens, step_views, ElegantElement,
    ImportError, RpnStep,
};
use crate::text::{stray_views, LexError, Stray};

verus! {

/// The expanded line of an imported lattice file, with the expression
/// program its parameters refer to and the characters the lexer skipped.
#[derive(Debug, Clone)]
pub struct ImportedLattice {
    pub line: Vec<ElegantElement>,
    pub program: Vec<RpnStep>,
    pub stray: Vec<Stray>,
}

#[derive(Debug, Clone)]
pub enum LoadError {
    Lex(LexError),
    Parse(ImportError),
    Expand(ExpandError),
}

/// Reads the text of an imported lattice file and expands the line named
/// `line_to_expand`; the text and the name are read in lower case.
pub fn load_elegant_text(contents: &str, filename: &str, line_to_expand: &str) -> (r: Result<
    ImportedLattice,
    LoadError,
>)
    ensures
        lower_of(contents@).len() < usize::MAX ==> match tokenized(lower_of(contents@), filename@) {
            Err(e) => r matches Err(LoadError::Lex(x)) && x.view() == e,
            Ok((ts, ss)) => match library_from(ts, 0, empty_library()) {
                Err(e) => r matches Err(LoadError::Parse(x)) && x.view() == e,
                Ok(lib) => match expand(lib, lower_of(line_to_expand@), lib.2.len()) {
                    Err(e) => r matches Err(LoadError::Expand(x)) && x.view() == e,
                    Ok(es) => r matches Ok(l) && element_views(l.line@) == es && step_views(
                        l.program@,
                    ) == lib.3 && stray_views(l.stray@) == ss,
                },
            },
        },
{
    let lexed = match tokenize_file_contents(contents, filename) {
        Ok(l) => l,
        Err(e) => {
            return Err(LoadError::Lex(e));
        },
    };
    let lib = match parse_tokens(lexed.tokens.as_slice()) {
        Ok(l) => l,
        Err(e) => {
            return Err(LoadError::Parse(e));
        },
    };
    let name = lowercase(line_to_expand);
    let line = match expand_line(&lib, &name) {
        Ok(v) => v,
        Err(e) => {
            return Err(LoadError::Expand(e));
        },
    };
    assert(lib.view().2.len() == lib.lines@.len());
    Ok(ImportedLattice { line, program: lib.program, stray: lexed.stray })
}

} // verus!
