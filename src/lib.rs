//! Longitudinal particle tracking: lexers and parsers of the native and the
//! imported lattice formats, line expansion, and the tracking cursor of a
//! simulation.

pub mod commands;
pub mod elements;
pub mod expansion;
pub mod imported;
pub mod imported_lexer;
pub mod imported_parser;
pub mod native_lexer;
pub mod native_parser;
pub mod options;
pub mod text;
pub mod tracking;
