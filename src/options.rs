//! Command-line options of the tracker, and when they are complete.
use vstd::prelude::*;

verus! {

#[derive(Debug, Clone, Default)]
pub struct Options {
    pub input_filename: String,
    pub elegant: bool,
    pub elegant_line: String,
    pub beam_defined: bool,
    pub beam_filename: String,
    pub save_file: bool,
    pub save_filename: String,
}

/// Whether the options can be run: an input file is named, and each flag
/// that asks for a file names one.
pub fn check_options(opts: &Options) -> (r: bool)
    ensures
        r == !(opts.input_filename@.len() == 0 || (opts.save_file && opts.save_filename@.len()
            == 0) || (opts.beam_defined && opts.beam_filename@.len() == 0)),
{
    if opts.save_file && opts.save_filename.as_str().unicode_len() == 0
        || opts.input_filename.as_str().unicode_len() == 0 {
        return false;
    }
    if opts.beam_defined && opts.beam_filename.as_str().unicode_len() == 0 {
        return false;
    }
    true
}

} // verus!
