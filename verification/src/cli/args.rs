//! Command-line arguments of the program: the parser of [`crate::args`]
//! with the program's usage text.

pub use crate::args::{CliArgs, CliArgsError, RunSettings, TextSource};
use crate::args::{CliArgsErrorModel, cli_args_error_text};
use vstd::prelude::*;

verus! {

/// Usage text printed for `--help`.
pub const USAGE: &'static str = "\
Oreluno

Usage:
    oreluno --text <text> [options]
    oreluno --train <path> [options]

Modes:
    --text <text>
        Run the model with the provided input text

    --train <path>
        Train the model using data from the specified file
        Takes precedence over --text when both are provided

Options:
    --seed <u64>
        Seed for the pseudorandom number generator
        Default: 0

    --length <usize>
        Number of tokens to generate.
        Default: 0

    -h, --help
        Show this help message
";

/// The usage text of the program.
pub fn usage() -> (r: &'static str)
    ensures
        r == USAGE,
{
    USAGE
}

/// Text shown to the user for an argument error of this program: a help
/// request answers with this program's usage text, every other error
/// with its usual text.
pub open spec fn error_text(e: CliArgsErrorModel) -> Seq<char> {
    match e {
        CliArgsErrorModel::Usage => USAGE@,
        other => cli_args_error_text(other),
    }
}

/// Text shown to the user for an argument error of this program.
pub fn error_message(error: &CliArgsError) -> (s: String)
    ensures
        s@ == error_text(error@),
{
    match error {
        CliArgsError::Usage => String::from_str(usage()),
        _ => error.message(),
    }
}

} // verus!
