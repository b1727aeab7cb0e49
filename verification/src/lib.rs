//! A byte-tape machine for the eight instructions `><+-.,[]`, and a generator of programs for
//! it.
//!
//! [`BrainfuckReader`] carries out a program on a tape of wrapping bytes with a pointer that
//! must stay on the tape. [`BrainfuckWriter`] writes a program that prints given bytes. What a
//! run is is defined in [`machine`]; the reader is proved to do exactly that, and the writer's
//! programs are proved to print their bytes.

use vstd::prelude::*;

pub mod chars;
pub mod cli_util;
pub mod commands;
pub mod config;
pub mod editor;
pub mod error;
pub mod highlight;
pub mod hooks;
pub mod keys;
pub mod laws;
pub mod limits;
pub mod machine;
pub mod program;
pub mod reader;
pub mod repl;
pub mod roundtrip;
pub mod segments;
pub mod text;
pub mod trace;
pub mod tui;
pub mod writer;

pub use error::BrainfuckReaderError;
pub use error::UnmatchedBracketKind;
pub use reader::BrainfuckReader;
pub use reader::StepControl;
pub use repl::ModeFlagOverride;
pub use writer::BrainfuckWriter;
pub use writer::BrainfuckWriterError;
pub use writer::WriterOptions;

verus! {

/// Keep only the instruction characters.
pub fn bf_only(s: &str) -> (kept: String)
    ensures
        kept@ == repl::only_instructions(s@),
{
    chars::to_string(&repl::keep_instructions(&chars::to_chars(s)))
}

} // verus!
