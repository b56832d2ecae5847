//! The errors that a reader keeps.

use vstd::prelude::*;

verus! {

/// Why a reader refuses to go on.
#[derive(Debug)]
pub enum InputError {
    /// The byte source reported a failure.
    IO(std::io::Error),
    /// The input at the current position was no value of the type asked for.
    Extraction,
}

} // verus!
