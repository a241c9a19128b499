//! The crate's failure taxonomy.
//!
//! Every failure happens at construction time: a resampled sequence, a
//! spectrum or an engine is either built whole or refused. Per-tick
//! operations never fail.

use vstd::prelude::*;

verus! {

/// A malformed construction input: a boundary with fewer than two points, a
/// target length below two, a retention ratio outside `(0, 1]`, an empty
/// sequence handed to the analyzer, a rotation table that does not fit its
/// sequence, or a value beyond the crate's fixed-point limits.
#[derive(Clone, Copy, Debug, PartialEq, Eq, Structural)]
pub enum Error {
    InvalidInput,
}

impl Error {
    /// A short human-readable description.
    pub fn describe(&self) -> (r: &'static str)
        ensures
            r@ =~= "invalid input"@,
    {
        "invalid input"
    }
}

} // verus!
