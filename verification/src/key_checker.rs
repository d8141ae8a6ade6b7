//! The closed set of outcomes the key-validity oracle can report.

use vstd::prelude::*;

verus! {

/// Outcome of one oracle query about a fully specified candidate key.
///
/// `Valid` is the sole success signal; every other variant tells the search to
/// keep going.  `UnknownError` preserves the raw native status code for
/// diagnostics.
#[derive(Debug, Clone, Copy, PartialEq, Eq, Structural)]
pub enum PidGenResult {
    Valid,
    PKeyMissing,
    InvalidArguments,
    InvalidKey,
    BlackListedKey,
    UnknownError(u32),
}

/// The outcome a raw native status code denotes.
pub open spec fn outcome_of_status(code: u32) -> PidGenResult {
    if code == 0 {
        PidGenResult::Valid
    } else if code == 0x80070002 {
        PidGenResult::PKeyMissing
    } else if code == 0x80070057 {
        PidGenResult::InvalidArguments
    } else if code == 0x8A010101 {
        PidGenResult::InvalidKey
    } else if code == 0x0000000F {
        PidGenResult::BlackListedKey
    } else {
        PidGenResult::UnknownError(code)
    }
}

impl PidGenResult {
    /// Classifies the raw status code the native oracle returned.  Codes
    /// outside the known set keep their value for diagnostics.
    pub fn from_status(code: u32) -> (r: PidGenResult)
        ensures
            r == outcome_of_status(code),
    {
        match code {
            0 => PidGenResult::Valid,
            0x80070002 => PidGenResult::PKeyMissing,
            0x80070057 => PidGenResult::InvalidArguments,
            0x8A010101 => PidGenResult::InvalidKey,
            0x0000000F => PidGenResult::BlackListedKey,
            other => PidGenResult::UnknownError(other),
        }
    }

    /// Whether this outcome terminates the search successfully.
    pub fn is_valid(&self) -> (r: bool)
        ensures
            r <==> (self is Valid),
    {
        match self {
            PidGenResult::Valid => true,
            _ => false,
        }
    }
}

} // verus!
