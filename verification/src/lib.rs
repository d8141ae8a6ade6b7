//! Brute-force recovery of a masked product key.
//!
//! A key template carries a designated mask symbol at the positions whose
//! characters are unknown.  The candidate generator enumerates every
//! assignment of an alphabet to those positions exactly once, as a
//! mixed-radix counter, and the search driver classifies oracle outcomes,
//! tracks progress, and decides termination.  The oracle itself (a native
//! validity check) is an external collaborator: callers run the loop and
//! feed each outcome back to the driver.

pub mod driver;
pub mod generator;
pub mod key_checker;

pub use driver::SearchDriver;
pub use driver::SearchStatus;
pub use driver::PROGRESS_BLOCK;
pub use generator::CandidateGenerator;
pub use generator::SetupError;
pub use key_checker::PidGenResult;
