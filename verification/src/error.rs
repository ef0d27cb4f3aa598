//! The two recoverable failures of a network-facing stage.

use vstd::prelude::*;

verus! {

/// Why a search, resolve or fetch request produced nothing usable.
#[derive(Debug, Clone, Copy, PartialEq, Eq, Structural)]
pub enum Error {
    /// No response arrived within the configured time.
    Timeout,
    /// A response arrived but could not be used: wrong encoding, missing
    /// markup or an undecodable body.
    InvalidResponse,
}

} // verus!
