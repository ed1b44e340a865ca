//! A peer-to-peer short-term-rental booking ledger.
//!
//! Guests reserve a listing for a date range, funds are escrowed, and a
//! multi-step approval / check-in / withdrawal protocol releases the funds
//! deterministically.

use vstd::prelude::*;

pub mod apartments;
pub mod escrow;
pub mod functions;
pub mod hashing;
pub mod indexes;
pub mod laws;
pub mod places;
pub mod store;
pub mod structures;
pub mod utils;

verus! {

/// Number of milliseconds in one hour.
pub const MILLIS_PER_HOUR: u64 = 3_600_000;

/// Number of milliseconds in one day.
pub const MILLIS_PER_DAY: u64 = 86_400_000;

} // verus!
