//! A per-identity favorites store for color palettes and individual colors,
//! together with a seeded random-palette generator.
//!
//! Each caller identity owns a bounded list of saved palettes and a bounded
//! list of saved colors. The store enforces duplicate rejection and capacity
//! quotas, normalizes color codes to uppercase before comparison or storage,
//! and reports "nothing to do" (a `false` return) separately from policy
//! violations (an error).

use vstd::prelude::*;

pub mod ascii;
pub mod colors;
pub mod generator;
pub mod identity;
pub mod laws;
pub mod palettes;
pub mod store;
mod table;

verus! {

/// The failures a store or generator operation can report. A rejected
/// operation leaves the store unchanged.
#[derive(Clone, Copy, Debug, PartialEq, Eq, Structural)]
pub enum FavoritesError {
    /// The identity's list is already at its capacity limit.
    QuotaExceeded,
    /// An entry with the same identity-relevant content already exists.
    DuplicateEntry,
    /// The host could not supply enough random bytes.
    EntropyUnavailable,
}

} // verus!
