//! BLAKE2b as a hash, a MAC and a key derivation function: an incremental
//! engine proved against the algorithm's definition, and the checks that
//! guard it.
use vstd::prelude::*;

pub mod laws;
pub mod model;
pub mod b2b_api;
mod b2b_impl;

pub use crate::b2b_api::Blake2b;
pub use crate::b2b_impl::B2Impl;

verus! {

/// A Blake2 related error
#[derive(Debug, PartialEq, Eq, Clone, Copy)]
pub enum Blake2Error {
    /// An API misuse happened
    ApiMisuse(&'static str),
}

} // verus!
