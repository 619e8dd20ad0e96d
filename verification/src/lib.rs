//! A growable vector for settings in which running out of memory is an
//! ordinary outcome: every operation that may need more room asks for it
//! and either reports a refusal or, on the best-effort paths, leaves the
//! refused element out.

pub mod error;
pub mod accumulate;
pub mod vector;

pub use crate::error::AllocError;
pub use crate::vector::MyVec;
