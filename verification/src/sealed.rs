//! The supertrait that keeps the marker traits closed.
//!
//! This module is private, so no code outside the crate can name [`Sealed`], and so none can
//! implement a trait that requires it.
use vstd::prelude::*;

verus! {

/// Implemented for exactly the marker types of this crate.
pub trait Sealed {}

} // verus!
