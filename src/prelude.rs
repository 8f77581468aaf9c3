use vstd::prelude::*;

pub use crate::error::Error;

verus! {

/// The result of a fallible operation of this library.
pub type Result<T> = core::result::Result<T, Error>;

/// Generic wrapper tuple struct for the newtype pattern.
pub struct W<T>(pub T);

} // verus!
