//! The library's error type for checks that only say that something failed.
use vstd::prelude::*;

verus! {

/// An error that only records that a check failed.
#[derive(Copy, Clone, Debug, PartialEq, Eq, Structural)]
pub struct Error;

} // verus!
