//! Sealing of the connection word trait.
use vstd::prelude::*;

verus! {

/// Implemented only by the integer types that can back a connection id.
pub trait Sealed {
}

impl Sealed for u8 {
}

impl Sealed for u16 {
}

impl Sealed for u32 {
}

} // verus!
