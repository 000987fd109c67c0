//! The set of types that the context can hold is closed: only this crate
//! implements the marker trait below, so only its types are context items.
use vstd::prelude::*;
use crate::math::MathEngine;

verus! {

/// Implemented exactly by the types that a context value can hold.
pub trait Sealed {
}

impl Sealed for bool {
}

impl Sealed for u8 {
}

impl Sealed for u16 {
}

impl Sealed for u32 {
}

impl Sealed for u64 {
}

impl Sealed for usize {
}

impl Sealed for i8 {
}

impl Sealed for i16 {
}

impl Sealed for i32 {
}

impl Sealed for i64 {
}

impl Sealed for isize {
}

impl Sealed for String {
}

impl Sealed for MathEngine {
}

} // verus!
