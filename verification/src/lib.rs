//! Planar RGB image data: channels are stored one after another, and pixels are
//! read as `[r, g, b]` triples in row-major order.

pub mod rgb;

use vstd::prelude::*;

verus! {

/// `Numeric` is the trait of the channel element types that an image can hold.
pub trait Numeric: Copy {}

impl Numeric for u8 {}
impl Numeric for u16 {}
impl Numeric for u32 {}
impl Numeric for u64 {}
impl Numeric for i8 {}
impl Numeric for i16 {}
impl Numeric for i32 {}
impl Numeric for i64 {}

} // verus!
