//! The rendered image: a row-major grid of linear colors.

use vstd::prelude::*;

verus! {

use crate::vec3::Color;

/// A width-by-height grid of pixels, row-major, top row first.
pub struct Image {
    pub width: u32,
    pub height: u32,
    pub data: Vec<Color>,
}

impl Image {
    /// Wrap pixel data; rejects a buffer whose length does not match the
    /// dimensions.
    pub fn new(width: u32, height: u32, data: Vec<Color>) -> (r: Option<Self>)
        ensures
            r is Some <==> (width as int) * (height as int) == data@.len(),
            r is Some ==> {
                &&& r->0.width == width
                &&& r->0.height == height
                &&& r->0.data == data
            },
    {
        proof {
            vstd::arithmetic::mul::lemma_mul_upper_bound(
                width as int,
                u32::MAX as int,
                height as int,
                u32::MAX as int,
            );
        }
        let expected: u64 = (width as u64) * (height as u64);
        if data.len() as u64 != expected {
            return None;
        }
        Some(Image { width, height, data })
    }

    pub fn width(&self) -> (r: u32)
        ensures
            r == self.width,
    {
        self.width
    }

    pub fn height(&self) -> (r: u32)
        ensures
            r == self.height,
    {
        self.height
    }

    /// The pixel at `index` in row-major order.
    pub fn pixel(&self, index: usize) -> (r: Color)
        requires
            index < self.data@.len(),
        ensures
            r == self.data@[index as int],
    {
        self.data[index]
    }
}

} // verus!
