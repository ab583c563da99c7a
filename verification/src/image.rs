//! Image dimensions derived from a target width and aspect ratio.

use vstd::prelude::*;

verus! {

use crate::fx::tdiv;

#[derive(Clone, Copy)]
pub struct Image {
    pub aspect_ratio: i64,
    pub width: usize,
    pub height: usize,
}

impl Image {
    /// The height is the width divided by the aspect ratio, rounded
    /// toward zero.
    pub fn from_width(aspect_ratio: i64, width: usize) -> (img: Image)
        requires
            aspect_ratio > 0,
            width <= 1000000,
            tdiv(width as int * 65536, aspect_ratio as int) <= 1000000,
        ensures
            img.aspect_ratio == aspect_ratio,
            img.width == width,
            img.height == tdiv(width as int * 65536, aspect_ratio as int),
    {
        let w128: u128 = (width as u128) * 65536;
        let h: u128 = w128 / (aspect_ratio as u128);
        proof {
            vstd::arithmetic::div_mod::lemma_div_nonincreasing(w128 as int, aspect_ratio as int);
            vstd::arithmetic::div_mod::lemma_div_pos_is_pos(w128 as int, aspect_ratio as int);
        }
        Image { aspect_ratio, width, height: h as usize }
    }
}

} // verus!
