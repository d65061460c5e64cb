//! Sizes and plan of the GPU scorer, which sums a per-texel difference
//! between two `w` by `h` textures.

use vstd::prelude::*;
use crate::reduce::{pass_plan, reduce_passes};

verus! {

/// The scorer of `w` by `h` images: one `f32` difference per texel, then a
/// sum reduction down to one `f32`.
pub struct GpuScorer {
    w: u32,
    h: u32,
}

/// Where the byte count `4 * w * h` fits a `u32`, so do `w * h` and
/// `w * h * 4`, and the texel count leaves room for one more block of 512.
proof fn lemma_four_texels(w: u32, h: u32)
    requires
        4 * (w as int) * (h as int) <= u32::MAX,
    ensures
        (w as int) * (h as int) <= u32::MAX - 511,
        (w as int) * (h as int) * 4 == 4 * (w as int) * (h as int),
{
    assert((w as int) * (h as int) * 4 == 4 * (w as int) * (h as int)) by (nonlinear_arith);
    assert(0 <= (w as int) * (h as int)) by (nonlinear_arith);
}

impl GpuScorer {
    /// Width of the images scored.
    pub closed spec fn spec_width(&self) -> u32 {
        self.w
    }

    /// Height of the images scored.
    pub closed spec fn spec_height(&self) -> u32 {
        self.h
    }

    /// A scorer for `w` by `h` images.
    pub fn new(w: u32, h: u32) -> (scorer: Self)
        ensures
            scorer.spec_width() == w,
            scorer.spec_height() == h,
    {
        GpuScorer { w, h }
    }

    pub fn width(&self) -> (w: u32)
        ensures
            w == self.spec_width(),
    {
        self.w
    }

    pub fn height(&self) -> (h: u32)
        ensures
            h == self.spec_height(),
    {
        self.h
    }

    /// Texels compared, which is the number of values the reduction sums.
    pub fn texel_count(&self) -> (n: u32)
        requires
            (self.spec_width() as int) * (self.spec_height() as int) <= u32::MAX,
        ensures
            n == (self.spec_width() as int) * (self.spec_height() as int),
    {
        self.w * self.h
    }

    /// Bytes of the difference buffer: one `f32` per texel.
    pub fn diff_buffer_size(&self) -> (size: u64)
        requires
            4 * (self.spec_width() as int) * (self.spec_height() as int) <= u32::MAX,
        ensures
            size == 4 * (self.spec_width() as int) * (self.spec_height() as int),
    {
        proof {
            lemma_four_texels(self.w, self.h);
        }
        (self.w * self.h * 4) as u64
    }

    /// Workgroup counts of the reduction passes over the difference buffer.
    pub fn reduce_passes(&self) -> (passes: Vec<u32>)
        requires
            4 * (self.spec_width() as int) * (self.spec_height() as int) <= u32::MAX,
        ensures
            passes@ == pass_plan(((self.spec_width() as int) * (self.spec_height() as int)) as u32),
    {
        proof {
            lemma_four_texels(self.w, self.h);
        }
        let n = self.texel_count();
        reduce_passes(n)
    }
}

} // verus!
