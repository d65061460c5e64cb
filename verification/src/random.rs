//! Random placement of rectangles, drawn from a seeded `rand` generator.

use vstd::prelude::*;
use rand::rngs::StdRng;
use rand::Rng;
use crate::region::Rect;

verus! {

/// `rand`'s standard generator; what it holds is opaque here.
#[verifier::external_type_specification]
#[verifier::external_body]
pub struct ExStdRng(StdRng);

/// Calls `rand::Rng::gen_range` on the inclusive range `low..=high`.
/// `gen_range` panics on an empty range, so `low <= high` is required; the
/// value drawn is always within the range. Which value is drawn, and how the
/// generator's state moves on, depends on that state and is not stated.
#[verifier::external_body]
fn gen_range_inclusive(rng: &mut StdRng, low: u32, high: u32) -> (r: u32)
    requires
        low <= high,
    ensures
        low <= r <= high,
{
    rng.gen_range(low..=high)
}

/// A random rectangle inside a `w` by `h` image: width `1..=w/4`, height
/// `1..=h/4`, left edge in `0..w - width`, top edge in `0..h - height`, drawn
/// in that order.
///
/// An exclusive range `low..high` is drawn as `low..=high - 1`, which `rand`
/// samples identically.
pub fn random_rect(w: u32, h: u32, rng: &mut StdRng) -> (r: Rect)
    requires
        w >= 4,
        h >= 4,
    ensures
        1 <= r.w <= w / 4,
        1 <= r.h <= h / 4,
        r.x < w - r.w,
        r.y < h - r.h,
        r.fits(w, h),
{
    let rw = gen_range_inclusive(rng, 1, w / 4);
    let rh = gen_range_inclusive(rng, 1, h / 4);
    let x = gen_range_inclusive(rng, 0, w - rw - 1);
    let y = gen_range_inclusive(rng, 0, h - rh - 1);
    Rect { x, y, w: rw, h: rh }
}

} // verus!
