//! Regions of a `w`-wide raster image, and the pixel-index arithmetic they rest on.

use vstd::prelude::*;
use vstd::arithmetic::div_mod::{
    lemma_fundamental_div_mod_converse_div,
    lemma_fundamental_div_mod_converse_mod,
};

verus! {

/// An axis-aligned rectangle: columns `x .. x + w`, rows `y .. y + h`.
#[derive(Clone, Copy, Debug, PartialEq, Eq)]
pub struct Rect {
    pub x: u32,
    pub y: u32,
    pub w: u32,
    pub h: u32,
}

/// The part of an image that a shape covers.
///
/// A rectangle is tested exactly on integer coordinates. Any other shape is
/// given as a mask with one entry per pixel, in row-major order; pixels past
/// the end of the mask are not covered.
#[derive(Debug)]
pub enum Region {
    Rect(Rect),
    Mask(Vec<bool>),
}

impl Rect {
    /// Column `xx`, row `yy` lies inside the rectangle.
    pub open spec fn contains(self, xx: int, yy: int) -> bool {
        &&& self.x <= xx < self.x + self.w
        &&& self.y <= yy < self.y + self.h
    }

    /// The containment test on a `img_w` by `img_h` image evaluates `x + w`
    /// and `y + h` in `u32` only where these sums fit: `x + w` is computed
    /// as soon as some column reaches `x`, and `y + h` as soon as some pixel
    /// lies in the rectangle's columns at or below row `y`.
    pub open spec fn fits(self, img_w: u32, img_h: u32) -> bool {
        &&& (img_h > 0 && self.x < img_w ==> self.x + self.w <= u32::MAX)
        &&& (img_h > 0 && self.x < img_w && self.w > 0 && self.y < img_h
            ==> self.y + self.h <= u32::MAX)
    }
}

/// Column of pixel `p` in a `w`-wide image.
pub open spec fn col_of(w: u32, p: int) -> int {
    p % (w as int)
}

/// Row of pixel `p` in a `w`-wide image.
pub open spec fn row_of(w: u32, p: int) -> int {
    p / (w as int)
}

/// Pixel number `p` (row-major) of a `w`-wide image lies in `region`.
pub open spec fn covers(region: Region, w: u32, p: int) -> bool {
    match region {
        Region::Rect(r) => r.contains(col_of(w, p), row_of(w, p)),
        Region::Mask(m) => 0 <= p < m@.len() && m@[p],
    }
}

/// The region can be tested on every pixel of a `w` by `h` image without
/// an arithmetic overflow.
pub open spec fn region_fits(region: Region, w: u32, h: u32) -> bool {
    match region {
        Region::Rect(r) => r.fits(w, h),
        Region::Mask(_) => true,
    }
}

/// Every pixel `p` of the `w` by `h` image that the region covers has its
/// byte offset `4 * p` in `u32`, and its first `k` bytes inside a buffer of
/// `len` bytes.
pub open spec fn covered_bytes_fit(region: Region, len: nat, w: u32, h: u32, k: int) -> bool {
    forall|p: int|
        0 <= p < (w as int) * (h as int) && #[trigger] covers(region, w, p)
            ==> 4 * p + k <= len && 4 * p <= u32::MAX
}

/// A buffer of `len` bytes holds a `w` by `h` RGBA image whose byte offsets
/// are all `u32`: then every region's pixels fit.
pub proof fn lemma_image_bytes_fit(region: Region, len: nat, w: u32, h: u32)
    requires
        4 * (w as int) * (h as int) <= len,
        4 * (w as int) * (h as int) <= 0x1_0000_0000,
    ensures
        covered_bytes_fit(region, len, w, h, 4),
{
    assert forall|p: int|
        0 <= p < (w as int) * (h as int) && #[trigger] covers(region, w, p)
            implies 4 * p + 4 <= len && 4 * p <= u32::MAX by {
        assert(4 * p + 4 <= 4 * (w as int) * (h as int)) by (nonlinear_arith)
            requires p < (w as int) * (h as int);
    }
}

/// Pixel `yy * w + xx` sits at column `xx` and row `yy`.
pub proof fn lemma_pixel_coords(w: u32, xx: int, yy: int)
    requires
        0 <= xx < w,
        0 <= yy,
    ensures
        col_of(w, yy * w + xx) == xx,
        row_of(w, yy * w + xx) == yy,
{
    lemma_fundamental_div_mod_converse_mod(yy * w + xx, w as int, yy, xx);
    lemma_fundamental_div_mod_converse_div(yy * w + xx, w as int, yy, xx);
}

/// A pixel inside a `w` by `h` image has a number below `w * h`.
pub proof fn lemma_pixel_in_image(w: u32, h: u32, xx: int, yy: int)
    requires
        0 <= xx < w,
        0 <= yy < h,
    ensures
        0 <= yy * w + xx < (w as int) * (h as int),
        yy * w + xx + 1 <= (yy + 1) * w,
{
    assert(yy * w + xx < (w as int) * (h as int)) by (nonlinear_arith)
        requires 0 <= xx < w, 0 <= yy < h;
    assert(0 <= yy * w) by (nonlinear_arith) requires 0 <= yy, 0 <= w;
    assert((yy + 1) * w == yy * w + w) by (nonlinear_arith);
}

impl Region {
    /// Whether column `xx`, row `yy` of a `w` by `h` image lies in the region.
    pub fn covers_pixel(&self, w: u32, h: u32, xx: u32, yy: u32) -> (inside: bool)
        requires
            xx < w,
            yy < h,
            region_fits(*self, w, h),
        ensures
            inside == covers(*self, w, yy * w + xx),
            self matches Region::Rect(r) ==> (inside <==> (
                r.x <= xx && xx < r.x + r.w && r.y <= yy && yy < r.y + r.h)),
    {
        proof {
            lemma_pixel_coords(w, xx as int, yy as int);
            lemma_pixel_in_image(w, h, xx as int, yy as int);
        }
        match self {
            Region::Rect(r) => {
                xx >= r.x && xx < r.x + r.w && yy >= r.y && yy < r.y + r.h
            },
            Region::Mask(m) => {
                assert((yy as int) * (w as int) + (xx as int) <= u64::MAX) by (nonlinear_arith)
                    requires yy <= u32::MAX, w <= u32::MAX, xx <= u32::MAX;
                let p = (yy as u64) * (w as u64) + (xx as u64);
                p < (m.len() as u64) && m[p as usize]
            },
        }
    }
}

} // verus!
