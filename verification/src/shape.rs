//! Average colour of the pixels that a region covers.

use vstd::prelude::*;
use crate::region::{
    covered_bytes_fit, covers, lemma_pixel_coords, lemma_pixel_in_image, region_fits, Rect, Region,
};

verus! {

/// Sum of channel `c` over the covered pixels among the first `n` pixels.
pub open spec fn channel_sum(region: Region, canvas: Seq<u8>, w: u32, n: int, c: int) -> int
    decreases n,
{
    if n <= 0 {
        0
    } else {
        channel_sum(region, canvas, w, n - 1, c) + if covers(region, w, n - 1) {
            canvas[4 * (n - 1) + c] as int
        } else {
            0
        }
    }
}

/// Number of covered pixels among the first `n` pixels.
pub open spec fn covered_count(region: Region, w: u32, n: int) -> int
    decreases n,
{
    if n <= 0 {
        0
    } else {
        covered_count(region, w, n - 1) + if covers(region, w, n - 1) { 1int } else { 0 }
    }
}

/// The colour `avg_color_cpu` gives: the truncated mean of red, green and
/// blue over the covered pixels of the `w` by `h` image, fully opaque; black
/// where no pixel is covered.
pub open spec fn average_color(region: Region, canvas: Seq<u8>, w: u32, h: u32) -> Seq<u8> {
    let n = (w as int) * (h as int);
    let count = covered_count(region, w, n);
    if count == 0 {
        seq![0u8, 0u8, 0u8, 255u8]
    } else {
        seq![
            (channel_sum(region, canvas, w, n, 0) / count) as u8,
            (channel_sum(region, canvas, w, n, 1) / count) as u8,
            (channel_sum(region, canvas, w, n, 2) / count) as u8,
            255u8,
        ]
    }
}

/// A channel sum never exceeds 255 per covered pixel.
pub proof fn lemma_channel_sum_bound(region: Region, canvas: Seq<u8>, w: u32, n: int, c: int)
    ensures
        0 <= channel_sum(region, canvas, w, n, c) <= 255 * covered_count(region, w, n),
        0 <= covered_count(region, w, n),
        n >= 0 ==> covered_count(region, w, n) <= n,
    decreases n,
{
    if n > 0 {
        lemma_channel_sum_bound(region, canvas, w, n - 1, c);
    }
}

/// Where the covered pixels' byte offsets are `u32`, at most `2^30` pixels
/// are covered.
pub proof fn lemma_covered_count_bound(region: Region, len: nat, w: u32, h: u32, k: int, m: int)
    requires
        covered_bytes_fit(region, len, w, h, k),
        0 <= m <= (w as int) * (h as int),
    ensures
        covered_count(region, w, m) <= 0x4000_0000,
    decreases m,
{
    lemma_channel_sum_bound(region, Seq::empty(), w, m, 0);
    if m > 0 {
        if covers(region, w, m - 1) {
            assert(4 * (m - 1) <= u32::MAX);
        } else {
            lemma_covered_count_bound(region, len, w, h, k, m - 1);
        }
    }
}

/// A covered pixel among the first `n` makes the count positive.
proof fn lemma_count_positive(region: Region, w: u32, n: int, p: int)
    requires
        0 <= p < n,
        covers(region, w, p),
    ensures
        covered_count(region, w, n) > 0,
    decreases n,
{
    if p < n - 1 {
        lemma_count_positive(region, w, n - 1, p);
    } else {
        lemma_channel_sum_bound(region, Seq::empty(), w, n - 1, 0);
    }
}

/// A non-empty rectangle that lies inside the `w` by `h` image covers some
/// pixel of it, so its average colour is taken over real pixels.
pub proof fn lemma_inner_rect_covers_pixel(r: Rect, w: u32, h: u32)
    requires
        r.w >= 1,
        r.h >= 1,
        r.x + r.w <= w,
        r.y + r.h <= h,
    ensures
        covered_count(Region::Rect(r), w, (w as int) * (h as int)) > 0,
{
    let p = r.y * w + r.x;
    lemma_pixel_coords(w, r.x as int, r.y as int);
    lemma_pixel_in_image(w, h, r.x as int, r.y as int);
    lemma_count_positive(Region::Rect(r), w, (w as int) * (h as int), p);
}

/// How many of the integers `0 .. a` lie in `lo .. lo + len` (for `lo >= 0`,
/// `len >= 0`).
pub open spec fn span(a: int, lo: int, len: int) -> int {
    if a <= lo {
        0
    } else if a >= lo + len {
        len
    } else {
        a - lo
    }
}

/// Covered pixels of a rectangle among the pixels before column `xx` of
/// row `yy`: a full row's share for each of its rows above `yy`, plus its
/// columns before `xx` if it spans row `yy`.
proof fn lemma_rect_count_prefix(r: Rect, w: u32, yy: int, xx: int)
    requires
        w > 0,
        0 <= yy,
        0 <= xx <= w,
    ensures
        covered_count(Region::Rect(r), w, yy * w + xx)
            == span(w as int, r.x as int, r.w as int) * span(yy, r.y as int, r.h as int)
            + if r.y <= yy < r.y + r.h { span(xx, r.x as int, r.w as int) } else { 0 },
    decreases yy, xx,
{
    let row = span(w as int, r.x as int, r.w as int);
    if xx > 0 {
        lemma_rect_count_prefix(r, w, yy, xx - 1);
        lemma_pixel_coords(w, xx - 1, yy);
        assert(yy * w + xx - 1 == yy * w + (xx - 1));
    } else if yy > 0 {
        lemma_rect_count_prefix(r, w, yy - 1, w as int);
        assert((yy - 1) * w + w == yy * w + xx) by (nonlinear_arith)
            requires xx == 0;
        let before = span(yy - 1, r.y as int, r.h as int);
        if r.y <= yy - 1 < r.y + r.h {
            assert(span(yy, r.y as int, r.h as int) == before + 1);
            assert(row * (before + 1) == row * before + row) by (nonlinear_arith);
        } else {
            assert(span(yy, r.y as int, r.h as int) == before);
        }
    } else {
        assert(yy * w + xx == 0) by (nonlinear_arith)
            requires yy == 0, xx == 0;
        assert(row * 0 == 0);
    }
}

/// The pixels of a `w` by `h` image that a rectangle covers are the image's
/// pixels in the rectangle's columns and rows: their number is the clipped
/// width times the clipped height, and a rectangle inside the image covers
/// exactly `r.w * r.h` pixels.
pub proof fn lemma_rect_pixel_count(r: Rect, w: u32, h: u32)
    ensures
        covered_count(Region::Rect(r), w, (w as int) * (h as int))
            == span(w as int, r.x as int, r.w as int) * span(h as int, r.y as int, r.h as int),
        r.x + r.w <= w && r.y + r.h <= h
            ==> covered_count(Region::Rect(r), w, (w as int) * (h as int)) == r.w * r.h,
{
    let cw = span(w as int, r.x as int, r.w as int);
    let ch = span(h as int, r.y as int, r.h as int);
    if w == 0 {
        assert((w as int) * (h as int) == 0);
        assert(cw == 0);
        assert(cw * ch == 0);
    } else {
        lemma_rect_count_prefix(r, w, h as int, 0);
        assert((h as int) * (w as int) + 0 == (w as int) * (h as int)) by (nonlinear_arith);
    }
}

/// Compute average RGB of pixels covered by the shape.
pub fn avg_color_cpu(region: &Region, canvas: &[u8], w: u32, h: u32) -> (color: [u8; 4])
    requires
        covered_bytes_fit(*region, canvas@.len(), w, h, 3),
        region_fits(*region, w, h),
    ensures
        color@ == average_color(*region, canvas@, w, h),
{
    let mut sr: u64 = 0;
    let mut sg: u64 = 0;
    let mut sb: u64 = 0;
    let mut count: u64 = 0;
    let ghost n = (w as int) * (h as int);
    let mut yy: u32 = 0;
    while yy < h
        invariant
            covered_bytes_fit(*region, canvas@.len(), w, h, 3),
            region_fits(*region, w, h),
            n == (w as int) * (h as int),
            yy <= h,
            sr == channel_sum(*region, canvas@, w, yy * w, 0),
            sg == channel_sum(*region, canvas@, w, yy * w, 1),
            sb == channel_sum(*region, canvas@, w, yy * w, 2),
            count == covered_count(*region, w, yy * w),
            yy * w <= n,
        decreases h - yy,
    {
        let mut xx: u32 = 0;
        while xx < w
            invariant
                covered_bytes_fit(*region, canvas@.len(), w, h, 3),
                region_fits(*region, w, h),
                n == (w as int) * (h as int),
                yy < h,
                xx <= w,
                sr == channel_sum(*region, canvas@, w, yy * w + xx, 0),
                sg == channel_sum(*region, canvas@, w, yy * w + xx, 1),
                sb == channel_sum(*region, canvas@, w, yy * w + xx, 2),
                count == covered_count(*region, w, yy * w + xx),
                yy * w + xx <= n,
            decreases w - xx,
        {
            let ghost p = yy * w + xx;
            proof {
                lemma_pixel_in_image(w, h, xx as int, yy as int);
                lemma_channel_sum_bound(*region, canvas@, w, p, 0);
                lemma_channel_sum_bound(*region, canvas@, w, p, 1);
                lemma_channel_sum_bound(*region, canvas@, w, p, 2);
                lemma_covered_count_bound(*region, canvas@.len(), w, h, 3, p);
            }
            let inside = region.covers_pixel(w, h, xx, yy);
            if inside {
                assert(covers(*region, w, p));
                let i = ((yy * w + xx) * 4) as usize;
                sr += canvas[i] as u64;
                sg += canvas[i + 1] as u64;
                sb += canvas[i + 2] as u64;
                count += 1;
            }
            xx += 1;
        }
        proof {
            assert((yy + 1) * w == yy * w + w) by (nonlinear_arith);
            assert((yy + 1) * w <= n) by (nonlinear_arith)
                requires yy < h, n == (w as int) * (h as int), 0 <= w;
        }
        yy += 1;
    }
    proof {
        assert(yy * w == n) by (nonlinear_arith)
            requires yy == h, n == (w as int) * (h as int);
        lemma_channel_sum_bound(*region, canvas@, w, n, 0);
        lemma_channel_sum_bound(*region, canvas@, w, n, 1);
        lemma_channel_sum_bound(*region, canvas@, w, n, 2);
    }
    if count == 0 {
        [0, 0, 0, 255]
    } else {
        proof {
            assert(sr / count <= 255) by (nonlinear_arith)
                requires sr <= 255 * count, count > 0;
            assert(sg / count <= 255) by (nonlinear_arith)
                requires sg <= 255 * count, count > 0;
            assert(sb / count <= 255) by (nonlinear_arith)
                requires sb <= 255 * count, count > 0;
        }
        let color = [(sr / count) as u8, (sg / count) as u8, (sb / count) as u8, 255];
        assert(color@ =~= average_color(*region, canvas@, w, h));
        color
    }
}

} // verus!
