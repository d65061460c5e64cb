//! Painting a region of an image with a flat colour.

use vstd::prelude::*;
use vstd::arithmetic::div_mod::{
    lemma_div_by_multiple,
    lemma_fundamental_div_mod_converse_div,
    lemma_fundamental_div_mod_converse_mod,
};
use crate::region::{covered_bytes_fit, covers, lemma_pixel_in_image, region_fits, Region};
use crate::shape::{average_color, channel_sum, covered_count};

verus! {

/// `canvas` with every covered pixel among the first `n` pixels set to `color`.
pub open spec fn painted_upto(region: Region, canvas: Seq<u8>, w: u32, n: int, color: Seq<u8>) -> Seq<u8> {
    Seq::new(
        canvas.len(),
        |i: int|
            if i < 4 * n && covers(region, w, i / 4) {
                color[i % 4]
            } else {
                canvas[i]
            },
    )
}

/// `canvas` with every covered pixel of the `w` by `h` image set to `color`;
/// every other byte kept.
pub open spec fn painted(region: Region, canvas: Seq<u8>, w: u32, h: u32, color: Seq<u8>) -> Seq<u8> {
    painted_upto(region, canvas, w, (w as int) * (h as int), color)
}

/// A fully transparent black `w` by `h` canvas.
pub fn blank_canvas(w: u32, h: u32) -> (canvas: Vec<u8>)
    requires
        (w as int) * (h as int) * 4 <= u32::MAX,
    ensures
        canvas@ == Seq::new(((w as int) * (h as int) * 4) as nat, |i: int| 0u8),
{
    proof {
        assert(0 <= (w as int) * (h as int) <= (w as int) * (h as int) * 4) by (nonlinear_arith);
    }
    let canvas = vec![0u8; (w * h * 4) as usize];
    assert(canvas@ =~= Seq::new(((w as int) * (h as int) * 4) as nat, |i: int| 0u8));
    canvas
}

/// Byte `4 * p + k` (`k < 4`) is channel `k` of pixel `p`.
pub proof fn lemma_byte_of_pixel(p: int, k: int)
    requires
        0 <= p,
        0 <= k < 4,
    ensures
        (4 * p + k) / 4 == p,
        (4 * p + k) % 4 == k,
{
    lemma_fundamental_div_mod_converse_div(4 * p + k, 4, p, k);
    lemma_fundamental_div_mod_converse_mod(4 * p + k, 4, p, k);
}

/// Bytes below `4 * p` belong to pixels below `p`, the others to pixels at or after `p`.
proof fn lemma_byte_before_pixel(i: int, p: int)
    requires
        0 <= i,
        0 <= p,
    ensures
        i < 4 * p <==> i / 4 < p,
{
}

/// Paint every pixel of the `w` by `h` image that the region covers with `color`.
pub fn draw_shape(canvas: &mut [u8], w: u32, h: u32, region: &Region, color: [u8; 4])
    requires
        covered_bytes_fit(*region, old(canvas)@.len(), w, h, 4),
        region_fits(*region, w, h),
    ensures
        final(canvas)@ == painted(*region, old(canvas)@, w, h, color@),
{
    let ghost n = (w as int) * (h as int);
    let ghost orig = canvas@;
    assert(canvas@ =~= painted_upto(*region, orig, w, 0, color@));
    let mut yy: u32 = 0;
    while yy < h
        invariant
            covered_bytes_fit(*region, canvas@.len(), w, h, 4),
            canvas@.len() == orig.len(),
            region_fits(*region, w, h),
            n == (w as int) * (h as int),
            yy <= h,
            yy * w <= n,
            canvas@ == painted_upto(*region, orig, w, yy * w, color@),
        decreases h - yy,
    {
        let mut xx: u32 = 0;
        while xx < w
            invariant
                covered_bytes_fit(*region, canvas@.len(), w, h, 4),
                canvas@.len() == orig.len(),
                region_fits(*region, w, h),
                n == (w as int) * (h as int),
                yy < h,
                xx <= w,
                yy * w + xx <= n,
                canvas@ == painted_upto(*region, orig, w, yy * w + xx, color@),
            decreases w - xx,
        {
            let ghost p = yy * w + xx;
            proof {
                lemma_pixel_in_image(w, h, xx as int, yy as int);
            }
            let inside = region.covers_pixel(w, h, xx, yy);
            if inside {
                assert(covers(*region, w, p));
                let i = ((yy * w + xx) * 4) as usize;
                canvas[i] = color[0];
                canvas[i + 1] = color[1];
                canvas[i + 2] = color[2];
                canvas[i + 3] = color[3];
            }
            proof {
                let next = painted_upto(*region, orig, w, p + 1, color@);
                assert forall|j: int| 0 <= j < canvas@.len() implies canvas@[j] == next[j] by {
                    lemma_byte_before_pixel(j, p);
                    lemma_byte_before_pixel(j, p + 1);
                    if 4 * p <= j < 4 * p + 4 {
                        lemma_byte_of_pixel(p, j - 4 * p);
                    }
                }
                assert(canvas@ =~= next);
            }
            xx += 1;
        }
        proof {
            assert((yy + 1) * w == yy * w + w) by (nonlinear_arith);
            assert((yy + 1) * w <= n) by (nonlinear_arith)
                requires yy < h, n == (w as int) * (h as int), 0 <= w;
        }
        yy += 1;
    }
    proof {
        assert(yy * w == n) by (nonlinear_arith)
            requires yy == h, n == (w as int) * (h as int);
    }
}

/// A copy of `src` with the region painted with `color`.
pub fn with_shape(src: &[u8], w: u32, h: u32, region: &Region, color: [u8; 4]) -> (dst: Vec<u8>)
    requires
        covered_bytes_fit(*region, src@.len(), w, h, 4),
        region_fits(*region, w, h),
    ensures
        dst@ == painted(*region, src@, w, h, color@),
{
    let mut dst = vstd::slice::slice_to_vec(src);
    draw_shape(dst.as_mut_slice(), w, h, region, color);
    dst
}

/// After painting, channel `k` of every covered pixel of the image is
/// `color[k]`, and every byte of an uncovered pixel, or past the image, is
/// what it was.
pub proof fn lemma_painted_bytes(region: Region, canvas: Seq<u8>, w: u32, h: u32, color: Seq<u8>)
    requires
        covered_bytes_fit(region, canvas.len(), w, h, 4),
    ensures
        painted(region, canvas, w, h, color).len() == canvas.len(),
        forall|p: int, k: int|
            0 <= p < (w as int) * (h as int) && 0 <= k < 4 && covers(region, w, p)
                ==> #[trigger] painted(region, canvas, w, h, color)[4 * p + k] == color[k],
        forall|i: int|
            0 <= i < canvas.len() && (i >= 4 * ((w as int) * (h as int)) || !covers(region, w, i / 4))
                ==> #[trigger] painted(region, canvas, w, h, color)[i] == canvas[i],
{
    let n = (w as int) * (h as int);
    assert forall|p: int, k: int|
        0 <= p < n && 0 <= k < 4 && covers(region, w, p)
            implies #[trigger] painted(region, canvas, w, h, color)[4 * p + k] == color[k] by {
        lemma_byte_of_pixel(p, k);
        assert(4 * p + k < canvas.len());
    }
}

/// Painting twice with the same region and colour is painting once.
pub proof fn lemma_paint_idempotent(region: Region, canvas: Seq<u8>, w: u32, h: u32, color: Seq<u8>)
    ensures
        painted(region, painted(region, canvas, w, h, color), w, h, color)
            == painted(region, canvas, w, h, color),
{
    assert(painted(region, painted(region, canvas, w, h, color), w, h, color)
        =~= painted(region, canvas, w, h, color));
}

/// On a painted canvas, each covered pixel contributes the paint's channel.
proof fn lemma_channel_sum_of_painted(
    region: Region,
    canvas: Seq<u8>,
    w: u32,
    h: u32,
    color: Seq<u8>,
    m: int,
    c: int,
)
    requires
        covered_bytes_fit(region, canvas.len(), w, h, 4),
        0 <= m <= (w as int) * (h as int),
        0 <= c < 4,
    ensures
        channel_sum(region, painted(region, canvas, w, h, color), w, m, c)
            == color[c] * covered_count(region, w, m),
    decreases m,
{
    if m > 0 {
        lemma_channel_sum_of_painted(region, canvas, w, h, color, m - 1, c);
        lemma_painted_bytes(region, canvas, w, h, color);
        assert(color[c] * (covered_count(region, w, m - 1) + 1)
            == color[c] * covered_count(region, w, m - 1) + color[c]) by (nonlinear_arith);
        if covers(region, w, m - 1) {
            assert(painted(region, canvas, w, h, color)[4 * (m - 1) + c] == color[c]);
        }
    }
}

/// Averaging a region just painted with `color` gives back the paint's red,
/// green and blue, fully opaque, whenever the region covers some pixel of
/// the image.
pub proof fn lemma_average_of_painted(region: Region, canvas: Seq<u8>, w: u32, h: u32, color: Seq<u8>)
    requires
        covered_bytes_fit(region, canvas.len(), w, h, 4),
        color.len() == 4,
        covered_count(region, w, (w as int) * (h as int)) > 0,
    ensures
        average_color(region, painted(region, canvas, w, h, color), w, h)
            == seq![color[0], color[1], color[2], 255u8],
{
    let n = (w as int) * (h as int);
    let count = covered_count(region, w, n);
    let after = painted(region, canvas, w, h, color);
    assert(0 <= n) by (nonlinear_arith) requires n == (w as int) * (h as int);
    lemma_channel_sum_of_painted(region, canvas, w, h, color, n, 0);
    lemma_channel_sum_of_painted(region, canvas, w, h, color, n, 1);
    lemma_channel_sum_of_painted(region, canvas, w, h, color, n, 2);
    lemma_div_by_multiple(color[0] as int, count);
    lemma_div_by_multiple(color[1] as int, count);
    lemma_div_by_multiple(color[2] as int, count);
    assert(average_color(region, after, w, h) =~= seq![color[0], color[1], color[2], 255u8]);
}

} // verus!
