use rand::rngs::StdRng;
use rand::SeedableRng;
use stylize::paint::{blank_canvas, draw_shape, with_shape};
use stylize::random::random_rect;
use stylize::region::{Rect, Region};
use stylize::shape::avg_color_cpu;

fn gradient(w: u32, h: u32) -> Vec<u8> {
    let mut v = Vec::new();
    for y in 0..h {
        for x in 0..w {
            v.push((x * 10) as u8);
            v.push((y * 20) as u8);
            v.push((x + y) as u8);
            v.push(7);
        }
    }
    v
}

#[test]
fn avg_color_of_rect() {
    let canvas = gradient(4, 3);
    let r = Region::Rect(Rect { x: 1, y: 1, w: 2, h: 2 });
    // pixels (1,1) (2,1) (1,2) (2,2)
    // red: 10, 20, 10, 20 -> 15; green: 20, 20, 40, 40 -> 30; blue: 2,3,3,4 -> 3
    assert_eq!(avg_color_cpu(&r, &canvas, 4, 3), [15, 30, 3, 255]);
}

#[test]
fn avg_color_truncates() {
    // two pixels, red 1 and 2: mean 1.5 truncates to 1
    let canvas = vec![1, 0, 0, 0, 2, 0, 255, 0];
    let r = Region::Rect(Rect { x: 0, y: 0, w: 2, h: 1 });
    assert_eq!(avg_color_cpu(&r, &canvas, 2, 1), [1, 0, 127, 255]);
}

#[test]
fn avg_color_of_empty_region_is_opaque_black() {
    let canvas = gradient(4, 4);
    let outside = Region::Rect(Rect { x: 10, y: 10, w: 3, h: 3 });
    assert_eq!(avg_color_cpu(&outside, &canvas, 4, 4), [0, 0, 0, 255]);
    let zero_width = Region::Rect(Rect { x: 1, y: 1, w: 0, h: 3 });
    assert_eq!(avg_color_cpu(&zero_width, &canvas, 4, 4), [0, 0, 0, 255]);
    let none = Region::Mask(vec![false; 16]);
    assert_eq!(avg_color_cpu(&none, &canvas, 4, 4), [0, 0, 0, 255]);
}

#[test]
fn avg_color_of_mask() {
    let canvas = gradient(3, 2);
    // pixels 0 (0,0) and 5 (2,1)
    let mut m = vec![false; 6];
    m[0] = true;
    m[5] = true;
    let r = Region::Mask(m);
    // red: 0, 20 -> 10; green: 0, 20 -> 10; blue: 0, 3 -> 1
    assert_eq!(avg_color_cpu(&r, &canvas, 3, 2), [10, 10, 1, 255]);
}

#[test]
fn short_mask_covers_nothing_past_its_end() {
    let canvas = gradient(2, 2);
    let r = Region::Mask(vec![false, true]);
    assert_eq!(avg_color_cpu(&r, &canvas, 2, 2), [10, 0, 1, 255]);
}

#[test]
fn rect_clipped_by_image() {
    let canvas = gradient(3, 3);
    let r = Region::Rect(Rect { x: 2, y: 2, w: 100, h: 100 });
    assert_eq!(avg_color_cpu(&r, &canvas, 3, 3), [20, 40, 4, 255]);
}

#[test]
fn draw_paints_only_covered_pixels() {
    let mut canvas = gradient(3, 2);
    let before = canvas.clone();
    let r = Region::Rect(Rect { x: 1, y: 0, w: 1, h: 2 });
    draw_shape(&mut canvas, 3, 2, &r, [9, 8, 7, 6]);
    for p in 0..6usize {
        let x = p % 3;
        for k in 0..4usize {
            if x == 1 {
                assert_eq!(canvas[4 * p + k], [9, 8, 7, 6][k]);
            } else {
                assert_eq!(canvas[4 * p + k], before[4 * p + k]);
            }
        }
    }
}

#[test]
fn draw_keeps_bytes_past_the_image() {
    let mut canvas = vec![1u8; 4 * 4 + 3];
    let r = Region::Rect(Rect { x: 0, y: 0, w: 10, h: 10 });
    draw_shape(&mut canvas, 2, 2, &r, [5, 5, 5, 5]);
    assert_eq!(&canvas[..16], &[5u8; 16][..]);
    assert_eq!(&canvas[16..], &[1u8, 1, 1][..]);
}

#[test]
fn with_shape_leaves_source_alone() {
    let src = gradient(2, 2);
    let r = Region::Mask(vec![true, false, false, true]);
    let dst = with_shape(&src, 2, 2, &r, [200, 100, 50, 255]);
    assert_eq!(src, gradient(2, 2));
    assert_eq!(&dst[0..4], &[200, 100, 50, 255]);
    assert_eq!(&dst[4..12], &src[4..12]);
    assert_eq!(&dst[12..16], &[200, 100, 50, 255]);
}

#[test]
fn average_of_painted_region_is_the_paint() {
    let src = gradient(5, 4);
    let r = Region::Rect(Rect { x: 1, y: 1, w: 3, h: 2 });
    let dst = with_shape(&src, 5, 4, &r, [11, 22, 33, 44]);
    assert_eq!(avg_color_cpu(&r, &dst, 5, 4), [11, 22, 33, 255]);
}

#[test]
fn painting_twice_is_painting_once() {
    let src = gradient(4, 4);
    let r = Region::Mask(vec![true, false, true, false, false, true, true, false, false, false, false, true, true, true, true, true]);
    let once = with_shape(&src, 4, 4, &r, [3, 4, 5, 6]);
    let twice = with_shape(&once, 4, 4, &r, [3, 4, 5, 6]);
    assert_eq!(once, twice);
}

#[test]
fn blank_canvas_is_zero() {
    let c = blank_canvas(3, 2);
    assert_eq!(c, vec![0u8; 24]);
    assert_eq!(blank_canvas(0, 7), Vec::<u8>::new());
}

#[test]
fn random_rect_lies_inside_the_image() {
    for seed in 0..200u64 {
        let mut rng = StdRng::seed_from_u64(seed);
        for (w, h) in [(4u32, 4u32), (17, 9), (640, 480), (5, 1000)] {
            let r = random_rect(w, h, &mut rng);
            assert!(1 <= r.w && r.w <= w / 4);
            assert!(1 <= r.h && r.h <= h / 4);
            assert!(r.x < w - r.w);
            assert!(r.y < h - r.h);
        }
    }
}

#[test]
fn random_rect_is_determined_by_the_seed() {
    let mut a = StdRng::seed_from_u64(42);
    let mut b = StdRng::seed_from_u64(42);
    for _ in 0..20 {
        assert_eq!(random_rect(300, 200, &mut a), random_rect(300, 200, &mut b));
    }
}

#[test]
fn random_rect_painted_with_its_average_keeps_that_average() {
    let src = gradient(40, 24);
    let canvas = blank_canvas(40, 24);
    let mut rng = StdRng::seed_from_u64(7);
    for _ in 0..30 {
        let rect = random_rect(40, 24, &mut rng);
        let region = Region::Rect(rect);
        let color = avg_color_cpu(&region, &src, 40, 24);
        let trial = with_shape(&canvas, 40, 24, &region, color);
        assert_eq!(avg_color_cpu(&region, &trial, 40, 24), color);
    }
}

#[test]
fn random_rects_vary_with_the_generator() {
    let mut rng = StdRng::seed_from_u64(3);
    let rects: Vec<Rect> = (0..50).map(|_| random_rect(400, 300, &mut rng)).collect();
    assert!(rects.iter().any(|r| r.w > 1 && r.h > 1));
    assert!(rects.iter().any(|r| r.x > 0 && r.y > 0));
    assert!(rects.iter().any(|r| *r != rects[0]));
}
