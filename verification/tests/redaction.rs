use face_redact::frame::{Frame, Pixel};
use face_redact::geometry::Rect;
use face_redact::redact::{draw_outline, redact_blur};

fn gray(v: u8) -> Pixel {
    Pixel { b: v, g: v, r: v }
}

fn patterned_frame(width: i32, height: i32) -> Frame {
    let mut f = Frame::new(width, height, gray(0));
    for y in 0..height {
        for x in 0..width {
            let v = ((x * 7 + y * 13) % 256) as u8;
            f.set(x, y, gray(v));
        }
    }
    f
}

fn region_variance(f: &Frame, x0: i32, y0: i32, x1: i32, y1: i32) -> f64 {
    let mut sum = 0.0f64;
    let mut count = 0.0f64;
    for y in y0..y1 {
        for x in x0..x1 {
            sum += f.get(x, y).g as f64;
            count += 1.0;
        }
    }
    let mean = sum / count;
    let mut var = 0.0f64;
    for y in y0..y1 {
        for x in x0..x1 {
            let d = f.get(x, y).g as f64 - mean;
            var += d * d;
        }
    }
    var / count
}

#[test]
fn outline_paints_band_and_nothing_else() {
    let original = patterned_frame(12, 12);
    let mut f = patterned_frame(12, 12);
    let rect = Rect { x: 2, y: 3, width: 6, height: 5 };
    draw_outline(&mut f, rect);
    let red = Pixel { b: 0, g: 0, r: 255 };
    for y in 0..12 {
        for x in 0..12 {
            let inside = x >= 2 && x < 8 && y >= 3 && y < 8;
            let interior = x >= 4 && x < 6 && y >= 5 && y < 6;
            if inside && !interior {
                assert_eq!(f.get(x, y), red, "band pixel ({x},{y}) must be red");
            } else {
                assert_eq!(f.get(x, y), original.get(x, y), "pixel ({x},{y}) must not change");
            }
        }
    }
}

#[test]
fn outline_on_degenerate_rect_changes_nothing() {
    let original = patterned_frame(10, 10);
    let mut f = patterned_frame(10, 10);
    draw_outline(&mut f, Rect { x: 4, y: 4, width: 0, height: 5 });
    for y in 0..10 {
        for x in 0..10 {
            assert_eq!(f.get(x, y), original.get(x, y));
        }
    }
}

#[test]
fn blur_on_fully_outside_rect_changes_nothing() {
    let original = patterned_frame(8, 8);
    let mut f = patterned_frame(8, 8);
    redact_blur(&mut f, Rect { x: 9, y: 0, width: 5, height: 5 }, 7);
    for y in 0..8 {
        for x in 0..8 {
            assert_eq!(f.get(x, y), original.get(x, y));
        }
    }
}

#[test]
fn covering_blur_flattens_region_to_its_mean() {
    let mut f = Frame::new(6, 6, gray(10));
    // region pixels 1..4 x 1..4 hold 0, 30, 60, ..., 240: mean 120
    let mut v = 0u8;
    for y in 1..4 {
        for x in 1..4 {
            f.set(x, y, gray(v));
            v = v.wrapping_add(30);
        }
    }
    let rect = Rect { x: 1, y: 1, width: 3, height: 3 };
    // kernel 7 has radius 3 >= region side - 1, so every window is the region
    redact_blur(&mut f, rect, 7);
    for y in 0..6 {
        for x in 0..6 {
            let inside = x >= 1 && x < 4 && y >= 1 && y < 4;
            if inside {
                assert_eq!(f.get(x, y), gray(120));
            } else {
                assert_eq!(f.get(x, y), gray(10));
            }
        }
    }
}

#[test]
fn second_covering_blur_changes_nothing() {
    let mut f = patterned_frame(9, 9);
    let rect = Rect { x: 2, y: 2, width: 4, height: 4 };
    redact_blur(&mut f, rect, 9);
    let once: Vec<Pixel> = (0..9).flat_map(|y| (0..9).map(move |x| (x, y))).map(|(x, y)| f.get(x, y)).collect();
    let var_once = region_variance(&f, 2, 2, 6, 6);
    redact_blur(&mut f, rect, 9);
    let var_twice = region_variance(&f, 2, 2, 6, 6);
    let twice: Vec<Pixel> = (0..9).flat_map(|y| (0..9).map(move |x| (x, y))).map(|(x, y)| f.get(x, y)).collect();
    assert_eq!(once, twice);
    assert!(var_once >= var_twice);
}

#[test]
fn blur_creates_no_new_extremes() {
    let mut f = Frame::new(12, 12, gray(128));
    for y in 3..9 {
        for x in 3..9 {
            let v = 40 + ((x * 11 + y * 17) % 160) as u8;
            f.set(x, y, gray(v));
        }
    }
    let mut lo = 255u8;
    let mut hi = 0u8;
    for y in 3..9 {
        for x in 3..9 {
            lo = lo.min(f.get(x, y).g);
            hi = hi.max(f.get(x, y).g);
        }
    }
    redact_blur(&mut f, Rect { x: 3, y: 3, width: 6, height: 6 }, 5);
    for y in 3..9 {
        for x in 3..9 {
            let p = f.get(x, y);
            assert!(lo <= p.b && p.b <= hi);
            assert!(lo <= p.g && p.g <= hi);
            assert!(lo <= p.r && p.r <= hi);
        }
    }
}

#[test]
fn repeated_blur_never_regains_detail() {
    // checkerboard region, kernel smaller than the region
    let mut f = Frame::new(16, 16, gray(128));
    for y in 4..12 {
        for x in 4..12 {
            let v = if (x + y) % 2 == 0 { 0 } else { 255 };
            f.set(x, y, gray(v));
        }
    }
    let rect = Rect { x: 4, y: 4, width: 8, height: 8 };
    let var_before = region_variance(&f, 4, 4, 12, 12);
    redact_blur(&mut f, rect, 3);
    let var_once = region_variance(&f, 4, 4, 12, 12);
    redact_blur(&mut f, rect, 3);
    let var_twice = region_variance(&f, 4, 4, 12, 12);
    assert!(var_once < var_before, "one blur must smooth the region");
    assert!(var_once >= var_twice, "a second blur must not reintroduce detail");
}
