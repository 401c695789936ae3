use face_redact::geometry::{clamp_to_bounds, scale_rect, Rect};

#[test]
fn clamp_is_identity_inside_bounds() {
    let r = Rect { x: 10, y: 10, width: 50, height: 50 };
    let c = clamp_to_bounds(r, 640, 480);
    assert_eq!(c, r);
}

#[test]
fn clamp_shrinks_overhanging_rect() {
    let r = Rect { x: 600, y: 400, width: 100, height: 100 };
    let c = clamp_to_bounds(r, 640, 480);
    assert_eq!(c, Rect { x: 600, y: 400, width: 40, height: 80 });
    assert!(c.x >= 0 && c.y >= 0);
    assert!(c.x + c.width <= 640 && c.y + c.height <= 480);
    assert!(c.width <= r.width && c.height <= r.height);
}

#[test]
fn clamp_raises_negative_origin() {
    let r = Rect { x: -20, y: -10, width: 50, height: 50 };
    let c = clamp_to_bounds(r, 640, 480);
    assert_eq!(c, Rect { x: 0, y: 0, width: 50, height: 50 });
}

#[test]
fn clamp_far_outside_rect_becomes_degenerate() {
    let r = Rect { x: 700, y: 10, width: 50, height: 50 };
    let c = clamp_to_bounds(r, 640, 480);
    assert_eq!(c.width, -60);
    assert!(!(c.width > 0 && c.height > 0));
    assert!(c.x + c.width <= 640 && c.y + c.height <= 480);
}

#[test]
fn scale_by_unit_factor_twice_is_identity() {
    let r = Rect { x: 17, y: -3, width: 40, height: 25 };
    let once = scale_rect(r, 1);
    let twice = scale_rect(once, 1);
    assert_eq!(once, r);
    assert_eq!(twice, r);
}

#[test]
fn scale_multiplies_every_field() {
    let r = Rect { x: 1, y: 2, width: 3, height: 4 };
    let s = scale_rect(r, 2);
    assert_eq!(s, Rect { x: 2, y: 4, width: 6, height: 8 });
}
