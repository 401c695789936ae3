use face_redact::config::{Config, RedactionPolicy, CAPTURE_HEIGHT, CAPTURE_WIDTH};
use face_redact::control::process_frame;
use face_redact::detect::{filter_detections, Detection};
use face_redact::frame::{Frame, Pixel};
use face_redact::geometry::Rect;

fn gray(v: u8) -> Pixel {
    Pixel { b: v, g: v, r: v }
}

fn synthetic_frame(width: i32, height: i32) -> Frame {
    let mut f = Frame::new(width, height, gray(0));
    for y in 0..height {
        for x in 0..width {
            let v = ((x * 7 + y * 13) % 256) as u8;
            f.set(x, y, gray(v));
        }
    }
    f
}

fn region_variance(f: &Frame, x0: i32, y0: i32, x1: i32, y1: i32) -> f64 {
    let mut sum = 0.0f64;
    let mut count = 0.0f64;
    for y in y0..y1 {
        for x in x0..x1 {
            sum += f.get(x, y).g as f64;
            count += 1.0;
        }
    }
    let mean = sum / count;
    let mut var = 0.0f64;
    for y in y0..y1 {
        for x in x0..x1 {
            let d = f.get(x, y).g as f64 - mean;
            var += d * d;
        }
    }
    var / count
}

#[test]
fn standard_config_matches_session_constants() {
    let cfg = Config::standard();
    assert_eq!(cfg.frame_width, CAPTURE_WIDTH);
    assert_eq!(cfg.frame_height, CAPTURE_HEIGHT);
    assert_eq!(cfg.frame_width, 640);
    assert_eq!(cfg.frame_height, 480);
    assert_eq!(cfg.scale_factor_inv, 1);
    assert_eq!(cfg.policy, RedactionPolicy::Blur);
    assert_eq!(cfg.blur_strength, 77);
    assert_eq!(cfg.confidence_threshold_milli, 700);
    assert_eq!(cfg.quit_key_code, 113);
}

#[test]
fn filter_keeps_only_confident_detections_in_order() {
    let dets = vec![
        Detection { rect: Rect { x: 0, y: 0, width: 5, height: 5 }, confidence_milli: 950 },
        Detection { rect: Rect { x: 9, y: 9, width: 5, height: 5 }, confidence_milli: 400 },
        Detection { rect: Rect { x: 3, y: 3, width: 5, height: 5 }, confidence_milli: 700 },
    ];
    let kept = filter_detections(&dets, 700);
    assert_eq!(kept.len(), 2);
    assert_eq!(kept[0], dets[0]);
    assert_eq!(kept[1], dets[2]);
}

#[test]
fn blurred_face_region_is_smoothed_and_nothing_else_changes() {
    let cfg = Config::standard();
    let original = synthetic_frame(640, 480);
    let mut f = synthetic_frame(640, 480);
    let dets = vec![Detection {
        rect: Rect { x: 100, y: 100, width: 100, height: 100 },
        confidence_milli: 950,
    }];
    let var_before = region_variance(&original, 100, 100, 200, 200);
    process_frame(&mut f, &dets, &cfg);
    for y in 0..480 {
        for x in 0..640 {
            let inside = x >= 100 && x < 200 && y >= 100 && y < 200;
            if !inside {
                assert_eq!(f.get(x, y), original.get(x, y));
            }
        }
    }
    let var_after = region_variance(&f, 100, 100, 200, 200);
    assert!(var_after < var_before / 4.0, "redacted region must be measurably smoothed");
}

#[test]
fn detection_under_threshold_leaves_frame_unmodified() {
    let cfg = Config::standard();
    let original = synthetic_frame(64, 48);
    let mut small_cfg = cfg;
    small_cfg.frame_width = 64;
    small_cfg.frame_height = 48;
    let mut f = synthetic_frame(64, 48);
    let dets = vec![Detection {
        rect: Rect { x: 10, y: 10, width: 20, height: 20 },
        confidence_milli: 500,
    }];
    process_frame(&mut f, &dets, &small_cfg);
    for y in 0..48 {
        for x in 0..64 {
            assert_eq!(f.get(x, y), original.get(x, y));
        }
    }
}

#[test]
fn outline_policy_paints_scaled_border_only() {
    let mut cfg = Config::standard();
    cfg.policy = RedactionPolicy::Outline;
    cfg.frame_width = 32;
    cfg.frame_height = 32;
    let original = synthetic_frame(32, 32);
    let mut f = synthetic_frame(32, 32);
    let dets = vec![Detection {
        rect: Rect { x: 5, y: 5, width: 10, height: 8 },
        confidence_milli: 800,
    }];
    process_frame(&mut f, &dets, &cfg);
    let red = Pixel { b: 0, g: 0, r: 255 };
    for y in 0..32 {
        for x in 0..32 {
            let inside = x >= 5 && x < 15 && y >= 5 && y < 13;
            let interior = x >= 7 && x < 13 && y >= 7 && y < 11;
            if inside && !interior {
                assert_eq!(f.get(x, y), red);
            } else {
                assert_eq!(f.get(x, y), original.get(x, y));
            }
        }
    }
}
