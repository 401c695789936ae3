//! The immutable process-wide configuration: capture geometry, scale factor,
//! redaction policy and strength, confidence threshold and quit key. Fixed at
//! startup and passed by reference into every component.

use vstd::prelude::*;

verus! {

/// Capture width of the session, in pixels.
pub const CAPTURE_WIDTH: i32 = 640;

/// Capture height of the session, in pixels.
pub const CAPTURE_HEIGHT: i32 = 480;

/// Integer inverse of the detection scale factor; with a unit scale factor
/// detection runs in display space and scaling is a no-op.
pub const SCALE_FACTOR_INV: i32 = 1;

/// Side length of the square smoothing kernel used by blur redaction.
pub const BLUR_STRENGTH: i32 = 77;

/// Confidence threshold in thousandths; detections below it are dropped.
pub const CONFIDENCE_THRESHOLD_MILLI: u32 = 700;

/// Key code that requests a clean shutdown of the loop.
pub const Q_KEY_CODE: i32 = 113;

/// Thickness, in pixels, of the outline drawn around a face.
pub const OUTLINE_THICKNESS: i32 = 2;

/// How a detected face region is redacted: a visible, reversible outline, or
/// a destructive, irreversible blur.
#[derive(Clone, Copy, Debug, PartialEq, Eq, Structural)]
pub enum RedactionPolicy {
    Outline,
    Blur,
}

/// Process-wide configuration, constructed once at startup and read-only
/// thereafter.
#[derive(Clone, Copy, Debug, PartialEq, Eq, Structural)]
pub struct Config {
    /// Frame width of the capture session, in pixels.
    pub frame_width: i32,
    /// Frame height of the capture session, in pixels.
    pub frame_height: i32,
    /// Integer inverse scale factor mapping detection space to display space.
    pub scale_factor_inv: i32,
    /// The one redaction action applied to every accepted detection.
    pub policy: RedactionPolicy,
    /// Side length of the square blur kernel.
    pub blur_strength: i32,
    /// Minimum confidence, in thousandths, for a detection to count.
    pub confidence_threshold_milli: u32,
    /// Key code that ends the loop.
    pub quit_key_code: i32,
}

impl Config {
    /// Well-formedness: positive geometry, a usable scale factor and kernel.
    pub open spec fn wf(self) -> bool {
        &&& 0 < self.frame_width
        &&& 0 < self.frame_height
        &&& self.frame_width * self.frame_height <= usize::MAX
        &&& 1 <= self.scale_factor_inv
        &&& 1 <= self.blur_strength
    }

    /// The configuration the session runs with by default.
    pub fn standard() -> (c: Config)
        ensures
            c.wf(),
            c == (Config {
                frame_width: CAPTURE_WIDTH,
                frame_height: CAPTURE_HEIGHT,
                scale_factor_inv: SCALE_FACTOR_INV,
                policy: RedactionPolicy::Blur,
                blur_strength: BLUR_STRENGTH,
                confidence_threshold_milli: CONFIDENCE_THRESHOLD_MILLI,
                quit_key_code: Q_KEY_CODE,
            }),
    {
        Config {
            frame_width: CAPTURE_WIDTH,
            frame_height: CAPTURE_HEIGHT,
            scale_factor_inv: SCALE_FACTOR_INV,
            policy: RedactionPolicy::Blur,
            blur_strength: BLUR_STRENGTH,
            confidence_threshold_milli: CONFIDENCE_THRESHOLD_MILLI,
            quit_key_code: Q_KEY_CODE,
        }
    }
}

} // verus!
