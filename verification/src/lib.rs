//! Real-time face-redaction pipeline, verified.
//!
//! The library holds the per-frame logic of a video redaction loop: clamping
//! and scaling of detection rectangles, outline drawing and destructive blur
//! on a pixel buffer, confidence filtering of detections, frame-rate
//! instrumentation, and the control-loop state machine. Capture, display,
//! encoding and the face detector itself are external collaborators; the
//! application shell drives them and hands this library plain values.

pub mod config;
pub mod control;
pub mod detect;
pub mod frame;
pub mod geometry;
pub mod redact;
pub mod timer;
