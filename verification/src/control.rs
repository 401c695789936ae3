//! The control loop's own logic: the per-frame redaction pass that turns
//! the detector's output into pixel edits, and the state machine that
//! sequences capture, detection, redaction, presentation and shutdown. The
//! application shell performs the outside work of each step and reports its
//! outcome back as plain values.

use crate::config::{Config, RedactionPolicy};
use crate::detect::{spec_filtered, filter_detections, Detection};
use crate::frame::{Frame, Pixel};
use crate::geometry::{scale_rect, spec_scale, Rect};
use crate::redact::{
    draw_outline, redact_blur, spec_blur_result_pixel, spec_outline_result_pixel,
};
use crate::timer::{spec_fps_milli, FrameTimer};
use vstd::prelude::*;

verus! {

/// True when every coordinate of `r` scaled by `f` stays representable.
pub open spec fn spec_scale_fits(r: Rect, f: int) -> bool {
    &&& i32::MIN <= r.x * f <= i32::MAX
    &&& i32::MIN <= r.y * f <= i32::MAX
    &&& i32::MIN <= r.width * f <= i32::MAX
    &&& i32::MIN <= r.height * f <= i32::MAX
}

/// What one redaction step leaves at `(px, py)`: under the blur policy the
/// clamped-region kernel mean, under the outline policy the border band of
/// the detection rectangle scaled into display space.
pub open spec fn spec_step_pixel(
    s: Seq<Pixel>,
    w: int,
    h: int,
    d: Detection,
    cfg: Config,
    px: int,
    py: int,
) -> Pixel {
    if cfg.policy == RedactionPolicy::Blur {
        spec_blur_result_pixel(s, w, h, d.rect, cfg.blur_strength as int, px, py)
    } else {
        spec_outline_result_pixel(s, w, spec_scale(d.rect, cfg.scale_factor_inv as int), px, py)
    }
}

/// The whole buffer after one redaction step.
pub open spec fn spec_step_seq(s: Seq<Pixel>, w: int, h: int, d: Detection, cfg: Config) -> Seq<
    Pixel,
> {
    Seq::new(s.len(), |i: int| spec_step_pixel(s, w, h, d, cfg, i % w, i / w))
}

/// The buffer after redacting a list of detections in order.
pub open spec fn spec_redacted_seq(
    s: Seq<Pixel>,
    w: int,
    h: int,
    dets: Seq<Detection>,
    cfg: Config,
) -> Seq<Pixel>
    decreases dets.len(),
{
    if dets.len() == 0 {
        s
    } else {
        spec_step_seq(spec_redacted_seq(s, w, h, dets.drop_last(), cfg), w, h, dets.last(), cfg)
    }
}

/// A detector report with no detection at or above the configured
/// threshold leaves the frame exactly as it was: the filter keeps nothing,
/// and redacting nothing is the identity.
pub proof fn lemma_all_below_threshold_leave_frame(
    s: Seq<Pixel>,
    w: int,
    h: int,
    dets: Seq<Detection>,
    cfg: Config,
)
    requires
        forall|i: int|
            0 <= i < dets.len() ==> !(#[trigger] dets[i]).spec_accepted(
                cfg.confidence_threshold_milli,
            ),
    ensures
        spec_redacted_seq(s, w, h, spec_filtered(dets, cfg.confidence_threshold_milli), cfg) == s,
{
    crate::detect::lemma_filtered_sound(dets, cfg.confidence_threshold_milli);
}

/// Applies the configured redaction action to every detection that meets
/// the confidence threshold, in the order the detector returned them.
///
/// Detections below the threshold contribute nothing; in particular a list
/// with no accepted detection leaves the frame exactly as it was.
#[verifier::loop_isolation(false)]
pub fn process_frame(frame: &mut Frame, dets: &Vec<Detection>, cfg: &Config)
    requires
        old(frame).wf(),
        cfg.wf(),
        old(frame).width == cfg.frame_width,
        old(frame).height == cfg.frame_height,
        cfg.policy == RedactionPolicy::Outline ==> forall|i: int|
            0 <= i < dets@.len() ==> spec_scale_fits(
                (#[trigger] dets@[i]).rect,
                cfg.scale_factor_inv as int,
            ),
    ensures
        final(frame).wf(),
        final(frame).width == old(frame).width,
        final(frame).height == old(frame).height,
        final(frame).data@ == spec_redacted_seq(
            old(frame).data@,
            cfg.frame_width as int,
            cfg.frame_height as int,
            spec_filtered(dets@, cfg.confidence_threshold_milli),
            *cfg,
        ),
{
    let w: i32 = cfg.frame_width;
    let h: i32 = cfg.frame_height;
    let kept: Vec<Detection> = filter_detections(dets, cfg.confidence_threshold_milli);
    proof {
        crate::detect::lemma_filtered_sound(dets@, cfg.confidence_threshold_milli);
    }
    let n: usize = kept.len();
    let mut j: usize = 0;
    while j < n
        invariant
            j <= n,
            n == kept@.len(),
            frame.wf(),
            frame.width == w,
            frame.height == h,
            frame.data@ == spec_redacted_seq(
                old(frame).data@,
                w as int,
                h as int,
                kept@.take(j as int),
                *cfg,
            ),
        decreases n - j,
    {
        let d = kept[j];
        let ghost pref = *frame;
        proof {
            if cfg.policy == RedactionPolicy::Outline {
                assert(dets@.contains(kept@[j as int]));
                let i = choose|i: int| 0 <= i < dets@.len() && dets@[i] == kept@[j as int];
                assert(spec_scale_fits(dets@[i].rect, cfg.scale_factor_inv as int));
            }
        }
        match cfg.policy {
            RedactionPolicy::Blur => {
                redact_blur(frame, d.rect, cfg.blur_strength);
            },
            RedactionPolicy::Outline => {
                let scaled: Rect = scale_rect(d.rect, cfg.scale_factor_inv);
                draw_outline(frame, scaled);
            },
        }
        proof {
            let wi = w as int;
            let hi = h as int;
            assert forall|i: int| 0 <= i < frame.data@.len() implies frame.data@[i]
                == spec_step_pixel(pref.data@, wi, hi, d, *cfg, i % wi, i / wi) by {
                let qx = i % wi;
                let qy = i / wi;
                pref.lemma_coord_of_index(i);
                assert(pref.valid_coord(qx, qy));
                assert(frame.pixel(qx, qy) == frame.data@[i]);
            }
            assert(frame.data@ =~= spec_step_seq(pref.data@, wi, hi, d, *cfg));
            assert(kept@.take(j + 1).drop_last() =~= kept@.take(j as int));
            assert(kept@.take(j + 1).last() == kept@[j as int]);
        }
        j = j + 1;
    }
    proof {
        assert(kept@.take(n as int) =~= kept@);
    }
}

/// Where the loop stands inside one iteration.
#[derive(Clone, Copy, Debug, PartialEq, Eq, Structural)]
pub enum Phase {
    /// Between iterations: the next step is to poll for a quit key or begin
    /// a new capture.
    Idle,
    /// Waiting for the capture source to yield a frame.
    Capturing,
    /// The detector is running against the captured frame.
    Detecting,
    /// Redaction actions are being applied to the frame.
    Redacting,
    /// The frame is being persisted and presented.
    Presenting,
    /// A quit key ended the loop.
    Terminated,
}

/// The control loop's state: the fixed configuration, the per-iteration
/// timer, and the phase of the current iteration. The outside work of each
/// phase — capturing, detecting, presenting — happens beyond this library;
/// its outcome comes back as plain values and drives the next transition.
pub struct ControlLoop {
    pub cfg: Config,
    pub timer: FrameTimer,
    pub phase: Phase,
}

impl ControlLoop {
    /// Well-formedness: a usable configuration, and the timer running
    /// exactly while detection is being measured.
    pub open spec fn wf(self) -> bool {
        &&& self.cfg.wf()
        &&& self.timer.running <==> self.phase == Phase::Detecting
    }

    /// A fresh loop, idle, with nothing measured.
    pub fn new(cfg: Config) -> (m: ControlLoop)
        requires
            cfg.wf(),
        ensures
            m.wf(),
            m.cfg == cfg,
            m.phase == Phase::Idle,
            m.timer == (FrameTimer { running: false, started_at_ns: 0, accumulated_ns: 0, ticks: 0 }),
    {
        ControlLoop { cfg, timer: FrameTimer::new(), phase: Phase::Idle }
    }

    /// Begins an iteration: the loop turns to the capture source.
    pub fn begin_iteration(&mut self)
        requires
            old(self).wf(),
            old(self).phase == Phase::Idle,
        ensures
            final(self).wf(),
            *final(self) == (ControlLoop { phase: Phase::Capturing, ..*old(self) }),
    {
        self.phase = Phase::Capturing;
    }

    /// Takes the outcome of one capture poll.
    ///
    /// A missed grab mutates nothing: the loop simply stays at capturing
    /// and polls again. A captured frame starts the detection measurement
    /// at `now_ns` and moves the loop to detecting.
    pub fn on_capture(&mut self, got_frame: bool, now_ns: u64)
        requires
            old(self).wf(),
            old(self).phase == Phase::Capturing,
        ensures
            final(self).wf(),
            !got_frame ==> *final(self) == *old(self),
            got_frame ==> *final(self) == (ControlLoop {
                phase: Phase::Detecting,
                timer: (FrameTimer { running: true, started_at_ns: now_ns, ..old(self).timer }),
                ..*old(self)
            }),
    {
        if got_frame {
            self.timer.start(now_ns);
            self.phase = Phase::Detecting;
        }
    }

    /// Takes the end of the detection run at `now_ns`: the measurement
    /// stops — detection alone is what the reported rate covers — and the
    /// loop moves to redacting.
    pub fn on_detected(&mut self, now_ns: u64)
        requires
            old(self).wf(),
            old(self).phase == Phase::Detecting,
            old(self).timer.started_at_ns <= now_ns,
            old(self).timer.accumulated_ns + (now_ns - old(self).timer.started_at_ns)
                <= u64::MAX,
            old(self).timer.ticks < u64::MAX,
        ensures
            final(self).wf(),
            *final(self) == (ControlLoop {
                phase: Phase::Redacting,
                timer: (FrameTimer {
                    running: false,
                    accumulated_ns: (old(self).timer.accumulated_ns + (now_ns
                        - old(self).timer.started_at_ns)) as u64,
                    ticks: (old(self).timer.ticks + 1) as u64,
                    ..old(self).timer
                }),
                ..*old(self)
            }),
    {
        self.timer.stop(now_ns);
        self.phase = Phase::Redacting;
    }

    /// Takes the end of the redaction pass: the loop moves to presenting.
    pub fn on_redacted(&mut self)
        requires
            old(self).wf(),
            old(self).phase == Phase::Redacting,
        ensures
            final(self).wf(),
            *final(self) == (ControlLoop { phase: Phase::Presenting, ..*old(self) }),
    {
        self.phase = Phase::Presenting;
    }

    /// The frame rate for the display overlay, in thousandths of frames
    /// per second, from the detection spans measured since the last reset.
    pub fn overlay_fps_milli(&self) -> (r: u64)
        ensures
            r == spec_fps_milli(self.timer.accumulated_ns, self.timer.ticks),
    {
        self.timer.fps_milli()
    }

    /// Takes the end of presentation: the measurement is cleared for the
    /// next iteration and the loop returns to idle.
    pub fn on_presented(&mut self)
        requires
            old(self).wf(),
            old(self).phase == Phase::Presenting,
        ensures
            final(self).wf(),
            *final(self) == (ControlLoop {
                phase: Phase::Idle,
                timer: (FrameTimer { running: false, started_at_ns: 0, accumulated_ns: 0, ticks: 0 }),
                ..*old(self)
            }),
    {
        self.timer.reset();
        self.phase = Phase::Idle;
    }

    /// Takes one key poll: exactly the configured quit key ends the loop;
    /// any other key changes nothing.
    pub fn poll_quit(&mut self, key: i32) -> (quit: bool)
        requires
            old(self).wf(),
            old(self).phase == Phase::Idle,
        ensures
            final(self).wf(),
            quit == (key == old(self).cfg.quit_key_code),
            quit ==> *final(self) == (ControlLoop { phase: Phase::Terminated, ..*old(self) }),
            !quit ==> *final(self) == *old(self),
    {
        if key == self.cfg.quit_key_code {
            self.phase = Phase::Terminated;
            true
        } else {
            false
        }
    }

    /// True once a quit key has ended the loop.
    pub fn is_terminated(&self) -> (r: bool)
        ensures
            r == (self.phase == Phase::Terminated),
    {
        match self.phase {
            Phase::Terminated => true,
            _ => false,
        }
    }
}

} // verus!
