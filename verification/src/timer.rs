//! Per-iteration timing instrumentation: a start/stop/reset timer that
//! accumulates elapsed time and tick count and reports an instantaneous
//! frames-per-second figure for the display overlay. The clock itself is an
//! external collaborator; callers pass in timestamps in nanoseconds.

use vstd::prelude::*;

verus! {

/// Nanoseconds per millisecond-scaled frame: the factor that turns ticks
/// per nanosecond into thousandths of frames per second.
pub const FPS_MILLI_SCALE: u64 = 1_000_000_000_000;

/// Frames per second in thousandths: ticks divided by accumulated seconds,
/// scaled by 1000, saturated at the type's maximum; zero while nothing has
/// been measured.
pub open spec fn spec_fps_milli(accumulated_ns: u64, ticks: u64) -> u64 {
    if accumulated_ns == 0 {
        0
    } else if ticks * FPS_MILLI_SCALE / (accumulated_ns as int) > u64::MAX {
        u64::MAX
    } else {
        (ticks * FPS_MILLI_SCALE / (accumulated_ns as int)) as u64
    }
}

/// The measurement state behind the frame-rate overlay: accumulated elapsed
/// time and tick count since the last reset.
#[derive(Clone, Copy, Debug, PartialEq, Eq, Structural)]
pub struct FrameTimer {
    /// True between a start and the matching stop.
    pub running: bool,
    /// Timestamp of the last start, meaningful only while running.
    pub started_at_ns: u64,
    /// Elapsed time accumulated by completed start/stop spans.
    pub accumulated_ns: u64,
    /// Number of completed start/stop spans since the last reset.
    pub ticks: u64,
}

impl FrameTimer {
    /// A fresh timer: stopped, with nothing accumulated.
    pub fn new() -> (t: FrameTimer)
        ensures
            t == (FrameTimer { running: false, started_at_ns: 0, accumulated_ns: 0, ticks: 0 }),
    {
        FrameTimer { running: false, started_at_ns: 0, accumulated_ns: 0, ticks: 0 }
    }

    /// Starts a measurement span at `now_ns`.
    pub fn start(&mut self, now_ns: u64)
        requires
            !old(self).running,
        ensures
            *final(self) == (FrameTimer {
                running: true,
                started_at_ns: now_ns,
                ..*old(self)
            }),
    {
        self.running = true;
        self.started_at_ns = now_ns;
    }

    /// Stops the span begun at the last start, adding its elapsed time to
    /// the accumulator and counting one tick.
    pub fn stop(&mut self, now_ns: u64)
        requires
            old(self).running,
            old(self).started_at_ns <= now_ns,
            old(self).accumulated_ns + (now_ns - old(self).started_at_ns) <= u64::MAX,
            old(self).ticks < u64::MAX,
        ensures
            *final(self) == (FrameTimer {
                running: false,
                accumulated_ns: (old(self).accumulated_ns + (now_ns
                    - old(self).started_at_ns)) as u64,
                ticks: (old(self).ticks + 1) as u64,
                ..*old(self)
            }),
    {
        self.running = false;
        self.accumulated_ns = self.accumulated_ns + (now_ns - self.started_at_ns);
        self.ticks = self.ticks + 1;
    }

    /// Clears the accumulator and tick count for the next iteration.
    pub fn reset(&mut self)
        ensures
            *final(self) == (FrameTimer { running: false, started_at_ns: 0, accumulated_ns: 0, ticks: 0 }),
    {
        self.running = false;
        self.started_at_ns = 0;
        self.accumulated_ns = 0;
        self.ticks = 0;
    }

    /// The measured frame rate in thousandths of frames per second.
    pub fn fps_milli(&self) -> (r: u64)
        ensures
            r == spec_fps_milli(self.accumulated_ns, self.ticks),
    {
        if self.accumulated_ns == 0 {
            return 0;
        }
        proof {
            assert((self.ticks as int) * (FPS_MILLI_SCALE as int) <= 0xffff_ffff_ffff_ffff
                * 1_000_000_000_000) by (nonlinear_arith)
                requires
                    self.ticks <= 0xffff_ffff_ffff_ffff,
                    FPS_MILLI_SCALE == 1_000_000_000_000,
            ;
        }
        let total: u128 = (self.ticks as u128) * (FPS_MILLI_SCALE as u128);
        let q: u128 = total / (self.accumulated_ns as u128);
        if q > u64::MAX as u128 {
            u64::MAX
        } else {
            q as u64
        }
    }
}

} // verus!
