//! Frame pacing: how long to wait so that frames come at a steady rate.

use vstd::prelude::*;

verus! {

/// Paces frames at `rate` frames per second. Times are in milliseconds of
/// one clock.
#[derive(Clone, Copy, PartialEq, Eq, Structural, Debug)]
pub struct Rate {
    pub rate: u16,
    pub start_ms: u64,
    pub finish_ms: u64,
}

/// Microseconds that a frame lasts at `rate` frames per second. At rate
/// zero a frame never ends.
pub open spec fn frame_micros(rate: u16) -> int {
    if rate == 0 {
        i64::MAX as int
    } else {
        1_000_000int / (rate as int)
    }
}

/// Microseconds left of a frame of which `spent_ms` milliseconds are gone,
/// and zero if none is left.
pub open spec fn delay_micros(rate: u16, spent_ms: int) -> int {
    if frame_micros(rate) > spent_ms * 1000 {
        frame_micros(rate) - spent_ms * 1000
    } else {
        0
    }
}

impl Rate {
    pub fn new(rate: u16) -> (r: Self)
        ensures
            r == (Rate { rate, start_ms: 0, finish_ms: 0 }),
    {
        Rate { rate, start_ms: 0, finish_ms: 0 }
    }

    /// Marks the start of a frame at `now_ms`.
    pub fn start(&mut self, now_ms: u64)
        ensures
            *final(self) == (Rate { start_ms: now_ms, ..*old(self) }),
    {
        self.start_ms = now_ms;
    }

    /// Marks the end of a frame at `now_ms` and returns the microseconds to
    /// wait before the next one starts.
    pub fn end(&mut self, now_ms: u64) -> (delay: u64)
        requires
            now_ms >= old(self).start_ms,
        ensures
            *final(self) == (Rate { finish_ms: now_ms, ..*old(self) }),
            delay == delay_micros(old(self).rate, now_ms - old(self).start_ms),
    {
        self.finish_ms = now_ms;
        let diff: u64 = self.finish_ms - self.start_ms;
        let frame: u64 = if self.rate == 0 {
            0x7fff_ffff_ffff_ffff
        } else {
            1_000_000 / (self.rate as u64)
        };
        if diff > 18_446_744_073_709_551 {
            assert(diff * 1000 > i64::MAX) by (nonlinear_arith)
                requires
                    diff > 18_446_744_073_709_551,
            ;
            return 0;
        }
        assert(diff * 1000 <= u64::MAX) by (nonlinear_arith)
            requires
                diff <= 18_446_744_073_709_551,
        ;
        let spent: u64 = diff * 1000;
        if frame > spent {
            frame - spent
        } else {
            0
        }
    }
}

} // verus!
