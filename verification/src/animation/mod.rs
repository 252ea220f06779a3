//! The animation engine: which animations run, how far they are and when they
//! end. Times are nanoseconds on one monotonic clock.

pub mod presets;

use crate::numerics::Numerics;
use crate::scalar::Double;
use vstd::prelude::*;

verus! {

/// The shape of an animation over time.
#[derive(Clone, Copy, Debug, PartialEq, Eq, Structural)]
pub enum AnimationCurve {
    /// A cubic Bézier curve.
    CubicBezier { x1: Double, y1: Double, x2: Double, y2: Double },
    /// A damped spring, which may swing past its end.
    Spring { stiffness: Double, damping: Double, mass: Double },
    /// A straight line.
    Linear,
}

/// One value on its way from `start` to `end`.
#[derive(Clone, Copy, Debug, PartialEq, Eq, Structural)]
pub struct Animation {
    pub start: Double,
    pub end: Double,
    pub started_at: u64,
    pub duration: u64,
    pub curve: AnimationCurve,
}

impl Animation {
    /// The time since the start, which is none at all before the start.
    pub open spec fn elapsed_at(self, now: u64) -> u64 {
        if now >= self.started_at {
            (now - self.started_at) as u64
        } else {
            0
        }
    }

    /// Whether the duration is over. A spring comes ever closer to its end
    /// without reaching it, so it is the duration that ends an animation.
    pub open spec fn finished_at(self, now: u64) -> bool {
        self.elapsed_at(now) >= self.duration
    }

    /// `value` is the value of the animation: its end once the duration is over,
    /// and before that what is answered for the curve after the time elapsed.
    pub open spec fn has_value<N: Numerics>(
        self,
        now: u64,
        num: N,
        value: Double,
    ) -> bool {
        if self.finished_at(now) {
            value == self.end
        } else {
            call_ensures(N::sample, (&num, self, self.elapsed_at(now)), value)
        }
    }

    /// An animation that starts now.
    pub fn new(start: Double, end: Double, duration: u64, curve: AnimationCurve, now: u64) -> (r:
        Self)
        ensures
            r == (Animation { start, end, started_at: now, duration, curve }),
    {
        Animation { start, end, started_at: now, duration, curve }
    }

    /// The time since the start.
    pub fn elapsed(&self, now: u64) -> (r: u64)
        ensures
            r == self.elapsed_at(now),
    {
        if now >= self.started_at {
            now - self.started_at
        } else {
            0
        }
    }

    /// The current value.
    pub fn value<N: Numerics>(&self, now: u64, num: &N) -> (r: Double)
        ensures
            self.has_value(now, *num, r),
    {
        let elapsed: u64 = self.elapsed(now);
        if elapsed >= self.duration {
            return self.end;
        }
        num.sample(*self, elapsed)
    }

    /// Whether the duration is over.
    pub fn is_finished(&self, now: u64) -> (r: bool)
        ensures
            r == self.finished_at(now),
    {
        self.elapsed(now) >= self.duration
    }
}

/// An animation that is over stays over.
pub proof fn law_finished_stays(animation: Animation, now: u64, later: u64)
    requires
        animation.finished_at(now),
        now <= later,
    ensures
        animation.finished_at(later),
{
}

/// An animation is over from its start plus its duration on, and not before; then it is at
/// its end. Until then its value is that of its curve after the time since its start.
pub proof fn law_over_after_duration<N: Numerics>(
    animation: Animation,
    now: u64,
    num: N,
    value: Double,
)
    requires
        animation.duration > 0,
        animation.has_value(now, num, value),
    ensures
        animation.finished_at(now) <==> now >= animation.started_at + animation.duration,
        now >= animation.started_at + animation.duration ==> value == animation.end,
        animation.started_at <= now < animation.started_at + animation.duration ==> call_ensures(
            N::sample,
            (&num, animation, (now - animation.started_at) as u64),
            value,
        ),
        now < animation.started_at ==> call_ensures(N::sample, (&num, animation, 0u64), value),
{
}

} // verus!
