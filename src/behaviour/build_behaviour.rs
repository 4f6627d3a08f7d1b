use vstd::prelude::*;

use super::move_behaviour::Result;

verus! {

/// A whole in parts per million: the fraction of a finished structure.
pub const FRACTION_ONE: u64 = 1000000;

/// The fraction, in parts per million, that `progress` is of `duration`.
pub open spec fn fraction_of(progress: int, duration: int) -> int {
    progress * FRACTION_ONE / duration
}

/// Construction progress after `delta` more time, clamped at `duration`.
pub open spec fn construction_step(progress: int, duration: int, delta: int) -> int {
    if progress + delta >= duration {
        duration
    } else {
        progress + delta
    }
}

/// Deconstruction progress after `delta` more time, clamped at zero.
pub open spec fn deconstruction_step(progress: int, delta: int) -> int {
    if progress - delta <= 0 {
        0
    } else {
        progress - delta
    }
}

/// What a progress tracker holds: the amount built, the time a whole
/// structure takes, and whether it builds up or takes down.
pub ghost struct BuildProgress {
    pub progress: int,
    pub duration: int,
    pub construction: bool,
}

/// One call of `build` with `delta` takes the tracker from `b` to `b2` and
/// reports `r`: the fraction now built, and success once construction
/// reaches the duration or deconstruction reaches zero.
pub open spec fn advanced(b: BuildProgress, b2: BuildProgress, delta: int, r: (u64, Result)) -> bool {
    &&& b2.duration == b.duration
    &&& b2.construction == b.construction
    &&& b.construction ==> b2.progress == construction_step(b.progress, b.duration, delta)
    &&& b.construction ==> (r.1 == Result::Success <==> b.progress + delta >= b.duration)
    &&& !b.construction ==> b2.progress == deconstruction_step(b.progress, delta)
    &&& !b.construction ==> (r.1 == Result::Success <==> b.progress - delta <= 0)
    &&& r.0 == fraction_of(b2.progress, b2.duration)
    &&& r.0 <= FRACTION_ONE
}

/// Tracks construction (progress rising to the duration) or deconstruction
/// (progress falling to zero) over time.
pub struct BuildBehaviour {
    building_progress: u64,
    building_duration: u64,
    is_construction: bool,
}

impl BuildBehaviour {
    pub closed spec fn view(&self) -> BuildProgress {
        BuildProgress {
            progress: self.building_progress as int,
            duration: self.building_duration as int,
            construction: self.is_construction,
        }
    }

    pub open spec fn wf(&self) -> bool {
        0 < self@.duration <= u64::MAX && 0 <= self@.progress <= self@.duration
    }

    /// A tracker for structures that take `duration` to build, set to construct.
    pub fn new(duration: u64) -> (r: BuildBehaviour)
        requires
            duration > 0,
        ensures
            r.wf(),
            r@ == (BuildProgress { progress: 0, duration: duration as int, construction: true }),
    {
        BuildBehaviour { building_progress: 0, building_duration: duration, is_construction: true }
    }

    pub fn duration(&self) -> (r: u64)
        ensures
            r == self@.duration,
    {
        self.building_duration
    }

    pub fn is_construction(&self) -> (r: bool)
        ensures
            r == self@.construction,
    {
        self.is_construction
    }

    /// Starts a construction: nothing built yet.
    pub fn start_building(&mut self)
        requires
            old(self).wf(),
        ensures
            final(self).wf(),
            final(self)@ == (BuildProgress { progress: 0, construction: true, ..old(self)@ }),
    {
        self.building_progress = 0;
        self.is_construction = true;
    }

    /// Starts a deconstruction: the whole structure still stands.
    pub fn start_unbuilding(&mut self)
        requires
            old(self).wf(),
        ensures
            final(self).wf(),
            final(self)@ == (BuildProgress {
                progress: old(self)@.duration,
                construction: false,
                ..old(self)@
            }),
    {
        self.building_progress = self.building_duration;
        self.is_construction = false;
    }

    /// Advances by `delta` and returns the fraction now built and whether
    /// the work is complete.
    pub fn build(&mut self, delta: u64) -> (r: (u64, Result))
        requires
            old(self).wf(),
        ensures
            final(self).wf(),
            advanced(old(self)@, final(self)@, delta as int, r),
    {
        let done;
        if self.is_construction {
            if delta >= self.building_duration - self.building_progress {
                self.building_progress = self.building_duration;
                done = true;
            } else {
                self.building_progress = self.building_progress + delta;
                done = false;
            }
        } else {
            if delta >= self.building_progress {
                self.building_progress = 0;
                done = true;
            } else {
                self.building_progress = self.building_progress - delta;
                done = false;
            }
        }
        let p = self.building_progress as u128;
        let d = self.building_duration as u128;
        proof {
            lemma_fraction_bounds(p as int, d as int);
        }
        let fraction = (p * (FRACTION_ONE as u128) / d) as u64;
        (fraction, if done {
            Result::Success
        } else {
            Result::Running
        })
    }
}

proof fn lemma_fraction_bounds(p: int, d: int)
    requires
        0 <= p <= d,
        0 < d <= u64::MAX,
    ensures
        0 <= p * FRACTION_ONE <= u64::MAX * FRACTION_ONE,
        0 <= fraction_of(p, d) <= FRACTION_ONE,
{
    assert(0 <= p * FRACTION_ONE <= d * FRACTION_ONE) by (nonlinear_arith)
        requires
            0 <= p <= d,
    ;
    assert(d * FRACTION_ONE <= u64::MAX * FRACTION_ONE) by (nonlinear_arith)
        requires
            d <= u64::MAX,
    ;
    assert(p * FRACTION_ONE / d <= FRACTION_ONE) by (nonlinear_arith)
        requires
            0 <= p <= d,
            0 < d,
    ;
    assert(0 <= p * FRACTION_ONE / d) by (nonlinear_arith)
        requires
            0 <= p,
            0 < d,
    ;
}

/// The reported fraction never falls while constructing and never rises
/// while deconstructing: for any amount of time `delta`, the fraction after
/// a step is at least (construction) or at most (deconstruction) the
/// fraction before it.
pub proof fn lemma_fraction_monotone(progress: int, duration: int, delta: int)
    requires
        0 < duration,
        0 <= progress <= duration,
        0 <= delta,
    ensures
        fraction_of(construction_step(progress, duration, delta), duration) >= fraction_of(
            progress,
            duration,
        ),
        fraction_of(deconstruction_step(progress, delta), duration) <= fraction_of(
            progress,
            duration,
        ),
{
    let up = construction_step(progress, duration, delta);
    let down = deconstruction_step(progress, delta);
    assert(up * FRACTION_ONE >= progress * FRACTION_ONE) by (nonlinear_arith)
        requires
            up >= progress,
    ;
    assert(down * FRACTION_ONE <= progress * FRACTION_ONE) by (nonlinear_arith)
        requires
            down <= progress,
    ;
    vstd::arithmetic::div_mod::lemma_div_is_ordered(
        progress * FRACTION_ONE,
        up * FRACTION_ONE,
        duration,
    );
    vstd::arithmetic::div_mod::lemma_div_is_ordered(
        down * FRACTION_ONE,
        progress * FRACTION_ONE,
        duration,
    );
}

} // verus!
