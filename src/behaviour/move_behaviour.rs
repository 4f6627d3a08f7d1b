use vstd::prelude::*;

use crate::geometry::{dist_sq, is_isqrt, isqrt, Point, WORLD_EXTENT};

verus! {

/// Outcome of a step of a behaviour: still going, or done.
#[derive(Clone, Copy, Debug, PartialEq, Eq, Structural)]
pub enum Result {
    Success,
    Running,
}

/// How an agent walks: `speed` in distance units per time unit; the
/// cosmetic bob rises to `max_step_height` with period `step_period`.
#[derive(Clone, Copy, Debug, PartialEq, Eq, Structural)]
pub struct MoveBehaviourConfig {
    pub speed: u64,
    pub max_step_height: i64,
    pub step_period: u64,
}

/// A reported position. `position` is the point on the path; where
/// `bob_time` is given, the walker's cosmetic bob at that moving time is to
/// be drawn on top of it.
#[derive(Clone, Copy, Debug, PartialEq, Eq, Structural)]
pub struct Waypoint {
    pub position: Point,
    pub bob_time: Option<u64>,
}

/// The integer square root of `n`.
pub open spec fn sqrt_floor(n: int) -> int {
    choose|r: int| is_isqrt(n, r)
}

pub proof fn lemma_sqrt_floor(n: int, r: int)
    requires
        is_isqrt(n, r),
    ensures
        sqrt_floor(n) == r,
{
    let s = sqrt_floor(n);
    assert(is_isqrt(n, s));
    if s < r {
        assert((s + 1) * (s + 1) <= r * r) by (nonlinear_arith)
            requires
                0 <= s < r,
        ;
    } else if r < s {
        assert((r + 1) * (r + 1) <= s * s) by (nonlinear_arith)
            requires
                0 <= r < s,
        ;
    }
}

/// The share of a coordinate difference `d` covered after `t` of a path of
/// (rounded) length `l`, rounded toward zero.
pub open spec fn along(d: int, t: int, l: int) -> int {
    if l <= 0 {
        0
    } else if d >= 0 {
        d * t / l
    } else {
        -((-d) * t / l)
    }
}

/// `p` is the point reached after `t` along the straight path from `a` to `b`.
pub open spec fn on_route(a: Point, b: Point, t: int, p: Point) -> bool {
    let l = sqrt_floor(dist_sq(a, b));
    p.x == a.x + along(b.x - a.x, t, l) && p.y == a.y + along(b.y - a.y, t, l)
}

/// Whether, from `traveled` along the path from `a` to `b`, a step of
/// `step` reaches beyond the remaining distance.
pub open spec fn arrives(a: Point, b: Point, traveled: int, step: int) -> bool {
    dist_sq(a, b) < (traveled + step) * (traveled + step)
}

/// One call of `move_agent` with `delta` takes the controller from `m` to
/// `m2` and reports `r`: past the target it snaps onto it and succeeds;
/// otherwise the reference point moves `speed * delta` further along the
/// path, and the reported point is the reference point, with the bob of the
/// moving time before the step.
pub open spec fn walked(m: MotionState, m2: MotionState, delta: int, r: (Result, Waypoint)) -> bool {
    let (a, b) = m.route.unwrap();
    let step = m.config.speed * delta;
    if arrives(a, b, m.traveled, step) {
        &&& r.0 == Result::Success
        &&& r.1 == (Waypoint { position: b, bob_time: None })
        &&& m2 == m
    } else {
        &&& r.0 == Result::Running
        &&& m2.route == m.route
        &&& m2.config == m.config
        &&& m2.traveled == m.traveled + step
        &&& on_route(a, b, m2.traveled, r.1.position)
        &&& r.1.position.in_world()
        &&& r.1.bob_time == Some(m.moving_time as u64)
        &&& m2.moving_time == if m.moving_time + delta > u64::MAX {
            u64::MAX as int
        } else {
            m.moving_time + delta
        }
    }
}

/// What a motion controller holds: the path (start, target), how far along
/// it the reference point is, and the time spent moving.
pub ghost struct MotionState {
    pub route: Option<(Point, Point)>,
    pub traveled: int,
    pub moving_time: int,
    pub config: MoveBehaviourConfig,
}

/// Walks a point toward a target at constant speed.
pub struct MoveBehaviour {
    moving_time: u64,
    route: Option<(Point, Point)>,
    traveled: u64,
    config: MoveBehaviourConfig,
}

proof fn lemma_coord_diff(a: i64, b: i64)
    requires
        -WORLD_EXTENT <= a <= WORLD_EXTENT,
        -WORLD_EXTENT <= b <= WORLD_EXTENT,
    ensures
        0 <= (b - a) * (b - a) <= 0x40000000000000000000000000,
{
    let d = b - a;
    assert(-0x8000000000000 <= d <= 0x8000000000000);
    assert(0 <= d * d <= 0x8000000000000 * 0x8000000000000) by (nonlinear_arith)
        requires
            -0x8000000000000 <= d <= 0x8000000000000,
    ;
}

proof fn lemma_dist_sq_nonneg(a: Point, b: Point)
    ensures
        dist_sq(a, b) >= 0,
{
    let dx = b.x - a.x;
    let dy = b.y - a.y;
    assert(dx * dx + dy * dy >= 0) by (nonlinear_arith);
}

/// A share of `d` after `t` of `l`: at most `d` in size, of its sign.
fn along_exec(d: i128, t: i128, l: i128) -> (r: i128)
    requires
        -0x8000000000000 <= d <= 0x8000000000000,
        0 <= t <= l <= 0x10000000000000,
    ensures
        r == along(d as int, t as int, l as int),
        d >= 0 ==> 0 <= r <= d,
        d < 0 ==> d <= r <= 0,
{
    if l == 0 {
        return 0;
    }
    let m = if d >= 0 {
        d
    } else {
        -d
    };
    assert(0 <= m * t <= m * l) by (nonlinear_arith)
        requires
            0 <= m <= 0x8000000000000,
            0 <= t <= l,
    ;
    assert(m * l <= 0x8000000000000 * 0x10000000000000) by (nonlinear_arith)
        requires
            0 <= m <= 0x8000000000000,
            l <= 0x10000000000000,
    ;
    proof {
        vstd::arithmetic::div_mod::lemma_div_is_ordered(m * t, m * l, l as int);
        vstd::arithmetic::div_mod::lemma_div_by_multiple(m as int, l as int);
        vstd::arithmetic::div_mod::lemma_div_pos_is_pos(m * t, l as int);
    }
    let q = m * t / l;
    if d >= 0 {
        q
    } else {
        -q
    }
}

impl MoveBehaviour {
    pub closed spec fn view(&self) -> MotionState {
        MotionState {
            route: self.route,
            traveled: self.traveled as int,
            moving_time: self.moving_time as int,
            config: self.config,
        }
    }

    pub open spec fn wf(&self) -> bool {
        match self@.route {
            Some((a, b)) => a.in_world() && b.in_world() && 0 <= self@.traveled
                && self@.traveled * self@.traveled <= dist_sq(a, b),
            None => self@.traveled == 0,
        }
    }

    pub open spec fn is_started(&self) -> bool {
        self@.route is Some
    }

    pub fn new(config: MoveBehaviourConfig) -> (r: MoveBehaviour)
        ensures
            r.wf(),
            r@ == (MotionState { route: None, traveled: 0, moving_time: 0, config }),
    {
        MoveBehaviour { route: None, traveled: 0, moving_time: 0, config }
    }

    pub fn config(&self) -> (r: MoveBehaviourConfig)
        ensures
            r == self@.config,
    {
        self.config
    }

    /// Starts a walk from `current_position` to `target`.
    pub fn start_moving(&mut self, current_position: Point, target: Point)
        requires
            current_position.in_world(),
            target.in_world(),
        ensures
            final(self).wf(),
            final(self)@ == (MotionState {
                route: Some((current_position, target)),
                traveled: 0,
                moving_time: 0,
                config: old(self)@.config,
            }),
    {
        proof {
            lemma_dist_sq_nonneg(current_position, target);
        }
        self.moving_time = 0;
        self.route = Some((current_position, target));
        self.traveled = 0;
    }

    /// Walks for `delta`. Where the target is nearer than one step, the walk
    /// snaps onto it and reports success; otherwise the reference point moves
    /// one step (`speed * delta`) along the path and the walk goes on.
    pub fn move_agent(&mut self, delta: u64) -> (r: (Result, Waypoint))
        requires
            old(self).wf(),
            old(self).is_started(),
        ensures
            final(self).wf(),
            walked(old(self)@, final(self)@, delta as int, r),
    {
        let (a, b) = self.route.unwrap();
        proof {
            lemma_coord_diff(a.x, b.x);
            lemma_coord_diff(a.y, b.y);
        }
        let dx: i128 = b.x as i128 - a.x as i128;
        let dy: i128 = b.y as i128 - a.y as i128;
        let d2: i128 = dx * dx + dy * dy;
        let speed = self.config.speed;
        assert(speed as int * delta as int <= u64::MAX as int * u64::MAX as int) by (nonlinear_arith)
            requires
                speed <= u64::MAX,
                delta <= u64::MAX,
        ;
        let step: u128 = speed as u128 * delta as u128;
        let t = self.traveled;
        assert(t as int <= 0x10000000000000) by (nonlinear_arith)
            requires
                0 <= t,
                t * t <= d2,
                d2 <= 0x80000000000000000000000000,
        ;
        let arrived: bool;
        if step >= 0x1000000000000000 {
            assert(d2 < (t + step) * (t + step)) by (nonlinear_arith)
                requires
                    0 <= t,
                    step >= 0x1000000000000000,
                    d2 <= 0x80000000000000000000000000,
            ;
            arrived = true;
        } else {
            let reach: u128 = t as u128 + step;
            assert(reach * reach <= 0x2000000000000000 * 0x2000000000000000) by (nonlinear_arith)
                requires
                    reach <= 0x2000000000000000,
            ;
            arrived = (d2 as u128) < reach * reach;
        }
        if arrived {
            return (Result::Success, Waypoint { position: b, bob_time: None });
        }
        let reach: u128 = t as u128 + step;
        assert(reach <= 0x10000000000000) by (nonlinear_arith)
            requires
                reach * reach <= d2,
                d2 <= 0x80000000000000000000000000,
        ;
        let l = isqrt(d2 as u128);
        proof {
            lemma_sqrt_floor(d2 as int, l as int);
            assert(reach <= l) by (nonlinear_arith)
                requires
                    reach * reach <= d2,
                    d2 < (l + 1) * (l + 1),
                    0 <= l,
            ;
            assert(l <= 0x10000000000000) by (nonlinear_arith)
                requires
                    l * l <= d2,
                    d2 <= 0x80000000000000000000000000,
                    0 <= l,
            ;
        }
        let ox = along_exec(dx, reach as i128, l as i128);
        let oy = along_exec(dy, reach as i128, l as i128);
        let position = Point { x: (a.x as i128 + ox) as i64, y: (a.y as i128 + oy) as i64 };
        let bob_time = self.moving_time;
        self.traveled = reach as u64;
        self.moving_time = if delta > u64::MAX - self.moving_time {
            u64::MAX
        } else {
            self.moving_time + delta
        };
        (Result::Running, Waypoint { position, bob_time: Some(bob_time) })
    }
}

} // verus!
