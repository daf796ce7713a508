//! Mobile units: per-unit route following (a waypoint cursor advanced
//! each tick), pairwise collision avoidance, and the transient move
//! markers spawned as feedback for accepted move commands.

use vstd::prelude::*;

use crate::geometry::{
    abs_i, clamp_coord, clamp_to_world, dist_milli, distance, lemma_component_le_dist,
    lemma_mul_div_bound, lemma_mul_div_sign, mul_div, scale_toward, Vec2i, MAX_COORD,
};
use crate::pathfinding_module::{Node, PathfindingTerrain};

verus! {

/// Linear speed of a unit while following a route, in milli-units per
/// second (10 world units per second).
pub const UNIT_SPEED_MILLI: i64 = 10_000;

/// A unit within this separation of its current waypoint advances the
/// cursor instead of moving (0.1 world units).
pub const WAYPOINT_EPSILON_MILLI: i64 = 100;

/// Largest frame time one tick may integrate, in milliseconds.
pub const MAX_DT_MS: u32 = 10_000;

/// Route waypoints stay well inside the world so a step past one cannot
/// leave it.
pub const MAX_WAYPOINT_MILLI: i64 = 100_000_000;

/// Largest collision radius, in milli-units (1000 world units).
pub const MAX_RADIUS_MILLI: i64 = 1_000_000;

/// Largest population one avoidance pass may integrate.
pub const MAX_UNITS: usize = 1000;

/// Move markers older than this are despawned, in milliseconds.
pub const MOVE_POINT_TTL_MS: u32 = 1000;

/// A route under execution: the waypoints and the cursor of the next
/// waypoint to reach.
pub struct UnitPath {
    pub path: Vec<Vec2i>,
    pub current_node: usize,
}

/// A unit's collision footprint, in milli-units.
#[derive(Clone, Copy, Debug, PartialEq, Eq, Structural)]
pub struct CollisionAvoidance {
    pub radius: i64,
}

/// Transient feedback marker for an accepted move command.
#[derive(Clone, Copy, Debug, PartialEq, Eq, Structural)]
pub struct MovePoint {
    pub point: Vec2i,
    pub time: u32,
}

/// A mobile unit: a world position, a collision footprint, and the
/// route it is following, if any (`None` is the idle state).
pub struct Unit {
    pub position: Vec2i,
    pub avoidance: CollisionAvoidance,
    pub path: Option<UnitPath>,
}

impl UnitPath {
    pub open spec fn wf(self) -> bool {
        forall|i: int|
            0 <= i < self.path@.len() ==> -MAX_WAYPOINT_MILLI <= (#[trigger] self.path@[i]).x
                <= MAX_WAYPOINT_MILLI && -MAX_WAYPOINT_MILLI <= self.path@[i].y
                <= MAX_WAYPOINT_MILLI
    }
}

impl Unit {
    pub open spec fn wf(self) -> bool {
        &&& self.position.in_world()
        &&& 1 <= self.avoidance.radius <= MAX_RADIUS_MILLI
        &&& match self.path {
            Some(p) => p.wf(),
            None => true,
        }
    }

    /// An idle unit with the default collision footprint.
    pub fn new(position: Vec2i) -> (r: Unit)
        requires
            position.in_world(),
        ensures
            r.position == position,
            r.avoidance.radius == 500,
            r.path is None,
            r.wf(),
    {
        Unit { position, avoidance: CollisionAvoidance { radius: 500 }, path: None }
    }
}

/// One tick of route following for one unit: an idle unit is untouched;
/// a unit whose cursor has run off the route end detaches the route; a
/// unit within `WAYPOINT_EPSILON_MILLI` of its waypoint advances the
/// cursor (and does not move this tick); otherwise it moves toward the
/// waypoint at `UNIT_SPEED_MILLI` scaled by the frame time.
pub open spec fn path_step(u: Unit, dt: int) -> Unit {
    match u.path {
        None => u,
        Some(p) => {
            if p.current_node < p.path@.len() {
                let target = p.path@[p.current_node as int];
                let d = dist_milli(u.position, target);
                if d < WAYPOINT_EPSILON_MILLI {
                    Unit {
                        position: u.position,
                        avoidance: u.avoidance,
                        path: Some(
                            UnitPath { path: p.path, current_node: (p.current_node + 1) as usize },
                        ),
                    }
                } else {
                    Unit {
                        position: Vec2i {
                            x: (u.position.x + mul_div(
                                target.x - u.position.x,
                                UNIT_SPEED_MILLI * dt,
                                d * 1000,
                            )) as i64,
                            y: (u.position.y + mul_div(
                                target.y - u.position.y,
                                UNIT_SPEED_MILLI * dt,
                                d * 1000,
                            )) as i64,
                        },
                        avoidance: u.avoidance,
                        path: u.path,
                    }
                }
            } else {
                Unit { position: u.position, avoidance: u.avoidance, path: None }
            }
        },
    }
}

/// Advances one unit along its route by one tick of `dt_ms` milliseconds.
/// The cursor never decreases, and a unit only ever moves toward its
/// current waypoint.
pub fn move_along_path(unit: &mut Unit, dt_ms: u32)
    requires
        old(unit).wf(),
        dt_ms <= MAX_DT_MS,
    ensures
        *final(unit) == path_step(*old(unit), dt_ms as int),
        final(unit).wf(),
        final(unit).path is Some ==> old(unit).path is Some,
        (final(unit).path is Some && old(unit).path is Some)
            ==> final(unit).path.unwrap().current_node >= old(unit).path.unwrap().current_node,
{
    let has_path = unit.path.is_some();
    if !has_path {
        return ;
    }
    let cur = unit.path.as_ref().unwrap().current_node;
    let len = unit.path.as_ref().unwrap().path.len();
    if cur >= len {
        unit.path = None;
        return ;
    }
    let target = unit.path.as_ref().unwrap().path[cur];
    let d = distance(unit.position, target);
    if d < WAYPOINT_EPSILON_MILLI {
        match &mut unit.path {
            Some(p) => {
                p.current_node = cur + 1;
            },
            None => (),
        }
    } else {
        let dx = target.x - unit.position.x;
        let dy = target.y - unit.position.y;
        proof {
            lemma_component_le_dist(old(unit).position, target);
            assert(abs_i(dx as int) * (UNIT_SPEED_MILLI * dt_ms) <= i64::MAX) by (nonlinear_arith)
                requires
                    abs_i(dx as int) <= 2 * MAX_COORD,
                    0 <= UNIT_SPEED_MILLI * dt_ms <= 100_000_000,
            ;
            assert(abs_i(dy as int) * (UNIT_SPEED_MILLI * dt_ms) <= i64::MAX) by (nonlinear_arith)
                requires
                    abs_i(dy as int) <= 2 * MAX_COORD,
                    0 <= UNIT_SPEED_MILLI * dt_ms <= 100_000_000,
            ;
            assert(abs_i(dx as int) * (UNIT_SPEED_MILLI * dt_ms) <= (d * 1000) * 100_000)
                by (nonlinear_arith)
                requires
                    abs_i(dx as int) <= d,
                    0 <= UNIT_SPEED_MILLI * dt_ms <= 100_000_000,
                    d >= 1,
            ;
            assert(abs_i(dy as int) * (UNIT_SPEED_MILLI * dt_ms) <= (d * 1000) * 100_000)
                by (nonlinear_arith)
                requires
                    abs_i(dy as int) <= d,
                    0 <= UNIT_SPEED_MILLI * dt_ms <= 100_000_000,
                    d >= 1,
            ;
            lemma_mul_div_bound(
                dx as int,
                UNIT_SPEED_MILLI * dt_ms,
                d * 1000,
                100_000,
            );
            lemma_mul_div_bound(
                dy as int,
                UNIT_SPEED_MILLI * dt_ms,
                d * 1000,
                100_000,
            );
        }
        let step_x = scale_toward(dx, UNIT_SPEED_MILLI * (dt_ms as i64), d * 1000);
        let step_y = scale_toward(dy, UNIT_SPEED_MILLI * (dt_ms as i64), d * 1000);
        unit.position = Vec2i { x: unit.position.x + step_x, y: unit.position.y + step_y };
        proof {
            lemma_step_stays_in_world(old(unit).position.x as int, target.x as int, step_x as int);
            lemma_step_stays_in_world(old(unit).position.y as int, target.y as int, step_y as int);
        }
    }
}

/// A step of bounded size toward an in-range waypoint cannot leave the
/// world: either it stays between the two, or it lands just past the
/// waypoint.
proof fn lemma_step_stays_in_world(p: int, t: int, step: int)
    requires
        -MAX_COORD <= p <= MAX_COORD,
        -MAX_WAYPOINT_MILLI <= t <= MAX_WAYPOINT_MILLI,
        abs_i(step) <= 100_000,
        t - p >= 0 ==> step >= 0,
        t - p <= 0 ==> step <= 0,
    ensures
        -MAX_COORD <= p + step <= MAX_COORD,
{
    if t >= p {
        if p + step <= t {
        } else {
        }
    } else {
        if p + step >= t {
        } else {
        }
    }
}

/// One tick of route following for the whole population, in index order.
pub fn move_units_along_path_system(units: &mut Vec<Unit>, dt_ms: u32)
    requires
        forall|i: int| 0 <= i < old(units)@.len() ==> (#[trigger] old(units)@[i]).wf(),
        dt_ms <= MAX_DT_MS,
    ensures
        final(units)@.len() == old(units)@.len(),
        forall|i: int| 0 <= i < old(units)@.len() ==> final(units)@[i] == path_step(
            #[trigger] old(units)@[i],
            dt_ms as int,
        ),
        forall|i: int| 0 <= i < final(units)@.len() ==> (#[trigger] final(units)@[i]).wf(),
{
    let n = units.len();
    let mut i: usize = 0;
    while i < n
        invariant
            n == units@.len(),
            n == old(units)@.len(),
            i <= n,
            dt_ms <= MAX_DT_MS,
            forall|j: int| i <= j < n ==> units@[j] == #[trigger] old(units)@[j],
            forall|j: int| 0 <= j < n ==> (#[trigger] old(units)@[j]).wf(),
            forall|j: int| 0 <= j < i ==> units@[j] == path_step(
                #[trigger] old(units)@[j],
                dt_ms as int,
            ),
            forall|j: int| 0 <= j < i ==> (#[trigger] units@[j]).wf(),
        decreases n - i,
    {
        proof {
            assert(units@[i as int] == old(units)@[i as int]);
            assert(old(units)@[i as int].wf());
        }
        let unit = &mut units[i];
        move_along_path(unit, dt_ms);
        i = i + 1;
    }
}

/// The avoidance contribution unit `a` receives from unit `b`, in
/// milli-units per second per axis: zero unless the two are closer than
/// the sum of their radii; a coincident pair (zero separation) is
/// skipped as degenerate; otherwise a push away from `b`, scaled by the
/// penetration depth and normalized by the separation.
pub open spec fn pair_avoidance(a: Unit, b: Unit) -> (int, int) {
    let d = dist_milli(a.position, b.position);
    let rsum = a.avoidance.radius + b.avoidance.radius;
    if 0 < d && d < rsum {
        (
            -mul_div(b.position.x - a.position.x, (rsum - d) * 1000, d * d),
            -mul_div(b.position.y - a.position.y, (rsum - d) * 1000, d * d),
        )
    } else {
        (0, 0)
    }
}

/// The summed avoidance of unit `i` over the first `k` units (itself
/// excluded).
pub open spec fn avoidance_sum(units: Seq<Unit>, i: int, k: int) -> (int, int)
    decreases k,
{
    if k <= 0 {
        (0, 0)
    } else {
        let prev = avoidance_sum(units, i, k - 1);
        if k - 1 == i {
            prev
        } else {
            let p = pair_avoidance(units[i], units[k - 1]);
            (prev.0 + p.0, prev.1 + p.1)
        }
    }
}

/// The full avoidance velocity of unit `i` against the population.
pub open spec fn avoidance_velocity(units: Seq<Unit>, i: int) -> (int, int) {
    avoidance_sum(units, i, units.len() as int)
}

/// The position of unit `i` after one avoidance tick: the summed
/// avoidance velocity integrated over the frame time and clamped into
/// the world range.
pub open spec fn avoid_step(units: Seq<Unit>, i: int, dt: int) -> Vec2i {
    let av = avoidance_velocity(units, i);
    Vec2i {
        x: clamp_coord(units[i].position.x + mul_div(av.0, dt, 1000)) as i64,
        y: clamp_coord(units[i].position.y + mul_div(av.1, dt, 1000)) as i64,
    }
}

/// Units farther apart than the sum of their radii push each other
/// not at all.
pub proof fn lemma_no_avoidance_when_apart(a: Unit, b: Unit)
    requires
        dist_milli(a.position, b.position) >= a.avoidance.radius + b.avoidance.radius,
    ensures
        pair_avoidance(a, b) == (0int, 0int),
{
}

/// The avoidance a pair exchanges is equal and opposite on both axes.
pub proof fn lemma_avoidance_antisymmetric(a: Unit, b: Unit)
    ensures
        pair_avoidance(a, b).0 == -pair_avoidance(b, a).0,
        pair_avoidance(a, b).1 == -pair_avoidance(b, a).1,
{
    crate::geometry::lemma_dist_symmetric(a.position, b.position);
    let d = dist_milli(a.position, b.position);
    let rsum = a.avoidance.radius + b.avoidance.radius;
    if 0 < d && d < rsum {
        assert(1 <= d * d) by (nonlinear_arith)
            requires
                1 <= d,
        ;
        lemma_mul_div_negate(b.position.x - a.position.x, (rsum - d) * 1000, d * d);
        lemma_mul_div_negate(b.position.y - a.position.y, (rsum - d) * 1000, d * d);
    }
}

/// Scaling an exactly opposite displacement gives the exactly opposite
/// result.
pub proof fn lemma_mul_div_negate(a: int, m: int, d: int)
    requires
        d >= 1,
    ensures
        mul_div(-a, m, d) == -mul_div(a, m, d),
{
    if a == 0 {
        assert(0 * m == 0) by (nonlinear_arith);
        assert((0int) / d == 0) by (nonlinear_arith)
            requires
                d >= 1,
        ;
    }
}

/// A unit farther from every other unit than their summed radii
/// receives no avoidance at all.
pub proof fn lemma_no_avoidance_when_isolated(units: Seq<Unit>, i: int, k: int)
    requires
        0 <= i < units.len(),
        k <= units.len(),
        forall|j: int|
            0 <= j < units.len() && j != i ==> dist_milli(
                units[i].position,
                (#[trigger] units[j]).position,
            ) >= units[i].avoidance.radius + units[j].avoidance.radius,
    ensures
        avoidance_sum(units, i, k) == (0int, 0int),
    decreases k,
{
    if k > 0 {
        lemma_no_avoidance_when_isolated(units, i, k - 1);
        if k - 1 != i {
            lemma_no_avoidance_when_apart(units[i], units[k - 1]);
        }
    }
}

/// Two units alone on a common row push each other by exactly opposite
/// displacements along the connecting axis, and one avoidance tick
/// never brings them closer together.
pub proof fn lemma_pair_pushed_apart(units: Seq<Unit>, dt: int)
    requires
        units.len() == 2,
        units[0].wf(),
        units[1].wf(),
        0 <= dt,
        units[0].position.y == units[1].position.y,
        units[0].position.x < units[1].position.x,
    ensures
        avoidance_velocity(units, 0).0 == -avoidance_velocity(units, 1).0,
        avoidance_velocity(units, 0).0 <= 0,
        avoid_step(units, 1, dt).x - avoid_step(units, 0, dt).x >= units[1].position.x
            - units[0].position.x,
{
    let u0 = units[0];
    let u1 = units[1];
    assert(avoidance_sum(units, 0, 0) == (0int, 0int));
    assert(avoidance_sum(units, 1, 0) == (0int, 0int));
    assert(avoidance_sum(units, 0, 1) == (0int, 0int));
    assert(avoidance_sum(units, 1, 1).0 == pair_avoidance(u1, u0).0);
    assert(avoidance_velocity(units, 0).0 == pair_avoidance(u0, u1).0) by {
        assert(avoidance_sum(units, 0, 2).0 == avoidance_sum(units, 0, 1).0 + pair_avoidance(
            u0,
            u1,
        ).0);
    }
    assert(avoidance_velocity(units, 1).0 == pair_avoidance(u1, u0).0) by {
        assert(avoidance_sum(units, 1, 2).0 == avoidance_sum(units, 1, 1).0);
    }
    let d = dist_milli(u0.position, u1.position);
    let rsum = u0.avoidance.radius + u1.avoidance.radius;
    let dxb = u1.position.x - u0.position.x;
    crate::geometry::lemma_dist_symmetric(u0.position, u1.position);
    if 0 < d && d < rsum {
        assert(1 <= d * d) by (nonlinear_arith)
            requires
                1 <= d,
        ;
        lemma_mul_div_sign(dxb, (rsum - d) * 1000, d * d);
        lemma_mul_div_negate(dxb, (rsum - d) * 1000, d * d);
    }
    let av0 = pair_avoidance(u0, u1).0;
    let av1 = pair_avoidance(u1, u0).0;
    lemma_avoidance_antisymmetric(u0, u1);
    assert(av0 <= 0);
    hold_apart_rest(units, dt, av0, av1);
    assert(avoidance_velocity(units, 0).0 == -avoidance_velocity(units, 1).0);
}

/// The integration half of `lemma_pair_pushed_apart`: opposite
/// velocities integrate to opposite displacements, and clamping into
/// the world cannot shrink the gap.
proof fn hold_apart_rest(units: Seq<Unit>, dt: int, av0: int, av1: int)
    requires
        units.len() == 2,
        units[0].wf(),
        units[1].wf(),
        0 <= dt,
        units[0].position.x < units[1].position.x,
        avoidance_velocity(units, 0).0 == av0,
        avoidance_velocity(units, 1).0 == av1,
        av1 == -av0,
        av0 <= 0,
    ensures
        avoidance_velocity(units, 0).0 == -avoidance_velocity(units, 1).0,
        avoid_step(units, 1, dt).x - avoid_step(units, 0, dt).x >= units[1].position.x
            - units[0].position.x,
{
    lemma_mul_div_sign(av0, dt, 1000);
    lemma_mul_div_sign(av1, dt, 1000);
    let disp0 = mul_div(av0, dt, 1000);
    let disp1 = mul_div(av1, dt, 1000);
    assert(disp0 <= 0 && disp1 >= 0);
    let x0 = units[0].position.x as int;
    let x1 = units[1].position.x as int;
    assert(clamp_coord(x0 + disp0) <= x0);
    assert(clamp_coord(x1 + disp1) >= x1);
}

/// Each axis of a pair's avoidance is bounded by the summed radii in
/// milli-units per second.
proof fn lemma_pair_avoidance_bound(a: Unit, b: Unit)
    requires
        a.wf(),
        b.wf(),
    ensures
        abs_i(pair_avoidance(a, b).0) <= 2_000_000_000,
        abs_i(pair_avoidance(a, b).1) <= 2_000_000_000,
{
    let d = dist_milli(a.position, b.position);
    let rsum = a.avoidance.radius + b.avoidance.radius;
    if 0 < d && d < rsum {
        lemma_component_le_dist(a.position, b.position);
        let m = (rsum - d) * 1000;
        assert(abs_i(b.position.x - a.position.x) * m <= (d * d) * 2_000_000_000)
            by (nonlinear_arith)
            requires
                abs_i(b.position.x - a.position.x) <= d,
                1 <= d,
                0 <= m <= 2_000_000_000,
        ;
        assert(abs_i(b.position.y - a.position.y) * m <= (d * d) * 2_000_000_000)
            by (nonlinear_arith)
            requires
                abs_i(b.position.y - a.position.y) <= d,
                1 <= d,
                0 <= m <= 2_000_000_000,
        ;
        assert(1 <= d * d) by (nonlinear_arith)
            requires
                1 <= d,
        ;
        lemma_mul_div_bound(b.position.x - a.position.x, m, d * d, 2_000_000_000);
        lemma_mul_div_bound(b.position.y - a.position.y, m, d * d, 2_000_000_000);
    }
}

/// Computes the avoidance velocity of unit `i` against the whole
/// population, from pre-tick positions.
fn avoidance_velocity_of(units: &Vec<Unit>, i: usize) -> (r: (i64, i64))
    requires
        forall|j: int| 0 <= j < units@.len() ==> (#[trigger] units@[j]).wf(),
        units@.len() <= MAX_UNITS,
        i < units@.len(),
    ensures
        r.0 == avoidance_velocity(units@, i as int).0,
        r.1 == avoidance_velocity(units@, i as int).1,
        abs_i(r.0 as int) <= 2_000_000_000_000,
        abs_i(r.1 as int) <= 2_000_000_000_000,
{
    let n = units.len();
    let mut ax: i64 = 0;
    let mut ay: i64 = 0;
    let mut k: usize = 0;
    while k < n
        invariant
            n == units@.len(),
            n <= MAX_UNITS,
            i < n,
            k <= n,
            forall|j: int| 0 <= j < n ==> (#[trigger] units@[j]).wf(),
            ax == avoidance_sum(units@, i as int, k as int).0,
            ay == avoidance_sum(units@, i as int, k as int).1,
            abs_i(ax as int) <= k * 2_000_000_000,
            abs_i(ay as int) <= k * 2_000_000_000,
        decreases n - k,
    {
        if k != i {
            let a = &units[i];
            let b = &units[k];
            let d = distance(a.position, b.position);
            let rsum = a.avoidance.radius + b.avoidance.radius;
            proof {
                lemma_pair_avoidance_bound(units@[i as int], units@[k as int]);
            }
            if 0 < d && d < rsum {
                proof {
                    lemma_component_le_dist(units@[i as int].position, units@[k as int].position);
                    assert(abs_i((b.position.x - a.position.x) as int) * ((rsum - d) * 1000)
                        <= i64::MAX) by (nonlinear_arith)
                        requires
                            abs_i((b.position.x - a.position.x) as int) <= 2 * MAX_COORD,
                            0 <= (rsum - d) * 1000 <= 2_000_000_000,
                    ;
                    assert(abs_i((b.position.y - a.position.y) as int) * ((rsum - d) * 1000)
                        <= i64::MAX) by (nonlinear_arith)
                        requires
                            abs_i((b.position.y - a.position.y) as int) <= 2 * MAX_COORD,
                            0 <= (rsum - d) * 1000 <= 2_000_000_000,
                    ;
                    assert(d * d <= i64::MAX && 1 <= d * d) by (nonlinear_arith)
                        requires
                            1 <= d <= 2_900_000_000,
                    ;
                }
                let px = scale_toward(b.position.x - a.position.x, (rsum - d) * 1000, d * d);
                let py = scale_toward(b.position.y - a.position.y, (rsum - d) * 1000, d * d);
                ax = ax - px;
                ay = ay - py;
            }
        }
        k = k + 1;
        proof {
            assert(abs_i(ax as int) <= k * 2_000_000_000 && abs_i(ay as int) <= k
                * 2_000_000_000) by (nonlinear_arith)
                requires
                    abs_i(ax as int) <= (k - 1) * 2_000_000_000 + 2_000_000_000,
                    abs_i(ay as int) <= (k - 1) * 2_000_000_000 + 2_000_000_000,
            ;
        }
    }
    proof {
        assert(abs_i(ax as int) <= 2_000_000_000_000 && abs_i(ay as int) <= 2_000_000_000_000)
            by (nonlinear_arith)
            requires
                abs_i(ax as int) <= n * 2_000_000_000,
                abs_i(ay as int) <= n * 2_000_000_000,
                n <= 1000,
        ;
    }
    (ax, ay)
}

/// One collision-avoidance pass over the whole population: every unit's
/// contributions are computed from the pre-tick positions, then each
/// position is displaced by its summed avoidance integrated over the
/// frame time (clamped into the world range).  A soft constraint only:
/// overlaps may survive a tick.
pub fn collision_avoidance_system(units: &mut Vec<Unit>, dt_ms: u32)
    requires
        forall|i: int| 0 <= i < old(units)@.len() ==> (#[trigger] old(units)@[i]).wf(),
        old(units)@.len() <= MAX_UNITS,
        dt_ms <= MAX_DT_MS,
    ensures
        final(units)@.len() == old(units)@.len(),
        forall|i: int|
            0 <= i < final(units)@.len() ==> (#[trigger] final(units)@[i]).position == avoid_step(
                old(units)@,
                i,
                dt_ms as int,
            ),
        forall|i: int|
            0 <= i < final(units)@.len() ==> (#[trigger] final(units)@[i]).avoidance == old(
                units,
            )@[i].avoidance && final(units)@[i].path == old(units)@[i].path,
        forall|i: int| 0 <= i < final(units)@.len() ==> (#[trigger] final(units)@[i]).wf(),
{
    let n = units.len();
    let mut displaced: Vec<Vec2i> = Vec::new();
    let mut i: usize = 0;
    while i < n
        invariant
            n == units@.len(),
            units@ == old(units)@,
            n <= MAX_UNITS,
            dt_ms <= MAX_DT_MS,
            i <= n,
            forall|j: int| 0 <= j < n ==> (#[trigger] units@[j]).wf(),
            displaced@.len() == i,
            forall|j: int| 0 <= j < i ==> #[trigger] displaced@[j] == avoid_step(
                units@,
                j,
                dt_ms as int,
            ),
        decreases n - i,
    {
        let (ax, ay) = avoidance_velocity_of(units, i);
        proof {
            assert(abs_i(ax as int) * (dt_ms as int) <= 20_000_000_000_000_000) by (nonlinear_arith)
                requires
                    abs_i(ax as int) <= 2_000_000_000_000,
                    0 <= dt_ms <= 10_000,
            ;
            assert(abs_i(ay as int) * (dt_ms as int) <= 20_000_000_000_000_000) by (nonlinear_arith)
                requires
                    abs_i(ay as int) <= 2_000_000_000_000,
                    0 <= dt_ms <= 10_000,
            ;
            lemma_mul_div_bound(ax as int, dt_ms as int, 1000, 20_000_000_000_000);
            lemma_mul_div_bound(ay as int, dt_ms as int, 1000, 20_000_000_000_000);
        }
        let dx = scale_toward(ax, dt_ms as i64, 1000);
        let dy = scale_toward(ay, dt_ms as i64, 1000);
        let pos = units[i].position;
        let np = Vec2i {
            x: clamp_to_world(pos.x + dx),
            y: clamp_to_world(pos.y + dy),
        };
        displaced.push(np);
        i = i + 1;
    }
    let mut w: usize = 0;
    while w < n
        invariant
            n == units@.len(),
            n == old(units)@.len(),
            w <= n,
            dt_ms <= MAX_DT_MS,
            displaced@.len() == n,
            forall|j: int| 0 <= j < n ==> #[trigger] displaced@[j] == avoid_step(
                old(units)@,
                j,
                dt_ms as int,
            ),
            forall|j: int| w <= j < n ==> units@[j] == #[trigger] old(units)@[j],
            forall|j: int| 0 <= j < n ==> (#[trigger] old(units)@[j]).wf(),
            forall|j: int|
                0 <= j < w ==> (#[trigger] units@[j]).position == avoid_step(
                    old(units)@,
                    j,
                    dt_ms as int,
                ) && units@[j].avoidance == old(units)@[j].avoidance && units@[j].path == old(
                    units,
                )@[j].path && units@[j].wf(),
        decreases n - w,
    {
        proof {
            assert(units@[w as int] == old(units)@[w as int]);
        }
        let np = displaced[w];
        let unit = &mut units[w];
        unit.position = np;
        w = w + 1;
    }
}

/// The grid column under a world position (truncation toward zero, as
/// a float-to-integer cast would give).
pub open spec fn cell_x(v: Vec2i) -> int {
    mul_div(v.x as int, 1, 1000)
}

/// The grid row under a world position.
pub open spec fn cell_y(v: Vec2i) -> int {
    mul_div(v.y as int, 1, 1000)
}

/// The world position of a cell's corner, in milli-units.
pub open spec fn node_to_milli(n: Node) -> Vec2i {
    Vec2i { x: (n.x * 1000) as i64, y: (n.y * 1000) as i64 }
}

/// Boards small enough that any of their cells converts to a route
/// waypoint within `MAX_WAYPOINT_MILLI`.
pub open spec fn board_fits_world(terrain: PathfindingTerrain) -> bool {
    terrain.width <= 100_000 && terrain.height <= 100_000
}

/// What one move command does to one unit: its prior route is discarded;
/// when the cells under its position and under the target both exist and
/// a route connects them, a minimal route is attached with the cursor at
/// its head; otherwise the unit is left idle.  Position and footprint
/// are untouched.
pub open spec fn path_request_outcome(
    terrain: PathfindingTerrain,
    u0: Unit,
    u1: Unit,
    target: Vec2i,
) -> bool {
    let sx = cell_x(u0.position);
    let sy = cell_y(u0.position);
    let gx = cell_x(target);
    let gy = cell_y(target);
    &&& u1.position == u0.position
    &&& u1.avoidance == u0.avoidance
    &&& if terrain.in_range(sx, sy) && terrain.in_range(gx, gy) {
        let s = terrain.node_at(sx, sy);
        let g = terrain.node_at(gx, gy);
        if exists|q: Seq<Node>| terrain.is_route(q, s, g) {
            &&& u1.path is Some
            &&& u1.path.unwrap().current_node == 0
            &&& exists|p: Seq<Node>|
                terrain.is_route(p, s, g) && (forall|q: Seq<Node>|
                    terrain.is_route(q, s, g) ==> p.len() <= q.len()) && u1.path.unwrap().path@
                    == p.map_values(|n: Node| node_to_milli(n))
        } else {
            u1.path is None
        }
    } else {
        u1.path is None
    }
}

/// Carries out one move command for one unit: discards its route, looks
/// up the cells under its position and under the target, runs the
/// pathfinder, and attaches the resulting route.  Returns whether a
/// route was attached; a failed lookup or an unreachable target leaves
/// the unit idle.
pub fn request_path(terrain: &PathfindingTerrain, unit: &mut Unit, target: Vec2i) -> (got: bool)
    requires
        terrain.wf(),
        board_fits_world(*terrain),
        old(unit).wf(),
        target.in_world(),
    ensures
        final(unit).wf(),
        path_request_outcome(*terrain, *old(unit), *final(unit), target),
        got <==> final(unit).path is Some,
{
    unit.path = None;
    proof {
        assert(abs_i(unit.position.x as int) * 1 <= i64::MAX && abs_i(unit.position.y as int) * 1
            <= i64::MAX && abs_i(target.x as int) * 1 <= i64::MAX && abs_i(target.y as int) * 1
            <= i64::MAX) by (nonlinear_arith)
            requires
                abs_i(unit.position.x as int) <= MAX_COORD,
                abs_i(unit.position.y as int) <= MAX_COORD,
                abs_i(target.x as int) <= MAX_COORD,
                abs_i(target.y as int) <= MAX_COORD,
        ;
        lemma_mul_div_bound(unit.position.x as int, 1, 1000, 1_000_000);
        lemma_mul_div_bound(unit.position.y as int, 1, 1000, 1_000_000);
        lemma_mul_div_bound(target.x as int, 1, 1000, 1_000_000);
        lemma_mul_div_bound(target.y as int, 1, 1000, 1_000_000);
        assert(abs_i(unit.position.x as int) * 1 <= 1000 * 1_000_000 && abs_i(
            unit.position.y as int,
        ) * 1 <= 1000 * 1_000_000 && abs_i(target.x as int) * 1 <= 1000 * 1_000_000 && abs_i(
            target.y as int,
        ) * 1 <= 1000 * 1_000_000) by (nonlinear_arith)
            requires
                abs_i(unit.position.x as int) <= MAX_COORD,
                abs_i(unit.position.y as int) <= MAX_COORD,
                abs_i(target.x as int) <= MAX_COORD,
                abs_i(target.y as int) <= MAX_COORD,
        ;
    }
    let sx = scale_toward(unit.position.x, 1, 1000);
    let sy = scale_toward(unit.position.y, 1, 1000);
    let gx = scale_toward(target.x, 1, 1000);
    let gy = scale_toward(target.y, 1, 1000);
    let start_node = terrain.get_node_by_position(sx as i32, sy as i32);
    let goal_node = terrain.get_node_by_position(gx as i32, gy as i32);
    let (s, g) = match (start_node, goal_node) {
        (Some(s), Some(g)) => (s, g),
        _ => {
            return false;
        },
    };
    match terrain.get_path(s, g) {
        Some(path) => {
            proof {
                terrain.lemma_route_properties(path@, s, g);
            }
            let mut points: Vec<Vec2i> = Vec::new();
            let mut t: usize = 0;
            let n = path.len();
            while t < n
                invariant
                    n == path@.len(),
                    t <= n,
                    terrain.wf(),
                    board_fits_world(*terrain),
                    forall|i: int|
                        0 <= i < n ==> terrain.in_range(
                            (#[trigger] path@[i]).x as int,
                            path@[i].y as int,
                        ),
                    points@ == path@.take(t as int).map_values(|nd: Node| node_to_milli(nd)),
                decreases n - t,
            {
                let ghost pre = path@.take(t as int).map_values(|nd: Node| node_to_milli(nd));
                let nd = path[t];
                points.push(Vec2i { x: nd.x as i64 * 1000, y: nd.y as i64 * 1000 });
                t = t + 1;
                proof {
                    let cur = path@.take(t as int).map_values(|nd: Node| node_to_milli(nd));
                    assert(cur =~= pre.push(node_to_milli(path@[t - 1])));
                }
            }
            proof {
                assert(path@.take(n as int) =~= path@);
            }
            unit.path = Some(UnitPath { path: points, current_node: 0 });
            proof {
                assert(unit.path.unwrap().wf()) by {
                    let pts = unit.path.unwrap().path@;
                    assert forall|i: int|
                        0 <= i < pts.len() implies -MAX_WAYPOINT_MILLI <= (
                        #[trigger] pts[i]).x <= MAX_WAYPOINT_MILLI && -MAX_WAYPOINT_MILLI
                        <= pts[i].y <= MAX_WAYPOINT_MILLI by {
                        assert(pts[i] == node_to_milli(path@[i]));
                        assert(terrain.in_range(path@[i].x as int, path@[i].y as int));
                    }
                }
                assert(terrain.is_route(path@, s, g));
            }
            true
        },
        None => false,
    }
}

/// Whether an index occurs among the first `k` selected indices.
pub open spec fn selected_within(sel: Seq<usize>, k: int, i: int) -> bool {
    exists|m: int| 0 <= m < k && sel[m] == i
}

/// Carries out one move command for every selected unit: each selected
/// unit's route is recomputed toward the target from its own position;
/// a failed lookup for one unit does not block the others, and
/// unselected units are untouched.
pub fn get_path_for_selected_units_system(
    terrain: &PathfindingTerrain,
    units: &mut Vec<Unit>,
    selected: &Vec<usize>,
    target: Vec2i,
)
    requires
        terrain.wf(),
        board_fits_world(*terrain),
        target.in_world(),
        forall|i: int| 0 <= i < old(units)@.len() ==> (#[trigger] old(units)@[i]).wf(),
        forall|k: int| 0 <= k < selected@.len() ==> (#[trigger] selected@[k]) < old(units)@.len(),
        forall|k1: int, k2: int|
            0 <= k1 < k2 < selected@.len() ==> selected@[k1] != selected@[k2],
    ensures
        final(units)@.len() == old(units)@.len(),
        forall|i: int|
            0 <= i < old(units)@.len() && !selected_within(selected@, selected@.len() as int, i)
                ==> final(units)@[i] == old(units)@[i],
        forall|k: int|
            0 <= k < selected@.len() ==> path_request_outcome(
                *terrain,
                old(units)@[selected@[k] as int],
                final(units)@[#[trigger] selected@[k] as int],
                target,
            ),
        forall|i: int| 0 <= i < final(units)@.len() ==> (#[trigger] final(units)@[i]).wf(),
{
    let n = selected.len();
    let mut k: usize = 0;
    while k < n
        invariant
            n == selected@.len(),
            units@.len() == old(units)@.len(),
            k <= n,
            terrain.wf(),
            board_fits_world(*terrain),
            target.in_world(),
            forall|i: int| 0 <= i < old(units)@.len() ==> (#[trigger] old(units)@[i]).wf(),
            forall|j: int| 0 <= j < n ==> (#[trigger] selected@[j]) < old(units)@.len(),
            forall|k1: int, k2: int| 0 <= k1 < k2 < n ==> selected@[k1] != selected@[k2],
            forall|i: int|
                0 <= i < units@.len() && !selected_within(selected@, k as int, i) ==> units@[i]
                    == old(units)@[i],
            forall|m: int|
                0 <= m < k ==> path_request_outcome(
                    *terrain,
                    old(units)@[selected@[m] as int],
                    units@[#[trigger] selected@[m] as int],
                    target,
                ),
            forall|i: int| 0 <= i < units@.len() ==> (#[trigger] units@[i]).wf(),
        decreases n - k,
    {
        let ii = selected[k];
        proof {
            if selected_within(selected@, k as int, ii as int) {
                let m = choose|m: int| 0 <= m < k && selected@[m] == ii as int;
                assert(selected@[m] == selected@[k as int]);
                assert(false);
            }
            assert(units@[ii as int] == old(units)@[ii as int]);
        }
        let unit = &mut units[ii];
        request_path(terrain, unit, target);
        k = k + 1;
        proof {
            assert forall|i: int|
                0 <= i < units@.len() && !selected_within(selected@, k as int, i)
                implies units@[i] == old(units)@[i] by {
                assert(!selected_within(selected@, k - 1, i));
            }
            assert forall|m: int|
                0 <= m < k implies path_request_outcome(
                *terrain,
                old(units)@[selected@[m] as int],
                units@[#[trigger] selected@[m] as int],
                target,
            ) by {
                if m < k - 1 {
                    assert(selected@[m] != selected@[k - 1]);
                }
            }
        }
    }
}

/// Advances every move marker's age by the frame time, saturating.
pub fn update_move_point_timer_system(points: &mut Vec<MovePoint>, dt_ms: u32)
    ensures
        final(points)@.len() == old(points)@.len(),
        forall|i: int|
            0 <= i < old(points)@.len() ==> (#[trigger] final(points)@[i]).point == old(
                points,
            )@[i].point && final(points)@[i].time == if old(points)@[i].time + dt_ms > u32::MAX {
                u32::MAX as int
            } else {
                old(points)@[i].time + dt_ms
            },
{
    let n = points.len();
    let mut i: usize = 0;
    while i < n
        invariant
            n == points@.len(),
            n == old(points)@.len(),
            i <= n,
            forall|j: int| i <= j < n ==> points@[j] == #[trigger] old(points)@[j],
            forall|j: int|
                0 <= j < i ==> (#[trigger] points@[j]).point == old(points)@[j].point
                    && points@[j].time == if old(points)@[j].time + dt_ms > u32::MAX {
                    u32::MAX as int
                } else {
                    old(points)@[j].time + dt_ms
                },
        decreases n - i,
    {
        let mp = points[i];
        let nt = if mp.time > u32::MAX - dt_ms {
            u32::MAX
        } else {
            mp.time + dt_ms
        };
        points.set(i, MovePoint { point: mp.point, time: nt });
        i = i + 1;
    }
}

/// The markers that survive a cleanup pass: those no older than the
/// time-to-live, in order.
pub open spec fn retained_points(s: Seq<MovePoint>) -> Seq<MovePoint>
    decreases s.len(),
{
    if s.len() == 0 {
        seq![]
    } else {
        let rest = retained_points(s.drop_last());
        if s.last().time <= MOVE_POINT_TTL_MS {
            rest.push(s.last())
        } else {
            rest
        }
    }
}

/// Despawns every move marker older than the time-to-live.
pub fn cleanup_move_points_system(points: &mut Vec<MovePoint>)
    ensures
        final(points)@ == retained_points(old(points)@),
{
    let n = points.len();
    let mut kept: Vec<MovePoint> = Vec::new();
    let mut i: usize = 0;
    while i < n
        invariant
            n == points@.len(),
            points@ == old(points)@,
            i <= n,
            kept@ == retained_points(points@.take(i as int)),
        decreases n - i,
    {
        let ghost pre = points@.take(i as int);
        let mp = points[i];
        if mp.time <= MOVE_POINT_TTL_MS {
            kept.push(mp);
        }
        i = i + 1;
        proof {
            let cur = points@.take(i as int);
            assert(cur.last() == points@[i - 1]);
            assert(cur.drop_last() =~= pre);
        }
    }
    proof {
        assert(points@.take(n as int) =~= points@);
    }
    *points = kept;
}

/// The initial population: three units on a row, each with the default
/// collision footprint, matching the startup layout.
pub fn initialize_units() -> (r: Vec<Unit>)
    ensures
        r@.len() == 3,
        forall|i: int|
            0 <= i < 3 ==> (#[trigger] r@[i]).wf() && r@[i].path is None
                && r@[i].avoidance.radius == 500,
        r@[0].position == (Vec2i { x: 10_000, y: 2_100 }),
        r@[1].position == (Vec2i { x: 11_200, y: 2_100 }),
        r@[2].position == (Vec2i { x: 11_500, y: 2_100 }),
{
    let mut units: Vec<Unit> = Vec::new();
    units.push(Unit::new(Vec2i { x: 10_000, y: 2_100 }));
    units.push(Unit::new(Vec2i { x: 11_200, y: 2_100 }));
    units.push(Unit::new(Vec2i { x: 11_500, y: 2_100 }));
    units
}

/// Spawns one idle unit with the default footprint at the given spot.
pub fn spawn_unit(units: &mut Vec<Unit>, position: Vec2i)
    requires
        position.in_world(),
    ensures
        final(units)@.len() == old(units)@.len() + 1,
        forall|i: int| 0 <= i < old(units)@.len() ==> final(units)@[i] == #[trigger] old(
            units,
        )@[i],
        final(units)@.last().position == position,
        final(units)@.last().avoidance.radius == 500,
        final(units)@.last().path is None,
        final(units)@.last().wf(),
{
    units.push(Unit::new(position));
}

} // verus!
