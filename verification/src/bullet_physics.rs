use vstd::prelude::*;
use crate::math::{is_isqrt, isqrt_u128, sqrt_floor, tdiv};

verus! {

/// Gravity, in fixed-point steps per squared second (9.81 units/s^2).
pub const GRAVITY_MAGNITUDE: i64 = 9810;

/// Dimensionless gravity multiplier.
pub const GRAVITY_SCALE: i64 = 1;

/// Bullet speed per point of tank power, in thousandths (0.28).
pub const TANK_BULLET_SPEED_PER_POWER: i64 = 280;

pub const BULLET_DENSITY: i64 = 100_000;

pub const TANK_DENSITY: i64 = 1_000_000;

/// Linear damping of bullets; zero, so the closed-form arcs are exact.
pub const BULLET_LINEAR_DAMPING: i64 = 0;

/// Samples per computed trajectory.
pub const TRAJECTORY_POINTS: usize = 20;

/// Elevation tangents are stored in millionths.
pub const TAN_SCALE: i64 = 1_000_000;

/// Largest elevation tangent the solver can produce under its input caps.
pub const TAN_CAP: i64 = 230_000_000_000;

/// Input caps, in fixed-point steps: the ranges over which the solver's
/// arithmetic is exact and overflow-free.
pub const RANGE_MIN: i64 = 1000;

pub const RANGE_CAP: i64 = 10_000_000;

pub const Y_DIFF_CAP: i64 = 10_000_000;

pub const SPEED_MIN: i64 = 1000;

pub const SPEED_CAP: i64 = 1_000_000;

/// One firing solution: the elevation (as a scaled tangent), flight time in
/// milliseconds, the speed and power used, and the sampled arc.
#[derive(Debug, Clone)]
#[verifier::ext_equal]
pub struct BulletSolution {
    /// Tangent of the launch elevation, in millionths.
    pub elevation_tan: i64,
    /// Flight time to the target range, in milliseconds.
    pub flight_time: i64,
    /// Launch speed, in fixed-point steps per second.
    pub speed: i64,
    /// Tank power that yields this speed.
    pub power: i64,
    /// Points `(x, y)` of the arc, evenly spaced in `x` from zero to the
    /// range.
    pub trajectory: Vec<(i64, i128)>,
}

/// The outcome of a fixed-speed solve: the flat and arched analytic
/// solutions when the target is reachable, or a flagged 45-degree fallback
/// arc when it is not.
#[derive(Debug, Clone)]
pub struct BulletSolutions {
    pub low_sol: Option<BulletSolution>,
    pub high_sol: Option<BulletSolution>,
    pub err_sol: Option<BulletSolution>,
}

/// The outcome of a speed-search solve: the fastest hit among the sampled
/// speeds, every candidate found, or the flagged fallback.
#[derive(Debug, Clone)]
pub struct SpeedSearchSolutions {
    pub chosen_sol: Option<BulletSolution>,
    pub all_sol: Vec<BulletSolution>,
    pub err_sol: Option<BulletSolution>,
}

/// Rejected inputs of the solver.
#[derive(Debug, Clone, Copy, PartialEq, Eq, Structural)]
pub enum BallisticsError {
    /// The range was nonpositive (the angle formulas divide by it) or under
    /// one fixed-point unit.
    RangeTooShort,
}

/// `g * range^2 + 2 * y_diff * v^2`, the inner term of the discriminant.
pub open spec fn par_spec(range: int, y_diff: int, v: int) -> int {
    GRAVITY_MAGNITUDE * range * range + 2 * y_diff * (v * v)
}

/// The discriminant `v^4 - g * par` of the quadratic in the elevation
/// tangent; the target is reachable at speed `v` exactly when it is
/// nonnegative.
pub open spec fn disc_spec(range: int, y_diff: int, v: int) -> int {
    (v * v) * (v * v) - GRAVITY_MAGNITUDE * par_spec(range, y_diff, v)
}

/// The flat-arc elevation tangent, in millionths:
/// `(v^2 - sqrt(disc)) / (g * range)`.
pub open spec fn tan_low_spec(range: int, y_diff: int, v: int) -> int {
    tdiv((v * v - sqrt_floor(disc_spec(range, y_diff, v))) * TAN_SCALE,
        GRAVITY_MAGNITUDE * range)
}

/// The arched elevation tangent, in millionths:
/// `(v^2 + sqrt(disc)) / (g * range)`.
pub open spec fn tan_high_spec(range: int, y_diff: int, v: int) -> int {
    tdiv((v * v + sqrt_floor(disc_spec(range, y_diff, v))) * TAN_SCALE,
        GRAVITY_MAGNITUDE * range)
}

/// The horizontal position of trajectory sample `i`: even spacing that
/// reaches the range exactly at the last sample.
pub open spec fn traj_x_spec(range: int, i: int) -> int {
    tdiv(range * i, 19)
}

/// The height of the arc over horizontal position `x`, under constant
/// gravity: `x * tan - g * x^2 * (1 + tan^2) / (2 * v^2)`.
pub open spec fn curve_y_spec(x: int, tan: int, v: int) -> int {
    tdiv(x * tan, TAN_SCALE as int) - (((GRAVITY_MAGNITUDE * x * x) / (2 * (v * v)))
        * (TAN_SCALE * TAN_SCALE + tan * tan)) / (TAN_SCALE * TAN_SCALE)
}

/// Flight time to the range in milliseconds:
/// `range * sec(elevation) / v`.
pub open spec fn flight_time_spec(range: int, tan: int, v: int) -> int {
    (range * sqrt_floor(TAN_SCALE * TAN_SCALE + tan * tan) * 1000) / (v * TAN_SCALE)
}

/// The power that yields a speed, inverting the speed-per-power ratio.
pub open spec fn power_spec(v: int) -> int {
    tdiv(v * 1000, TANK_BULLET_SPEED_PER_POWER as int)
}

/// The solution describes exactly the closed-form arc for this range,
/// elevation tangent and speed.
pub open spec fn solution_matches(sol: BulletSolution, range: int, tan: int, v: int) -> bool {
    &&& sol.elevation_tan == tan
    &&& sol.speed == v
    &&& sol.power == power_spec(v)
    &&& sol.flight_time == flight_time_spec(range, tan, v)
    &&& sol.trajectory@.len() == TRAJECTORY_POINTS
    &&& forall|i: int| 0 <= i < TRAJECTORY_POINTS ==> #[trigger] sol.trajectory@[i]
        == (traj_x_spec(range, i) as i64, curve_y_spec(traj_x_spec(range, i), tan, v) as i128)
    &&& sol.trajectory@[TRAJECTORY_POINTS - 1].0 == range
}

/// The input caps under which the solver is exact.
pub open spec fn inputs_ok(range: int, y_diff: int, v: int) -> bool {
    &&& range <= RANGE_CAP
    &&& -Y_DIFF_CAP <= y_diff <= Y_DIFF_CAP
    &&& SPEED_MIN <= v <= SPEED_CAP
}

/// Bounds that every intermediate of the arc arithmetic obeys.
proof fn lemma_arc_bounds(range: int, tan: int, v: int, x: int)
    by (nonlinear_arith)
    requires
        RANGE_MIN <= range <= RANGE_CAP,
        SPEED_MIN <= v <= SPEED_CAP,
        -TAN_CAP <= tan <= TAN_CAP,
        0 <= x <= range,
    ensures
        -2_300_000_000_000_000_000 <= x * tan <= 2_300_000_000_000_000_000,
        0 <= GRAVITY_MAGNITUDE * x * x <= 981_000_000_000_000_000,
        2_000_000 <= 2 * (v * v) <= 2_000_000_000_000,
        0 <= (GRAVITY_MAGNITUDE * x * x) / (2 * (v * v)) <= 490_500_000_000,
        0 <= tan * tan <= 52_900_000_000_000_000_000_000,
        TAN_SCALE * TAN_SCALE <= TAN_SCALE * TAN_SCALE + tan * tan
            <= 52_900_001_000_000_000_000_000,
        0 <= ((GRAVITY_MAGNITUDE * x * x) / (2 * (v * v)))
            * (TAN_SCALE * TAN_SCALE + tan * tan)
            <= 26_000_000_000_000_000_000_000_000_000_000_000,
{
}

/// The last sample sits exactly at the range.
proof fn lemma_last_sample(range: int)
    by (nonlinear_arith)
    requires
        0 <= range,
    ensures
        traj_x_spec(range, 19) == range,
        traj_x_spec(range, 0) == 0,
{
}

/// Samples step monotonically out to the range.
proof fn lemma_sample_range(range: int, i: int)
    by (nonlinear_arith)
    requires
        0 <= range,
        0 <= i <= 19,
    ensures
        0 <= traj_x_spec(range, i) <= range,
{
}

/// Builds the full solution record for one elevation branch.
fn make_solution(range: i64, tan: i64, v: i64) -> (sol: BulletSolution)
    requires
        RANGE_MIN <= range <= RANGE_CAP,
        SPEED_MIN <= v <= SPEED_CAP,
        -TAN_CAP <= tan <= TAN_CAP,
    ensures
        solution_matches(sol, range as int, tan as int, v as int),
{
    let mut trajectory: Vec<(i64, i128)> = Vec::new();
    let mut i: usize = 0;
    while i < TRAJECTORY_POINTS
        invariant
            i <= TRAJECTORY_POINTS,
            RANGE_MIN <= range <= RANGE_CAP,
            SPEED_MIN <= v <= SPEED_CAP,
            -TAN_CAP <= tan <= TAN_CAP,
            trajectory@.len() == i,
            forall|k: int| 0 <= k < i ==> #[trigger] trajectory@[k]
                == (traj_x_spec(range as int, k) as i64,
                    curve_y_spec(traj_x_spec(range as int, k), tan as int, v as int) as i128),
        decreases TRAJECTORY_POINTS - i,
    {
        proof {
            crate::math::lemma_coord_product_bound(range as int, i as int);
        }
        let x: i64 = range * (i as i64) / 19;
        proof {
            lemma_sample_range(range as int, i as int);
            lemma_arc_bounds(range as int, tan as int, v as int, x as int);
        }
        let y1: i128 = (x as i128) * (tan as i128) / (TAN_SCALE as i128);
        proof {
            crate::math::lemma_coord_product_bound(x as int, x as int);
            crate::math::lemma_coord_product_bound(v as int, v as int);
        }
        let xx: i128 = (x as i128) * (x as i128);
        let vv: i128 = (v as i128) * (v as i128);
        proof {
            assert((GRAVITY_MAGNITUDE as int) * (xx as int)
                == GRAVITY_MAGNITUDE * (x as int) * (x as int)) by (nonlinear_arith)
                requires xx as int == (x as int) * (x as int);
        }
        let c: i128 = ((GRAVITY_MAGNITUDE as i128) * xx) / (2 * vv);
        let sec2: i128 = (TAN_SCALE as i128) * (TAN_SCALE as i128)
            + (tan as i128) * (tan as i128);
        let y2: i128 = (c * sec2) / ((TAN_SCALE as i128) * (TAN_SCALE as i128));
        let y: i128 = y1 - y2;
        trajectory.push((x, y));
        i = i + 1;
    }
    proof {
        lemma_arc_bounds(range as int, tan as int, v as int, 0);
        lemma_last_sample(range as int);
    }
    let sec2_full: i128 = (TAN_SCALE as i128) * (TAN_SCALE as i128)
        + (tan as i128) * (tan as i128);
    let sec: u128 = isqrt_u128(sec2_full as u128);
    proof {
        let s = sqrt_floor(sec2_full as int);
        assert(is_isqrt(sec2_full as int, s)) by {
            assert(is_isqrt(sec2_full as int, sec as int));
        }
        crate::math::lemma_isqrt_unique(sec2_full as int, sec as int, s);
        assert((sec as int) * (sec as int) <= 52_900_001_000_000_000_000_000);
        assert(sec as int <= 250_000_000_000) by (nonlinear_arith)
            requires (sec as int) * (sec as int) <= 52_900_001_000_000_000_000_000;
        assert(0 <= (range as int) * (sec as int) * 1000
            <= 2_500_000_000_000_000_000_000_000) by (nonlinear_arith)
            requires 0 <= range <= RANGE_CAP && 0 <= sec as int <= 250_000_000_000;
        assert((v as int) * (TAN_SCALE as int) >= 1_000_000_000) by (nonlinear_arith)
            requires v >= SPEED_MIN;
        crate::terrain::lemma_tdiv_bound(
            (range as int) * (sec as int) * 1000,
            (v as int) * (TAN_SCALE as int),
            2_500_000_000_000_000,
        );
    }
    let ft_wide: i128 = ((range as i128) * (sec as i128) * 1000)
        / ((v as i128) * (TAN_SCALE as i128));
    let flight_time: i64 = ft_wide as i64;
    let power: i64 = v * 1000 / TANK_BULLET_SPEED_PER_POWER;
    BulletSolution { elevation_tan: tan, flight_time, speed: v, power, trajectory }
}

/// Computes the firing elevations that land a shot at horizontal distance
/// `range` and height offset `y_diff` with launch speed `speed`, under
/// constant gravity and no drag.
///
/// A nonpositive or sub-unit range is rejected. An unreachable target is
/// not an error: the result then carries only the flagged 45-degree
/// fallback arc, and callers branch on which solutions are present.
pub fn compute_ballistic_solution(range: i64, y_diff: i64, speed: i64)
    -> (r: Result<BulletSolutions, BallisticsError>)
    requires
        inputs_ok(range as int, y_diff as int, speed as int),
    ensures
        range < RANGE_MIN <==> r is Err,
        r is Err ==> r->Err_0 == BallisticsError::RangeTooShort,
        r matches Ok(sols) ==> {
            let d = disc_spec(range as int, y_diff as int, speed as int);
            &&& (d < 0 ==> {
                &&& sols.low_sol is None
                &&& sols.high_sol is None
                &&& sols.err_sol matches Some(e)
                    && solution_matches(e, range as int, TAN_SCALE as int, speed as int)
            })
            &&& (d >= 0 ==> {
                &&& sols.err_sol is None
                &&& sols.low_sol matches Some(lo) && solution_matches(
                    lo, range as int,
                    tan_low_spec(range as int, y_diff as int, speed as int),
                    speed as int)
                &&& sols.high_sol matches Some(hi) && solution_matches(
                    hi, range as int,
                    tan_high_spec(range as int, y_diff as int, speed as int),
                    speed as int)
            })
        },
{
    if range < RANGE_MIN {
        return Err(BallisticsError::RangeTooShort);
    }
    proof {
        lemma_square_caps(range as int, y_diff as int, speed as int);
    }
    let v2: i128 = (speed as i128) * (speed as i128);
    let rr: i128 = (range as i128) * (range as i128);
    let yv: i128 = 2 * (y_diff as i128) * v2;
    let par: i128 = (GRAVITY_MAGNITUDE as i128) * rr + yv;
    let v4: i128 = v2 * v2;
    let disc: i128 = v4 - (GRAVITY_MAGNITUDE as i128) * par;
    proof {
        lemma_disc_shape(range as int, y_diff as int, speed as int);
        assert(disc as int == disc_spec(range as int, y_diff as int, speed as int))
            by (nonlinear_arith)
            requires
                v2 as int == (speed as int) * (speed as int),
                rr as int == (range as int) * (range as int),
                yv as int == 2 * (y_diff as int) * (v2 as int),
                par as int == GRAVITY_MAGNITUDE * (rr as int) + yv as int,
                v4 as int == (v2 as int) * (v2 as int),
                disc as int == v4 as int - GRAVITY_MAGNITUDE * (par as int),
                disc_spec(range as int, y_diff as int, speed as int)
                    == ((speed as int) * (speed as int)) * ((speed as int) * (speed as int))
                        - GRAVITY_MAGNITUDE * (GRAVITY_MAGNITUDE * (range as int) * (range as int)
                            + 2 * (y_diff as int) * ((speed as int) * (speed as int)));
    }
    if disc < 0 {
        let err = make_solution(range, TAN_SCALE, speed);
        return Ok(BulletSolutions { low_sol: None, high_sol: None, err_sol: Some(err) });
    }
    let s: u128 = isqrt_u128(disc as u128);
    proof {
        let sf = sqrt_floor(disc as int);
        assert(is_isqrt(disc as int, sf)) by {
            assert(is_isqrt(disc as int, s as int));
        }
        crate::math::lemma_isqrt_unique(disc as int, s as int, sf);
        lemma_root_bound(disc as int, s as int, speed as int);
        lemma_tan_in_cap(range as int, speed as int, s as int);
    }
    let den: i128 = (GRAVITY_MAGNITUDE as i128) * (range as i128);
    let tan_lo: i128 = ((v2 - s as i128) * (TAN_SCALE as i128)) / den;
    let tan_hi: i128 = ((v2 + s as i128) * (TAN_SCALE as i128)) / den;
    let low = make_solution(range, tan_lo as i64, speed);
    let high = make_solution(range, tan_hi as i64, speed);
    Ok(BulletSolutions { low_sol: Some(low), high_sol: Some(high), err_sol: None })
}

/// The squares of capped inputs stay inside comfortable literal bounds.
proof fn lemma_square_caps(range: int, y_diff: int, v: int)
    by (nonlinear_arith)
    requires
        RANGE_MIN <= range <= RANGE_CAP,
        -Y_DIFF_CAP <= y_diff <= Y_DIFF_CAP,
        SPEED_MIN <= v <= SPEED_CAP,
    ensures
        1_000_000 <= v * v <= 1_000_000_000_000,
        1_000_000 <= range * range <= 100_000_000_000_000,
        -20_000_000_000_000_000_000 <= 2 * y_diff * (v * v) <= 20_000_000_000_000_000_000,
        0 <= (v * v) * (v * v) <= 1_000_000_000_000_000_000_000_000,
{
}

/// The discriminant's exec evaluation equals its specification.
proof fn lemma_disc_shape(range: int, y_diff: int, v: int)
    by (nonlinear_arith)
    requires
        RANGE_MIN <= range <= RANGE_CAP,
        -Y_DIFF_CAP <= y_diff <= Y_DIFF_CAP,
        SPEED_MIN <= v <= SPEED_CAP,
    ensures
        disc_spec(range, y_diff, v) == (v * v) * (v * v)
            - GRAVITY_MAGNITUDE * (GRAVITY_MAGNITUDE * range * range
                + 2 * y_diff * (v * v)),
        -220_000_000_000_000_000_000_000 <= disc_spec(range, y_diff, v)
            <= 1_220_000_000_000_000_000_000_000,
{
}

/// A nonnegative discriminant's root is within the fourth power of the
/// speed cap.
proof fn lemma_root_bound(d: int, s: int, v: int)
    by (nonlinear_arith)
    requires
        is_isqrt(d, s),
        d <= 1_220_000_000_000_000_000_000_000,
        SPEED_MIN <= v <= SPEED_CAP,
    ensures
        0 <= s <= 1_200_000_000_000,
{
}

/// Both elevation tangents stay within the cap under the input caps.
proof fn lemma_tan_in_cap(range: int, v: int, s: int)
    by (nonlinear_arith)
    requires
        RANGE_MIN <= range <= RANGE_CAP,
        SPEED_MIN <= v <= SPEED_CAP,
        0 <= s <= 1_200_000_000_000,
    ensures
        GRAVITY_MAGNITUDE * range >= 9_810_000,
        -TAN_CAP <= tdiv((v * v - s) * TAN_SCALE, GRAVITY_MAGNITUDE * range) <= TAN_CAP,
        -TAN_CAP <= tdiv((v * v + s) * TAN_SCALE, GRAVITY_MAGNITUDE * range) <= TAN_CAP,
{
}

/// The analytic heart of the ballistic round trip: with `X` either
/// tangent numerator `v^2 -/+ floor(sqrt(disc))`, the range quadratic
/// `2 v^2 X - (g r)^2 - X^2 == 2 g y v^2` holds exactly up to the
/// square-root rounding defect `disc - floor(sqrt(disc))^2`, which is at
/// most `2 floor(sqrt(disc))`. Landing exactly on the target is this
/// equation; what separates it from the arc's sampled landing height in
/// `curve_y_spec` is only the rounding of the fixed-point scalings and
/// floor divisions, which is not bounded here.
pub proof fn lemma_tangents_solve_range_quadratic(range: int, y_diff: int, v: int)
    requires
        RANGE_MIN <= range <= RANGE_CAP,
        -Y_DIFF_CAP <= y_diff <= Y_DIFF_CAP,
        SPEED_MIN <= v <= SPEED_CAP,
        disc_spec(range, y_diff, v) >= 0,
    ensures
        ({
            let d = disc_spec(range, y_diff, v);
            let s = sqrt_floor(d);
            let xl = v * v - s;
            let xh = v * v + s;
            &&& 0 <= d - s * s <= 2 * s
            &&& 2 * (v * v) * xl - (GRAVITY_MAGNITUDE * range) * (GRAVITY_MAGNITUDE * range)
                - xl * xl == 2 * GRAVITY_MAGNITUDE * y_diff * (v * v) + (d - s * s)
            &&& 2 * (v * v) * xh - (GRAVITY_MAGNITUDE * range) * (GRAVITY_MAGNITUDE * range)
                - xh * xh == 2 * GRAVITY_MAGNITUDE * y_diff * (v * v) + (d - s * s)
        }),
{
    let d = disc_spec(range, y_diff, v);
    lemma_isqrt_exists(d);
    let s = sqrt_floor(d);
    assert(0 <= d - s * s <= 2 * s) by (nonlinear_arith)
        requires is_isqrt(d, s);
    let xl = v * v - s;
    let xh = v * v + s;
    assert(2 * (v * v) * xl - (GRAVITY_MAGNITUDE * range) * (GRAVITY_MAGNITUDE * range)
        - xl * xl == 2 * GRAVITY_MAGNITUDE * y_diff * (v * v) + (d - s * s)
        && 2 * (v * v) * xh - (GRAVITY_MAGNITUDE * range) * (GRAVITY_MAGNITUDE * range)
            - xh * xh == 2 * GRAVITY_MAGNITUDE * y_diff * (v * v) + (d - s * s))
        by (nonlinear_arith)
        requires
            xl == v * v - s,
            xh == v * v + s,
            d == (v * v) * (v * v) - GRAVITY_MAGNITUDE * (GRAVITY_MAGNITUDE * range * range
                + 2 * y_diff * (v * v));
}

/// Reachability is monotone in speed: a target reachable at some speed
/// stays reachable at any higher speed (with the same range and height
/// offset).
pub proof fn lemma_more_speed_stays_feasible(range: int, y_diff: int, v1: int, v2: int)
    by (nonlinear_arith)
    requires
        0 < range,
        v1 <= v2,
        0 <= v1,
        disc_spec(range, y_diff, v1) >= 0,
    ensures
        disc_spec(range, y_diff, v2) >= 0,
{
    assert(disc_spec(range, y_diff, v2) - disc_spec(range, y_diff, v1)
        == (v2 * v2 - v1 * v1) * (v2 * v2 + v1 * v1 - 2 * GRAVITY_MAGNITUDE * y_diff));
}

/// Picks the elevation a tank adopts from a solve: the flat solution when
/// present, else the arched one, else the flagged fallback.
pub fn choose_elevation(sols: &BulletSolutions) -> (t: i64)
    requires
        sols.low_sol is Some || sols.high_sol is Some || sols.err_sol is Some,
    ensures
        sols.low_sol matches Some(lo) ==> t == lo.elevation_tan,
        sols.low_sol is None ==> (sols.high_sol matches Some(hi) ==> t == hi.elevation_tan),
        sols.low_sol is None && sols.high_sol is None ==> (sols.err_sol matches Some(e)
            ==> t == e.elevation_tan),
{
    match &sols.low_sol {
        Some(lo) => lo.elevation_tan,
        None => match &sols.high_sol {
            Some(hi) => hi.elevation_tan,
            None => match &sols.err_sol {
                Some(e) => e.elevation_tan,
                None => 0,
            },
        },
    }
}


/// Floor on the maximum speed of a search, so that every sampled candidate
/// speed stays above the solver's speed floor.
pub const MAX_SPEED_MIN: i64 = 20_000;

/// The `i`-th sampled candidate speed of a search capped at `max`:
/// `max * i / N` for `N = 20` samples.
pub open spec fn cand_speed(max: int, i: int) -> int {
    tdiv(max * i, 20)
}

/// The solution is one of the two elevation branches for the `i`-th
/// candidate speed, and that speed can reach the target.
pub open spec fn cand_matches(
    sol: BulletSolution, range: int, y_diff: int, max: int, i: int) -> bool {
    let v = cand_speed(max, i);
    &&& disc_spec(range, y_diff, v) >= 0
    &&& (solution_matches(sol, range, tan_low_spec(range, y_diff, v), v)
        || solution_matches(sol, range, tan_high_spec(range, y_diff, v), v))
}

/// The solution arose from some sampled candidate speed.
pub open spec fn is_candidate_sol(
    sol: BulletSolution, range: int, y_diff: int, max: int) -> bool {
    exists|i: int| 1 <= i <= 20 && #[trigger] cand_matches(sol, range, y_diff, max, i)
}

/// Both elevation branches of the `i`-th candidate appear in the list.
pub open spec fn covers(
    all: Seq<BulletSolution>, range: int, y_diff: int, max: int, i: int) -> bool {
    let v = cand_speed(max, i);
    &&& exists|j: int| 0 <= j < all.len() && #[trigger] solution_matches(
        all[j], range, tan_low_spec(range, y_diff, v), v)
    &&& exists|j: int| 0 <= j < all.len() && #[trigger] solution_matches(
        all[j], range, tan_high_spec(range, y_diff, v), v)
}

/// Evaluates the discriminant exactly.
fn disc_of(range: i64, y_diff: i64, v: i64) -> (d: i128)
    requires
        RANGE_MIN <= range <= RANGE_CAP,
        -Y_DIFF_CAP <= y_diff <= Y_DIFF_CAP,
        SPEED_MIN <= v <= SPEED_CAP,
    ensures
        d as int == disc_spec(range as int, y_diff as int, v as int),
{
    proof {
        lemma_square_caps(range as int, y_diff as int, v as int);
    }
    let v2: i128 = (v as i128) * (v as i128);
    let rr: i128 = (range as i128) * (range as i128);
    let yv: i128 = 2 * (y_diff as i128) * v2;
    let par: i128 = (GRAVITY_MAGNITUDE as i128) * rr + yv;
    let v4: i128 = v2 * v2;
    let d: i128 = v4 - (GRAVITY_MAGNITUDE as i128) * par;
    proof {
        assert(d as int == disc_spec(range as int, y_diff as int, v as int))
            by (nonlinear_arith)
            requires
                v2 as int == (v as int) * (v as int),
                rr as int == (range as int) * (range as int),
                yv as int == 2 * (y_diff as int) * (v2 as int),
                par as int == GRAVITY_MAGNITUDE * (rr as int) + yv as int,
                v4 as int == (v2 as int) * (v2 as int),
                d as int == v4 as int - GRAVITY_MAGNITUDE * (par as int),
                disc_spec(range as int, y_diff as int, v as int)
                    == ((v as int) * (v as int)) * ((v as int) * (v as int))
                        - GRAVITY_MAGNITUDE * (GRAVITY_MAGNITUDE * (range as int) * (range as int)
                            + 2 * (y_diff as int) * ((v as int) * (v as int)));
    }
    d
}

/// Builds both elevation branches for a reachable speed.
fn both_branches(range: i64, y_diff: i64, v: i64) -> (pair: (BulletSolution, BulletSolution))
    requires
        RANGE_MIN <= range <= RANGE_CAP,
        -Y_DIFF_CAP <= y_diff <= Y_DIFF_CAP,
        SPEED_MIN <= v <= SPEED_CAP,
        disc_spec(range as int, y_diff as int, v as int) >= 0,
    ensures
        solution_matches(pair.0, range as int,
            tan_low_spec(range as int, y_diff as int, v as int), v as int),
        solution_matches(pair.1, range as int,
            tan_high_spec(range as int, y_diff as int, v as int), v as int),
{
    let disc = disc_of(range, y_diff, v);
    let s: u128 = isqrt_u128(disc as u128);
    proof {
        let sf = sqrt_floor(disc as int);
        assert(is_isqrt(disc as int, sf)) by {
            assert(is_isqrt(disc as int, s as int));
        }
        crate::math::lemma_isqrt_unique(disc as int, s as int, sf);
        lemma_disc_shape(range as int, y_diff as int, v as int);
        lemma_root_bound(disc as int, s as int, v as int);
        lemma_tan_in_cap(range as int, v as int, s as int);
        lemma_square_caps(range as int, y_diff as int, v as int);
    }
    let v2: i128 = (v as i128) * (v as i128);
    let den: i128 = (GRAVITY_MAGNITUDE as i128) * (range as i128);
    let tan_lo: i128 = ((v2 - s as i128) * (TAN_SCALE as i128)) / den;
    let tan_hi: i128 = ((v2 + s as i128) * (TAN_SCALE as i128)) / den;
    let low = make_solution(range, tan_lo as i64, v);
    let high = make_solution(range, tan_hi as i64, v);
    (low, high)
}

/// Two solution records with the same content, the sampled arc compared
/// point for point.
pub open spec fn same_solution(a: BulletSolution, b: BulletSolution) -> bool {
    &&& a.elevation_tan == b.elevation_tan
    &&& a.flight_time == b.flight_time
    &&& a.speed == b.speed
    &&& a.power == b.power
    &&& a.trajectory@ == b.trajectory@
}

/// Ascending order by flight time.
pub open spec fn sorted_by_flight(s: Seq<BulletSolution>) -> bool {
    forall|a: int, b: int| 0 <= a < b < s.len()
        ==> #[trigger] s[a].flight_time <= #[trigger] s[b].flight_time
}

/// Reads one collected solution.
fn sol_ref(v: &Vec<BulletSolution>, i: usize) -> (el: &BulletSolution)
    requires
        i < v.len(),
    ensures
        *el == v@[i as int],
{
    &v[i]
}

/// Places a solution at its rank in a flight-time-ordered list.
#[verifier::loop_isolation(false)]
fn insert_sorted(all: &mut Vec<BulletSolution>, sol: BulletSolution)
    requires
        sorted_by_flight(old(all)@),
    ensures
        sorted_by_flight(final(all)@),
        exists|k: int| 0 <= k <= old(all)@.len()
            && final(all)@ == #[trigger] old(all)@.insert(k, sol),
{
    let mut pos: usize = 0;
    while pos < all.len() && sol_ref(all, pos).flight_time <= sol.flight_time
        invariant
            pos <= all@.len(),
            forall|m: int| 0 <= m < pos ==> #[trigger] all@[m].flight_time
                <= sol.flight_time,
        decreases all@.len() - pos,
    {
        pos = pos + 1;
    }
    let ghost before = all@;
    let ghost p = pos as int;
    all.insert(pos, sol);
    proof {
        before.insert_ensures(p, sol);
        assert forall|a: int, b: int| 0 <= a < b < all@.len()
            implies #[trigger] all@[a].flight_time
                <= #[trigger] all@[b].flight_time by {
            let fa = if a < p { before[a] } else if a == p { sol } else { before[a - 1] };
            let fb = if b < p { before[b] } else if b == p { sol } else { before[b - 1] };
            assert(all@[a] == fa);
            assert(all@[b] == fb);
        }
        assert(all@ == before.insert(p, sol));
    }
}

/// Every solution of a list stays a sampled candidate after placing one
/// more sampled candidate into it.
proof fn lemma_sound_insert(
    s: Seq<BulletSolution>, k: int, x: BulletSolution, range: int, y_diff: int, max: int)
    requires
        0 <= k <= s.len(),
        forall|j: int| 0 <= j < s.len() ==> is_candidate_sol(
            #[trigger] s[j], range, y_diff, max),
        is_candidate_sol(x, range, y_diff, max),
    ensures
        forall|j: int| 0 <= j < s.insert(k, x).len() ==> is_candidate_sol(
            #[trigger] s.insert(k, x)[j], range, y_diff, max),
{
    s.insert_ensures(k, x);
    assert forall|j: int| 0 <= j < s.insert(k, x).len()
        implies is_candidate_sol(#[trigger] s.insert(k, x)[j], range, y_diff, max) by {
        if j < k {
            assert(s.insert(k, x)[j] == s[j]);
        } else if j == k {
            assert(s.insert(k, x)[j] == x);
        } else {
            assert(s.insert(k, x)[j] == s[j - 1]);
        }
    }
}

/// Retained candidate coverage survives placing one more solution.
proof fn lemma_covers_insert(
    s: Seq<BulletSolution>, k: int, x: BulletSolution,
    range: int, y_diff: int, max: int, ii: int)
    requires
        0 <= k <= s.len(),
        covers(s, range, y_diff, max, ii),
    ensures
        covers(s.insert(k, x), range, y_diff, max, ii),
{
    s.insert_ensures(k, x);
    let v = cand_speed(max, ii);
    let j1 = choose|j: int| 0 <= j < s.len() && #[trigger] solution_matches(
        s[j], range, tan_low_spec(range, y_diff, v), v);
    let j1n = if j1 < k { j1 } else { j1 + 1 };
    assert(s.insert(k, x)[j1n] == s[j1]);
    assert(solution_matches(s.insert(k, x)[j1n], range, tan_low_spec(range, y_diff, v), v));
    let j2 = choose|j: int| 0 <= j < s.len() && #[trigger] solution_matches(
        s[j], range, tan_high_spec(range, y_diff, v), v);
    let j2n = if j2 < k { j2 } else { j2 + 1 };
    assert(s.insert(k, x)[j2n] == s[j2]);
    assert(solution_matches(s.insert(k, x)[j2n], range, tan_high_spec(range, y_diff, v), v));
}

/// An exact copy of a solution record.
fn clone_solution(sol: &BulletSolution) -> (r: BulletSolution)
    ensures
        same_solution(r, *sol),
{
    let mut trajectory: Vec<(i64, i128)> = Vec::new();
    let mut i: usize = 0;
    while i < sol.trajectory.len()
        invariant
            i <= sol.trajectory.len(),
            trajectory@ == sol.trajectory@.take(i as int),
        decreases sol.trajectory.len() - i,
    {
        trajectory.push(sol.trajectory[i]);
        i = i + 1;
    }
    let r = BulletSolution {
        elevation_tan: sol.elevation_tan,
        flight_time: sol.flight_time,
        speed: sol.speed,
        power: sol.power,
        trajectory,
    };
    proof {
        assert(r.trajectory@ =~= sol.trajectory@);
    }
    r
}

/// The speed-search variant: when only a maximum speed (adjustable tank
/// power) is known, samples twenty candidate speeds up to the maximum,
/// collects both elevation branches of every speed that can reach the
/// target, sorted ascending by flight time, and picks the first of them:
/// the hit with the shortest flight time.
///
/// A nonpositive or sub-unit range is rejected. When even the maximum
/// speed cannot reach the target the result carries only the flagged
/// 45-degree fallback arc.
#[verifier::rlimit(100)]
#[verifier::spinoff_prover]
pub fn compute_ballistic_solution_max_speed(range: i64, y_diff: i64, max_speed: i64)
    -> (r: Result<SpeedSearchSolutions, BallisticsError>)
    requires
        range <= RANGE_CAP,
        -Y_DIFF_CAP <= y_diff <= Y_DIFF_CAP,
        MAX_SPEED_MIN <= max_speed <= SPEED_CAP,
    ensures
        range < RANGE_MIN <==> r is Err,
        r is Err ==> r->Err_0 == BallisticsError::RangeTooShort,
        r matches Ok(sols)
            ==> (disc_spec(range as int, y_diff as int, max_speed as int) < 0 ==> {
                &&& sols.chosen_sol is None
                &&& sols.all_sol@.len() == 0
                &&& sols.err_sol matches Some(e)
                    && solution_matches(e, range as int, TAN_SCALE as int, max_speed as int)
            }),
        r matches Ok(sols)
            ==> (disc_spec(range as int, y_diff as int, max_speed as int) >= 0 ==> {
                &&& sols.err_sol is None
                &&& sols.all_sol@.len() > 0
            }),
        r matches Ok(sols)
            ==> (disc_spec(range as int, y_diff as int, max_speed as int) >= 0
                ==> forall|j: int| 0 <= j < sols.all_sol@.len() ==> is_candidate_sol(
                    #[trigger] sols.all_sol@[j], range as int, y_diff as int, max_speed as int)),
        r matches Ok(sols)
            ==> (disc_spec(range as int, y_diff as int, max_speed as int) >= 0
                ==> forall|i: int| 1 <= i <= 20 && disc_spec(
                    range as int, y_diff as int, cand_speed(max_speed as int, i)) >= 0
                    ==> #[trigger] covers(
                        sols.all_sol@, range as int, y_diff as int, max_speed as int, i)),
        r matches Ok(sols) ==> sorted_by_flight(sols.all_sol@),
        r matches Ok(sols)
            ==> (disc_spec(range as int, y_diff as int, max_speed as int) >= 0
                ==> sols.chosen_sol is Some),
        r matches Ok(sols)
            ==> (disc_spec(range as int, y_diff as int, max_speed as int) >= 0
                ==> same_solution(sols.all_sol@[0], sols.chosen_sol->0)),
        r matches Ok(sols)
            ==> (disc_spec(range as int, y_diff as int, max_speed as int) >= 0
                ==> exists|j: int| 0 <= j < sols.all_sol@.len()
                    && same_solution(#[trigger] sols.all_sol@[j], sols.chosen_sol->0)),
        r matches Ok(sols)
            ==> (disc_spec(range as int, y_diff as int, max_speed as int) >= 0
                ==> forall|j: int| 0 <= j < sols.all_sol@.len()
                    ==> sols.chosen_sol->0.flight_time
                        <= #[trigger] sols.all_sol@[j].flight_time),
{
    if range < RANGE_MIN {
        return Err(BallisticsError::RangeTooShort);
    }
    let dmax = disc_of(range, y_diff, max_speed);
    if dmax < 0 {
        let err = make_solution(range, TAN_SCALE, max_speed);
        return Ok(SpeedSearchSolutions {
            chosen_sol: None,
            all_sol: Vec::new(),
            err_sol: Some(err),
        });
    }
    let mut all: Vec<BulletSolution> = Vec::new();
    let mut i: usize = 1;
    while i <= 20
        invariant
            1 <= i <= 21,
            RANGE_MIN <= range <= RANGE_CAP,
            -Y_DIFF_CAP <= y_diff <= Y_DIFF_CAP,
            MAX_SPEED_MIN <= max_speed <= SPEED_CAP,
            forall|j: int| 0 <= j < all@.len() ==> is_candidate_sol(
                #[trigger] all@[j], range as int, y_diff as int, max_speed as int),
            forall|ii: int| 1 <= ii < i && disc_spec(
                range as int, y_diff as int, cand_speed(max_speed as int, ii)) >= 0
                ==> #[trigger] covers(all@, range as int, y_diff as int, max_speed as int, ii),
            sorted_by_flight(all@),
        decreases 21 - i,
    {
        proof {
            crate::math::lemma_coord_product_bound(max_speed as int, i as int);
            assert(SPEED_MIN <= cand_speed(max_speed as int, i as int) <= SPEED_CAP)
                by (nonlinear_arith)
                requires MAX_SPEED_MIN <= max_speed <= SPEED_CAP && 1 <= i <= 20;
        }
        let vi: i64 = max_speed * (i as i64) / 20;
        let di = disc_of(range, y_diff, vi);
        if di >= 0 {
            let ghost all0 = all@;
            let (low, high) = both_branches(range, y_diff, vi);
            let ghost low_g = low;
            let ghost high_g = high;
            proof {
                let r_i = range as int;
                let y_i = y_diff as int;
                let m_i = max_speed as int;
                assert(vi as int == cand_speed(m_i, i as int));
                assert(cand_matches(low_g, r_i, y_i, m_i, i as int));
                assert(cand_matches(high_g, r_i, y_i, m_i, i as int));
                assert(is_candidate_sol(low_g, r_i, y_i, m_i));
                assert(is_candidate_sol(high_g, r_i, y_i, m_i));
            }
            insert_sorted(&mut all, low);
            let ghost mid = all@;
            proof {
                let r_i = range as int;
                let y_i = y_diff as int;
                let m_i = max_speed as int;
                let k1 = choose|k: int| 0 <= k <= all0.len()
                    && mid == #[trigger] all0.insert(k, low_g);
                lemma_sound_insert(all0, k1, low_g, r_i, y_i, m_i);
                assert forall|ii: int| 1 <= ii < i && disc_spec(
                    r_i, y_i, cand_speed(m_i, ii)) >= 0
                    implies #[trigger] covers(mid, r_i, y_i, m_i, ii) by {
                    lemma_covers_insert(all0, k1, low_g, r_i, y_i, m_i, ii);
                }
            }
            insert_sorted(&mut all, high);
            proof {
                let r_i = range as int;
                let y_i = y_diff as int;
                let m_i = max_speed as int;
                let k1 = choose|k: int| 0 <= k <= all0.len()
                    && mid == #[trigger] all0.insert(k, low_g);
                let k2 = choose|k: int| 0 <= k <= mid.len()
                    && all@ == #[trigger] mid.insert(k, high_g);
                lemma_sound_insert(mid, k2, high_g, r_i, y_i, m_i);
                assert forall|ii: int| 1 <= ii < i && disc_spec(
                    r_i, y_i, cand_speed(m_i, ii)) >= 0
                    implies #[trigger] covers(all@, r_i, y_i, m_i, ii) by {
                    lemma_covers_insert(mid, k2, high_g, r_i, y_i, m_i, ii);
                }
                all0.insert_ensures(k1, low_g);
                mid.insert_ensures(k2, high_g);
                assert(mid[k1] == low_g);
                let lp = if k2 <= k1 { k1 + 1 } else { k1 };
                assert(all@[lp] == low_g);
                assert(all@[k2] == high_g);
                let v = cand_speed(m_i, i as int);
                assert(solution_matches(all@[lp], r_i, tan_low_spec(r_i, y_i, v), v));
                assert(solution_matches(all@[k2], r_i, tan_high_spec(r_i, y_i, v), v));
                assert(covers(all@, r_i, y_i, m_i, i as int));
            }
        }
        i = i + 1;
    }
    proof {
        assert(cand_speed(max_speed as int, 20) == max_speed) by (nonlinear_arith)
            requires MAX_SPEED_MIN <= max_speed <= SPEED_CAP;
        assert(covers(all@, range as int, y_diff as int, max_speed as int, 20));
        assert(all@.len() > 0);
    }
    let chosen = clone_solution(sol_ref(&all, 0));
    let result = SpeedSearchSolutions { chosen_sol: Some(chosen), all_sol: all, err_sol: None };
    proof {
        let r_i = range as int;
        let y_i = y_diff as int;
        let m_i = max_speed as int;
        assert(result.all_sol@.len() > 0);
        assert(forall|j: int| 0 <= j < result.all_sol@.len() ==> is_candidate_sol(
            #[trigger] result.all_sol@[j], r_i, y_i, m_i));
        assert(forall|ii: int| 1 <= ii <= 20 && disc_spec(r_i, y_i, cand_speed(m_i, ii)) >= 0
            ==> #[trigger] covers(result.all_sol@, r_i, y_i, m_i, ii));
        assert(same_solution(result.all_sol@[0], result.chosen_sol->0));
        assert(exists|j: int| 0 <= j < result.all_sol@.len()
            && same_solution(#[trigger] result.all_sol@[j], result.chosen_sol->0));
        assert forall|j: int| 0 <= j < result.all_sol@.len()
            implies result.chosen_sol->0.flight_time
                <= #[trigger] result.all_sol@[j].flight_time by {
            if j > 0 {
                assert(result.all_sol@[0].flight_time <= result.all_sol@[j].flight_time);
            }
        }
    }
    Ok(result)
}



/// Every nonnegative value has an integer square root.
pub proof fn lemma_isqrt_exists(x: int)
    requires
        0 <= x,
    ensures
        is_isqrt(x, sqrt_floor(x)),
    decreases x,
{
    if x == 0 {
        assert(is_isqrt(0, 0)) by (nonlinear_arith);
    } else {
        lemma_isqrt_exists(x - 1);
        let r = sqrt_floor(x - 1);
        if (r + 1) * (r + 1) <= x {
            assert(is_isqrt(x, r + 1)) by (nonlinear_arith)
                requires is_isqrt(x - 1, r) && (r + 1) * (r + 1) <= x;
        } else {
            assert(is_isqrt(x, r)) by (nonlinear_arith)
                requires is_isqrt(x - 1, r) && (r + 1) * (r + 1) > x;
        }
    }
    assert(exists|r: int| is_isqrt(x, r));
}

/// A fragment of the speed-search monotonicity: at any fixed elevation,
/// firing faster never lengthens the computed flight time to the range.
pub proof fn lemma_flight_time_speed_monotone(range: int, tan: int, v1: int, v2: int)
    requires
        0 <= range,
        1 <= v1 <= v2,
    ensures
        flight_time_spec(range, tan, v2) <= flight_time_spec(range, tan, v1),
{
    let s2 = TAN_SCALE * TAN_SCALE + tan * tan;
    assert(0 <= tan * tan) by (nonlinear_arith);
    lemma_isqrt_exists(s2);
    let sf = sqrt_floor(s2);
    assert(0 <= range * sf * 1000) by (nonlinear_arith)
        requires 0 <= range && 0 <= sf;
    assert(1 <= v1 * (TAN_SCALE as int) <= v2 * (TAN_SCALE as int)) by (nonlinear_arith)
        requires 1 <= v1 <= v2;
    vstd::arithmetic::div_mod::lemma_div_is_ordered_by_denominator(
        range * sf * 1000, v1 * (TAN_SCALE as int), v2 * (TAN_SCALE as int));
}


} // verus!
