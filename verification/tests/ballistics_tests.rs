use tank_terrain::bullet_physics::{
    choose_elevation, compute_ballistic_solution, compute_ballistic_solution_max_speed,
    BallisticsError, TAN_SCALE, TRAJECTORY_POINTS,
};

// One world unit is 1000 fixed-point steps; tangents are in millionths.
const U: i64 = 1000;
const G: f64 = 9.81;

fn tan_of(elevation_tan: i64) -> f64 {
    elevation_tan as f64 / TAN_SCALE as f64
}

#[test]
fn closed_form_solution_at_hundred_units() {
    // range = 100, height_diff = 0, speed = 50, g = 9.81.
    let sols = compute_ballistic_solution(100 * U, 0, 50 * U).unwrap();
    let low = sols.low_sol.expect("reachable target must have a flat solution");
    let high = sols.high_sol.expect("reachable target must have an arched solution");
    assert!(sols.err_sol.is_none());

    let v2 = 50.0f64 * 50.0;
    let sub_radical = v2 * v2 - G * (G * 100.0 * 100.0);
    let expected_low = ((v2 - sub_radical.sqrt()) / (G * 100.0)).atan();
    let expected_high = ((v2 + sub_radical.sqrt()) / (G * 100.0)).atan();

    assert!((tan_of(low.elevation_tan).atan() - expected_low).abs() < 1e-3);
    assert!((tan_of(high.elevation_tan).atan() - expected_high).abs() < 1e-3);

    // The sampled arc ends exactly at the range and lands near the target
    // height.
    assert_eq!(low.trajectory.len(), TRAJECTORY_POINTS);
    let last = low.trajectory[TRAJECTORY_POINTS - 1];
    assert_eq!(last.0, 100 * U);
    assert!(last.1.abs() < U as i128);

    // Flight time close to range / (v * cos(elevation)), in milliseconds.
    let expected_ft = 100.0 / (50.0 * expected_low.cos()) * 1000.0;
    assert!((low.flight_time as f64 - expected_ft).abs() < 20.0);
}

#[test]
fn ballistic_round_trip_lands_on_target() {
    // An uphill shot; simulating the returned flat solution under the same
    // constant-gravity kinematics lands on the target.
    let range = 150 * U;
    let y_diff = 20 * U;
    let speed = 60 * U;
    let sols = compute_ballistic_solution(range, y_diff, speed).unwrap();
    let low = sols.low_sol.unwrap();

    let tan = tan_of(low.elevation_tan);
    let r = range as f64 / U as f64;
    let v = speed as f64 / U as f64;
    let y_sim = r * tan - G * r * r * (1.0 + tan * tan) / (2.0 * v * v);
    assert!((y_sim - 20.0).abs() < 0.1);

    // The stored arc agrees with the simulation at the end point.
    let last = low.trajectory[TRAJECTORY_POINTS - 1];
    assert_eq!(last.0, range);
    let y_fixed = last.1 as f64 / U as f64;
    assert!((y_fixed - 20.0).abs() < 0.1);
}

#[test]
fn unreachable_target_flags_the_fallback() {
    // speed far too small for the range: discriminant negative.
    let sols = compute_ballistic_solution(10_000 * U, 0, 1 * U).unwrap();
    assert!(sols.low_sol.is_none());
    assert!(sols.high_sol.is_none());
    let err = sols.err_sol.expect("unreachable target carries the fallback");
    // The fallback is a 45-degree arc: tangent exactly one.
    assert_eq!(err.elevation_tan, TAN_SCALE);
    assert_eq!(err.speed, 1 * U);
    assert_eq!(err.trajectory.len(), TRAJECTORY_POINTS);
}

#[test]
fn nonpositive_range_is_rejected() {
    assert_eq!(
        compute_ballistic_solution(0, 0, 50 * U).unwrap_err(),
        BallisticsError::RangeTooShort,
    );
    assert_eq!(
        compute_ballistic_solution(-5 * U, 0, 50 * U).unwrap_err(),
        BallisticsError::RangeTooShort,
    );
    // Sub-unit ranges fall under the same rejection.
    assert_eq!(
        compute_ballistic_solution(500, 0, 50 * U).unwrap_err(),
        BallisticsError::RangeTooShort,
    );
    assert_eq!(
        compute_ballistic_solution_max_speed(0, 0, 100 * U).unwrap_err(),
        BallisticsError::RangeTooShort,
    );
}

#[test]
fn speed_search_collects_and_ranks_candidates() {
    let sols = compute_ballistic_solution_max_speed(300 * U, 0, 100 * U).unwrap();
    assert!(sols.err_sol.is_none());
    let chosen = sols.chosen_sol.expect("reachable search picks a solution");
    assert!(!sols.all_sol.is_empty());
    // Both branches of every reachable sampled speed are collected.
    assert_eq!(sols.all_sol.len() % 2, 0);
    // The list is sorted ascending by flight time, for debug overlays.
    for w in sols.all_sol.windows(2) {
        assert!(w[0].flight_time <= w[1].flight_time);
    }
    // The chosen solution is the head of the list: the fastest hit.
    assert_eq!(chosen.flight_time, sols.all_sol[0].flight_time);
    for s in &sols.all_sol {
        assert!(chosen.flight_time <= s.flight_time);
    }
}

#[test]
fn more_speed_never_slows_the_chosen_hit() {
    // The speed-search monotonicity: a larger speed budget yields a chosen
    // flight time at most the smaller budget's.
    let a = compute_ballistic_solution_max_speed(300 * U, 0, 100 * U).unwrap();
    let b = compute_ballistic_solution_max_speed(300 * U, 0, 200 * U).unwrap();
    let ta = a.chosen_sol.unwrap().flight_time;
    let tb = b.chosen_sol.unwrap().flight_time;
    assert!(tb <= ta);

    let c = compute_ballistic_solution_max_speed(500 * U, -30 * U, 120 * U).unwrap();
    let d = compute_ballistic_solution_max_speed(500 * U, -30 * U, 240 * U).unwrap();
    let tc = c.chosen_sol.unwrap().flight_time;
    let td = d.chosen_sol.unwrap().flight_time;
    assert!(td <= tc);
}

#[test]
fn speed_search_flags_unreachable_target() {
    let sols = compute_ballistic_solution_max_speed(10_000 * U, 0, 20 * U).unwrap();
    assert!(sols.chosen_sol.is_none());
    assert!(sols.all_sol.is_empty());
    let err = sols.err_sol.unwrap();
    assert_eq!(err.elevation_tan, TAN_SCALE);
}

#[test]
fn elevation_choice_prefers_the_flat_arc() {
    let reachable = compute_ballistic_solution(100 * U, 0, 50 * U).unwrap();
    let low_tan = reachable.low_sol.as_ref().unwrap().elevation_tan;
    assert_eq!(choose_elevation(&reachable), low_tan);

    let unreachable = compute_ballistic_solution(10_000 * U, 0, 1 * U).unwrap();
    assert_eq!(choose_elevation(&unreachable), TAN_SCALE);
}

#[test]
fn power_inverts_the_speed_ratio() {
    // speed 280 units/s corresponds to full power 1000.
    let sols = compute_ballistic_solution(100 * U, 0, 280 * U).unwrap();
    let low = sols.low_sol.unwrap();
    assert_eq!(low.power, 1_000_000);
    assert_eq!(low.speed, 280 * U);
}
