use idle_backend::economy::{affordable_level, cost_at, production_at};
use idle_backend::growth::Growth;

#[test]
fn cost_of_first_levels() {
    assert_eq!(cost_at(0), Some(5));
    assert_eq!(cost_at(1), Some(6));
    assert_eq!(cost_at(2), Some(7));
    assert_eq!(cost_at(3), Some(8));
    assert_eq!(cost_at(10), Some(20));
}

#[test]
fn cost_matches_floating_point_on_low_levels() {
    for level in 0..120u32 {
        let expected = (5.0_f64 * 1.15_f64.powi(level as i32)).round();
        assert_eq!(cost_at(level).map(|c| c as f64), Some(expected), "level {level}");
    }
}

#[test]
fn production_of_first_levels() {
    assert_eq!(production_at(0), Some(1));
    assert_eq!(production_at(1), Some(2));
    assert_eq!(production_at(2), Some(3));
    assert_eq!(production_at(5), Some(7));
}

#[test]
fn growth_steps_round_on_the_exact_value() {
    let g = Growth::start(5, 115);
    assert_eq!(g.rounded(), Some(5));
    let g = g.step().unwrap();
    assert_eq!(g.rounded(), Some(6));
}

#[test]
fn affordable_level_stops_at_the_highest_level_paid_for() {
    assert_eq!(affordable_level(4, 0), None);
    assert_eq!(affordable_level(5, 0), None);
    assert_eq!(affordable_level(6, 0), Some((1, 6)));
    assert_eq!(affordable_level(12, 0), Some((1, 6)));
    assert_eq!(affordable_level(13, 0), Some((2, 13)));
    assert_eq!(affordable_level(21, 0), Some((3, 21)));
}

#[test]
fn production_matches_floating_point_on_low_levels() {
    let mut expected = 1.0_f64;
    for level in 0..150u32 {
        if level > 0 {
            expected += 1.1_f64.powi(level as i32).round();
        }
        assert_eq!(production_at(level).map(|p| p as f64), Some(expected), "level {level}");
    }
}

#[test]
fn growth_rounds_halves_away_from_zero() {
    let g = Growth::start(1, 150);
    assert_eq!(g.rounded(), Some(1));
    let g = g.step().unwrap();
    assert_eq!(g.rounded(), Some(2));
    let g = g.step().unwrap();
    assert_eq!(g.rounded(), Some(2));
    let half = Growth::start(5, 50).step().unwrap();
    assert_eq!(half.rounded(), Some(3));
    let shrinking = Growth::start(8, 50).step().unwrap().step().unwrap().step().unwrap();
    assert_eq!(shrinking.rounded(), Some(1));
    assert_eq!(shrinking.step().unwrap().rounded(), Some(1));
    assert_eq!(Growth::start(8, 0).step().unwrap().rounded(), Some(0));
}

#[test]
fn growth_stops_where_the_integer_part_leaves_the_machine_range() {
    assert!(Growth::start(u64::MAX, 100).step().is_some());
    assert!(Growth::start(u64::MAX, 101).step().is_none());
    assert_eq!(Growth::start(u64::MAX, 100).step().unwrap().rounded(), Some(u64::MAX));
    let mut g = Growth::start(5, 115);
    let mut steps = 0;
    while let Some(next) = g.step() {
        g = next;
        steps += 1;
    }
    assert!(steps > 250 && steps < 320);
}

#[test]
fn cost_limit_is_above_the_last_level_that_fits() {
    assert!(cost_at(305).is_some());
    assert_eq!(cost_at(319), None);
    assert_eq!(cost_at(320), None);
}
