use market_and_mastery::behaviour::build_behaviour::{BuildBehaviour, FRACTION_ONE};
use market_and_mastery::behaviour::move_behaviour::Result;

#[test]
fn construction_rises_to_whole() {
    let mut t = BuildBehaviour::new(1000);
    assert_eq!(t.build(250), (250_000, Result::Running));
    assert_eq!(t.build(500), (750_000, Result::Running));
    assert_eq!(t.build(500), (FRACTION_ONE, Result::Success));
}

#[test]
fn construction_completes_exactly_at_duration() {
    let mut t = BuildBehaviour::new(3);
    assert_eq!(t.build(2), (666_666, Result::Running));
    assert_eq!(t.build(1), (FRACTION_ONE, Result::Success));
}

#[test]
fn deconstruction_falls_to_zero() {
    let mut t = BuildBehaviour::new(1000);
    t.start_unbuilding();
    assert!(!t.is_construction());
    assert_eq!(t.build(400), (600_000, Result::Running));
    assert_eq!(t.build(600), (0, Result::Success));
}

#[test]
fn fractions_are_monotone() {
    let mut t = BuildBehaviour::new(997);
    let mut last = 0;
    for d in [0u64, 13, 0, 400, 1, 999] {
        let (f, _) = t.build(d);
        assert!(f >= last);
        last = f;
    }
    t.start_unbuilding();
    let mut last = FRACTION_ONE;
    for d in [0u64, 5, 300, 0, 1000] {
        let (f, _) = t.build(d);
        assert!(f <= last);
        last = f;
    }
}

#[test]
fn restart_building_clears_progress() {
    let mut t = BuildBehaviour::new(10);
    t.build(7);
    t.start_building();
    assert_eq!(t.build(1), (100_000, Result::Running));
}
