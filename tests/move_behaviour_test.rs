use market_and_mastery::behaviour::move_behaviour::{MoveBehaviour, MoveBehaviourConfig, Result};
use market_and_mastery::geometry::Point;

const PX: i64 = 1_000_000;
const SECOND: u64 = 1_000_000;

fn config() -> MoveBehaviourConfig {
    MoveBehaviourConfig { speed: 100, max_step_height: 20 * PX, step_period: SECOND / 10 }
}

#[test]
fn test_move_agent_success() {
    let mut behaviour = MoveBehaviour::new(config());
    let current_pos = Point::new(0, 0);
    let target_pos = Point::new(10 * PX, 0);

    behaviour.start_moving(current_pos, target_pos);
    let (result, position) = behaviour.move_agent(SECOND / 5);

    assert_eq!(result, Result::Success);
    assert_eq!(position.position, target_pos);
}

#[test]
fn test_move_agent_running() {
    let mut behaviour = MoveBehaviour::new(config());
    let current_pos = Point::new(0, 0);
    let target_pos = Point::new(100 * PX, 0);

    behaviour.start_moving(current_pos, target_pos);
    let (result, position) = behaviour.move_agent(SECOND / 10);

    assert_eq!(result, Result::Running);
    assert_eq!(position.position.x, 10 * PX);
    assert_eq!(position.position.y, 0);
}

#[test]
fn snap_reports_target_without_bob() {
    let mut behaviour = MoveBehaviour::new(config());
    behaviour.start_moving(Point::new(0, 0), Point::new(3, 4));
    let (result, waypoint) = behaviour.move_agent(1);
    assert_eq!(result, Result::Success);
    assert_eq!(waypoint.position, Point::new(3, 4));
    assert_eq!(waypoint.bob_time, None);
}

#[test]
fn exactly_one_step_away_keeps_running() {
    // distance 5, step 5: not nearer than one step
    let mut behaviour = MoveBehaviour::new(MoveBehaviourConfig { speed: 5, max_step_height: 0, step_period: 1 });
    behaviour.start_moving(Point::new(0, 0), Point::new(3, 4));
    let (result, waypoint) = behaviour.move_agent(1);
    assert_eq!(result, Result::Running);
    assert_eq!(waypoint.position, Point::new(3, 4));
    let (result, waypoint) = behaviour.move_agent(1);
    assert_eq!(result, Result::Success);
    assert_eq!(waypoint.position, Point::new(3, 4));
}

#[test]
fn diagonal_steps_follow_the_bearing() {
    // path of length 50 along (30, 40); steps of 10
    let mut behaviour = MoveBehaviour::new(MoveBehaviourConfig { speed: 10, max_step_height: 0, step_period: 1 });
    behaviour.start_moving(Point::new(0, 0), Point::new(30, 40));
    let (r1, w1) = behaviour.move_agent(1);
    assert_eq!(r1, Result::Running);
    assert_eq!(w1.position, Point::new(6, 8));
    assert_eq!(w1.bob_time, Some(0));
    let (r2, w2) = behaviour.move_agent(2);
    assert_eq!(r2, Result::Running);
    assert_eq!(w2.position, Point::new(18, 24));
    assert_eq!(w2.bob_time, Some(1));
    let (r3, w3) = behaviour.move_agent(3);
    assert_eq!(r3, Result::Success);
    assert_eq!(w3.position, Point::new(30, 40));
}

#[test]
fn walking_backwards_rounds_toward_start() {
    let mut behaviour = MoveBehaviour::new(MoveBehaviourConfig { speed: 1, max_step_height: 0, step_period: 1 });
    behaviour.start_moving(Point::new(0, 0), Point::new(-10, -3));
    let (r, w) = behaviour.move_agent(5);
    assert_eq!(r, Result::Running);
    // isqrt(109) = 10: offsets -10*5/10 = -5 and -(3*5/10) = -1
    assert_eq!(w.position, Point::new(-5, -1));
}

#[test]
fn restart_resets_moving_time() {
    let mut behaviour = MoveBehaviour::new(MoveBehaviourConfig { speed: 1, max_step_height: 0, step_period: 1 });
    behaviour.start_moving(Point::new(0, 0), Point::new(100, 0));
    behaviour.move_agent(5);
    let (_, w) = behaviour.move_agent(5);
    assert_eq!(w.bob_time, Some(5));
    behaviour.start_moving(Point::new(0, 0), Point::new(100, 0));
    let (_, w) = behaviour.move_agent(5);
    assert_eq!(w.bob_time, Some(0));
    assert_eq!(w.position, Point::new(5, 0));
}
