use flappy::entity::Entity;
use flappy::geom::POS_SCALE;

fn player_like(x_units: i64, y_units: i64) -> Entity {
    Entity::new(x_units * POS_SCALE, y_units * POS_SCALE, 50, 50, 0, 0, true)
}

#[test]
fn gravity_clamp_never_exceeded() {
    let mut e = player_like(200, 10);
    for _ in 0..100 {
        e.update_position(250);
        assert!(e.y_vel <= 3_500_000);
    }
    assert_eq!(e.y_vel, 3_500_000);
}

#[test]
fn gravity_clamp_after_jump() {
    let mut e = player_like(200, 10);
    for step in 0..50 {
        if step % 3 == 0 {
            e.jump();
        }
        e.update_position(400);
        assert!(e.y_vel <= 3_500_000);
    }
}

#[test]
fn jump_overwrites_prior_velocity() {
    let mut e = player_like(200, 10);
    e.update_position(1000);
    assert_eq!(e.y_vel, 3_500_000);
    e.jump();
    assert_eq!(e.y_vel, -3_000_000);

    let mut f = Entity::new(0, 0, 10, 10, 5, 7_777_777, false);
    f.jump();
    assert_eq!(f.y_vel, -3_000_000);
}

#[test]
fn stop_zeroes_and_is_idempotent() {
    let mut e = Entity::new(0, 0, 10, 10, -1_700_000, 123_456, false);
    e.stop();
    assert_eq!(e.x_vel, 0);
    assert_eq!(e.y_vel, 0);
    let once = e;
    e.stop();
    assert_eq!(e.x_vel, once.x_vel);
    assert_eq!(e.y_vel, once.y_vel);
    assert_eq!(e.x, once.x);
    assert_eq!(e.y, once.y);
    assert_eq!(e.rect, once.rect);
}

#[test]
fn scenario_rest_one_second_step() {
    // At rest with gravity on, one step of a full second: the vertical
    // velocity hits the clamp and y grows by 3.5 * 1.0 * 180 = 630 units.
    let mut e = player_like(200, 10);
    e.update_position(1000);
    assert_eq!(e.y_vel, 3_500_000);
    assert_eq!(e.y, 640 * POS_SCALE);
    assert_eq!(e.rect.cy, 640);
    assert_eq!(e.x, 200 * POS_SCALE);
    assert_eq!(e.rect.cx, 200);
}

#[test]
fn rect_floors_negative_positions() {
    // -1.5 units floors to -2, as the continuous position crosses the
    // left edge.
    let e = Entity::new(-1_500_000_000, -1, 10, 10, 0, 0, false);
    assert_eq!(e.rect.cx, -2);
    assert_eq!(e.rect.cy, -1);
}

#[test]
fn drift_step_is_exact() {
    // A column-like entity: -1.7 units/s over 100 ms at 180 pixels per
    // unit moves left by exactly 30.6 units.
    let mut e = Entity::new(1000 * POS_SCALE, 300 * POS_SCALE, 100, 300, -1_700_000, 0, false);
    e.update_position(100);
    assert_eq!(e.x, 1000 * POS_SCALE - 30_600_000_000);
    assert_eq!(e.y, 300 * POS_SCALE);
    assert_eq!(e.rect.cx, 969);
}
