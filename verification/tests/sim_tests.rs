use std::collections::VecDeque;

use flappy::columns::create_columns;
use flappy::entity::Entity;
use flappy::geom::POS_SCALE;
use flappy::input::InputEvent;
use flappy::sim::SimulationState;

#[test]
fn new_state_has_player_and_one_batch() {
    let s = SimulationState::new();
    let p = s.player.expect("a new round starts with a player");
    assert_eq!(p.x, 200 * POS_SCALE);
    assert_eq!(p.y, 10 * POS_SCALE);
    assert_eq!(p.x_vel, 0);
    assert_eq!(p.y_vel, 0);
    assert_eq!(p.rect.w, 50);
    assert_eq!(p.rect.h, 50);
    assert_eq!(s.columns.len(), 12);
}

#[test]
fn advance_steps_player_exactly() {
    let mut s = SimulationState::new();
    s.advance(100);
    let p = s.player.expect("still flying after 100 ms");
    // Gravity: 9.81 * 0.1 s in micro-units/s, below the clamp.
    assert_eq!(p.y_vel, 981_000);
    // y += vy * dt * 180 exactly.
    assert_eq!(p.y, 10 * POS_SCALE + 981_000 * 100 * 180);
    assert_eq!(p.x, 200 * POS_SCALE);
}

#[test]
fn columns_never_starve() {
    let mut s = SimulationState::new();
    for _ in 0..300 {
        s.advance(16);
        assert!(s.columns.len() >= 5);
    }
}

#[test]
fn columns_never_starve_while_flying() {
    // Jumping every 300 ms outweighs the gravity gained per step, so the
    // player climbs slowly and the round never ends; the columns keep
    // scrolling and fresh batches must appear before the sequence runs
    // dry.
    let mut s = SimulationState::new();
    let mut grew = false;
    for _ in 0..60 {
        s.process_event(InputEvent::KeySpace);
        s.advance(300);
        assert!(s.columns.len() >= 5);
        if s.columns.len() > 12 {
            grew = true;
        }
    }
    assert!(s.player.is_some(), "a player that keeps jumping flies on");
    assert!(grew, "fresh batches must be appended before the sequence runs dry");
}

fn batch_far_right() -> VecDeque<Entity> {
    // Twelve columns shaped like a fresh batch, all far off the right
    // screen edge.
    let mut cols: VecDeque<Entity> = VecDeque::new();
    for k in 0..6i64 {
        let x = (1630 + 300 * k) * POS_SCALE;
        let lower = Entity::new(x, (720 - 110) * POS_SCALE, 100, 220, -1_700_000, 0, false);
        let upper = Entity::new(x, 150 * POS_SCALE, 100, 300, -1_700_000, 0, false);
        cols.push_back(lower);
        cols.push_back(upper);
    }
    cols
}

#[test]
fn game_over_on_collision() {
    // An upper column sits right on the player's spawn point; one frame
    // ends the round.
    let mut cols = batch_far_right();
    cols[1] = Entity::new(200 * POS_SCALE, 0, 100, 419, -1_700_000, 0, false);
    cols[0] = Entity::new(200 * POS_SCALE, 700 * POS_SCALE, 100, 101, -1_700_000, 0, false);
    let mut s = SimulationState {
        player: Some(Entity::new(200 * POS_SCALE, 10 * POS_SCALE, 50, 50, 0, 0, true)),
        columns: cols,
    };
    assert!(s.player.is_some());
    s.advance(0);
    assert!(s.player.is_none(), "overlapping a leading column ends the round");
    assert_eq!(s.columns.len(), 12);
}

#[test]
fn no_game_over_without_overlap() {
    let mut s = SimulationState {
        player: Some(Entity::new(200 * POS_SCALE, 10 * POS_SCALE, 50, 50, 0, 0, true)),
        columns: batch_far_right(),
    };
    s.advance(0);
    assert!(s.player.is_some(), "columns far to the right cannot collide");
}

#[test]
fn game_over_on_fall_through() {
    // The player's rectangle top edge below the screen bottom ends the
    // round.
    let mut s = SimulationState {
        player: Some(Entity::new(200 * POS_SCALE, 800 * POS_SCALE, 50, 50, 0, 0, true)),
        columns: batch_far_right(),
    };
    s.advance(0);
    assert!(s.player.is_none());
}

#[test]
fn touching_edges_do_not_collide() {
    // A column whose right edge exactly meets the player's left edge:
    // shared edges are no intersection.
    let mut cols = batch_far_right();
    // Player spans x in [175, 225); a width-100 column centred at 125
    // spans [75, 175).
    cols[1] = Entity::new(125 * POS_SCALE, 0, 100, 419, -1_700_000, 0, false);
    let mut s = SimulationState {
        player: Some(Entity::new(200 * POS_SCALE, 10 * POS_SCALE, 50, 50, 0, 0, true)),
        columns: cols,
    };
    s.advance(0);
    assert!(s.player.is_some());
}

#[test]
fn game_over_freezes_columns() {
    let mut s = SimulationState { player: None, columns: batch_far_right() };
    // The first frame after the round ends still moves the columns once,
    // then freezes them.
    s.advance(100);
    for c in s.columns.iter() {
        assert_eq!(c.x_vel, 0);
        assert_eq!(c.y_vel, 0);
    }
    let snapshot: Vec<i64> = s.columns.iter().map(|c| c.x).collect();
    s.advance(500);
    let after: Vec<i64> = s.columns.iter().map(|c| c.x).collect();
    assert_eq!(snapshot, after, "a frozen scene no longer scrolls");
}

#[test]
fn restart_resets_world() {
    let mut s = SimulationState { player: None, columns: batch_far_right() };
    let quit = s.process_event(InputEvent::KeySpace);
    assert!(!quit);
    let p = s.player.expect("restart recreates the player");
    assert_eq!(p.x, 200 * POS_SCALE);
    assert_eq!(p.y, 10 * POS_SCALE);
    assert_eq!(p.x_vel, 0);
    assert_eq!(p.y_vel, 0);
    assert_eq!(s.columns.len(), 12);
}

#[test]
fn restart_method_replaces_columns() {
    let mut s = SimulationState { player: None, columns: VecDeque::new() };
    s.restart();
    assert!(s.player.is_some());
    assert_eq!(s.columns.len(), 12);
}

#[test]
fn space_jumps_while_playing() {
    let mut s = SimulationState::new();
    s.advance(200);
    let before: Vec<i64> = s.columns.iter().map(|c| c.x).collect();
    let quit = s.process_event(InputEvent::KeySpace);
    assert!(!quit);
    assert_eq!(s.player.unwrap().y_vel, -3_000_000);
    let after: Vec<i64> = s.columns.iter().map(|c| c.x).collect();
    assert_eq!(before, after, "a jump does not touch the columns");
}

#[test]
fn escape_quits_and_leaves_state_alone() {
    let mut s = SimulationState::new();
    let p = s.player.unwrap();
    let quit = s.process_event(InputEvent::KeyEscape);
    assert!(quit);
    assert_eq!(s.player.unwrap(), p);
    assert_eq!(s.columns.len(), 12);
}

#[test]
fn other_events_are_ignored() {
    let mut s = SimulationState::new();
    let quit = s.process_event(InputEvent::Other);
    assert!(!quit);
    assert!(s.player.is_some());
    assert_eq!(s.columns.len(), 12);

    let mut over = SimulationState { player: None, columns: batch_far_right() };
    assert!(!over.process_event(InputEvent::Other));
    assert!(over.player.is_none());
}
