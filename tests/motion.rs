use flappy::player::{GRAVITY, JUMP_VELOCITY};
use flappy::{Player, Position};

fn player_at(y: i64, velocity: i64) -> Player {
    Player { pos: Position { x: 1000, y }, velocity }
}

#[test]
fn falling_player_gains_gravity_then_moves() {
    let mut p = player_at(2000, 0);
    p.advance(false);
    assert_eq!(p.velocity, 8);
    assert_eq!(p.pos.y, 2008);
    assert_eq!(p.pos.x, 1000);
}

#[test]
fn jump_resets_velocity_whatever_it_was() {
    let mut p = player_at(2000, 50);
    p.advance(true);
    assert_eq!(p.velocity, -100);
    assert_eq!(p.pos.y, 1900);
}

#[test]
fn gravity_accumulates_over_frames() {
    let mut p = player_at(2000, 0);
    p.advance(false);
    p.advance(false);
    p.advance(false);
    assert_eq!(p.velocity, 3 * GRAVITY);
    assert_eq!(p.pos.y, 2000 + 8 + 16 + 24);
}

#[test]
fn jump_from_fast_fall_and_from_rise() {
    let mut p = player_at(5000, 4000);
    p.advance(true);
    assert_eq!(p.velocity, JUMP_VELOCITY);
    assert_eq!(p.pos.y, 4900);
    let mut q = player_at(3000, -100);
    q.advance(true);
    assert_eq!(q.velocity, -100);
    assert_eq!(q.pos.y, 2900);
}

#[test]
fn upward_velocity_slows_under_gravity() {
    let mut p = player_at(3000, -100);
    p.advance(false);
    assert_eq!(p.velocity, -92);
    assert_eq!(p.pos.y, 2908);
}
