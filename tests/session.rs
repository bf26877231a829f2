use flappy::geometry::{bottom_box, player_box, top_box};
use flappy::{GameState, Player, Position, Rect};

fn pos(x: i64, y: i64) -> Position {
    Position { x, y }
}

fn state(player: Position, velocity: i64, pipes: Vec<Position>, last_pipe_ind: usize) -> GameState {
    GameState { player: Player { pos: player, velocity }, pipes, last_pipe_ind }
}

fn far_pipes() -> Vec<Position> {
    vec![pos(5000, 3600), pos(10500, 3600), pos(16000, 3600), pos(21500, 3600), pos(27000, 3600)]
}

#[test]
fn boxes_of_player_and_pipe() {
    assert_eq!(player_box(&pos(1000, 2000)), Rect { x: 1000, y: 2000, w: 150, h: 150 });
    assert_eq!(top_box(&pos(900, 2000)), Rect { x: 900, y: 0, w: 500, h: 1500 });
    assert_eq!(bottom_box(&pos(900, 2000)), Rect { x: 900, y: 2500, w: 500, h: 4700 });
}

#[test]
fn rectangles_overlap_only_with_common_interior() {
    let base = Rect { x: 20, y: 20, w: 40, h: 40 };
    assert!(base.intersects(&base));
    assert!(base.intersects(&Rect { x: 25, y: 25, w: 20, h: 20 }));
    assert!(base.intersects(&Rect { x: 30, y: 30, w: 40, h: 40 }));
    assert!(!base.intersects(&Rect { x: 200, y: 200, w: 40, h: 40 }));
    assert!(!base.intersects(&Rect { x: 60, y: 20, w: 40, h: 40 }));
    assert!(!base.intersects(&Rect { x: 20, y: 60, w: 40, h: 40 }));
}

#[test]
fn player_inside_gap_beside_top_box_goes_on() {
    // Player box [100,200]-[115,215]; the pipe's top box spans x 90..140, y 0..150.
    let pb = player_box(&pos(1000, 2000));
    let top = top_box(&pos(900, 2000));
    assert_eq!(top, Rect { x: 900, y: 0, w: 500, h: 1500 });
    assert!(!pb.intersects(&top));
    let mut pipes = far_pipes();
    pipes[0] = pos(900, 2000);
    assert!(!state(pos(1000, 2000), 0, pipes, 4).is_over());
}

#[test]
fn player_in_top_box_ends_game() {
    let mut pipes = far_pipes();
    pipes[0] = pos(900, 2000);
    assert!(state(pos(1000, 1000), 0, pipes, 4).is_over());
}

#[test]
fn player_in_bottom_box_ends_game() {
    let mut pipes = far_pipes();
    pipes[2] = pos(900, 2000);
    assert!(state(pos(1000, 2400), 0, pipes, 4).is_over());
}

#[test]
fn player_touching_pipe_edge_goes_on() {
    let mut pipes = far_pipes();
    pipes[0] = pos(1150, 2000);
    assert!(!state(pos(1000, 1000), 0, pipes, 4).is_over());
}

#[test]
fn leaving_the_field_ends_game() {
    assert!(state(pos(1000, -1), 0, far_pipes(), 4).is_over());
    assert!(state(pos(1000, 7201), 0, far_pipes(), 4).is_over());
    assert!(!state(pos(1000, 0), 0, far_pipes(), 4).is_over());
    assert!(!state(pos(1000, 7200), 0, far_pipes(), 4).is_over());
}

#[test]
fn new_session_layout() {
    let s = GameState::with_gaps(&vec![1000, 2000, 3000, 4000, 6190]);
    assert_eq!(s.player, Player { pos: pos(1000, 2000), velocity: 0 });
    assert_eq!(s.pipes, vec![pos(12800, 1000), pos(18300, 2000), pos(23800, 3000), pos(29300, 4000), pos(34800, 6190)]);
    assert_eq!(s.last_pipe_ind, 4);
    assert!(s.is_within_limits());
}

#[test]
fn random_session_layout() {
    let s = GameState::new();
    assert_eq!(s.pipes.len(), 5);
    assert_eq!(s.last_pipe_ind, 4);
    for (k, p) in s.pipes.iter().enumerate() {
        assert_eq!(p.x, 12800 + 5500 * k as i64);
        assert!(p.y >= 1000 && p.y < 6200);
        assert_eq!(p.y % 10, 0);
    }
}

#[test]
fn step_moves_player_and_pipes() {
    let mut s = state(pos(1000, 2000), 0, far_pipes(), 4);
    let over = s.step(false, &vec![1000, 1000, 1000, 1000, 1000]);
    assert!(!over);
    assert_eq!(s.player, Player { pos: pos(1000, 2008), velocity: 8 });
    assert_eq!(s.pipes[0], pos(4950, 3600));
    assert_eq!(s.pipes[4], pos(26950, 3600));
    assert_eq!(s.last_pipe_ind, 4);
}

#[test]
fn step_recycles_and_reports_collision() {
    let pipes = vec![pos(-460, 2000), pos(5000, 3000), pos(1000, 1500), pos(16000, 5000), pos(21500, 1500)];
    let mut s = state(pos(1000, 2000), 50, pipes, 1);
    let over = s.step(true, &vec![3000, 1000, 1000, 1000, 1000]);
    assert_eq!(s.player, Player { pos: pos(1000, 1900), velocity: -100 });
    assert_eq!(s.pipes[0], pos(10450, 3000));
    assert_eq!(s.last_pipe_ind, 0);
    assert!(over);
}

#[test]
fn update_keeps_pipe_count_and_draws_valid_gaps() {
    let mut s = GameState::with_gaps(&vec![3600, 3600, 3600, 3600, 3600]);
    for _ in 0..300 {
        s.update(false);
        if !s.is_within_limits() {
            break;
        }
    }
    assert_eq!(s.pipes.len(), 5);
    for p in s.pipes.iter() {
        assert!(p.x >= -500);
        assert!(p.y >= 1000 && p.y < 6200);
    }
}

#[test]
fn falling_without_jump_ends_game() {
    let mut s = GameState::with_gaps(&vec![3600, 3600, 3600, 3600, 3600]);
    let mut frames = 0;
    let mut over = false;
    while !over && frames < 1000 {
        over = s.update(false);
        frames += 1;
    }
    assert!(over);
    assert!(s.player.pos.y > 7200);
}

#[test]
fn limits_are_checked() {
    let s = state(pos(1000, 2000), 0, far_pipes(), 5);
    assert!(!s.is_within_limits());
    let t = state(pos(1000, 2000), 2_000_000_000_000_000, far_pipes(), 4);
    assert!(!t.is_within_limits());
    let mut pipes = far_pipes();
    pipes.pop();
    assert!(!state(pos(1000, 2000), 0, pipes, 0).is_within_limits());
}

#[test]
fn step_places_recycled_pipe_exactly_one_spacing_ahead() {
    let pipes = vec![pos(-460, 2000), pos(5040, 3000), pos(10540, 4000), pos(16040, 5000), pos(21540, 1500)];
    let mut s = state(pos(1000, 2000), 0, pipes, 4);
    s.step(false, &vec![3000, 1000, 1000, 1000, 1000]);
    assert_eq!(s.pipes[4], pos(21490, 1500));
    assert_eq!(s.pipes[0], pos(21490 + 5500, 3000));
    assert_eq!(s.last_pipe_ind, 0);
}
