use ballz::collision::Bounce;
use ballz::game::Game;
use ballz::grid::{BlockGrid, BONUS};
use ballz::stepper::{resolve_substep, Outcome, SubStep};
use ballz::wave::{BallState, TickEnd, Wave};

fn vertical(row: usize, col: usize, lead_row: usize, downward: bool, reach_y: bool) -> SubStep {
    SubStep { row, col, lead_row, lead_col: col, rightward: true, downward, reach_x: false, reach_y }
}

/// A wave of `n` balls, all launched (interval 0 launches one per tick).
fn launched_wave(n: u32) -> Wave {
    let mut w = Wave::new();
    assert!(w.launch(n));
    for _ in 0..n {
        let e = w.end_tick(0);
        assert!(e.spawned);
    }
    w
}

#[test]
fn new_wave_is_idle() {
    let w = Wave::new();
    assert!(!w.is_in_flight());
    assert_eq!(w.launched(), 0);
    assert_eq!(w.waiting(), 0);
    assert_eq!(w.rendezvous(), None);
}

#[test]
fn launch_refused_while_in_flight() {
    let mut w = Wave::new();
    assert!(w.launch(3));
    assert!(w.is_in_flight());
    assert!(!w.launch(5));
    assert_eq!(w.waiting(), 3);
}

#[test]
fn spawn_follows_countdown() {
    let mut w = Wave::new();
    assert!(w.launch(2));
    let e = w.end_tick(2);
    assert_eq!(e, TickEnd { spawned: true, complete: false, rendezvous: None });
    assert_eq!(w.launched(), 1);
    assert!(!w.end_tick(2).spawned);
    assert!(!w.end_tick(2).spawned);
    assert!(w.end_tick(2).spawned);
    assert_eq!(w.launched(), 2);
    assert_eq!(w.waiting(), 0);
    assert_eq!(w.state(1), BallState::Running);
}

#[test]
fn empty_wave_completes_without_rendezvous() {
    let mut w = Wave::new();
    assert!(w.launch(0));
    assert_eq!(w.end_tick(3), TickEnd { spawned: false, complete: true, rendezvous: None });
}

#[test]
fn first_arrival_fixes_rendezvous() {
    let mut w = launched_wave(3);
    assert!(w.arrive(1));
    assert_eq!(w.rendezvous(), Some(1));
    assert_eq!(w.state(1), BallState::Done);
    assert!(!w.arrive(0));
    assert!(!w.arrive(2));
    assert_eq!(w.rendezvous(), Some(1));
    assert_eq!(w.state(0), BallState::Backing);
    assert_eq!(w.state(2), BallState::Backing);
}

#[test]
fn completion_hands_back_and_clears_rendezvous() {
    let mut w = launched_wave(2);
    assert!(w.arrive(0));
    assert!(!w.arrive(1));
    assert!(!w.end_tick(1).complete);
    w.settle(1);
    assert_eq!(w.end_tick(1), TickEnd { spawned: false, complete: true, rendezvous: Some(0) });
    assert_eq!(w.rendezvous(), None);
    assert!(!w.is_in_flight());
    assert!(w.launch(1));
}

#[test]
fn straight_shot_empty_grid() {
    // grid 10 x 15, one ball going straight up from the bottom row in column 4
    let mut g = BlockGrid::new(10, 15);
    let mut w = launched_wave(1);
    // upward: every horizontal boundary is open until the top wall
    for r in (1..15).rev() {
        let o = resolve_substep(&mut g, &mut w, 0, vertical(r, 4, r, false, true));
        assert!(!o.flip_y && !o.stop);
    }
    let top = resolve_substep(&mut g, &mut w, 0, vertical(0, 4, 0, false, true));
    assert!(top.flip_y && !top.stop);
    // downward to the bottom line, still in one straight column
    for r in 0..14 {
        let o = resolve_substep(&mut g, &mut w, 0, vertical(r, 4, r, true, true));
        assert!(!o.flip_x && !o.flip_y && !o.stop);
    }
    let last = resolve_substep(&mut g, &mut w, 0, vertical(14, 4, 14, true, true));
    assert!(last.stop && last.first_arrival);
    assert_eq!(w.state(0), BallState::Done);
    // the ball that fixed the rendezvous is the one launched: its x is the launch x
    assert_eq!(w.end_tick(5), TickEnd { spawned: false, complete: true, rendezvous: Some(0) });
    for r in 0..15 {
        for c in 0..10 {
            assert_eq!(g.cell_at(r, c), Some(0));
        }
    }
}

#[test]
fn bonus_pickup_counts_once() {
    let mut g = BlockGrid::new(4, 4);
    g.inject_row_with(vec![0, 0, 0, 0]);
    let mut row = vec![0, 0, 0, 0];
    row[2] = BONUS;
    // put the bonus in row 1 and a block above it in row 0
    g.inject_row_with(row);
    g.inject_row_with(vec![0, 0, 3, 0]);
    assert_eq!(g.cell_at(1, 2), Some(BONUS));
    let mut w = launched_wave(1);
    // the ball's centre is on the bonus and it reaches the block above on the same sub-step
    let o = resolve_substep(&mut g, &mut w, 0, vertical(1, 2, 1, false, true));
    assert_eq!(o, Outcome { bonus: true, flip_x: false, flip_y: true, stop: false, first_arrival: false });
    assert_eq!(g.cell_at(1, 2), Some(0));
    assert_eq!(g.cell_at(0, 2), Some(2));
    let again = resolve_substep(&mut g, &mut w, 0, vertical(1, 2, 1, true, false));
    assert!(!again.bonus);
}

#[test]
fn bonus_pickup_without_bounce() {
    let mut g = BlockGrid::new(4, 3);
    g.inject_row_with(vec![0, BONUS, 0, 0]);
    let mut w = launched_wave(1);
    let o = resolve_substep(&mut g, &mut w, 0, vertical(0, 1, 0, true, false));
    assert_eq!(o, Outcome { bonus: true, flip_x: false, flip_y: false, stop: false, first_arrival: false });
    assert_eq!(g.cell_at(0, 1), Some(0));
}

#[test]
fn wall_bounce_no_damage() {
    let mut g = BlockGrid::new(5, 4);
    g.inject_row_with(vec![2, 0, 0, 0, 0]);
    g.inject_row_with(vec![0, 0, 0, 0, 0]);
    let before: Vec<Option<i32>> = (0..4).flat_map(|r| (0..5).map(move |c| (r, c))).map(|(r, c)| g.cell_at(r, c)).collect();
    let mut w = launched_wave(1);
    let s = SubStep { row: 0, col: 0, lead_row: 0, lead_col: 0, rightward: false, downward: false, reach_x: true, reach_y: false };
    let o = resolve_substep(&mut g, &mut w, 0, s);
    assert!(o.flip_x && !o.flip_y && !o.stop && !o.bonus);
    let after: Vec<Option<i32>> = (0..4).flat_map(|r| (0..5).map(move |c| (r, c))).map(|(r, c)| g.cell_at(r, c)).collect();
    assert_eq!(before, after);
    assert_eq!(g.hit_column_boundary(0, 0, 0, false), Bounce::Wall);
}

#[test]
fn two_ball_convergence() {
    let mut g = BlockGrid::new(6, 5);
    let mut w = Wave::new();
    assert!(w.launch(2));
    assert!(w.end_tick(1).spawned);
    // first ball reaches the bottom line
    let first = resolve_substep(&mut g, &mut w, 0, vertical(4, 1, 4, true, true));
    assert!(first.stop && first.first_arrival);
    assert_eq!(w.rendezvous(), Some(0));
    assert!(!w.end_tick(1).spawned);
    assert!(w.end_tick(1).spawned);
    // second ball arrives on a later tick and walks back
    let second = resolve_substep(&mut g, &mut w, 1, vertical(4, 3, 4, true, true));
    assert!(second.stop && !second.first_arrival);
    assert_eq!(w.state(1), BallState::Backing);
    assert_eq!(w.rendezvous(), Some(0));
    assert!(!w.end_tick(1).complete);
    w.settle(1);
    assert_eq!(w.end_tick(1), TickEnd { spawned: false, complete: true, rendezvous: Some(0) });
}

#[test]
fn uncleared_row_triggers_game_over() {
    let mh: usize = 4;
    let mut game = Game::new(10, mh, 42);
    assert_eq!(game.level, 1);
    assert!(!game.over);
    // the first row was injected by the new game; mh - 1 more levels carry it to the back
    for _ in 0..mh - 1 {
        assert!(!game.advance_level());
        assert!(!game.over);
    }
    assert!(game.advance_level());
    assert!(game.over);
    assert_eq!(game.level, mh as u32 + 1);
    assert!(!game.launch());
}

#[test]
fn cleared_row_does_not_end_game() {
    let mut game = Game::new(6, 2, 9);
    assert!(!game.advance_level());
    // clear the back row (the first injected) before it leaves
    for c in 0..6 {
        while game.grid.cell_at(1, c).unwrap() > 0 {
            game.grid.damage(1, c);
        }
        game.grid.take_bonus(1, c);
    }
    assert!(!game.advance_level());
    assert!(!game.over);
    assert_eq!(game.grid.height(), 2);
}

#[test]
fn game_launch_uses_ball_count() {
    let mut game = Game::new(8, 6, 1);
    game.add_balls(2);
    assert_eq!(game.balls, 3);
    assert!(game.launch());
    assert_eq!(game.wave.waiting(), 3);
    assert!(!game.launch());
}

#[test]
fn new_game_first_row_at_level_one() {
    let game = Game::new(10, 5, 3);
    let front: Vec<i32> = (0..10).map(|c| game.grid.cell_at(0, c).unwrap()).collect();
    let blocks = front.iter().filter(|&&c| c == 1).count();
    assert!(blocks >= 1 && blocks < 3);
    for r in 1..5 {
        for c in 0..10 {
            assert_eq!(game.grid.cell_at(r, c), Some(0));
        }
    }
}
