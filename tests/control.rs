use tetris_ga::blocks::{block_of, Blockkind};
use tetris_ga::control::{apply_command, Command};
use tetris_ga::game::{Game, Position};

#[test]
fn keys_move_and_rotate() {
    let mut g = Game::new(block_of(Blockkind::T));
    assert!(!apply_command(&mut g, Command::Left));
    assert_eq!(g.pos, Position { x: 4, y: 0 });
    assert!(!apply_command(&mut g, Command::Right));
    assert!(!apply_command(&mut g, Command::Right));
    assert_eq!(g.pos, Position { x: 6, y: 0 });
    assert!(!apply_command(&mut g, Command::Down));
    assert_eq!(g.pos, Position { x: 6, y: 1 });
    let before = g.block;
    assert!(!apply_command(&mut g, Command::RotateRight));
    assert_ne!(g.block, before);
    assert!(!apply_command(&mut g, Command::RotateLeft));
    assert_eq!(g.block, before);
}

#[test]
fn left_stops_at_wall() {
    let mut g = Game::new(block_of(Blockkind::O));
    for _ in 0..10 {
        apply_command(&mut g, Command::Left);
    }
    // the O piece's left column is column 1 of its matrix; the wall is column 1
    assert_eq!(g.pos.x, 1);
}

#[test]
fn tick_falls_then_asks_to_land() {
    let mut g = Game::new(block_of(Blockkind::O));
    assert!(!apply_command(&mut g, Command::Tick));
    assert_eq!(g.pos.y, 1);
    let mut ticks = 0;
    while !apply_command(&mut g, Command::Tick) {
        ticks += 1;
    }
    assert_eq!(g.pos.y, 17);
    assert_eq!(ticks, 16);
}

#[test]
fn hard_drop_asks_to_land() {
    let mut g = Game::new(block_of(Blockkind::O));
    assert!(apply_command(&mut g, Command::HardDrop));
    assert_eq!(g.pos.y, 17);
}
