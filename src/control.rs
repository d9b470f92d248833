use vstd::prelude::*;

use crate::game::{
    collides, dropped, hard_drop, is_collision, move_block, moved, reshaped, rotate_left,
    rotate_right, turned_left, turned_right, Game, GameModel, Position,
};

verus! {

/// One event of interactive play: a key command or a tick of the fall timer.
#[derive(Clone, Copy, Debug, PartialEq, Eq, Structural)]
pub enum Command {
    Left,
    Right,
    Down,
    RotateLeft,
    RotateRight,
    HardDrop,
    Tick,
}

pub open spec fn one_less(v: int) -> int {
    if v >= 1 { v - 1 } else { v }
}

pub open spec fn one_more(v: int) -> int {
    if v < usize::MAX { v + 1 } else { v }
}

/// The model after `cmd`, and whether the active piece must land now.
pub open spec fn command_result(m: GameModel, cmd: Command) -> (GameModel, bool) {
    match cmd {
        Command::Left => (moved(m, one_less(m.x), m.y), false),
        Command::Right => (moved(m, one_more(m.x), m.y), false),
        Command::Down => (moved(m, m.x, one_more(m.y)), false),
        Command::RotateLeft => (reshaped(m, turned_left(m.block)), false),
        Command::RotateRight => (reshaped(m, turned_right(m.block)), false),
        Command::HardDrop => (dropped(m), true),
        Command::Tick => if m.y >= usize::MAX || collides(m.field, m.x, m.y + 1, m.block) {
            (m, true)
        } else {
            (moved(m, m.x, m.y + 1), false)
        },
    }
}

/// Applies one event to the game. Returns true when the active piece has come
/// to rest and must now land (after a hard drop, or a tick that finds the row
/// below blocked); the caller then lands it with the next piece.
pub fn apply_command(game: &mut Game, cmd: Command) -> (land: bool)
    ensures
        (final(game)@, land) == command_result(old(game)@, cmd),
{
    let x = game.pos.x;
    let y = game.pos.y;
    match cmd {
        Command::Left => {
            let nx = if x >= 1 { x - 1 } else { x };
            move_block(game, Position { x: nx, y });
            false
        },
        Command::Right => {
            let nx = if x < usize::MAX { x + 1 } else { x };
            move_block(game, Position { x: nx, y });
            false
        },
        Command::Down => {
            let ny = if y < usize::MAX { y + 1 } else { y };
            move_block(game, Position { x, y: ny });
            false
        },
        Command::RotateLeft => {
            rotate_left(game);
            false
        },
        Command::RotateRight => {
            rotate_right(game);
            false
        },
        Command::HardDrop => {
            hard_drop(game);
            true
        },
        Command::Tick => {
            if y == usize::MAX {
                return true;
            }
            let below = Position { x, y: y + 1 };
            if is_collision(&game.field, &below, &game.block) {
                true
            } else {
                game.pos = below;
                false
            }
        },
    }
}

} // verus!
