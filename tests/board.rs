use tetris_ga::ai::{eval, heuristic_score};
use tetris_ga::blocks::{block_of, gen_block_7, take_next, Blockkind, BlockShape, I, NONE, T, WALL};
use tetris_ga::field::{
    dead_space_count, diff_in_height, erase_line_count, field_hight_max, Field, COL_HI, COL_LO,
    FIELD_HEIGHT, FIELD_WIDTH, FLOOR, ROW_HI, ROW_LO,
};
use tetris_ga::game::{
    erase_line, fall_interval_ms, fix_block, hard_drop, is_collision, landing, move_block,
    rotate_left, rotate_right, Game, GameOver, Position,
};

fn empty_field() -> Field {
    Game::new(block_of(Blockkind::O)).field
}

/// Fills column `x` with `h` cells standing on the floor.
fn stack(f: &mut Field, x: usize, h: usize) {
    for y in (FLOOR - h)..FLOOR {
        f[y][x] = I;
    }
}

#[test]
fn fresh_board_has_walls_and_floor() {
    let f = empty_field();
    assert_eq!(f[0][1], WALL);
    assert_eq!(f[5][13], WALL);
    assert_eq!(f[FLOOR][7], WALL);
    assert_eq!(f[5][7], NONE);
    assert_eq!(f[FIELD_HEIGHT - 1][7], NONE);
    assert_eq!(f[3][0], NONE);
}

#[test]
fn lines_on_empty_and_full_interior() {
    let mut f = empty_field();
    assert_eq!(erase_line_count(&f), 0);
    for y in ROW_LO..ROW_HI {
        for x in COL_LO..COL_HI {
            f[y][x] = T;
        }
    }
    assert_eq!(erase_line_count(&f), 19);
}

#[test]
fn lines_counts_only_full_rows() {
    let mut f = empty_field();
    for x in COL_LO..COL_HI {
        f[19][x] = I;
        f[18][x] = I;
    }
    f[18][6] = NONE;
    assert_eq!(erase_line_count(&f), 1);
}

#[test]
fn max_height_of_empty_is_zero() {
    assert_eq!(field_hight_max(&empty_field()), 0);
}

#[test]
fn max_height_counts_rows_from_floor() {
    let mut f = empty_field();
    stack(&mut f, 4, 3);
    stack(&mut f, 9, 1);
    assert_eq!(field_hight_max(&f), 3);
}

#[test]
fn height_diff_flat_is_zero() {
    let mut f = empty_field();
    assert_eq!(diff_in_height(&f), 0);
    for x in COL_LO..COL_HI {
        stack(&mut f, x, 4);
    }
    assert_eq!(diff_in_height(&f), 0);
}

#[test]
fn height_diff_staircase() {
    let mut f = empty_field();
    for x in COL_LO..COL_HI {
        stack(&mut f, x, x - COL_LO);
    }
    assert_eq!(diff_in_height(&f), 10);
}

#[test]
fn height_diff_single_tower() {
    let mut f = empty_field();
    stack(&mut f, 7, 5);
    assert_eq!(diff_in_height(&f), 10);
}

#[test]
fn dead_space_zero_when_settled() {
    let mut f = empty_field();
    for x in COL_LO..COL_HI {
        stack(&mut f, x, (x * 7) % 5);
    }
    assert_eq!(dead_space_count(&f), 0);
}

#[test]
fn dead_space_single_covered_hole() {
    let mut f = empty_field();
    f[18][5] = T;
    assert_eq!(dead_space_count(&f), 1);
}

#[test]
fn dead_space_counts_each_cell_once() {
    let mut f = empty_field();
    f[10][5] = T;
    f[12][5] = T;
    // rows 11 and 13..=19 lie under an occupied cell: 1 + 7
    assert_eq!(dead_space_count(&f), 8);
}

#[test]
fn heuristic_of_empty_board() {
    let f = empty_field();
    assert_eq!(heuristic_score(&f, &[100, 1, 10, 100]), 200 + 2000 + 20000);
}

#[test]
fn heuristic_of_one_full_row() {
    let mut f = empty_field();
    for x in COL_LO..COL_HI {
        f[19][x] = I;
    }
    // lines 1, height 1, diff 0, dead 0
    assert_eq!(heuristic_score(&f, &[1, 1, 1, 1]), 50 + 190 + 200 + 200);
}

#[test]
fn collision_with_walls_and_outside() {
    let f = empty_field();
    let o = block_of(Blockkind::O);
    assert!(!is_collision(&f, &Position { x: 5, y: 0 }, &o));
    assert!(is_collision(&f, &Position { x: 0, y: 0 }, &o));
    assert!(is_collision(&f, &Position { x: 5, y: 18 }, &o));
    assert!(is_collision(&f, &Position { x: 100, y: 0 }, &o));
}

#[test]
fn rotations_turn_the_i_piece() {
    let mut g = Game::new(block_of(Blockkind::I));
    g.pos = Position { x: 5, y: 5 };
    rotate_right(&mut g);
    let expect: BlockShape = [[0, I, 0, 0], [0, I, 0, 0], [0, I, 0, 0], [0, I, 0, 0]];
    assert_eq!(g.block, expect);
    rotate_left(&mut g);
    assert_eq!(g.block, block_of(Blockkind::I));
}

#[test]
fn move_refused_into_wall() {
    let mut g = Game::new(block_of(Blockkind::O));
    move_block(&mut g, Position { x: 0, y: 0 });
    assert_eq!(g.pos, Position { x: 5, y: 0 });
    move_block(&mut g, Position { x: 6, y: 3 });
    assert_eq!(g.pos, Position { x: 6, y: 3 });
}

#[test]
fn hard_drop_and_fix_rest_on_floor() {
    let mut g = Game::new(block_of(Blockkind::O));
    hard_drop(&mut g);
    assert_eq!(g.pos.y, 17);
    fix_block(&mut g);
    assert_eq!(g.field[18][6], 4);
    assert_eq!(g.field[19][7], 4);
    assert_eq!(g.field[17][6], NONE);
}

#[test]
fn erase_line_drops_rows_above() {
    let mut f = empty_field();
    for x in COL_LO..COL_HI {
        f[19][x] = I;
    }
    f[18][4] = T;
    assert_eq!(erase_line(&mut f), 1);
    assert_eq!(f[19][4], T);
    assert_eq!(f[19][5], NONE);
    assert_eq!(f[18][4], NONE);
    assert_eq!(f[0][1], WALL);
}

#[test]
fn landing_scores_and_spawns() {
    let mut g = Game::new(block_of(Blockkind::I));
    for x in COL_LO..COL_HI {
        if !(5..9).contains(&x) {
            g.field[19][x] = T;
        }
    }
    hard_drop(&mut g);
    assert_eq!(g.pos.y, 17);
    assert_eq!(landing(&mut g, block_of(Blockkind::T)), Ok(()));
    assert_eq!(g.line, 1);
    assert_eq!(g.score, 1);
    assert_eq!(g.pos, Position { x: 5, y: 0 });
    assert_eq!(g.field[19][3], NONE);
}

#[test]
fn landing_fails_when_spawn_is_blocked() {
    let mut g = Game::new(block_of(Blockkind::O));
    g.field[2][6] = T;
    assert_eq!(landing(&mut g, block_of(Blockkind::O)), Err(GameOver));
}

#[test]
fn eval_places_piece_no_worse_than_staying() {
    let g = Game::new(block_of(Blockkind::T));
    let w = [100, 1, 10, 100];
    let r = eval(&g, &w);
    assert!(heuristic_score(&r.field, &w) >= 0);
    // the chosen piece was dropped and locked somewhere on the floor
    let locked: usize = (COL_LO..COL_HI).filter(|&x| r.field[19][x] != NONE).count();
    assert!(locked >= 1);
    assert_eq!(g.field[19][5], NONE);
}

#[test]
fn eval_with_zero_weights_keeps_state() {
    let g = Game::new(block_of(Blockkind::L));
    let r = eval(&g, &[0, 0, 0, 0]);
    assert_eq!(r.pos, g.pos);
    assert_eq!(r.field, g.field);
}

#[test]
fn eval_fills_a_gap_to_clear_a_line() {
    let mut g = Game::new(block_of(Blockkind::I));
    for x in COL_LO..COL_HI {
        if !(2..6).contains(&x) {
            g.field[19][x] = T;
        }
    }
    let r = eval(&g, &[100, 1, 10, 100]);
    assert_eq!(erase_line_count(&r.field), 1);
}

#[test]
fn bag_holds_each_kind_once() {
    let bag = gen_block_7();
    assert_eq!(bag.len(), 7);
    let kinds = [
        Blockkind::I,
        Blockkind::O,
        Blockkind::S,
        Blockkind::Z,
        Blockkind::J,
        Blockkind::L,
        Blockkind::T,
    ];
    for k in kinds {
        assert_eq!(bag.iter().filter(|b| **b == block_of(k)).count(), 1);
    }
}

#[test]
fn take_next_refills_and_pops() {
    let mut q: Vec<BlockShape> = Vec::new();
    let _ = take_next(&mut q);
    assert_eq!(q.len(), 6);
    let front = q[0];
    assert_eq!(take_next(&mut q), front);
    assert_eq!(q.len(), 5);
}

#[test]
fn fall_interval_shrinks_to_floor() {
    assert_eq!(fall_interval_ms(0), 1000);
    assert_eq!(fall_interval_ms(25), 800);
    assert_eq!(fall_interval_ms(99), 100);
    assert_eq!(fall_interval_ms(100), 100);
    assert_eq!(fall_interval_ms(500), 100);
}

#[test]
fn width_constants() {
    assert_eq!(FIELD_WIDTH, 15);
    assert_eq!(COL_HI - COL_LO, 11);
}

#[test]
fn bags_come_in_varying_order() {
    let first = gen_block_7();
    let varied = (0..20).any(|_| gen_block_7() != first);
    assert!(varied);
}

#[test]
fn simulation_step_lands_and_goes_on() {
    let mut g = Game::new(block_of(Blockkind::O));
    assert!(tetris_ga::ga::simulation_step(&mut g, &[100, 1, 10, 100], block_of(Blockkind::T)));
    assert_eq!(g.pos, Position { x: 5, y: 0 });
    assert_eq!(g.block, block_of(Blockkind::T));
    let locked: usize = (COL_LO..COL_HI).filter(|&x| g.field[19][x] != NONE).count();
    assert_eq!(locked, 2);
}

#[test]
fn simulation_step_stops_on_game_over() {
    let mut g = Game::new(block_of(Blockkind::O));
    for y in 1..3 {
        for x in 5..9 {
            g.field[y][x] = T;
        }
    }
    g.field[1][6] = NONE;
    g.field[1][7] = NONE;
    g.field[2][6] = NONE;
    g.field[2][7] = NONE;
    // the O piece can only stay where it is; after it locks, the spawn is blocked
    g.field[3][6] = T;
    g.field[3][7] = T;
    assert!(!tetris_ga::ga::simulation_step(&mut g, &[100, 1, 10, 100], block_of(Blockkind::O)));
}
