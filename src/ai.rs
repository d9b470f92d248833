use vstd::prelude::*;

use crate::field::{
    dead_space, dead_space_count, diff_in_height, erase_line_count, field_hight_max, grid_of,
    height_diff, lines_ready, max_height, Field, Grid,
};
use crate::ga::GenoSeq;
use crate::game::{
    dropped, fix_block, fixed, hard_drop, move_block, moved, reshaped, rotate_right, turned_right,
    Game, GameModel, Position,
};

verus! {

/// Number of horizontal offsets tried for each orientation: from `REACH_LEFT`
/// columns left of the anchor to 7 right of it, which from the spawn column
/// covers every anchor from the left edge to the right wall.
pub const OFFSETS: usize = 13;

/// How far left of the anchor the first offset lies.
pub const REACH_LEFT: usize = 5;

/// Number of orientations tried.
pub const TURNS: usize = 4;

/// Score of a board: the four features, each mapped linearly onto `[0, 1]` over
/// its domain (lines over `[0, 4]`, maximum height over `[0, 20]`, height
/// difference and dead space over `[0, 200]`; all but lines inverted, so that
/// less is better), weighted by the genome and summed. The whole is scaled by
/// 200 so that it stays an integer.
pub open spec fn heuristic(f: Grid, w: GenoSeq) -> int {
    50 * lines_ready(f) * w[0] + (200 - 10 * max_height(f)) * w[1]
        + (200 - height_diff(f)) * w[2] + (200 - dead_space(f)) * w[3]
}

fn weighted(v: i64, w: u8) -> (r: i64)
    requires
        -1000 <= v <= 1000,
    ensures
        r == v * w,
        -255000 <= r <= 255000,
{
    assert(-255000 <= v * w <= 255000) by (nonlinear_arith)
        requires
            -1000 <= v <= 1000,
            0 <= w <= 255;
    v * (w as i64)
}

/// The weighted, normalised score of a board under genome `geno`.
pub fn heuristic_score(field: &Field, geno: &GenoSeq) -> (r: i64)
    ensures
        r == heuristic(grid_of(*field), *geno),
{
    let line = erase_line_count(field) as i64;
    let height_max = field_hight_max(field) as i64;
    let height_diff = diff_in_height(field) as i64;
    let dead_space = dead_space_count(field) as i64;
    let a = weighted(50 * line, geno[0]);
    let b = weighted(200 - 10 * height_max, geno[1]);
    let c = weighted(200 - height_diff, geno[2]);
    let d = weighted(200 - dead_space, geno[3]);
    a + b + c + d
}

/// The model after `n` clockwise quarter turns, each refused where it would overlap.
pub open spec fn rotated_n(m: GameModel, n: nat) -> GameModel
    decreases n,
{
    if n == 0 {
        m
    } else {
        let p = rotated_n(m, (n - 1) as nat);
        reshaped(p, turned_right(p.block))
    }
}

/// Anchor column for offset `i`: `x + i - REACH_LEFT`, at least 0.
pub open spec fn target_x(x: int, i: int) -> int {
    let t = x + i - REACH_LEFT;
    if t <= 0 {
        0
    } else if t > usize::MAX {
        usize::MAX as int
    } else {
        t
    }
}

/// Candidate `(r, i)`: turned `r` times, moved to offset `i`, dropped and locked.
pub open spec fn candidate(m: GameModel, r: nat, i: int) -> GameModel {
    let p = rotated_n(m, r);
    fixed(dropped(moved(p, target_x(p.x, i), p.y)))
}

/// The best of the first `k` candidates, orientation outer and offset inner,
/// with its score; the unmoved state with score 0 stands before all of them,
/// and a candidate replaces the best only by scoring strictly more.
pub open spec fn best_upto(m: GameModel, w: GenoSeq, k: nat) -> (GameModel, int)
    decreases k,
{
    if k == 0 {
        (m, 0)
    } else {
        let prev = best_upto(m, w, (k - 1) as nat);
        let c = candidate(m, ((k - 1) / OFFSETS as int) as nat, (k - 1) % OFFSETS as int);
        let sc = heuristic(c.field, w);
        if prev.1 < sc {
            (c, sc)
        } else {
            prev
        }
    }
}

/// Tries every orientation of the active piece at every horizontal offset,
/// drops and locks each on its own copy of `game`, and returns the candidate of
/// highest score (the first found among equals), or `game` itself unchanged
/// when none scores above 0.
pub fn eval(game: &Game, geno: &GenoSeq) -> (r: Game)
    ensures
        r@ == best_upto(game@, *geno, (TURNS * OFFSETS) as nat).0,
{
    let ghost m = game@;
    let mut elite: Game = *game;
    let mut elite_score: i64 = 0;
    let mut base: Game = *game;
    let mut rot: usize = 0;
    while rot < TURNS
        invariant
            m == game@,
            0 <= rot <= TURNS,
            base@ == rotated_n(m, rot as nat),
            (elite@, elite_score as int) == best_upto(m, *geno, (rot * OFFSETS) as nat),
        decreases TURNS - rot,
    {
        let mut i: usize = 0;
        while i < OFFSETS
            invariant
                m == game@,
                0 <= rot < TURNS,
                0 <= i <= OFFSETS,
                base@ == rotated_n(m, rot as nat),
                (elite@, elite_score as int) == best_upto(m, *geno, (rot * OFFSETS + i) as nat),
            decreases OFFSETS - i,
        {
            let mut g: Game = base;
            let x = g.pos.x;
            let tx: usize = if i <= REACH_LEFT {
                if x <= REACH_LEFT - i { 0 } else { x - (REACH_LEFT - i) }
            } else if x <= usize::MAX - (i - REACH_LEFT) {
                x + (i - REACH_LEFT)
            } else {
                usize::MAX
            };
            assert(tx == target_x(x as int, i as int));
            let y = g.pos.y;
            move_block(&mut g, Position { x: tx, y });
            hard_drop(&mut g);
            fix_block(&mut g);
            let score = heuristic_score(&g.field, geno);
            proof {
                let k = rot * OFFSETS + i;
                assert(k / (OFFSETS as int) == rot && k % (OFFSETS as int) == i) by (nonlinear_arith)
                    requires
                        k == rot * 13 + i,
                        0 <= i < 13,
                        0 <= rot;
                assert(g@ == candidate(m, rot as nat, i as int));
            }
            if elite_score < score {
                elite = g;
                elite_score = score;
            }
            i = i + 1;
        }
        rotate_right(&mut base);
        rot = rot + 1;
    }
    elite
}


/// Candidate number `j` in search order.
pub open spec fn nth_candidate(m: GameModel, j: int) -> GameModel {
    candidate(m, (j / OFFSETS as int) as nat, j % OFFSETS as int)
}

/// What the search keeps scores at least 0, the score of leaving the state
/// unmoved, and at least as much as every candidate looked at; it is either
/// the unmoved state with score 0 or a candidate with its own heuristic score.
pub proof fn lemma_best_not_worse(m: GameModel, w: GenoSeq, k: nat)
    ensures
        best_upto(m, w, k).1 >= 0,
        (best_upto(m, w, k).0 == m && best_upto(m, w, k).1 == 0)
            || best_upto(m, w, k).1 == heuristic(best_upto(m, w, k).0.field, w),
        forall|j: int| 0 <= j < k ==> heuristic(#[trigger] nth_candidate(m, j).field, w) <= best_upto(m, w, k).1,
    decreases k,
{
    if k > 0 {
        lemma_best_not_worse(m, w, (k - 1) as nat);
    }
}

} // verus!
