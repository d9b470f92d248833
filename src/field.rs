use vstd::prelude::*;

use crate::blocks::NONE;

verus! {

/// Board width, two sentinel/wall columns on each side included.
pub const FIELD_WIDTH: usize = 15;

/// Board height: the playing rows, the floor row and a sentinel row.
pub const FIELD_HEIGHT: usize = 22;

/// Row index of the floor wall; a cell in row `y` stands `FLOOR - y` rows above it.
pub const FLOOR: usize = 20;

/// First and one-past-last interior row, first and one-past-last interior column.
pub const ROW_LO: usize = 1;
pub const ROW_HI: usize = 20;
pub const COL_LO: usize = 2;
pub const COL_HI: usize = 13;

/// Number of interior columns.
pub const INNER_WIDTH: usize = 11;

pub type Field = [[usize; FIELD_WIDTH]; FIELD_HEIGHT];

/// A board as rows of cell states.
pub type Grid = Seq<Seq<usize>>;

pub open spec fn grid_of(f: Field) -> Grid {
    Seq::new(FIELD_HEIGHT as nat, |y: int| f@[y]@)
}

pub open spec fn cell(f: Grid, y: int, x: int) -> usize {
    f[y][x]
}

pub open spec fn occupied(f: Grid, y: int, x: int) -> bool {
    cell(f, y, x) != NONE
}

pub open spec fn row_full(f: Grid, y: int) -> bool {
    forall|x: int| COL_LO <= x < COL_HI ==> #[trigger] occupied(f, y, x)
}

pub open spec fn row_any(f: Grid, y: int) -> bool {
    exists|x: int| COL_LO <= x < COL_HI && #[trigger] occupied(f, y, x)
}

/// Number of full interior rows among rows `ROW_LO .. n`.
pub open spec fn full_rows(f: Grid, n: int) -> int
    decreases n,
{
    if n <= ROW_LO {
        0
    } else {
        full_rows(f, n - 1) + if row_full(f, n - 1) { 1int } else { 0int }
    }
}

/// Number of full interior rows.
pub open spec fn lines_ready(f: Grid) -> int {
    full_rows(f, ROW_HI as int)
}

/// Height above the floor of the topmost occupied interior cell at or below row `y`.
pub open spec fn height_from(f: Grid, y: int) -> int
    decreases ROW_HI - y,
{
    if y >= ROW_HI {
        0
    } else if row_any(f, y) {
        FLOOR - y
    } else {
        height_from(f, y + 1)
    }
}

/// Height above the floor of the topmost occupied interior cell (0 when empty).
pub open spec fn max_height(f: Grid) -> int {
    height_from(f, ROW_LO as int)
}

/// Height of column `x` counted from row `y` downwards.
pub open spec fn col_height_from(f: Grid, x: int, y: int) -> int
    decreases ROW_HI - y,
{
    if y >= ROW_HI {
        0
    } else if occupied(f, y, x) {
        FLOOR - y
    } else {
        col_height_from(f, x, y + 1)
    }
}

/// Height of column `x`: rows from the floor to its topmost occupied cell, 0 if empty.
pub open spec fn col_height(f: Grid, x: int) -> int {
    col_height_from(f, x, ROW_LO as int)
}

pub open spec fn abs_diff(a: int, b: int) -> int {
    if a >= b { a - b } else { b - a }
}

/// Sum of |h[i] - h[i+1]| for i < n.
pub open spec fn step_sum(h: Seq<int>, n: int) -> int
    decreases n,
{
    if n <= 0 || n >= h.len() {
        0
    } else {
        step_sum(h, n - 1) + abs_diff(h[n - 1], h[n])
    }
}

/// The interior column heights, left to right.
pub open spec fn heights(f: Grid) -> Seq<int> {
    Seq::new(INNER_WIDTH as nat, |i: int| col_height(f, COL_LO + i))
}

/// Summed absolute height difference of every two neighbouring interior columns.
pub open spec fn height_diff(f: Grid) -> int {
    step_sum(heights(f), INNER_WIDTH - 1)
}

/// Covered holes of column `x` in rows `y ..`, where `covered` says whether an
/// occupied cell stands above row `y`.
pub open spec fn col_dead(f: Grid, x: int, y: int, covered: bool) -> int
    decreases ROW_HI - y,
{
    if y >= ROW_HI {
        0
    } else {
        (if covered && !occupied(f, y, x) { 1int } else { 0int })
            + col_dead(f, x, y + 1, covered || occupied(f, y, x))
    }
}

/// Covered holes in interior columns `COL_LO .. x`.
pub open spec fn dead_upto(f: Grid, x: int) -> int
    decreases x,
{
    if x <= COL_LO {
        0
    } else {
        dead_upto(f, x - 1) + col_dead(f, x - 1, ROW_LO as int, false)
    }
}

/// Empty interior cells with at least one occupied cell above them in their column.
pub open spec fn dead_space(f: Grid) -> int {
    dead_upto(f, COL_HI as int)
}

proof fn lemma_full_rows_bounds(f: Grid, n: int)
    ensures
        0 <= full_rows(f, n),
        full_rows(f, n) <= if n <= ROW_LO { 0 } else { n - ROW_LO },
    decreases n,
{
    if n > ROW_LO {
        lemma_full_rows_bounds(f, n - 1);
    }
}

/// Counts the interior rows in which every interior column is occupied.
pub fn erase_line_count(field: &Field) -> (r: usize)
    ensures
        r == lines_ready(grid_of(*field)),
        r <= ROW_HI - ROW_LO,
{
    let mut count: usize = 0;
    let mut y: usize = ROW_LO;
    while y < ROW_HI
        invariant
            ROW_LO <= y <= ROW_HI,
            count == full_rows(grid_of(*field), y as int),
            count <= y - ROW_LO,
        decreases ROW_HI - y,
    {
        let mut full = true;
        let mut x: usize = COL_LO;
        while x < COL_HI
            invariant
                COL_LO <= x <= COL_HI,
                y < ROW_HI,
                full <==> forall|k: int| COL_LO <= k < x ==> #[trigger] occupied(grid_of(*field), y as int, k),
            decreases COL_HI - x,
        {
            let v = field[y][x];
            assert(v == cell(grid_of(*field), y as int, x as int));
            if v == NONE {
                assert(!occupied(grid_of(*field), y as int, x as int));
                full = false;
            } else {
                assert(occupied(grid_of(*field), y as int, x as int));
            }
            x = x + 1;
        }
        proof {
            lemma_full_rows_bounds(grid_of(*field), y as int);
        }
        if full {
            count = count + 1;
        }
        y = y + 1;
    }
    count
}


proof fn lemma_height_from_bounds(f: Grid, y: int)
    requires
        ROW_LO <= y <= ROW_HI,
    ensures
        0 <= height_from(f, y) <= FLOOR - y,
    decreases ROW_HI - y,
{
    if y < ROW_HI && !row_any(f, y) {
        lemma_height_from_bounds(f, y + 1);
    }
}

/// Height above the floor of the topmost occupied interior cell, scanning rows
/// from the top; an entirely empty interior gives 0.
pub fn field_hight_max(field: &Field) -> (r: usize)
    ensures
        r == max_height(grid_of(*field)),
        r < ROW_HI,
{
    let mut y: usize = ROW_LO;
    while y < ROW_HI
        invariant
            ROW_LO <= y <= ROW_HI,
            height_from(grid_of(*field), ROW_LO as int) == height_from(grid_of(*field), y as int),
        decreases ROW_HI - y,
    {
        let mut x: usize = COL_LO;
        while x < COL_HI
            invariant
                COL_LO <= x <= COL_HI,
                ROW_LO <= y < ROW_HI,
                height_from(grid_of(*field), ROW_LO as int) == height_from(grid_of(*field), y as int),
                forall|k: int| COL_LO <= k < x ==> !#[trigger] occupied(grid_of(*field), y as int, k),
            decreases COL_HI - x,
        {
            let v = field[y][x];
            assert(v == cell(grid_of(*field), y as int, x as int));
            if v != NONE {
                assert(occupied(grid_of(*field), y as int, x as int));
                assert(row_any(grid_of(*field), y as int));
                return FLOOR - y;
            }
            x = x + 1;
        }
        assert(!row_any(grid_of(*field), y as int));
        y = y + 1;
    }
    0
}

proof fn lemma_col_height_from_bounds(f: Grid, x: int, y: int)
    requires
        ROW_LO <= y <= ROW_HI,
    ensures
        0 <= col_height_from(f, x, y) <= FLOOR - y,
    decreases ROW_HI - y,
{
    if y < ROW_HI && !occupied(f, y, x) {
        lemma_col_height_from_bounds(f, x, y + 1);
    }
}

/// Height of interior column `x` above the floor, 0 if it is empty.
fn column_height(field: &Field, x: usize) -> (r: usize)
    requires
        COL_LO <= x < COL_HI,
    ensures
        r == col_height(grid_of(*field), x as int),
        r < ROW_HI,
{
    let mut y: usize = ROW_LO;
    while y < ROW_HI
        invariant
            ROW_LO <= y <= ROW_HI,
            COL_LO <= x < COL_HI,
            col_height(grid_of(*field), x as int) == col_height_from(grid_of(*field), x as int, y as int),
        decreases ROW_HI - y,
    {
        let v = field[y][x];
        assert(v == cell(grid_of(*field), y as int, x as int));
        if v != NONE {
            return FLOOR - y;
        }
        y = y + 1;
    }
    0
}

/// Sum of the absolute height differences of every two neighbouring interior columns.
pub fn diff_in_height(field: &Field) -> (r: usize)
    ensures
        r == height_diff(grid_of(*field)),
        r <= (INNER_WIDTH - 1) * ROW_HI,
{
    let ghost h = heights(grid_of(*field));
    let mut diff: usize = 0;
    let mut prev: usize = column_height(field, COL_LO);
    let mut i: usize = 1;
    while i < INNER_WIDTH
        invariant
            1 <= i <= INNER_WIDTH,
            h == heights(grid_of(*field)),
            prev == h[i - 1],
            prev < ROW_HI,
            diff == step_sum(h, i - 1),
            diff <= (i - 1) * ROW_HI,
        decreases INNER_WIDTH - i,
    {
        let cur = column_height(field, COL_LO + i);
        assert(cur == h[i as int]);
        let d = if prev >= cur { prev - cur } else { cur - prev };
        assert(step_sum(h, i as int) == step_sum(h, i - 1) + abs_diff(h[i - 1], h[i as int]));
        diff = diff + d;
        prev = cur;
        i = i + 1;
    }
    diff
}

proof fn lemma_col_dead_bounds(f: Grid, x: int, y: int, covered: bool)
    requires
        ROW_LO <= y,
    ensures
        0 <= col_dead(f, x, y, covered) <= if y >= ROW_HI { 0 } else { ROW_HI - y },
    decreases ROW_HI - y,
{
    if y < ROW_HI {
        lemma_col_dead_bounds(f, x, y + 1, covered || occupied(f, y, x));
    }
}

/// Counts the empty interior cells that have an occupied cell somewhere above
/// them in the same column.
pub fn dead_space_count(field: &Field) -> (r: usize)
    ensures
        r == dead_space(grid_of(*field)),
        r <= INNER_WIDTH * ROW_HI,
{
    let mut count: usize = 0;
    let mut x: usize = COL_LO;
    while x < COL_HI
        invariant
            COL_LO <= x <= COL_HI,
            count == dead_upto(grid_of(*field), x as int),
            count <= (x - COL_LO) * ROW_HI,
        decreases COL_HI - x,
    {
        let mut col: usize = 0;
        let mut covered = false;
        let mut y: usize = ROW_LO;
        while y < ROW_HI
            invariant
                ROW_LO <= y <= ROW_HI,
                COL_LO <= x < COL_HI,
                col + col_dead(grid_of(*field), x as int, y as int, covered)
                    == col_dead(grid_of(*field), x as int, ROW_LO as int, false),
                col <= y - ROW_LO,
            decreases ROW_HI - y,
        {
            let v = field[y][x];
            assert(v == cell(grid_of(*field), y as int, x as int));
            if covered && v == NONE {
                col = col + 1;
            }
            if v != NONE {
                covered = true;
            }
            y = y + 1;
        }
        proof {
            lemma_col_dead_bounds(grid_of(*field), x as int, ROW_LO as int, false);
        }
        count = count + col;
        x = x + 1;
    }
    count
}


pub open spec fn interior_empty(f: Grid) -> bool {
    forall|y: int, x: int|
        ROW_LO <= y < ROW_HI && COL_LO <= x < COL_HI ==> !#[trigger] occupied(f, y, x)
}

pub open spec fn interior_full(f: Grid) -> bool {
    forall|y: int, x: int|
        ROW_LO <= y < ROW_HI && COL_LO <= x < COL_HI ==> #[trigger] occupied(f, y, x)
}

proof fn lemma_full_rows_extremes(f: Grid, n: int)
    requires
        ROW_LO <= n <= ROW_HI,
    ensures
        interior_empty(f) ==> full_rows(f, n) == 0,
        interior_full(f) ==> full_rows(f, n) == n - ROW_LO,
    decreases n,
{
    if n > ROW_LO {
        lemma_full_rows_extremes(f, n - 1);
        if interior_empty(f) {
            assert(!occupied(f, n - 1, COL_LO as int));
        }
    }
}

/// An entirely empty interior has no full row, and an entirely full interior
/// has every one of its rows full.
pub proof fn lemma_lines_ready_extremes(f: Grid)
    ensures
        interior_empty(f) ==> lines_ready(f) == 0,
        interior_full(f) ==> lines_ready(f) == ROW_HI - ROW_LO,
{
    lemma_full_rows_extremes(f, ROW_HI as int);
}

proof fn lemma_step_sum_flat(h: Seq<int>, n: int)
    requires
        n < h.len(),
        forall|i: int| 0 <= i < h.len() ==> #[trigger] h[i] == h[0],
    ensures
        step_sum(h, n) == 0,
    decreases n,
{
    if n > 0 {
        lemma_step_sum_flat(h, n - 1);
    }
}

proof fn lemma_step_sum_staircase(h: Seq<int>, n: int)
    requires
        0 <= n < h.len(),
        forall|i: int| 0 <= i < h.len() ==> h[i] == i,
    ensures
        step_sum(h, n) == n,
    decreases n,
{
    if n > 0 {
        lemma_step_sum_staircase(h, n - 1);
    }
}

/// A flat surface, every interior column of one height, has no height difference.
pub proof fn lemma_height_diff_flat(f: Grid)
    requires
        forall|x: int| COL_LO <= x < COL_HI ==> #[trigger] col_height(f, x) == col_height(f, COL_LO as int),
    ensures
        height_diff(f) == 0,
{
    let h = heights(f);
    assert forall|i: int| 0 <= i < h.len() implies #[trigger] h[i] == h[0] by {
        assert(col_height(f, COL_LO + i) == col_height(f, COL_LO as int));
    }
    lemma_step_sum_flat(h, INNER_WIDTH - 1);
}

/// A staircase of column heights 0, 1, ..., n-1 over the n interior columns has
/// height difference exactly n - 1.
pub proof fn lemma_height_diff_staircase(f: Grid)
    requires
        forall|x: int| COL_LO <= x < COL_HI ==> #[trigger] col_height(f, x) == x - COL_LO,
    ensures
        height_diff(f) == INNER_WIDTH - 1,
{
    let h = heights(f);
    assert forall|i: int| 0 <= i < h.len() implies h[i] == i by {
        assert(col_height(f, COL_LO + i) == i);
    }
    lemma_step_sum_staircase(h, INNER_WIDTH - 1);
}

/// Every column's occupied interior cells form one run that reaches the floor.
pub open spec fn settled(f: Grid) -> bool {
    forall|x: int, y1: int, y2: int|
        COL_LO <= x < COL_HI && ROW_LO <= y1 < y2 < ROW_HI && #[trigger] occupied(f, y1, x)
            ==> #[trigger] occupied(f, y2, x)
}

proof fn lemma_col_dead_settled(f: Grid, x: int, y: int, covered: bool)
    requires
        settled(f),
        COL_LO <= x < COL_HI,
        ROW_LO <= y,
        covered ==> forall|k: int| y <= k < ROW_HI ==> #[trigger] occupied(f, k, x),
    ensures
        col_dead(f, x, y, covered) == 0,
    decreases ROW_HI - y,
{
    if y < ROW_HI {
        let c2 = covered || occupied(f, y, x);
        if occupied(f, y, x) {
            assert forall|k: int| y + 1 <= k < ROW_HI implies #[trigger] occupied(f, k, x) by {
                assert(occupied(f, y, x));
            }
        }
        lemma_col_dead_settled(f, x, y + 1, c2);
    }
}

proof fn lemma_dead_upto_settled(f: Grid, x: int)
    requires
        settled(f),
        COL_LO <= x <= COL_HI,
    ensures
        dead_upto(f, x) == 0,
    decreases x,
{
    if x > COL_LO {
        lemma_dead_upto_settled(f, x - 1);
        lemma_col_dead_settled(f, x - 1, ROW_LO as int, false);
    }
}

/// A board whose columns are each one run of occupied cells standing on the
/// floor has no covered hole.
pub proof fn lemma_dead_space_settled(f: Grid)
    requires
        settled(f),
    ensures
        dead_space(f) == 0,
{
    lemma_dead_upto_settled(f, COL_HI as int);
}

} // verus!
