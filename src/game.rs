use vstd::prelude::*;

use crate::blocks::{BlockShape, NONE, WALL};
use crate::field::{
    cell, full_rows, grid_of, lines_ready, row_full, Field, Grid, COL_HI, COL_LO, FIELD_HEIGHT, FIELD_WIDTH, FLOOR,
    ROW_HI, ROW_LO,
};

verus! {

/// Anchor of the active piece's 4x4 matrix on the board.
#[derive(Clone, Copy, Debug, PartialEq, Eq, Structural)]
pub struct Position {
    pub x: usize,
    pub y: usize,
}

impl Position {
    /// Where a new piece appears.
    pub fn init() -> (r: Position)
        ensures
            r.x == 5 && r.y == 0,
    {
        Position { x: 5, y: 0 }
    }
}

/// The state of one game: the board, the active piece and its anchor, and the
/// cumulative cleared-line count and score.
#[derive(Clone, Copy, Debug)]
pub struct Game {
    pub field: Field,
    pub pos: Position,
    pub block: BlockShape,
    pub line: usize,
    pub score: usize,
}

/// A game as mathematical values.
pub struct GameModel {
    pub field: Grid,
    pub x: int,
    pub y: int,
    pub block: Grid,
    pub line: int,
    pub score: int,
}

pub open spec fn shape_of(b: BlockShape) -> Grid {
    Seq::new(4, |y: int| b@[y]@)
}

impl View for Game {
    type V = GameModel;

    open spec fn view(&self) -> GameModel {
        GameModel {
            field: grid_of(self.field),
            x: self.pos.x as int,
            y: self.pos.y as int,
            block: shape_of(self.block),
            line: self.line as int,
            score: self.score as int,
        }
    }
}

/// Cell `(by, bx)` of piece `b` anchored at `(x, y)` is solid and meets a wall,
/// a locked cell or the outside of the board.
pub open spec fn hits(f: Grid, x: int, y: int, b: Grid, by: int, bx: int) -> bool {
    b[by][bx] != NONE && (y + by >= FIELD_HEIGHT || x + bx >= FIELD_WIDTH || cell(f, y + by, x + bx) != NONE)
}

/// Piece `b` anchored at `(x, y)` overlaps something.
pub open spec fn collides(f: Grid, x: int, y: int, b: Grid) -> bool {
    exists|by: int, bx: int| 0 <= by < 4 && 0 <= bx < 4 && #[trigger] hits(f, x, y, b, by, bx)
}

/// Whether `block` anchored at `pos` overlaps a wall, a locked cell or leaves the board.
pub fn is_collision(field: &Field, pos: &Position, block: &BlockShape) -> (r: bool)
    ensures
        r == collides(grid_of(*field), pos.x as int, pos.y as int, shape_of(*block)),
{
    let ghost f = grid_of(*field);
    let ghost b = shape_of(*block);
    let mut by: usize = 0;
    while by < 4
        invariant
            f == grid_of(*field),
            b == shape_of(*block),
            0 <= by <= 4,
            forall|i: int, j: int| 0 <= i < by && 0 <= j < 4 ==> !#[trigger] hits(f, pos.x as int, pos.y as int, b, i, j),
        decreases 4 - by,
    {
        let mut bx: usize = 0;
        while bx < 4
            invariant
                f == grid_of(*field),
                b == shape_of(*block),
                0 <= by < 4,
                0 <= bx <= 4,
                forall|i: int, j: int| 0 <= i < by && 0 <= j < 4 ==> !#[trigger] hits(f, pos.x as int, pos.y as int, b, i, j),
                forall|j: int| 0 <= j < bx ==> !#[trigger] hits(f, pos.x as int, pos.y as int, b, by as int, j),
            decreases 4 - bx,
        {
            let v = block[by][bx];
            assert(v == b[by as int][bx as int]);
            if v != NONE {
                if pos.y >= FIELD_HEIGHT || by >= FIELD_HEIGHT - pos.y || pos.x >= FIELD_WIDTH || bx >= FIELD_WIDTH - pos.x {
                    assert(hits(f, pos.x as int, pos.y as int, b, by as int, bx as int));
                    return true;
                }
                let c = field[pos.y + by][pos.x + bx];
                assert(c == cell(f, pos.y + by, pos.x + bx));
                if c != NONE {
                    assert(hits(f, pos.x as int, pos.y as int, b, by as int, bx as int));
                    return true;
                }
            }
            bx = bx + 1;
        }
        by = by + 1;
    }
    false
}


/// The model after a lateral or vertical move to `(x, y)`: refused, leaving
/// everything as it was, when the piece would overlap something there.
pub open spec fn moved(m: GameModel, x: int, y: int) -> GameModel {
    if collides(m.field, x, y, m.block) {
        m
    } else {
        GameModel { x, y, ..m }
    }
}

/// Moves the active piece to `new_pos` unless it would overlap something there.
pub fn move_block(game: &mut Game, new_pos: Position)
    ensures
        final(game)@ == moved(old(game)@, new_pos.x as int, new_pos.y as int),
{
    if !is_collision(&game.field, &new_pos, &game.block) {
        game.pos = new_pos;
    }
}

/// `b` turned a quarter clockwise.
pub open spec fn turned_right(b: Grid) -> Grid {
    Seq::new(4, |y: int| Seq::new(4, |x: int| b[3 - x][y]))
}

/// `b` turned a quarter counter-clockwise.
pub open spec fn turned_left(b: Grid) -> Grid {
    Seq::new(4, |y: int| Seq::new(4, |x: int| b[x][3 - y]))
}

/// The model with the active piece replaced by `b`, unless `b` would overlap
/// something at the piece's anchor.
pub open spec fn reshaped(m: GameModel, b: Grid) -> GameModel {
    if collides(m.field, m.x, m.y, b) {
        m
    } else {
        GameModel { block: b, ..m }
    }
}

fn turn(block: &BlockShape, clockwise: bool) -> (r: BlockShape)
    ensures
        shape_of(r) == if clockwise { turned_right(shape_of(*block)) } else { turned_left(shape_of(*block)) },
{
    let mut r: BlockShape = [[NONE; 4]; 4];
    let mut y: usize = 0;
    while y < 4
        invariant
            0 <= y <= 4,
            forall|i: int, j: int| 0 <= i < y && 0 <= j < 4 ==> #[trigger] r[i][j] == if clockwise { block[3 - j][i] } else { block[j][3 - i] },
        decreases 4 - y,
    {
        let mut row: [usize; 4] = [NONE; 4];
        let mut x: usize = 0;
        while x < 4
            invariant
                0 <= y < 4,
                0 <= x <= 4,
                forall|j: int| 0 <= j < x ==> #[trigger] row[j] == if clockwise { block[3 - j][y as int] } else { block[j][3 - y] },
            decreases 4 - x,
        {
            if clockwise {
                row[x] = block[3 - x][y];
            } else {
                row[x] = block[x][3 - y];
            }
            x = x + 1;
        }
        r[y] = row;
        y = y + 1;
    }
    let ghost t = if clockwise { turned_right(shape_of(*block)) } else { turned_left(shape_of(*block)) };
    assert(shape_of(r) =~~= t);
    r
}

/// Turns the active piece a quarter clockwise unless the turned piece would
/// overlap something.
pub fn rotate_right(game: &mut Game)
    ensures
        final(game)@ == reshaped(old(game)@, turned_right(old(game)@.block)),
{
    let new_shape = turn(&game.block, true);
    if !is_collision(&game.field, &game.pos, &new_shape) {
        game.block = new_shape;
    }
}

/// Turns the active piece a quarter counter-clockwise unless the turned piece
/// would overlap something.
pub fn rotate_left(game: &mut Game)
    ensures
        final(game)@ == reshaped(old(game)@, turned_left(old(game)@.block)),
{
    let new_shape = turn(&game.block, false);
    if !is_collision(&game.field, &game.pos, &new_shape) {
        game.block = new_shape;
    }
}

/// The row the piece comes to rest in when it falls from row `y`.
pub open spec fn drop_row(f: Grid, x: int, y: int, b: Grid) -> int
    decreases FIELD_HEIGHT - y,
{
    if y >= FIELD_HEIGHT || collides(f, x, y + 1, b) {
        y
    } else {
        drop_row(f, x, y + 1, b)
    }
}

pub open spec fn dropped(m: GameModel) -> GameModel {
    GameModel { y: drop_row(m.field, m.x, m.y, m.block), ..m }
}

/// Moves the active piece straight down until one more row would overlap something.
pub fn hard_drop(game: &mut Game)
    ensures
        final(game)@ == dropped(old(game)@),
{
    let ghost m0 = game@;
    while game.pos.y < FIELD_HEIGHT
        invariant
            game@.field == m0.field,
            game@.block == m0.block,
            game@.x == m0.x,
            game@.line == m0.line,
            game@.score == m0.score,
            drop_row(m0.field, m0.x, m0.y, m0.block) == drop_row(m0.field, m0.x, game@.y, m0.block),
        ensures
            game@.field == m0.field,
            game@.block == m0.block,
            game@.x == m0.x,
            game@.line == m0.line,
            game@.score == m0.score,
            drop_row(m0.field, m0.x, m0.y, m0.block) == game@.y,
        decreases FIELD_HEIGHT - game.pos.y,
    {
        let next = Position { x: game.pos.x, y: game.pos.y + 1 };
        if is_collision(&game.field, &next, &game.block) {
            break;
        }
        game.pos = next;
    }
}

/// `b` anchored at `(x, y)` burnt into `f`: each solid cell of the piece that
/// lies on the board overwrites the board's cell.
pub open spec fn placed(f: Grid, x: int, y: int, b: Grid) -> Grid {
    Seq::new(FIELD_HEIGHT as nat, |r: int| Seq::new(FIELD_WIDTH as nat, |c: int|
        if y <= r < y + 4 && x <= c < x + 4 && b[r - y][c - x] != NONE {
            b[r - y][c - x]
        } else {
            f[r][c]
        }
    ))
}

pub open spec fn fixed(m: GameModel) -> GameModel {
    GameModel { field: placed(m.field, m.x, m.y, m.block), ..m }
}

/// Burns the active piece into the board at its anchor.
pub fn fix_block(game: &mut Game)
    ensures
        final(game)@ == fixed(old(game)@),
{
    let ghost m0 = game@;
    let ghost target = placed(m0.field, m0.x, m0.y, m0.block);
    let px = game.pos.x;
    let py = game.pos.y;
    let mut r: usize = 0;
    while r < FIELD_HEIGHT
        invariant
            game.pos.x == px && game.pos.y == py,
            game@.block == m0.block && game@.x == m0.x && game@.y == m0.y,
            game@.line == m0.line && game@.score == m0.score,
            target == placed(m0.field, m0.x, m0.y, m0.block),
            0 <= r <= FIELD_HEIGHT,
            forall|i: int| 0 <= i < r ==> #[trigger] game.field@[i]@ == target[i],
            forall|i: int| r <= i < FIELD_HEIGHT ==> #[trigger] game.field@[i]@ == m0.field[i],
        decreases FIELD_HEIGHT - r,
    {
        let mut row = game.field[r];
        let mut c: usize = 0;
        while c < FIELD_WIDTH
            invariant
                game.pos.x == px && game.pos.y == py,
                game@.block == m0.block && game@.x == m0.x && game@.y == m0.y,
                target == placed(m0.field, m0.x, m0.y, m0.block),
                0 <= r < FIELD_HEIGHT,
                0 <= c <= FIELD_WIDTH,
                forall|j: int| 0 <= j < c ==> #[trigger] row@[j] == target[r as int][j],
                forall|j: int| c <= j < FIELD_WIDTH ==> #[trigger] row@[j] == m0.field[r as int][j],
            decreases FIELD_WIDTH - c,
        {
            if py <= r && r - py < 4 && px <= c && c - px < 4 {
                let v = game.block[r - py][c - px];
                assert(v == m0.block[r - py][c - px]);
                if v != NONE {
                    row[c] = v;
                }
            }
            c = c + 1;
        }
        assert(row@ =~= target[r as int]);
        game.field[r] = row;
        r = r + 1;
    }
    assert(game@.field =~~= target);
}


/// State of cell `(y, x)` on a fresh board: walls left, right and below the
/// playing area, everything else empty.
pub open spec fn initial_cell(y: int, x: int) -> usize {
    if (y < FLOOR && (x == COL_LO - 1 || x == COL_HI)) || (y == FLOOR && COL_LO - 1 <= x <= COL_HI) {
        WALL
    } else {
        NONE
    }
}

/// A playing row with nothing in it: the two side walls only.
pub open spec fn empty_row() -> Seq<usize> {
    Seq::new(FIELD_WIDTH as nat, |x: int| initial_cell(0, x))
}

fn make_row(y: usize) -> (r: [usize; FIELD_WIDTH])
    ensures
        forall|x: int| 0 <= x < FIELD_WIDTH ==> #[trigger] r@[x] == initial_cell(y as int, x),
{
    let mut r: [usize; FIELD_WIDTH] = [NONE; FIELD_WIDTH];
    let mut x: usize = 0;
    while x < FIELD_WIDTH
        invariant
            0 <= x <= FIELD_WIDTH,
            forall|j: int| 0 <= j < x ==> #[trigger] r@[j] == initial_cell(y as int, j),
        decreases FIELD_WIDTH - x,
    {
        if (y < FLOOR && (x == COL_LO - 1 || x == COL_HI)) || (y == FLOOR && COL_LO - 1 <= x && x <= COL_HI) {
            r[x] = WALL;
        } else {
            r[x] = NONE;
        }
        x = x + 1;
    }
    r
}

impl Game {
    /// A fresh game with `block` as its active piece at the spawn position.
    pub fn new(block: BlockShape) -> (r: Game)
        ensures
            forall|y: int, x: int| 0 <= y < FIELD_HEIGHT && 0 <= x < FIELD_WIDTH ==> #[trigger] cell(r@.field, y, x) == initial_cell(y, x),
            r@.x == 5 && r@.y == 0,
            r@.block == shape_of(block),
            r@.line == 0 && r@.score == 0,
    {
        let mut field: Field = [[NONE; FIELD_WIDTH]; FIELD_HEIGHT];
        let mut y: usize = 0;
        while y < FIELD_HEIGHT
            invariant
                0 <= y <= FIELD_HEIGHT,
                forall|i: int, x: int| 0 <= i < y && 0 <= x < FIELD_WIDTH ==> #[trigger] field@[i]@[x] == initial_cell(i, x),
            decreases FIELD_HEIGHT - y,
        {
            field[y] = make_row(y);
            y = y + 1;
        }
        Game { field, pos: Position::init(), block, line: 0, score: 0 }
    }
}

/// Row `y` is an interior row that is full and is cleared on landing.
pub open spec fn cleared(f: Grid, y: int) -> bool {
    ROW_LO <= y < ROW_HI && row_full(f, y)
}

/// The rows of `y .. ROW_HI` that are not cleared, top to bottom.
pub open spec fn kept_below(f: Grid, y: int) -> Seq<int>
    decreases ROW_HI - y,
{
    if y >= ROW_HI || y < 0 {
        Seq::empty()
    } else if cleared(f, y) {
        kept_below(f, y + 1)
    } else {
        seq![y].add(kept_below(f, y + 1))
    }
}

/// The board after clearing its full rows: the rows kept stand on the floor in
/// their order, empty rows fill the top; the floor and below stay.
pub open spec fn compacted(f: Grid) -> Grid {
    let k = kept_below(f, 0);
    let top = ROW_HI - k.len();
    Seq::new(FIELD_HEIGHT as nat, |r: int|
        if r >= ROW_HI {
            f[r]
        } else if r >= top {
            f[k[r - top]]
        } else {
            empty_row()
        }
    )
}

proof fn lemma_kept_below(f: Grid, y: int)
    requires
        0 <= y <= ROW_HI,
    ensures
        kept_below(f, y).len() <= ROW_HI - y,
        forall|i: int| 0 <= i < kept_below(f, y).len() ==> y <= #[trigger] kept_below(f, y)[i] < ROW_HI,
    decreases ROW_HI - y,
{
    if y < ROW_HI {
        lemma_kept_below(f, y + 1);
    }
}

proof fn lemma_kept_counts_full_rows(f: Grid, y: int)
    requires
        ROW_LO <= y <= ROW_HI,
    ensures
        kept_below(f, y).len() + full_rows(f, ROW_HI as int) - full_rows(f, y) == ROW_HI - y,
    decreases ROW_HI - y,
{
    if y < ROW_HI {
        lemma_kept_counts_full_rows(f, y + 1);
    }
}

/// The rows kept on landing are exactly those that are not full.
proof fn lemma_cleared_is_lines_ready(f: Grid)
    ensures
        ROW_HI - kept_below(f, 0).len() == lines_ready(f),
{
    lemma_kept_counts_full_rows(f, ROW_LO as int);
    assert(kept_below(f, 0) == seq![0int].add(kept_below(f, 1)));
}

fn is_full_row(field: &Field, y: usize) -> (r: bool)
    requires
        y < FIELD_HEIGHT,
    ensures
        r == row_full(grid_of(*field), y as int),
{
    let mut x: usize = COL_LO;
    while x < COL_HI
        invariant
            COL_LO <= x <= COL_HI,
            y < FIELD_HEIGHT,
            forall|k: int| COL_LO <= k < x ==> #[trigger] crate::field::occupied(grid_of(*field), y as int, k),
        decreases COL_HI - x,
    {
        let v = field[y][x];
        assert(v == cell(grid_of(*field), y as int, x as int));
        if v == NONE {
            assert(!crate::field::occupied(grid_of(*field), y as int, x as int));
            return false;
        }
        x = x + 1;
    }
    true
}

/// Removes the full interior rows, lets the rows above them fall, fills the top
/// with empty rows, and returns how many rows were removed.
pub fn erase_line(field: &mut Field) -> (r: usize)
    ensures
        grid_of(*final(field)) == compacted(grid_of(*old(field))),
        r == ROW_HI - kept_below(grid_of(*old(field)), 0).len(),
        r == lines_ready(grid_of(*old(field))),
{
    let src: Field = *field;
    let ghost f = grid_of(src);
    let mut w: usize = ROW_HI;
    let mut y: usize = ROW_HI;
    while y > 0
        invariant
            f == grid_of(src),
            0 <= y <= w <= ROW_HI,
            w == ROW_HI - kept_below(f, y as int).len(),
            forall|i: int| w <= i < ROW_HI ==> #[trigger] field@[i]@ == f[kept_below(f, y as int)[i - w]],
            forall|i: int| ROW_HI <= i < FIELD_HEIGHT ==> #[trigger] field@[i]@ == f[i],
        decreases y,
    {
        y = y - 1;
        proof {
            lemma_kept_below(f, y as int);
            lemma_kept_below(f, y + 1);
        }
        let full = y >= ROW_LO && is_full_row(&src, y);
        if !full {
            let ghost kb = kept_below(f, y + 1);
            assert(kept_below(f, y as int) == seq![y as int].add(kb));
            w = w - 1;
            field[w] = src[y];
        }
    }
    let ghost k = kept_below(f, 0);
    let r = w;
    let mut i: usize = 0;
    while i < w
        invariant
            f == grid_of(src),
            k == kept_below(f, 0),
            w == ROW_HI - k.len(),
            0 <= i <= w <= ROW_HI,
            forall|j: int| w <= j < ROW_HI ==> #[trigger] field@[j]@ == f[k[j - w]],
            forall|j: int| ROW_HI <= j < FIELD_HEIGHT ==> #[trigger] field@[j]@ == f[j],
            forall|j: int| 0 <= j < i ==> #[trigger] field@[j]@ == empty_row(),
        decreases w - i,
    {
        let row = make_row(0);
        assert(row@ =~= empty_row());
        field[i] = row;
        i = i + 1;
    }
    assert(grid_of(*field) =~= compacted(f));
    proof {
        lemma_cleared_is_lines_ready(f);
    }
    r
}


/// Score for clearing `n` rows at one landing.
pub open spec fn line_score(n: int) -> int {
    if n <= 0 {
        0
    } else if n == 1 {
        1
    } else if n == 2 {
        5
    } else if n == 3 {
        25
    } else {
        100
    }
}

fn score_for(n: usize) -> (r: usize)
    ensures
        r == line_score(n as int),
{
    match n {
        0 => 0,
        1 => 1,
        2 => 5,
        3 => 25,
        _ => 100,
    }
}

pub open spec fn saturating(v: int) -> int {
    if v > usize::MAX { usize::MAX as int } else { v }
}

/// Landing found no room for the next piece: the game is over.
#[derive(Clone, Copy, Debug, PartialEq, Eq, Structural)]
pub struct GameOver;

/// The model after landing: the active piece locked, full rows cleared, the
/// score and line count raised (saturating), and `next` made the active piece
/// at the spawn position.
pub open spec fn landed(m: GameModel, next: Grid) -> GameModel {
    let locked = placed(m.field, m.x, m.y, m.block);
    let n = lines_ready(locked);
    GameModel {
        field: compacted(locked),
        x: 5,
        y: 0,
        block: next,
        line: saturating(m.line + n),
        score: saturating(m.score + line_score(n)),
    }
}

/// Locks the active piece, clears full rows, adds to score and line count, and
/// spawns `next`; fails when `next` has no room at the spawn position.
pub fn landing(game: &mut Game, next: BlockShape) -> (r: Result<(), GameOver>)
    ensures
        final(game)@ == landed(old(game)@, shape_of(next)),
        r is Err <==> collides(final(game)@.field, 5, 0, shape_of(next)),
{
    let ghost m0 = game@;
    fix_block(game);
    proof {
        lemma_kept_below(game@.field, 0);
    }
    let n = erase_line(&mut game.field);
    assert(n == lines_ready(placed(m0.field, m0.x, m0.y, m0.block)));
    game.score = game.score.saturating_add(score_for(n));
    game.line = game.line.saturating_add(n);
    game.pos = Position::init();
    game.block = next;
    if is_collision(&game.field, &game.pos, &game.block) {
        Err(GameOver)
    } else {
        Ok(())
    }
}


/// Milliseconds between two automatic falls: one second, 100 ms less for every
/// ten cleared lines, never under 100 ms.
pub open spec fn fall_interval(line: int) -> int {
    let t = 1000 - (line / 10) * 100;
    if t <= 0 { 100 } else { t }
}

/// The automatic fall interval for a game that has cleared `line` lines.
pub fn fall_interval_ms(line: usize) -> (r: u64)
    ensures
        r == fall_interval(line as int),
{
    let tens = line / 10;
    if tens >= 10 {
        100
    } else {
        let t = 1000 - (tens as u64) * 100;
        if t == 0 { 100 } else { t }
    }
}

} // verus!
