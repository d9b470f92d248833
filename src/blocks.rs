use vstd::prelude::*;

use crate::rng::shuffle_vec;

verus! {

/// Cell states of the board.
pub const NONE: usize = 0;
pub const WALL: usize = 1;
pub const GHOST: usize = 2;
pub const I: usize = 3;
pub const O: usize = 4;
pub const S: usize = 5;
pub const Z: usize = 6;
pub const J: usize = 7;
pub const L: usize = 8;
pub const T: usize = 9;

/// Number of distinct piece kinds.
pub const BLOCK_KIND_MAX: usize = 7;

/// A piece's current orientation as a 4x4 matrix of cell states.
pub type BlockShape = [[usize; 4]; 4];

/// The seven piece kinds.
#[derive(Clone, Copy, Debug, PartialEq, Eq, Structural)]
pub enum Blockkind {
    I,
    O,
    S,
    Z,
    J,
    L,
    T,
}

/// Cell `(y, x)` of the spawn orientation of `kind`.
pub open spec fn kind_cell(kind: Blockkind, y: int, x: int) -> usize {
    match kind {
        Blockkind::I => if y == 2 { I } else { NONE },
        Blockkind::O => if (y == 1 || y == 2) && (x == 1 || x == 2) { O } else { NONE },
        Blockkind::S => if (y == 1 && (x == 1 || x == 2)) || (y == 2 && x <= 1) { S } else { NONE },
        Blockkind::Z => if (y == 1 && x <= 1) || (y == 2 && (x == 1 || x == 2)) { Z } else { NONE },
        Blockkind::J => if (y == 1 && x == 0) || (y == 2 && x <= 2) { J } else { NONE },
        Blockkind::L => if (y == 1 && x == 2) || (y == 2 && x <= 2) { L } else { NONE },
        Blockkind::T => if (y == 1 && x == 1) || (y == 2 && x <= 2) { T } else { NONE },
    }
}

pub open spec fn is_shape_of(b: BlockShape, kind: Blockkind) -> bool {
    forall|y: int, x: int| 0 <= y < 4 && 0 <= x < 4 ==> #[trigger] b[y][x] == kind_cell(kind, y, x)
}

/// The spawn orientation of `kind`.
pub fn block_of(kind: Blockkind) -> (r: BlockShape)
    ensures
        is_shape_of(r, kind),
{
    let mut r: BlockShape = [[NONE; 4]; 4];
    let mut y: usize = 0;
    while y < 4
        invariant
            0 <= y <= 4,
            forall|i: int, x: int| 0 <= i < y && 0 <= x < 4 ==> #[trigger] r[i][x] == kind_cell(kind, i, x),
        decreases 4 - y,
    {
        let mut row: [usize; 4] = [NONE; 4];
        let mut x: usize = 0;
        while x < 4
            invariant
                0 <= y < 4,
                0 <= x <= 4,
                forall|j: int| 0 <= j < x ==> #[trigger] row[j] == kind_cell(kind, y as int, j),
            decreases 4 - x,
        {
            let v = match kind {
                Blockkind::I => if y == 2 { I } else { NONE },
                Blockkind::O => if (y == 1 || y == 2) && (x == 1 || x == 2) { O } else { NONE },
                Blockkind::S => if (y == 1 && (x == 1 || x == 2)) || (y == 2 && x <= 1) { S } else { NONE },
                Blockkind::Z => if (y == 1 && x <= 1) || (y == 2 && (x == 1 || x == 2)) { Z } else { NONE },
                Blockkind::J => if (y == 1 && x == 0) || (y == 2 && x <= 2) { J } else { NONE },
                Blockkind::L => if (y == 1 && x == 2) || (y == 2 && x <= 2) { L } else { NONE },
                Blockkind::T => if (y == 1 && x == 1) || (y == 2 && x <= 2) { T } else { NONE },
            };
            row[x] = v;
            x = x + 1;
        }
        r[y] = row;
        y = y + 1;
    }
    r
}

/// Every kind once, in declaration order.
pub open spec fn all_kinds() -> Seq<Blockkind> {
    seq![Blockkind::I, Blockkind::O, Blockkind::S, Blockkind::Z, Blockkind::J, Blockkind::L, Blockkind::T]
}

/// `s` is a bag: the spawn shapes of the seven kinds, each once, in some order.
pub open spec fn is_bag(s: Seq<BlockShape>) -> bool {
    &&& s.len() == BLOCK_KIND_MAX
    &&& exists|kinds: Seq<Blockkind>| {
        &&& kinds.to_multiset() == all_kinds().to_multiset()
        &&& kinds.len() == BLOCK_KIND_MAX
        &&& forall|j: int| 0 <= j < BLOCK_KIND_MAX ==> is_shape_of(#[trigger] s[j], kinds[j])
    }
}

/// A bag of the seven pieces in random order: each kind exactly once.
pub fn gen_block_7() -> (r: Vec<BlockShape>)
    ensures
        is_bag(r@),
{
    let mut que: Vec<Blockkind> = vec![
        Blockkind::I,
        Blockkind::O,
        Blockkind::S,
        Blockkind::Z,
        Blockkind::J,
        Blockkind::L,
        Blockkind::T,
    ];
    assert(que@ =~= all_kinds());
    shuffle_vec(&mut que);
    let mut r: Vec<BlockShape> = Vec::new();
    let mut j: usize = 0;
    while j < que.len()
        invariant
            que.len() == BLOCK_KIND_MAX,
            0 <= j <= que.len(),
            r.len() == j,
            forall|b: int| 0 <= b < j ==> is_shape_of(#[trigger] r[b], que[b]),
        decreases que.len() - j,
    {
        r.push(block_of(que[j]));
        j = j + 1;
    }
    r
}


/// Takes the next piece off the front of `queue`, first refilling an empty
/// queue with a fresh bag of seven.
pub fn take_next(queue: &mut Vec<BlockShape>) -> (r: BlockShape)
    ensures
        old(queue).len() > 0 ==> r == old(queue)[0] && final(queue)@ == old(queue)@.subrange(1, old(queue).len() as int),
        old(queue).len() == 0 ==> exists|bag: Seq<BlockShape>|
            is_bag(bag) && r == bag[0] && final(queue)@ == #[trigger] bag.subrange(1, BLOCK_KIND_MAX as int),
{
    if queue.len() == 0 {
        *queue = gen_block_7();
    }
    queue.remove(0)
}

} // verus!
