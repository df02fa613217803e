//! Match detection: blocks at rest that stand three or more in a line of one
//! colour are marked as matched.

use vstd::prelude::*;
use crate::block::{Block, BlockState};
use crate::board::{Board, BoardView};
use crate::geometry::{is_near, is_offset_near, near, offset_near, BLOCK_SIZE, HALF_BLOCK};

verus! {

/// The direction of a line of blocks.
#[derive(Clone, Copy, Debug, PartialEq, Eq, Structural)]
pub enum Axis {
    /// Left to right.
    Row,
    /// Bottom to top.
    Column,
}

/// Whether `b` stands in the cell next after `a` along `axis` (to its right in
/// a row, above it in a column), both at rest and of one colour.
pub open spec fn follows(a: Block, b: Block, axis: Axis) -> bool {
    &&& a.state is Fixed
    &&& b.state is Fixed
    &&& a.color == b.color
    &&& match axis {
        Axis::Row => offset_near(a.x as int, b.x as int, BLOCK_SIZE as int, HALF_BLOCK as int)
            && near(a.y as int, b.y as int, HALF_BLOCK as int),
        Axis::Column => offset_near(a.y as int, b.y as int, BLOCK_SIZE as int, HALF_BLOCK as int)
            && near(a.x as int, b.x as int, HALF_BLOCK as int),
    }
}

/// Whether block `j` follows block `i` along `axis`.
pub open spec fn link(s: Seq<Block>, i: int, j: int, axis: Axis) -> bool {
    0 <= i < s.len() && 0 <= j < s.len() && follows(s[i], s[j], axis)
}

/// Whether block `k` is the neighbour of block `i` along `axis`: the next one
/// if `forward`, the one before otherwise.
pub open spec fn neighbour(s: Seq<Block>, i: int, k: int, axis: Axis, forward: bool) -> bool {
    if forward {
        link(s, i, k, axis)
    } else {
        link(s, k, i, axis)
    }
}

/// Whether some block follows block `i` along `axis`.
pub open spec fn has_next(s: Seq<Block>, i: int, axis: Axis) -> bool {
    exists|j: int| link(s, i, j, axis)
}

/// Whether block `i` follows some block along `axis`.
pub open spec fn has_prev(s: Seq<Block>, i: int, axis: Axis) -> bool {
    exists|j: int| link(s, j, i, axis)
}

/// Whether block `i` is one of three blocks in a line along `axis`: the
/// middle one, the last one or the first one.
pub open spec fn in_run(s: Seq<Block>, i: int, axis: Axis) -> bool {
    ||| has_prev(s, i, axis) && has_next(s, i, axis)
    ||| exists|j: int| link(s, j, i, axis) && has_prev(s, j, axis)
    ||| exists|j: int| link(s, i, j, axis) && has_next(s, j, axis)
}

/// Whether block `i` is part of a match: three or more in a row or in a
/// column.
pub open spec fn is_matched(s: Seq<Block>, i: int) -> bool {
    in_run(s, i, Axis::Row) || in_run(s, i, Axis::Column)
}

/// The blocks after match detection: every block of a match is `Matched`,
/// every other block is as it was.
pub open spec fn matched_blocks(s: Seq<Block>) -> Seq<Block> {
    Seq::new(
        s.len(),
        |i: int|
            if is_matched(s, i) {
                s[i].in_state(BlockState::Matched)
            } else {
                s[i]
            },
    )
}

/// The board after match detection.
pub open spec fn spec_match_block(b: BoardView) -> BoardView {
    b.with_blocks(matched_blocks(b.blocks))
}

/// Tests whether `b` follows `a` along `axis`.
pub fn is_following(a: &Block, b: &Block, axis: Axis) -> (r: bool)
    ensures
        r == follows(*a, *b, axis),
{
    if !a.is_fixed() || !b.is_fixed() || a.color != b.color {
        return false;
    }
    match axis {
        Axis::Row => is_offset_near(a.x, b.x, BLOCK_SIZE, HALF_BLOCK) && is_near(
            a.y,
            b.y,
            HALF_BLOCK,
        ),
        Axis::Column => is_offset_near(a.y, b.y, BLOCK_SIZE, HALF_BLOCK) && is_near(
            a.x,
            b.x,
            HALF_BLOCK,
        ),
    }
}

/// For every block, whether some block follows it (`forward`) or whether it
/// follows some block (`!forward`) along `axis`.
fn neighbour_flags(blocks: &Vec<Block>, axis: Axis, forward: bool) -> (flags: Vec<bool>)
    ensures
        flags@.len() == blocks@.len(),
        forall|i: int|
            0 <= i < blocks@.len() ==> flags@[i] == if forward {
                has_next(blocks@, i, axis)
            } else {
                has_prev(blocks@, i, axis)
            },
{
    let n: usize = blocks.len();
    let mut flags: Vec<bool> = Vec::new();
    let mut i: usize = 0;
    while i < n
        invariant
            n == blocks@.len(),
            i <= n,
            flags@.len() == i,
            forall|k: int|
                0 <= k < i ==> flags@[k] == if forward {
                    has_next(blocks@, k, axis)
                } else {
                    has_prev(blocks@, k, axis)
                },
        decreases n - i,
    {
        let mut found: bool = false;
        let mut j: usize = 0;
        while j < n
            invariant
                n == blocks@.len(),
                i < n,
                j <= n,
                found == exists|k: int|
                    0 <= k < j && neighbour(blocks@, i as int, k, axis, forward),
            decreases n - j,
        {
            let hit: bool = if forward {
                is_following(&blocks[i], &blocks[j], axis)
            } else {
                is_following(&blocks[j], &blocks[i], axis)
            };
            assert(hit == neighbour(blocks@, i as int, j as int, axis, forward));
            if hit {
                found = true;
            }
            j = j + 1;
        }
        proof {
            if forward {
                assert(found == has_next(blocks@, i as int, axis)) by {
                    if has_next(blocks@, i as int, axis) {
                        let k = choose|k: int| link(blocks@, i as int, k, axis);
                        assert(neighbour(blocks@, i as int, k, axis, forward));
                    }
                }
            } else {
                assert(found == has_prev(blocks@, i as int, axis)) by {
                    if has_prev(blocks@, i as int, axis) {
                        let k = choose|k: int| link(blocks@, k, i as int, axis);
                        assert(neighbour(blocks@, i as int, k, axis, forward));
                    }
                }
            }
        }
        flags.push(found);
        i = i + 1;
    }
    flags
}

/// For every block, whether it is one of three in a line along `axis`.
fn run_members(blocks: &Vec<Block>, axis: Axis) -> (members: Vec<bool>)
    ensures
        members@.len() == blocks@.len(),
        forall|i: int| 0 <= i < blocks@.len() ==> members@[i] == in_run(blocks@, i, axis),
{
    let n: usize = blocks.len();
    let nexts: Vec<bool> = neighbour_flags(blocks, axis, true);
    let prevs: Vec<bool> = neighbour_flags(blocks, axis, false);
    let mut members: Vec<bool> = Vec::new();
    let mut i: usize = 0;
    while i < n
        invariant
            n == blocks@.len(),
            nexts@.len() == n,
            prevs@.len() == n,
            forall|k: int| 0 <= k < n ==> nexts@[k] == has_next(blocks@, k, axis),
            forall|k: int| 0 <= k < n ==> prevs@[k] == has_prev(blocks@, k, axis),
            i <= n,
            members@.len() == i,
            forall|k: int| 0 <= k < i ==> members@[k] == in_run(blocks@, k, axis),
        decreases n - i,
    {
        let mut last: bool = false;
        let mut first: bool = false;
        let mut j: usize = 0;
        while j < n
            invariant
                n == blocks@.len(),
                nexts@.len() == n,
                prevs@.len() == n,
                forall|k: int| 0 <= k < n ==> nexts@[k] == has_next(blocks@, k, axis),
                forall|k: int| 0 <= k < n ==> prevs@[k] == has_prev(blocks@, k, axis),
                i < n,
                j <= n,
                last == exists|k: int|
                    0 <= k < j && link(blocks@, k, i as int, axis) && has_prev(blocks@, k, axis),
                first == exists|k: int|
                    0 <= k < j && link(blocks@, i as int, k, axis) && has_next(blocks@, k, axis),
            decreases n - j,
        {
            if prevs[j] && is_following(&blocks[j], &blocks[i], axis) {
                last = true;
            }
            if nexts[j] && is_following(&blocks[i], &blocks[j], axis) {
                first = true;
            }
            j = j + 1;
        }
        let member: bool = (prevs[i] && nexts[i]) || last || first;
        members.push(member);
        i = i + 1;
    }
    members
}

impl Board {
    /// Marks every block at rest that stands three or more in a line of one
    /// colour, in a row or in a column, as `Matched`. All matches are found on
    /// the board as it was, so a block shared by a row and a column is marked
    /// once and both lines are marked whole.
    pub fn match_block(&mut self)
        ensures
            final(self)@ == spec_match_block(old(self)@),
    {
        let rows: Vec<bool> = run_members(&self.blocks, Axis::Row);
        let columns: Vec<bool> = run_members(&self.blocks, Axis::Column);
        let n: usize = self.blocks.len();
        let mut i: usize = 0;
        while i < n
            invariant
                n == old(self)@.blocks.len(),
                self.blocks@.len() == n,
                rows@.len() == n,
                columns@.len() == n,
                forall|k: int| 0 <= k < n ==> rows@[k] == in_run(old(self)@.blocks, k, Axis::Row),
                forall|k: int|
                    0 <= k < n ==> columns@[k] == in_run(old(self)@.blocks, k, Axis::Column),
                i <= n,
                forall|k: int| 0 <= k < i ==> self.blocks@[k] == matched_blocks(old(self)@.blocks)[k],
                forall|k: int| i <= k < n ==> self.blocks@[k] == old(self)@.blocks[k],
                self@.with_blocks(old(self)@.blocks) == old(self)@,
            decreases n - i,
        {
            if rows[i] || columns[i] {
                let block: Block = self.blocks[i];
                self.blocks.set(i, Block { state: BlockState::Matched, ..block });
            }
            i = i + 1;
        }
        assert(self.blocks@ =~= matched_blocks(old(self)@.blocks));
    }
}

/// Three blocks in a line are all part of a match.
pub proof fn lemma_three_in_line_match(s: Seq<Block>, i: int, j: int, k: int, axis: Axis)
    requires
        link(s, i, j, axis),
        link(s, j, k, axis),
    ensures
        is_matched(s, i),
        is_matched(s, j),
        is_matched(s, k),
{
    assert(has_next(s, j, axis));
    assert(has_prev(s, j, axis));
    assert(in_run(s, j, axis));
    assert(link(s, i, j, axis) && has_next(s, j, axis));
    assert(in_run(s, i, axis));
    assert(link(s, j, k, axis) && has_prev(s, j, axis));
    assert(in_run(s, k, axis));
}

/// Every block of a line of three or more is part of a match: if each block
/// of `run` follows the one before it, all of them are matched.
pub proof fn lemma_run_matches(s: Seq<Block>, run: Seq<int>, axis: Axis, p: int)
    requires
        run.len() >= 3,
        forall|q: int| 0 <= q < run.len() - 1 ==> link(s, #[trigger] run[q], run[q + 1], axis),
        0 <= p < run.len(),
    ensures
        is_matched(s, run[p]),
{
    if p >= 2 {
        assert(link(s, run[p - 2], run[p - 2 + 1], axis));
        assert(link(s, run[p - 1], run[p - 1 + 1], axis));
        lemma_three_in_line_match(s, run[p - 2], run[p - 1], run[p], axis);
    } else if p == 1 {
        assert(link(s, run[0], run[0int + 1], axis));
        assert(link(s, run[1], run[1int + 1], axis));
        lemma_three_in_line_match(s, run[0], run[1], run[2], axis);
    } else {
        assert(link(s, run[0], run[0int + 1], axis));
        assert(link(s, run[1], run[1int + 1], axis));
        lemma_three_in_line_match(s, run[0], run[1], run[2], axis);
    }
}

/// A matched block is one of three blocks in a line: a block of a line of
/// two, or a block alone, is never matched.
pub proof fn lemma_matched_has_line(s: Seq<Block>, i: int)
    requires
        is_matched(s, i),
    ensures
        exists|axis: Axis, a: int, b: int, c: int|
            #[trigger] link(s, a, b, axis) && #[trigger] link(s, b, c, axis) && (i == a || i == b || i
                == c),
{
    let axis = if in_run(s, i, Axis::Row) {
        Axis::Row
    } else {
        Axis::Column
    };
    assert(in_run(s, i, axis));
    if has_prev(s, i, axis) && has_next(s, i, axis) {
        let a = choose|a: int| link(s, a, i, axis);
        let c = choose|c: int| link(s, i, c, axis);
        assert(link(s, a, i, axis) && link(s, i, c, axis));
    } else if exists|j: int| link(s, j, i, axis) && has_prev(s, j, axis) {
        let b = choose|j: int| link(s, j, i, axis) && has_prev(s, j, axis);
        let a = choose|a: int| link(s, a, b, axis);
        assert(link(s, a, b, axis) && link(s, b, i, axis));
    } else {
        let b = choose|j: int| link(s, i, j, axis) && has_next(s, j, axis);
        let c = choose|c: int| link(s, b, c, axis);
        assert(link(s, i, b, axis) && link(s, b, c, axis));
    }
}

/// A block with no second neighbour in line is never matched: a block is part
/// of a match only if, along one axis, it stands between two blocks or next
/// to a block that has a further neighbour on its far side.
pub proof fn lemma_pair_never_matches(s: Seq<Block>, i: int)
    requires
        forall|axis: Axis, j: int, k: int| !(#[trigger] link(s, j, k, axis) && (#[trigger] link(s, i, j, axis))),
        forall|axis: Axis, j: int, k: int| !(#[trigger] link(s, k, j, axis) && (#[trigger] link(s, j, i, axis))),
        forall|axis: Axis, j: int, k: int| !(#[trigger] link(s, j, i, axis) && (#[trigger] link(s, i, k, axis))),
    ensures
        !is_matched(s, i),
{
}

/// Match detection changes nothing but states: it keeps every block's place,
/// colour and chain marker, and only blocks at rest change state.
pub proof fn lemma_match_keeps_blocks(s: Seq<Block>, i: int)
    requires
        0 <= i < s.len(),
    ensures
        matched_blocks(s).len() == s.len(),
        matched_blocks(s)[i].x == s[i].x,
        matched_blocks(s)[i].y == s[i].y,
        matched_blocks(s)[i].color == s[i].color,
        matched_blocks(s)[i].chain == s[i].chain,
        !(s[i].state is Fixed) ==> matched_blocks(s)[i] == s[i],
        matched_blocks(s)[i].state is Matched <==> (s[i].state is Matched || is_matched(s, i)),
{
}

} // verus!
