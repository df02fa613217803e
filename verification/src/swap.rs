//! Swapping: the cursor orders the two blocks under it to change places, the
//! ordered blocks slide to their new column, and settle on arrival.

use vstd::prelude::*;
use crate::block::{Block, BlockState, MOVE_DURATION_MS};
use crate::board::{Board, BoardView, Cursor};
use crate::geometry::{clamp_coord, is_near, near, saturate, BLOCK_SIZE, HALF_BLOCK};

verus! {

/// Whether a block lies in the cell centred at `(x, y)`.
pub open spec fn in_cell(b: Block, x: int, y: int) -> bool {
    near(b.x as int, x, HALF_BLOCK as int) && near(b.y as int, y, HALF_BLOCK as int)
}

/// The block in the cell centred at `(x, y)`, whatever its state: the last
/// one of the sequence if several lie there.
pub open spec fn occupant(s: Seq<Block>, x: int, y: int) -> Option<int>
    decreases s.len(),
{
    if s.len() == 0 {
        None
    } else if in_cell(s.last(), x, y) {
        Some(s.len() - 1)
    } else {
        occupant(s.drop_last(), x, y)
    }
}

/// Whether a block that is not at rest hangs into the cell centred at
/// `(x, y)` from above: it is higher than the cell by half a block or more
/// and by less than a whole one.
pub open spec fn hangs_above(b: Block, x: int, y: int) -> bool {
    &&& !(b.state is Fixed)
    &&& near(b.x as int, x, HALF_BLOCK as int)
    &&& !near(b.y as int, y, HALF_BLOCK as int)
    &&& 0 < b.y - y < BLOCK_SIZE
}

/// Whether some block that is not at rest hangs into the cell centred at
/// `(x, y)` from above.
pub open spec fn guarded(s: Seq<Block>, x: int, y: int) -> bool {
    exists|i: int| 0 <= i < s.len() && hangs_above(#[trigger] s[i], x, y)
}

/// Centre of the cell under the left half of the cursor.
pub open spec fn left_x(c: Cursor) -> int {
    c.x - HALF_BLOCK
}

/// Centre of the cell under the right half of the cursor.
pub open spec fn right_x(c: Cursor) -> int {
    c.x + HALF_BLOCK
}

/// A block ordered to the column at `x`.
pub open spec fn ordered_to(b: Block, x: int) -> Block {
    b.in_state(BlockState::Move { target_x: clamp_coord(x) as i32 })
}

/// The blocks after a swap at the cursor.
///
/// * Both cells hold a block at rest: the two change places.
/// * One cell is empty, the other holds a block at rest, and nothing hangs
///   into the empty cell from above: that block moves over.
/// * Otherwise nothing happens; a block that is not at rest is never moved.
pub open spec fn swapped_blocks(s: Seq<Block>, c: Cursor) -> Seq<Block> {
    let left = occupant(s, left_x(c), c.y as int);
    let right = occupant(s, right_x(c), c.y as int);
    match (left, right) {
        (Some(l), Some(r)) => if s[l].state is Fixed && s[r].state is Fixed {
            s.update(l, ordered_to(s[l], right_x(c))).update(r, ordered_to(s[r], left_x(c)))
        } else {
            s
        },
        (None, Some(r)) => if s[r].state is Fixed && !guarded(s, left_x(c), c.y as int) {
            s.update(r, ordered_to(s[r], left_x(c)))
        } else {
            s
        },
        (Some(l), None) => if s[l].state is Fixed && !guarded(s, right_x(c), c.y as int) {
            s.update(l, ordered_to(s[l], right_x(c)))
        } else {
            s
        },
        (None, None) => s,
    }
}

/// The board after the swap stage.
pub open spec fn spec_move_tag_block(b: BoardView, swap: bool) -> BoardView {
    if swap {
        b.with_blocks(swapped_blocks(b.blocks, b.cursor))
    } else {
        b
    }
}

/// A block ordered to move starts to slide from where it is.
pub open spec fn slide_started(b: Block) -> Block {
    match b.state {
        BlockState::Move { target_x } => b.in_state(
            BlockState::Moving { start_x: b.x, target_x, elapsed_ms: 0 },
        ),
        _ => b,
    }
}

/// The board after every ordered block has started to slide.
pub open spec fn spec_move_block(b: BoardView) -> BoardView {
    b.with_blocks(Seq::new(b.blocks.len(), |i: int| slide_started(b.blocks[i])))
}

/// A sliding block `dt_ms` milliseconds later; the time of a slide stops at
/// its duration.
pub open spec fn slide_advanced(b: Block, dt_ms: u32) -> Block {
    match b.state {
        BlockState::Moving { start_x, target_x, elapsed_ms } => b.in_state(
            BlockState::Moving {
                start_x,
                target_x,
                elapsed_ms: if elapsed_ms + dt_ms >= MOVE_DURATION_MS {
                    MOVE_DURATION_MS
                } else {
                    (elapsed_ms + dt_ms) as u32
                },
            },
        ),
        _ => b,
    }
}

/// The board after every slide has advanced by `dt_ms`.
pub open spec fn spec_ease_moving(b: BoardView, dt_ms: u32) -> BoardView {
    b.with_blocks(Seq::new(b.blocks.len(), |i: int| slide_advanced(b.blocks[i], dt_ms)))
}

/// The point `elapsed` parts of `duration` along the way from `start` to
/// `target`, rounded towards `start`.
pub open spec fn lerp_spec(start: int, target: int, elapsed: int, duration: int) -> int {
    if target >= start {
        start + ((target - start) * elapsed) / duration
    } else {
        start - ((start - target) * elapsed) / duration
    }
}

/// A sliding block put where its slide has brought it: at rest in its target
/// column once the slide is over, on the way there before.
pub open spec fn slide_placed(b: Block) -> Block {
    match b.state {
        BlockState::Moving { start_x, target_x, elapsed_ms } => if elapsed_ms >= MOVE_DURATION_MS {
            Block { x: target_x, state: BlockState::Fixed, ..b }
        } else {
            b.at_x(
                lerp_spec(
                    start_x as int,
                    target_x as int,
                    elapsed_ms as int,
                    MOVE_DURATION_MS as int,
                ) as i32,
            )
        },
        _ => b,
    }
}

/// The board after every sliding block has been placed.
pub open spec fn spec_moving_to_fixed(b: BoardView) -> BoardView {
    b.with_blocks(Seq::new(b.blocks.len(), |i: int| slide_placed(b.blocks[i])))
}

/// The interpolated point lies between its two ends.
pub proof fn lemma_lerp_between(start: int, target: int, elapsed: int, duration: int)
    requires
        0 <= elapsed <= duration,
        0 < duration,
    ensures
        start <= target ==> start <= lerp_spec(start, target, elapsed, duration) <= target,
        target <= start ==> target <= lerp_spec(start, target, elapsed, duration) <= start,
        elapsed == 0 ==> lerp_spec(start, target, elapsed, duration) == start,
        elapsed == duration ==> lerp_spec(start, target, elapsed, duration) == target,
{
    let span = if target >= start {
        target - start
    } else {
        start - target
    };
    assert(0 <= span * elapsed <= span * duration) by (nonlinear_arith)
        requires
            0 <= span,
            0 <= elapsed <= duration,
    ;
    assert(0 <= (span * elapsed) / duration <= span) by (nonlinear_arith)
        requires
            0 <= span * elapsed <= span * duration,
            0 < duration,
    ;
    if elapsed == 0 {
        assert(span * elapsed == 0) by (nonlinear_arith)
            requires
                elapsed == 0,
        ;
    }
    if elapsed == duration {
        assert((span * elapsed) / duration == span) by (nonlinear_arith)
            requires
                elapsed == duration,
                0 < duration,
        ;
    }
}

/// The time of a slide that has lasted `elapsed_ms`: a slide is over after
/// `MOVE_DURATION_MS`.
pub open spec fn slide_time(elapsed_ms: u32) -> int {
    if elapsed_ms >= MOVE_DURATION_MS {
        MOVE_DURATION_MS as int
    } else {
        elapsed_ms as int
    }
}

/// Computes the point that a slide from `start` to `target` has reached
/// after `elapsed_ms` milliseconds.
pub fn lerp(start: i32, target: i32, elapsed_ms: u32) -> (x: i32)
    ensures
        x == lerp_spec(start as int, target as int, slide_time(elapsed_ms), MOVE_DURATION_MS as int),
{
    proof {
        lemma_lerp_between(
            start as int,
            target as int,
            slide_time(elapsed_ms),
            MOVE_DURATION_MS as int,
        );
    }
    let duration: i64 = MOVE_DURATION_MS as i64;
    let elapsed: i64 = if elapsed_ms >= MOVE_DURATION_MS {
        duration
    } else {
        elapsed_ms as i64
    };
    if target >= start {
        let span: i64 = target as i64 - start as i64;
        assert(0 <= span * elapsed <= 0xffff_ffff * 40) by (nonlinear_arith)
            requires
                0 <= span <= 0xffff_ffff,
                0 <= elapsed <= 40,
        ;
        (start as i64 + (span * elapsed) / duration) as i32
    } else {
        let span: i64 = start as i64 - target as i64;
        assert(0 <= span * elapsed <= 0xffff_ffff * 40) by (nonlinear_arith)
            requires
                0 <= span <= 0xffff_ffff,
                0 <= elapsed <= 40,
        ;
        (start as i64 - (span * elapsed) / duration) as i32
    }
}

/// Tests whether a block lies in the cell centred at `(x, y)`.
fn is_in_cell(b: &Block, x: i64, y: i32) -> (r: bool)
    requires
        i32::MIN - HALF_BLOCK <= x <= i32::MAX + HALF_BLOCK,
    ensures
        r == in_cell(*b, x as int, y as int),
{
    let dx: i64 = if b.x as i64 >= x {
        b.x as i64 - x
    } else {
        x - b.x as i64
    };
    dx < HALF_BLOCK as i64 && is_near(b.y, y, HALF_BLOCK)
}

/// Finds the block in the cell centred at `(x, y)`.
fn find_occupant(blocks: &Vec<Block>, x: i64, y: i32) -> (r: Option<usize>)
    requires
        i32::MIN - HALF_BLOCK <= x <= i32::MAX + HALF_BLOCK,
    ensures
        match r {
            Some(i) => occupant(blocks@, x as int, y as int) == Some(i as int) && i < blocks@.len(),
            None => occupant(blocks@, x as int, y as int) is None,
        },
{
    let mut i: usize = blocks.len();
    proof {
        assert(blocks@.take(i as int) == blocks@);
    }
    while i > 0
        invariant
            i <= blocks@.len(),
            i32::MIN - HALF_BLOCK <= x <= i32::MAX + HALF_BLOCK,
            occupant(blocks@, x as int, y as int) == occupant(
                blocks@.take(i as int),
                x as int,
                y as int,
            ),
        decreases i,
    {
        proof {
            assert(blocks@.take(i as int).drop_last() == blocks@.take(i - 1));
            assert(blocks@.take(i as int).last() == blocks@[i - 1]);
        }
        if is_in_cell(&blocks[i - 1], x, y) {
            return Some(i - 1);
        }
        i = i - 1;
    }
    None
}

/// Tests whether some block that is not at rest hangs into the cell centred
/// at `(x, y)` from above.
fn is_guarded(blocks: &Vec<Block>, x: i64, y: i32) -> (r: bool)
    requires
        i32::MIN - HALF_BLOCK <= x <= i32::MAX + HALF_BLOCK,
    ensures
        r == guarded(blocks@, x as int, y as int),
{
    let mut i: usize = 0;
    while i < blocks.len()
        invariant
            i <= blocks@.len(),
            i32::MIN - HALF_BLOCK <= x <= i32::MAX + HALF_BLOCK,
            forall|k: int| 0 <= k < i ==> !hangs_above(#[trigger] blocks@[k], x as int, y as int),
        decreases blocks@.len() - i,
    {
        let b: &Block = &blocks[i];
        let dx: i64 = if b.x as i64 >= x {
            b.x as i64 - x
        } else {
            x - b.x as i64
        };
        let rise: i64 = b.y as i64 - y as i64;
        if !b.is_fixed() && dx < HALF_BLOCK as i64 && !is_near(b.y, y, HALF_BLOCK) && 0 < rise
            && rise < BLOCK_SIZE as i64 {
            return true;
        }
        i = i + 1;
    }
    false
}

impl Board {
    /// Orders the blocks under the cursor to change places, if `swap` is
    /// requested and the rules of a swap allow it.
    pub fn move_tag_block(&mut self, swap: bool)
        ensures
            final(self)@ == spec_move_tag_block(old(self)@, swap),
    {
        if !swap {
            return ;
        }
        let y: i32 = self.cursor.y;
        let left: i64 = self.cursor.x as i64 - HALF_BLOCK as i64;
        let right: i64 = self.cursor.x as i64 + HALF_BLOCK as i64;
        let left_block: Option<usize> = find_occupant(&self.blocks, left, y);
        let right_block: Option<usize> = find_occupant(&self.blocks, right, y);
        match (left_block, right_block) {
            (Some(l), Some(r)) => {
                if self.blocks[l].is_fixed() && self.blocks[r].is_fixed() {
                    let lb: Block = self.blocks[l];
                    let rb: Block = self.blocks[r];
                    self.blocks.set(
                        l,
                        Block { state: BlockState::Move { target_x: saturate(right) }, ..lb },
                    );
                    self.blocks.set(
                        r,
                        Block { state: BlockState::Move { target_x: saturate(left) }, ..rb },
                    );
                }
            },
            (None, Some(r)) => {
                if self.blocks[r].is_fixed() && !is_guarded(&self.blocks, left, y) {
                    let rb: Block = self.blocks[r];
                    self.blocks.set(
                        r,
                        Block { state: BlockState::Move { target_x: saturate(left) }, ..rb },
                    );
                }
            },
            (Some(l), None) => {
                if self.blocks[l].is_fixed() && !is_guarded(&self.blocks, right, y) {
                    let lb: Block = self.blocks[l];
                    self.blocks.set(
                        l,
                        Block { state: BlockState::Move { target_x: saturate(right) }, ..lb },
                    );
                }
            },
            (None, None) => {},
        }
        proof {
            lemma_cells_apart(old(self)@.blocks, old(self)@.cursor);
            assert(self@.blocks =~= swapped_blocks(old(self)@.blocks, old(self)@.cursor));
        }
    }

    /// Starts the slide of every block that was ordered to move.
    pub fn move_block(&mut self)
        ensures
            final(self)@ == spec_move_block(old(self)@),
    {
        let n: usize = self.blocks.len();
        let mut i: usize = 0;
        while i < n
            invariant
                n == old(self)@.blocks.len(),
                self.blocks@.len() == n,
                i <= n,
                forall|k: int| 0 <= k < i ==> self.blocks@[k] == slide_started(old(self)@.blocks[k]),
                forall|k: int| i <= k < n ==> self.blocks@[k] == old(self)@.blocks[k],
                self@.with_blocks(old(self)@.blocks) == old(self)@,
            decreases n - i,
        {
            let b: Block = self.blocks[i];
            match b.state {
                BlockState::Move { target_x } => {
                    self.blocks.set(
                        i,
                        Block {
                            state: BlockState::Moving { start_x: b.x, target_x, elapsed_ms: 0 },
                            ..b
                        },
                    );
                },
                _ => {},
            }
            i = i + 1;
        }
        assert(self@.blocks =~= spec_move_block(old(self)@).blocks);
    }

    /// Advances every slide by `dt_ms` milliseconds.
    pub fn ease_moving(&mut self, dt_ms: u32)
        ensures
            final(self)@ == spec_ease_moving(old(self)@, dt_ms),
    {
        let n: usize = self.blocks.len();
        let mut i: usize = 0;
        while i < n
            invariant
                n == old(self)@.blocks.len(),
                self.blocks@.len() == n,
                i <= n,
                forall|k: int|
                    0 <= k < i ==> self.blocks@[k] == slide_advanced(old(self)@.blocks[k], dt_ms),
                forall|k: int| i <= k < n ==> self.blocks@[k] == old(self)@.blocks[k],
                self@.with_blocks(old(self)@.blocks) == old(self)@,
            decreases n - i,
        {
            let b: Block = self.blocks[i];
            match b.state {
                BlockState::Moving { start_x, target_x, elapsed_ms } => {
                    let total: u64 = elapsed_ms as u64 + dt_ms as u64;
                    let elapsed: u32 = if total >= MOVE_DURATION_MS as u64 {
                        MOVE_DURATION_MS
                    } else {
                        total as u32
                    };
                    self.blocks.set(
                        i,
                        Block {
                            state: BlockState::Moving { start_x, target_x, elapsed_ms: elapsed },
                            ..b
                        },
                    );
                },
                _ => {},
            }
            i = i + 1;
        }
        assert(self@.blocks =~= spec_ease_moving(old(self)@, dt_ms).blocks);
    }

    /// Places every sliding block: one whose slide is over comes to rest in
    /// exactly its target column, any other goes to the point its slide has
    /// reached.
    pub fn moving_to_fixed(&mut self)
        ensures
            final(self)@ == spec_moving_to_fixed(old(self)@),
    {
        let n: usize = self.blocks.len();
        let mut i: usize = 0;
        while i < n
            invariant
                n == old(self)@.blocks.len(),
                self.blocks@.len() == n,
                i <= n,
                forall|k: int| 0 <= k < i ==> self.blocks@[k] == slide_placed(old(self)@.blocks[k]),
                forall|k: int| i <= k < n ==> self.blocks@[k] == old(self)@.blocks[k],
                self@.with_blocks(old(self)@.blocks) == old(self)@,
            decreases n - i,
        {
            let b: Block = self.blocks[i];
            match b.state {
                BlockState::Moving { start_x, target_x, elapsed_ms } => {
                    if elapsed_ms >= MOVE_DURATION_MS {
                        self.blocks.set(i, Block { x: target_x, state: BlockState::Fixed, ..b });
                    } else {
                        self.blocks.set(i, Block { x: lerp(start_x, target_x, elapsed_ms), ..b });
                    }
                },
                _ => {},
            }
            i = i + 1;
        }
        assert(self@.blocks =~= spec_moving_to_fixed(old(self)@).blocks);
    }
}

/// What `occupant` finds: a block in the cell after which no block of the
/// sequence lies in the cell, or nothing if the cell is empty.
pub proof fn lemma_occupant(s: Seq<Block>, x: int, y: int)
    ensures
        match occupant(s, x, y) {
            Some(i) => 0 <= i < s.len() && in_cell(s[i], x, y) && forall|j: int|
                i < j < s.len() ==> !in_cell(#[trigger] s[j], x, y),
            None => forall|j: int| 0 <= j < s.len() ==> !in_cell(#[trigger] s[j], x, y),
        },
    decreases s.len(),
{
    if s.len() > 0 && !in_cell(s.last(), x, y) {
        let front = s.drop_last();
        lemma_occupant(front, x, y);
        match occupant(front, x, y) {
            Some(i) => {
                assert(front[i] == s[i]);
                assert forall|j: int| i < j < s.len() implies !in_cell(#[trigger] s[j], x, y) by {
                    if j < front.len() {
                        assert(front[j] == s[j]);
                    }
                }
            },
            None => {
                assert forall|j: int| 0 <= j < s.len() implies !in_cell(#[trigger] s[j], x, y) by {
                    if j < front.len() {
                        assert(front[j] == s[j]);
                    }
                }
            },
        }
    }
}

/// The only block that lies in a cell is its occupant.
pub proof fn lemma_sole_occupant(s: Seq<Block>, x: int, y: int, i: int)
    requires
        0 <= i < s.len(),
        in_cell(s[i], x, y),
        forall|j: int| 0 <= j < s.len() && j != i ==> !in_cell(#[trigger] s[j], x, y),
    ensures
        occupant(s, x, y) == Some(i),
{
    lemma_occupant(s, x, y);
}

/// The two cells under the cursor share no block.
pub proof fn lemma_cells_apart(s: Seq<Block>, c: Cursor)
    ensures
        match (occupant(s, left_x(c), c.y as int), occupant(s, right_x(c), c.y as int)) {
            (Some(l), Some(r)) => l != r && 0 <= l < s.len() && 0 <= r < s.len(),
            (Some(l), None) => 0 <= l < s.len(),
            (None, Some(r)) => 0 <= r < s.len(),
            (None, None) => true,
        },
{
    lemma_occupant(s, left_x(c), c.y as int);
    lemma_occupant(s, right_x(c), c.y as int);
}

} // verus!
