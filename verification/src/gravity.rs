//! Gravity: blocks at rest without support are found, float together with
//! the blocks that stand on them, fall, land and come to rest.

use vstd::prelude::*;
use crate::block::{Block, BlockState, FLOAT_DURATION_MS};
use crate::board::{Board, BoardView};
use crate::column::{mark_walks, reached, walk_from, walk_up, Pick, Step};
use crate::geometry::{
    clamp_coord,
    collide,
    is_near,
    is_offset_near,
    lands_on,
    lowered,
    near,
    offset_near,
    saturate_wide,
    travel,
    travelled,
    Collision,
    BLOCK_SIZE,
    FALL_SPEED,
    FLOOR_Y,
    HALF_BLOCK,
};
use crate::timer::Timer;

verus! {

/// The widest gap between two blocks that float as one group: a block and a
/// half.
pub const FLOAT_GAP: i32 = 75_000;

/// How far, and no further, a falling block may be from its resting height
/// to come to rest with the block it stands on: half a block.
pub const REST_REACH: i32 = 25_001;

/// Whether block `o` gives support to block `b`: it stands one block lower,
/// less than a block to the side.
pub open spec fn supports(o: Block, b: Block) -> bool {
    offset_near(o.y as int, b.y as int, BLOCK_SIZE as int, HALF_BLOCK as int) && near(
        b.x as int,
        o.x as int,
        BLOCK_SIZE as int,
    )
}

/// Whether some block, in whatever state, gives support to block `i`.
pub open spec fn supported(s: Seq<Block>, i: int) -> bool {
    exists|j: int| 0 <= j < s.len() && supports(#[trigger] s[j], s[i])
}

/// Whether block `i` is at rest above the floor with no support.
pub open spec fn unsupported(s: Seq<Block>, i: int) -> bool {
    s[i].state is Fixed && s[i].y > FLOOR_Y && !supported(s, i)
}

/// The blocks after the search for unsupported blocks.
pub open spec fn fall_checked(s: Seq<Block>) -> Seq<Block> {
    Seq::new(
        s.len(),
        |i: int|
            if unsupported(s, i) {
                s[i].in_state(BlockState::FallPrepare)
            } else {
                s[i]
            },
    )
}

/// The board after the search for unsupported blocks.
pub open spec fn spec_check_fall_block(b: BoardView) -> BoardView {
    b.with_blocks(fall_checked(b.blocks))
}

/// How a floating group is gathered: blocks at rest, each at most a block
/// and a half above the one before.
pub open spec fn float_step() -> Step {
    Step::Gap { limit: FLOAT_GAP }
}

/// For every block, whether it was found unsupported.
pub open spec fn fall_prepared(s: Seq<Block>) -> Seq<bool> {
    Seq::new(s.len(), |i: int| s[i].state is FallPrepare)
}

/// Whether block `j` starts to float: it was found unsupported, or it is at
/// rest and the walk up from an unsupported block reaches it.
pub open spec fn floats(s: Seq<Block>, j: int) -> bool {
    s[j].state is FallPrepare || reached(s, fall_prepared(s), Pick::Fixed, float_step(), j)
}

/// A block as it starts to float.
pub open spec fn afloat(b: Block) -> Block {
    b.in_state(BlockState::Floating { timer: Timer::started(FLOAT_DURATION_MS) })
}

/// The blocks after the floating groups have formed.
pub open spec fn floated(s: Seq<Block>) -> Seq<Block> {
    Seq::new(
        s.len(),
        |i: int|
            if floats(s, i) {
                afloat(s[i])
            } else {
                s[i]
            },
    )
}

/// The board after the floating groups have formed.
pub open spec fn spec_fall_upward(b: BoardView) -> BoardView {
    b.with_blocks(floated(b.blocks))
}

/// A floating block `dt_ms` later: falling if its delay has just run out.
pub open spec fn float_ticked(b: Block, dt_ms: u32) -> Block {
    match b.state {
        BlockState::Floating { timer } => if timer.ticked(dt_ms).just_finished {
            b.in_state(BlockState::Fall)
        } else {
            b.in_state(BlockState::Floating { timer: timer.ticked(dt_ms) })
        },
        _ => b,
    }
}

/// The board after the floating delays have advanced.
pub open spec fn spec_floating_to_fall(b: BoardView, dt_ms: u32) -> BoardView {
    b.with_blocks(Seq::new(b.blocks.len(), |i: int| float_ticked(b.blocks[i], dt_ms)))
}

/// A falling block `dt_ms` later.
pub open spec fn fallen(b: Block, dt_ms: u32) -> Block {
    if b.state is Fall {
        b.at_y(clamp_coord(b.y - travel(FALL_SPEED as int, dt_ms as int)) as i32)
    } else {
        b
    }
}

/// The board after the falling blocks have moved.
pub open spec fn spec_fall_block(b: BoardView, dt_ms: u32) -> BoardView {
    b.with_blocks(Seq::new(b.blocks.len(), |i: int| fallen(b.blocks[i], dt_ms)))
}

/// Where a falling block has got to, and whether it has landed.
pub struct Landing {
    pub y: i32,
    pub landed: bool,
}

/// A falling block in column `x` at height `y`, held against the first `k`
/// blocks of the sequence in turn: each block that is not falling, and onto
/// whose top it has come down, puts it exactly one block above itself.
pub open spec fn landing(s: Seq<Block>, x: int, y: i32, k: nat) -> Landing
    decreases k,
{
    if k == 0 {
        Landing { y, landed: false }
    } else {
        let so_far = landing(s, x, y, (k - 1) as nat);
        let o = s[k - 1];
        if !(o.state is Fall) && lands_on(x, so_far.y as int, o.x as int, o.y as int) {
            Landing { y: clamp_coord(o.y + BLOCK_SIZE) as i32, landed: true }
        } else {
            so_far
        }
    }
}

/// A block after the landing test: a falling block that has landed waits,
/// at its new height, to come to rest.
pub open spec fn stopped(s: Seq<Block>, i: int) -> Block {
    let l = landing(s, s[i].x as int, s[i].y, s.len());
    if s[i].state is Fall && l.landed {
        Block { y: l.y, state: BlockState::FixedPrepare, ..s[i] }
    } else {
        s[i]
    }
}

/// The board after the landing test.
pub open spec fn spec_stop_fall_block(b: BoardView) -> BoardView {
    b.with_blocks(Seq::new(b.blocks.len(), |i: int| stopped(b.blocks, i)))
}

/// How the blocks that come to rest with a landed block are gathered:
/// falling blocks, the `n`-th of them within half a block of `n` blocks above
/// the landed one.
pub open spec fn rest_step() -> Step {
    Step::Level { tolerance: REST_REACH }
}

/// The blocks after the first `k` blocks of `run` have come to rest, the
/// `n`-th of them exactly `n` blocks above `base_y`.
pub open spec fn snapped(s: Seq<Block>, run: Seq<int>, base_y: int, k: nat) -> Seq<Block>
    decreases k,
{
    if k == 0 {
        s
    } else {
        let t = snapped(s, run, base_y, (k - 1) as nat);
        let j = run[k - 1];
        t.update(
            j,
            Block { y: clamp_coord(base_y + k * BLOCK_SIZE) as i32, state: BlockState::Fixed, ..t[j] },
        )
    }
}

/// The blocks after the landed block `p` has come to rest, and with it the
/// falling blocks that stand on it.
pub open spec fn settled_from(s: Seq<Block>, p: int) -> Seq<Block> {
    let run = walk_from(s, Pick::Fall, rest_step(), p);
    snapped(s.update(p, s[p].in_state(BlockState::Fixed)), run, s[p].y as int, run.len())
}

/// The blocks after the landed blocks among the first `k` have come to rest,
/// one after the other.
pub open spec fn settled_upto(s: Seq<Block>, k: nat) -> Seq<Block>
    decreases k,
{
    if k == 0 {
        s
    } else {
        let t = settled_upto(s, (k - 1) as nat);
        if t[k - 1].state is FixedPrepare {
            settled_from(t, k - 1)
        } else {
            t
        }
    }
}

/// The board after every landed block has come to rest.
pub open spec fn spec_fixedprepare_to_fixed(b: BoardView) -> BoardView {
    b.with_blocks(settled_upto(b.blocks, b.blocks.len()))
}

/// Tests whether block `o` gives support to block `b`.
pub fn is_supporting(o: &Block, b: &Block) -> (r: bool)
    ensures
        r == supports(*o, *b),
{
    is_offset_near(o.y, b.y, BLOCK_SIZE, HALF_BLOCK) && is_near(b.x, o.x, BLOCK_SIZE)
}

/// Tests whether block `i` is at rest above the floor with no support.
fn is_unsupported(blocks: &Vec<Block>, i: usize) -> (r: bool)
    requires
        i < blocks@.len(),
    ensures
        r == unsupported(blocks@, i as int),
{
    if !blocks[i].is_fixed() || blocks[i].y <= FLOOR_Y {
        return false;
    }
    let mut j: usize = 0;
    while j < blocks.len()
        invariant
            i < blocks@.len(),
            j <= blocks@.len(),
            forall|k: int| 0 <= k < j ==> !supports(#[trigger] blocks@[k], blocks@[i as int]),
        decreases blocks@.len() - j,
    {
        if is_supporting(&blocks[j], &blocks[i]) {
            return false;
        }
        j = j + 1;
    }
    true
}

/// Holds a falling block against every block in turn.
fn land(blocks: &Vec<Block>, x: i32, y: i32) -> (l: Landing)
    ensures
        l == landing(blocks@, x as int, y, blocks@.len()),
{
    let mut l: Landing = Landing { y, landed: false };
    let mut k: usize = 0;
    while k < blocks.len()
        invariant
            k <= blocks@.len(),
            l == landing(blocks@, x as int, y, k as nat),
        decreases blocks@.len() - k,
    {
        let o: &Block = &blocks[k];
        if !o.is_fall() {
            let hit: Option<Collision> = collide(x, l.y, o.x, o.y);
            if hit == Some(Collision::Top) {
                l = Landing { y: saturate_wide(o.y as i128 + BLOCK_SIZE as i128), landed: true };
            }
        }
        k = k + 1;
    }
    l
}

impl Board {
    /// Marks every block at rest above the floor under which no block stands
    /// as `FallPrepare`.
    pub fn check_fall_block(&mut self)
        ensures
            final(self)@ == spec_check_fall_block(old(self)@),
    {
        let n: usize = self.blocks.len();
        let mut next: Vec<Block> = Vec::new();
        let mut i: usize = 0;
        while i < n
            invariant
                n == self.blocks@.len(),
                i <= n,
                next@.len() == i,
                forall|k: int| 0 <= k < i ==> next@[k] == fall_checked(self.blocks@)[k],
            decreases n - i,
        {
            let b: Block = self.blocks[i];
            if is_unsupported(&self.blocks, i) {
                next.push(Block { state: BlockState::FallPrepare, ..b });
            } else {
                next.push(b);
            }
            i = i + 1;
        }
        assert(next@ =~= fall_checked(self.blocks@));
        self.blocks = next;
    }

    /// Sets every unsupported block afloat, and with it the blocks at rest
    /// that stand on it: the walk up its column goes on for as long as each
    /// block is at most a block and a half above the one before.
    pub fn fall_upward(&mut self)
        ensures
            final(self)@ == spec_fall_upward(old(self)@),
    {
        let n: usize = self.blocks.len();
        let mut starts: Vec<bool> = Vec::new();
        let mut i: usize = 0;
        while i < n
            invariant
                n == self.blocks@.len(),
                i <= n,
                starts@.len() == i,
                forall|k: int| 0 <= k < i ==> starts@[k] == (self.blocks@[k].state is FallPrepare),
            decreases n - i,
        {
            starts.push(self.blocks[i].is_fall_prepare());
            i = i + 1;
        }
        assert(starts@ =~= fall_prepared(self.blocks@));
        let marks: Vec<bool> = mark_walks(
            &self.blocks,
            &starts,
            Pick::Fixed,
            Step::Gap { limit: FLOAT_GAP },
        );
        let mut next: Vec<Block> = Vec::new();
        let mut i: usize = 0;
        while i < n
            invariant
                n == self.blocks@.len(),
                starts@ == fall_prepared(self.blocks@),
                marks@.len() == n,
                forall|j: int|
                    0 <= j < n ==> marks@[j] == reached(
                        self.blocks@,
                        starts@,
                        Pick::Fixed,
                        float_step(),
                        j,
                    ),
                i <= n,
                next@.len() == i,
                forall|k: int| 0 <= k < i ==> next@[k] == floated(self.blocks@)[k],
            decreases n - i,
        {
            let b: Block = self.blocks[i];
            if b.is_fall_prepare() || marks[i] {
                next.push(
                    Block {
                        state: BlockState::Floating { timer: Timer::from_millis(FLOAT_DURATION_MS) },
                        ..b
                    },
                );
            } else {
                next.push(b);
            }
            i = i + 1;
        }
        assert(next@ =~= floated(self.blocks@));
        self.blocks = next;
    }

    /// Advances the delay of every floating block; a block whose delay has
    /// just run out starts to fall.
    pub fn floating_to_fall(&mut self, dt_ms: u32)
        ensures
            final(self)@ == spec_floating_to_fall(old(self)@, dt_ms),
    {
        let n: usize = self.blocks.len();
        let mut i: usize = 0;
        while i < n
            invariant
                n == old(self)@.blocks.len(),
                self.blocks@.len() == n,
                i <= n,
                forall|k: int|
                    0 <= k < i ==> self.blocks@[k] == float_ticked(old(self)@.blocks[k], dt_ms),
                forall|k: int| i <= k < n ==> self.blocks@[k] == old(self)@.blocks[k],
                self@.with_blocks(old(self)@.blocks) == old(self)@,
            decreases n - i,
        {
            let b: Block = self.blocks[i];
            match b.state {
                BlockState::Floating { timer } => {
                    let mut t: Timer = timer;
                    t.tick(dt_ms);
                    if t.just_finished() {
                        self.blocks.set(i, Block { state: BlockState::Fall, ..b });
                    } else {
                        self.blocks.set(i, Block { state: BlockState::Floating { timer: t }, ..b });
                    }
                },
                _ => {},
            }
            i = i + 1;
        }
        assert(self@.blocks =~= spec_floating_to_fall(old(self)@, dt_ms).blocks);
    }

    /// Moves every falling block down by the way it falls in `dt_ms`
    /// milliseconds.
    pub fn fall_block(&mut self, dt_ms: u32)
        ensures
            final(self)@ == spec_fall_block(old(self)@, dt_ms),
    {
        let drop: u64 = travelled(FALL_SPEED, dt_ms);
        let n: usize = self.blocks.len();
        let mut i: usize = 0;
        while i < n
            invariant
                n == old(self)@.blocks.len(),
                self.blocks@.len() == n,
                drop == travel(FALL_SPEED as int, dt_ms as int),
                i <= n,
                forall|k: int| 0 <= k < i ==> self.blocks@[k] == fallen(old(self)@.blocks[k], dt_ms),
                forall|k: int| i <= k < n ==> self.blocks@[k] == old(self)@.blocks[k],
                self@.with_blocks(old(self)@.blocks) == old(self)@,
            decreases n - i,
        {
            let b: Block = self.blocks[i];
            if b.is_fall() {
                self.blocks.set(i, Block { y: lowered(b.y, drop), ..b });
            }
            i = i + 1;
        }
        assert(self@.blocks =~= spec_fall_block(old(self)@, dt_ms).blocks);
    }

    /// Tests every falling block against the blocks that were not falling:
    /// one that has come down onto the top of such a block is put exactly one
    /// block above it and becomes `FixedPrepare`.
    pub fn stop_fall_block(&mut self)
        ensures
            final(self)@ == spec_stop_fall_block(old(self)@),
    {
        let n: usize = self.blocks.len();
        let mut next: Vec<Block> = Vec::new();
        let mut i: usize = 0;
        while i < n
            invariant
                n == self.blocks@.len(),
                i <= n,
                next@.len() == i,
                forall|k: int| 0 <= k < i ==> next@[k] == stopped(self.blocks@, k),
            decreases n - i,
        {
            let b: Block = self.blocks[i];
            if b.is_fall() {
                let l: Landing = land(&self.blocks, b.x, b.y);
                if l.landed {
                    next.push(Block { y: l.y, state: BlockState::FixedPrepare, ..b });
                } else {
                    next.push(b);
                }
            } else {
                next.push(b);
            }
            i = i + 1;
        }
        assert(next@ =~= spec_stop_fall_block(self@).blocks);
        self.blocks = next;
    }

    /// Brings every landed block to rest, and with it the falling blocks that
    /// stand on it: the `n`-th of them comes to rest exactly `n` blocks above
    /// the landed one, provided it is within half a block of that height; the
    /// first one that is not ends the walk and goes on falling. The landed
    /// blocks are taken in the order of the sequence.
    pub fn fixedprepare_to_fixed(&mut self)
        ensures
            final(self)@ == spec_fixedprepare_to_fixed(old(self)@),
    {
        let n: usize = self.blocks.len();
        let mut p: usize = 0;
        while p < n
            invariant
                n == old(self)@.blocks.len(),
                self.blocks@.len() == n,
                p <= n,
                self.blocks@ == settled_upto(old(self)@.blocks, p as nat),
                self@.with_blocks(old(self)@.blocks) == old(self)@,
            decreases n - p,
        {
            if self.blocks[p].is_fixed_prepare() {
                let ghost before = self.blocks@;
                let base: Block = self.blocks[p];
                let run: Vec<usize> = walk_up(
                    &self.blocks,
                    Pick::Fall,
                    Step::Level { tolerance: REST_REACH },
                    p,
                );
                let ghost whole = walk_from(before, Pick::Fall, rest_step(), p as int);
                self.blocks.set(p, Block { state: BlockState::Fixed, ..base });
                let ghost started = self.blocks@;
                let mut q: usize = 0;
                while q < run.len()
                    invariant
                        n == old(self)@.blocks.len(),
                        self.blocks@.len() == n,
                        started.len() == n,
                        q <= run@.len(),
                        run@.len() == whole.len(),
                        forall|r: int| 0 <= r < run@.len() ==> run@[r] as int == whole[r],
                        forall|r: int| 0 <= r < run@.len() ==> run@[r] < n,
                        self.blocks@ == snapped(started, whole, base.y as int, q as nat),
                        self@.with_blocks(old(self)@.blocks) == old(self)@,
                    decreases run@.len() - q,
                {
                    let j: usize = run[q];
                    let b: Block = self.blocks[j];
                    assert(0 <= (q + 1) * BLOCK_SIZE <= 0xffff_ffff_ffff_ffff * 50_000)
                        by (nonlinear_arith)
                        requires
                            0 <= q + 1 <= 0xffff_ffff_ffff_ffff,
                            BLOCK_SIZE == 50_000,
                    ;
                    let y: i32 = saturate_wide(
                        base.y as i128 + (q as i128 + 1) * BLOCK_SIZE as i128,
                    );
                    self.blocks.set(j, Block { y, state: BlockState::Fixed, ..b });
                    q = q + 1;
                }
            }
            p = p + 1;
        }
    }
}

/// A block under which a block stands is never marked to fall, and neither
/// is a block on or below the floor.
pub proof fn lemma_supported_stays(s: Seq<Block>, i: int, j: int)
    requires
        0 <= i < s.len(),
        0 <= j < s.len(),
        supports(s[j], s[i]) || s[i].y <= FLOOR_Y,
    ensures
        fall_checked(s)[i] == s[i],
{
}

/// A falling block that has come down onto no block stays as it is.
pub proof fn lemma_no_landing(s: Seq<Block>, x: int, y: i32, k: nat)
    requires
        k <= s.len(),
        forall|j: int|
            0 <= j < k ==> (#[trigger] s[j]).state is Fall || !lands_on(
                x,
                y as int,
                s[j].x as int,
                s[j].y as int,
            ),
    ensures
        landing(s, x, y, k) == (Landing { y, landed: false }),
    decreases k,
{
    if k > 0 {
        lemma_no_landing(s, x, y, (k - 1) as nat);
    }
}

/// A falling block that has come down onto exactly one block stands exactly
/// one block above it: if block `j` is the first block it lands on, and from
/// there it lands on no later block, that is where it is put.
pub proof fn lemma_lands_on_one(s: Seq<Block>, x: int, y: i32, j: int, k: nat)
    requires
        0 <= j < k <= s.len(),
        !(s[j].state is Fall),
        lands_on(x, y as int, s[j].x as int, s[j].y as int),
        forall|m: int|
            0 <= m < j ==> (#[trigger] s[m]).state is Fall || !lands_on(
                x,
                y as int,
                s[m].x as int,
                s[m].y as int,
            ),
        forall|m: int|
            j < m < k ==> (#[trigger] s[m]).state is Fall || !lands_on(
                x,
                clamp_coord(s[j].y + BLOCK_SIZE),
                s[m].x as int,
                s[m].y as int,
            ),
    ensures
        landing(s, x, y, k) == (Landing { y: clamp_coord(s[j].y + BLOCK_SIZE) as i32, landed: true }),
    decreases k,
{
    if k == j + 1 {
        lemma_no_landing(s, x, y, j as nat);
    } else {
        lemma_lands_on_one(s, x, y, j, (k - 1) as nat);
    }
}

/// Where no block has landed among the first `k`, bringing landed blocks to
/// rest changes nothing.
pub proof fn lemma_nothing_to_settle(s: Seq<Block>, k: nat)
    requires
        k <= s.len(),
        forall|i: int| 0 <= i < k ==> !((#[trigger] s[i]).state is FixedPrepare),
    ensures
        settled_upto(s, k) == s,
    decreases k,
{
    if k > 0 {
        lemma_nothing_to_settle(s, (k - 1) as nat);
    }
}

/// Where block `p` is the only block that has landed, and no block waits to
/// come to rest once `p` has, bringing the landed blocks to rest is bringing
/// `p` to rest with the blocks that stand on it.
pub proof fn lemma_settle_one(s: Seq<Block>, p: int, k: nat)
    requires
        0 <= p < k <= s.len(),
        s[p].state is FixedPrepare,
        forall|i: int| 0 <= i < p ==> !((#[trigger] s[i]).state is FixedPrepare),
        settled_from(s, p).len() == s.len(),
        forall|i: int| p < i < k ==> !((#[trigger] settled_from(s, p)[i]).state is FixedPrepare),
    ensures
        settled_upto(s, k) == settled_from(s, p),
    decreases k,
{
    if k == p + 1 {
        lemma_nothing_to_settle(s, p as nat);
    } else {
        lemma_settle_one(s, p, (k - 1) as nat);
    }
}

} // verus!
