//! Clearing: matched blocks are timed out and removed, the blocks that stood
//! on them become eligible for a chain, and the chain counter follows.

use vstd::prelude::*;
use crate::block::{Block, BlockState, StateKind, CHAIN_DURATION_MS, DESPAWN_UNIT_MS};
use crate::board::{count_kind, lemma_count_kind_step, Board, BoardView};
use crate::column::{mark_walks, reached, Pick, Step};
use crate::geometry::HALF_BLOCK;
use crate::timer::Timer;

verus! {

/// Whether some matched block carries a chain marker.
pub open spec fn chain_matched(s: Seq<Block>) -> bool {
    exists|i: int| 0 <= i < s.len() && (#[trigger] s[i]).state is Matched && s[i].chain is Some
}

/// The chain counter after one more chain; it stops at the largest value it
/// can hold.
pub open spec fn bumped(counter: u32) -> u32 {
    if counter < u32::MAX {
        (counter + 1) as u32
    } else {
        counter
    }
}

/// Time that the blocks of a match of `combo` blocks take to clear:
/// `DESPAWN_UNIT_MS` for each block, and at most the longest time a timer can
/// hold.
pub open spec fn despawn_duration(combo: nat) -> u32 {
    if combo * DESPAWN_UNIT_MS > u32::MAX {
        u32::MAX
    } else {
        (combo * DESPAWN_UNIT_MS) as u32
    }
}

/// A block after the clearing of the matched blocks was timed.
pub open spec fn armed(b: Block, duration_ms: u32) -> Block {
    if b.state is Matched {
        b.in_state(BlockState::Despawning { timer: Timer::started(duration_ms) })
    } else {
        b
    }
}

/// The board after the clearing of the matched blocks was timed: the chain
/// counter goes up by one if a matched block was eligible for a chain, and
/// every matched block starts to clear, for a time that grows with the number
/// of blocks matched.
pub open spec fn spec_prepare_despawn_block(b: BoardView) -> BoardView {
    let duration = despawn_duration(count_kind(b.blocks, StateKind::Matched));
    BoardView {
        blocks: Seq::new(b.blocks.len(), |i: int| armed(b.blocks[i], duration)),
        chain_counter: if chain_matched(b.blocks) {
            bumped(b.chain_counter)
        } else {
            b.chain_counter
        },
        ..b
    }
}

/// Whether a block is removed after `dt_ms` more milliseconds: it is clearing
/// and its time has just run out.
pub open spec fn clearing(b: Block, dt_ms: u32) -> bool {
    b.state matches BlockState::Despawning { timer } && timer.ticked(dt_ms).just_finished
}

/// For every block, whether it is removed after `dt_ms` more milliseconds.
pub open spec fn clearing_flags(s: Seq<Block>, dt_ms: u32) -> Seq<bool> {
    Seq::new(s.len(), |i: int| clearing(s[i], dt_ms))
}

/// How the blocks above a removed block are gathered: the `n`-th of them
/// less than half a block from `n` blocks above it.
pub open spec fn chain_step() -> Step {
    Step::Level { tolerance: HALF_BLOCK }
}

/// Whether block `j` is set free by a removal: it is not clearing, and the
/// walk up from a removed block reaches it.
pub open spec fn freed(s: Seq<Block>, dt_ms: u32, j: int) -> bool {
    reached(s, clearing_flags(s, dt_ms), Pick::NotDespawning, chain_step(), j)
}

/// A block while the removals are worked out: a clearing block has its time
/// advanced, a block set free gets a fresh chain marker.
pub open spec fn cleared_around(s: Seq<Block>, dt_ms: u32, i: int) -> Block {
    match s[i].state {
        BlockState::Despawning { timer } => s[i].in_state(
            BlockState::Despawning { timer: timer.ticked(dt_ms) },
        ),
        _ => if freed(s, dt_ms, i) {
            s[i].chained()
        } else {
            s[i]
        },
    }
}

/// The first `k` blocks of `m` without those flagged, in their order.
pub open spec fn survivors(m: Seq<Block>, flags: Seq<bool>, k: nat) -> Seq<Block>
    decreases k,
{
    if k == 0 {
        Seq::empty()
    } else {
        let rest = survivors(m, flags, (k - 1) as nat);
        if flags[k - 1] {
            rest
        } else {
            rest.push(m[k - 1])
        }
    }
}

/// The places among the first `k` that are flagged, in rising order.
pub open spec fn flagged(flags: Seq<bool>, k: nat) -> Seq<int>
    decreases k,
{
    if k == 0 {
        Seq::empty()
    } else {
        let rest = flagged(flags, (k - 1) as nat);
        if flags[k - 1] {
            rest.push(k - 1)
        } else {
            rest
        }
    }
}

/// The places of the blocks that are removed after `dt_ms` more
/// milliseconds, in rising order.
pub open spec fn removed_places(s: Seq<Block>, dt_ms: u32) -> Seq<int> {
    flagged(clearing_flags(s, dt_ms), s.len())
}

/// Whether `places` holds exactly the places of `expected`, in their order.
pub open spec fn same_places(places: Seq<usize>, expected: Seq<int>) -> bool {
    &&& places.len() == expected.len()
    &&& forall|k: int| 0 <= k < places.len() ==> places[k] as int == expected[k]
}

/// The blocks after the removals.
pub open spec fn despawned(s: Seq<Block>, dt_ms: u32) -> Seq<Block> {
    survivors(
        Seq::new(s.len(), |i: int| cleared_around(s, dt_ms, i)),
        clearing_flags(s, dt_ms),
        s.len(),
    )
}

/// The board after the removals.
pub open spec fn spec_despawn_block(b: BoardView, dt_ms: u32) -> BoardView {
    b.with_blocks(despawned(b.blocks, dt_ms))
}

/// A block after its chain marker has aged: only the marker of a block at
/// rest ages, and it is dropped once its time is up.
pub open spec fn chain_aged(b: Block, dt_ms: u32) -> Block {
    match b.chain {
        Some(timer) => if b.state is Fixed {
            if timer.ticked(dt_ms).finished {
                Block { chain: None, ..b }
            } else {
                Block { chain: Some(timer.ticked(dt_ms)), ..b }
            }
        } else {
            b
        },
        None => b,
    }
}

/// The board after the chain markers have aged.
pub open spec fn spec_remove_chain(b: BoardView, dt_ms: u32) -> BoardView {
    b.with_blocks(Seq::new(b.blocks.len(), |i: int| chain_aged(b.blocks[i], dt_ms)))
}

/// Whether some block carries a chain marker.
pub open spec fn chain_running(s: Seq<Block>) -> bool {
    exists|i: int| 0 <= i < s.len() && (#[trigger] s[i]).chain is Some
}

/// The board after the chain counter was looked after: it is back at 1 once
/// no block carries a chain marker.
pub open spec fn spec_reset_chain_counter(b: BoardView) -> BoardView {
    if chain_running(b.blocks) {
        b
    } else {
        BoardView { chain_counter: 1, ..b }
    }
}

/// Computes the time that the blocks of a match of `combo` blocks take to
/// clear.
pub fn combo_duration(combo: usize) -> (d: u32)
    ensures
        d == despawn_duration(combo as nat),
{
    assert(0 <= combo as int * DESPAWN_UNIT_MS as int <= 0xffff_ffff_ffff_ffff * 300)
        by (nonlinear_arith)
        requires
            0 <= combo as int <= 0xffff_ffff_ffff_ffff,
            DESPAWN_UNIT_MS as int == 300,
    ;
    let wide: u128 = combo as u128 * DESPAWN_UNIT_MS as u128;
    if wide > u32::MAX as u128 {
        u32::MAX
    } else {
        wide as u32
    }
}

impl Board {
    /// Times the clearing of the matched blocks. If one of them is eligible
    /// for a chain the chain counter goes up by one. Every matched block
    /// becomes `Despawning`, with `DESPAWN_UNIT_MS` of time for each block
    /// matched.
    pub fn prepare_despawn_block(&mut self)
        ensures
            final(self)@ == spec_prepare_despawn_block(old(self)@),
    {
        let n: usize = self.blocks.len();
        let mut combo: usize = 0;
        let mut chain: bool = false;
        let mut i: usize = 0;
        while i < n
            invariant
                n == self.blocks@.len(),
                *self == *old(self),
                i <= n,
                combo <= i,
                combo == count_kind(self.blocks@.take(i as int), StateKind::Matched),
                chain == exists|k: int|
                    0 <= k < i && (#[trigger] self.blocks@[k]).state is Matched
                        && self.blocks@[k].chain is Some,
            decreases n - i,
        {
            proof {
                lemma_count_kind_step(self.blocks@, StateKind::Matched, i as int);
            }
            if self.blocks[i].is_matched() {
                combo = combo + 1;
                if self.blocks[i].has_chain() {
                    chain = true;
                }
            }
            i = i + 1;
        }
        proof {
            assert(self.blocks@.take(n as int) == self.blocks@);
        }
        let duration: u32 = combo_duration(combo);
        if chain && self.chain_counter < u32::MAX {
            self.chain_counter = self.chain_counter + 1;
        }
        let mut i: usize = 0;
        while i < n
            invariant
                n == old(self)@.blocks.len(),
                self.blocks@.len() == n,
                i <= n,
                forall|k: int| 0 <= k < i ==> self.blocks@[k] == armed(old(self)@.blocks[k], duration),
                forall|k: int| i <= k < n ==> self.blocks@[k] == old(self)@.blocks[k],
                self@.with_blocks(old(self)@.blocks) == (BoardView {
                    chain_counter: if chain_matched(old(self)@.blocks) {
                        bumped(old(self)@.chain_counter)
                    } else {
                        old(self)@.chain_counter
                    },
                    ..old(self)@
                }),
            decreases n - i,
        {
            let b: Block = self.blocks[i];
            if b.is_matched() {
                self.blocks.set(
                    i,
                    Block { state: BlockState::Despawning { timer: Timer::from_millis(duration) }, ..b },
                );
            }
            i = i + 1;
        }
        assert(self@.blocks =~= spec_prepare_despawn_block(old(self)@).blocks);
    }

    /// Advances the time of every clearing block and removes those whose time
    /// has just run out. The blocks that stood on a removed block get a fresh
    /// chain marker: the walk up its column takes every block that is not
    /// clearing, for as long as the `n`-th one is `n` blocks above the removed
    /// one. The places of the removed blocks come back in rising order; the
    /// blocks that stay keep their order.
    pub fn despawn_block(&mut self, dt_ms: u32) -> (removed: Vec<usize>)
        ensures
            final(self)@ == spec_despawn_block(old(self)@, dt_ms),
            same_places(removed@, removed_places(old(self)@.blocks, dt_ms)),
    {
        let n: usize = self.blocks.len();
        let ghost s = self.blocks@;
        let mut flags: Vec<bool> = Vec::new();
        let mut i: usize = 0;
        while i < n
            invariant
                n == self.blocks@.len(),
                s == self.blocks@,
                i <= n,
                flags@.len() == i,
                forall|k: int| 0 <= k < i ==> flags@[k] == clearing(s[k], dt_ms),
            decreases n - i,
        {
            let gone: bool = match self.blocks[i].state {
                BlockState::Despawning { timer } => {
                    let mut t: Timer = timer;
                    t.tick(dt_ms);
                    t.just_finished()
                },
                _ => false,
            };
            flags.push(gone);
            i = i + 1;
        }
        assert(flags@ =~= clearing_flags(s, dt_ms));
        let marks: Vec<bool> = mark_walks(
            &self.blocks,
            &flags,
            Pick::NotDespawning,
            Step::Level { tolerance: HALF_BLOCK },
        );
        let ghost around = Seq::new(s.len(), |i: int| cleared_around(s, dt_ms, i));
        let mut next: Vec<Block> = Vec::new();
        let mut removed: Vec<usize> = Vec::new();
        let mut i: usize = 0;
        while i < n
            invariant
                n == self.blocks@.len(),
                s == self.blocks@,
                flags@ == clearing_flags(s, dt_ms),
                marks@.len() == n,
                forall|j: int| 0 <= j < n ==> marks@[j] == freed(s, dt_ms, j),
                around == Seq::new(s.len(), |i: int| cleared_around(s, dt_ms, i)),
                i <= n,
                next@ == survivors(around, flags@, i as nat),
                removed@.len() == flagged(flags@, i as nat).len(),
                forall|k: int| 0 <= k < removed@.len() ==> removed@[k] as int == flagged(flags@, i as nat)[k],
            decreases n - i,
        {
            let b: Block = self.blocks[i];
            if flags[i] {
                removed.push(i);
            } else {
                match b.state {
                    BlockState::Despawning { timer } => {
                        let mut t: Timer = timer;
                        t.tick(dt_ms);
                        next.push(Block { state: BlockState::Despawning { timer: t }, ..b });
                    },
                    _ => {
                        if marks[i] {
                            next.push(
                                Block { chain: Some(Timer::from_millis(CHAIN_DURATION_MS)), ..b },
                            );
                        } else {
                            next.push(b);
                        }
                    },
                }
                assert(next@.last() == around[i as int]);
            }
            i = i + 1;
        }
        self.blocks = next;
        removed
    }

    /// Ages the chain markers of the blocks at rest by `dt_ms` milliseconds
    /// and drops those whose time is up. A block that is not at rest keeps
    /// its marker as it is.
    pub fn remove_chain(&mut self, dt_ms: u32)
        ensures
            final(self)@ == spec_remove_chain(old(self)@, dt_ms),
    {
        let n: usize = self.blocks.len();
        let mut i: usize = 0;
        while i < n
            invariant
                n == old(self)@.blocks.len(),
                self.blocks@.len() == n,
                i <= n,
                forall|k: int|
                    0 <= k < i ==> self.blocks@[k] == chain_aged(old(self)@.blocks[k], dt_ms),
                forall|k: int| i <= k < n ==> self.blocks@[k] == old(self)@.blocks[k],
                self@.with_blocks(old(self)@.blocks) == old(self)@,
            decreases n - i,
        {
            let b: Block = self.blocks[i];
            if b.is_fixed() {
                match b.chain {
                    Some(timer) => {
                        let mut t: Timer = timer;
                        t.tick(dt_ms);
                        if t.finished() {
                            self.blocks.set(i, Block { chain: None, ..b });
                        } else {
                            self.blocks.set(i, Block { chain: Some(t), ..b });
                        }
                    },
                    None => {},
                }
            }
            i = i + 1;
        }
        assert(self@.blocks =~= spec_remove_chain(old(self)@, dt_ms).blocks);
    }

    /// Sets the chain counter back to 1 if no block carries a chain marker.
    pub fn reset_chain_counter(&mut self)
        ensures
            final(self)@ == spec_reset_chain_counter(old(self)@),
    {
        let n: usize = self.blocks.len();
        let mut i: usize = 0;
        while i < n
            invariant
                n == self.blocks@.len(),
                *self == *old(self),
                i <= n,
                forall|k: int| 0 <= k < i ==> (#[trigger] self.blocks@[k]).chain is None,
            decreases n - i,
        {
            if self.blocks[i].has_chain() {
                return ;
            }
            i = i + 1;
        }
        self.chain_counter = 1;
    }
}

/// The time to clear grows by `DESPAWN_UNIT_MS` with each block matched, as
/// long as a timer can hold it.
pub proof fn lemma_despawn_duration(combo: nat)
    requires
        combo <= 14_316_557,
    ensures
        despawn_duration(combo) == combo * 300,
{
}

/// The blocks that stay after the removals are as many as were not flagged,
/// and the removed places are as many as were: together they are all.
pub proof fn lemma_survivors_len(m: Seq<Block>, flags: Seq<bool>, k: nat)
    requires
        k <= m.len(),
        k <= flags.len(),
    ensures
        survivors(m, flags, k).len() + flagged(flags, k).len() == k,
        forall|p: int| 0 <= p < flagged(flags, k).len() ==> 0 <= #[trigger] flagged(flags, k)[p] < k
            && flags[flagged(flags, k)[p]],
    decreases k,
{
    if k > 0 {
        lemma_survivors_len(m, flags, (k - 1) as nat);
    }
}

} // verus!
