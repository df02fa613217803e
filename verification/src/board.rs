//! The board: every block, the cursor, the spawn marker and the counters
//! that the stages of a tick share.
//!
//! A block is known by its place in the sequence of blocks. A stage keeps
//! every block at its place; only the removal of cleared blocks closes the
//! gaps it leaves, and new blocks come at the end.

use vstd::prelude::*;
use crate::block::{Block, StateKind};
use crate::timer::Timer;

verus! {

/// Lift speed at the start of a game, in pixels per second.
pub const NORMAL_SPEED: u32 = 10;

/// Lift speed while the player forces the lift.
pub const MANUAL_SPEED: u32 = 100;

/// Delay before the first lift.
pub const FIRST_LIFT_DELAY_MS: u32 = 1_000;

/// Height of the spawn marker at the start of a game, and the height it
/// returns to when it recycles.
pub const BOTTOM_START_Y: i32 = -350_000;

/// Height at which the spawn marker recycles.
pub const BOTTOM_RECYCLE_Y: i32 = -300_000;

/// The two-cell-wide selector. `x` is the border between its two cells.
#[derive(Clone, Copy, Debug, PartialEq, Eq, Structural)]
pub struct Cursor {
    pub x: i32,
    pub y: i32,
}

/// Lift speed in pixels per second: the speed in force, and the speed to go
/// back to after a forced lift.
#[derive(Clone, Copy, Debug, PartialEq, Eq, Structural)]
pub struct GameSpeed {
    pub current: u32,
    pub origin: u32,
}

/// The state of a game.
#[derive(Debug)]
pub struct Board {
    pub blocks: Vec<Block>,
    pub cursor: Cursor,
    /// Height of the marker that follows the lowest spawn row.
    pub bottom_y: i32,
    /// Combo multiplier; 1 while no chain is running.
    pub chain_counter: u32,
    /// Countdown to the first lift; the lift is active once it has finished.
    pub count_timer: Timer,
    pub speed: GameSpeed,
    /// Set once a block has crossed the kill line; never cleared.
    pub game_over: bool,
}

/// The mathematical value of a board.
pub struct BoardView {
    pub blocks: Seq<Block>,
    pub cursor: Cursor,
    pub bottom_y: i32,
    pub chain_counter: u32,
    pub count_timer: Timer,
    pub speed: GameSpeed,
    pub game_over: bool,
}

impl View for Board {
    type V = BoardView;

    open spec fn view(&self) -> BoardView {
        BoardView {
            blocks: self.blocks@,
            cursor: self.cursor,
            bottom_y: self.bottom_y,
            chain_counter: self.chain_counter,
            count_timer: self.count_timer,
            speed: self.speed,
            game_over: self.game_over,
        }
    }
}

impl BoardView {
    /// This board with other blocks.
    pub open spec fn with_blocks(self, blocks: Seq<Block>) -> BoardView {
        BoardView { blocks, ..self }
    }

    /// An empty board with the cursor at the origin, as a game starts.
    pub open spec fn empty() -> BoardView {
        BoardView {
            blocks: Seq::empty(),
            cursor: Cursor { x: 0, y: 0 },
            bottom_y: BOTTOM_START_Y,
            chain_counter: 1,
            count_timer: Timer::started(FIRST_LIFT_DELAY_MS),
            speed: GameSpeed { current: NORMAL_SPEED, origin: NORMAL_SPEED },
            game_over: false,
        }
    }
}

/// Number of blocks in a state of the given kind.
pub open spec fn count_kind(blocks: Seq<Block>, kind: StateKind) -> nat
    decreases blocks.len(),
{
    if blocks.len() == 0 {
        0
    } else {
        count_kind(blocks.drop_last(), kind) + if blocks.last().state.kind_of() == kind {
            1nat
        } else {
            0nat
        }
    }
}

/// Number of blocks that carry a chain marker.
pub open spec fn count_chained(blocks: Seq<Block>) -> nat
    decreases blocks.len(),
{
    if blocks.len() == 0 {
        0
    } else {
        count_chained(blocks.drop_last()) + if blocks.last().chain is Some {
            1nat
        } else {
            0nat
        }
    }
}

/// Counting one block further adds that block if it is of the kind.
pub proof fn lemma_count_kind_step(blocks: Seq<Block>, kind: StateKind, i: int)
    requires
        0 <= i < blocks.len(),
    ensures
        count_kind(blocks.take(i + 1), kind) == count_kind(blocks.take(i), kind) + if blocks[i].state.kind_of()
            == kind {
            1nat
        } else {
            0nat
        },
        count_kind(blocks.take(i), kind) <= i,
    decreases i,
{
    assert(blocks.take(i + 1).drop_last() == blocks.take(i));
    assert(blocks.take(i + 1).last() == blocks[i]);
    if i > 0 {
        lemma_count_kind_step(blocks, kind, i - 1);
    }
}

/// Counting one block further adds that block if it carries a chain marker.
pub proof fn lemma_count_chained_step(blocks: Seq<Block>, i: int)
    requires
        0 <= i < blocks.len(),
    ensures
        count_chained(blocks.take(i + 1)) == count_chained(blocks.take(i)) + if blocks[i].chain is Some {
            1nat
        } else {
            0nat
        },
        count_chained(blocks.take(i)) <= i,
    decreases i,
{
    assert(blocks.take(i + 1).drop_last() == blocks.take(i));
    assert(blocks.take(i + 1).last() == blocks[i]);
    if i > 0 {
        lemma_count_chained_step(blocks, i - 1);
    }
}

impl Board {
    /// Creates an empty board as a game starts: cursor at the origin, chain
    /// counter at 1, normal speed and a one-second delay before the first lift.
    pub fn new() -> (board: Board)
        ensures
            board@ == BoardView::empty(),
    {
        Board {
            blocks: Vec::new(),
            cursor: Cursor { x: 0, y: 0 },
            bottom_y: BOTTOM_START_Y,
            chain_counter: 1,
            count_timer: Timer::from_millis(FIRST_LIFT_DELAY_MS),
            speed: GameSpeed { current: NORMAL_SPEED, origin: NORMAL_SPEED },
            game_over: false,
        }
    }

    /// Appends a block and returns its index.
    pub fn add_block(&mut self, block: Block) -> (index: usize)
        ensures
            final(self)@ == old(self)@.with_blocks(old(self)@.blocks.push(block)),
            index == old(self)@.blocks.len(),
    {
        self.blocks.push(block);
        self.blocks.len() - 1
    }

    /// Number of blocks on the board.
    pub fn len(&self) -> (n: usize)
        ensures
            n == self@.blocks.len(),
    {
        self.blocks.len()
    }

    /// The block at `index`, if there is one.
    pub fn block(&self, index: usize) -> (b: Option<Block>)
        ensures
            index < self@.blocks.len() ==> b == Some(self@.blocks[index as int]),
            index >= self@.blocks.len() ==> b is None,
    {
        if index < self.blocks.len() {
            Some(self.blocks[index])
        } else {
            None
        }
    }

    /// Counts the blocks in a state of the given kind.
    pub fn count(&self, kind: StateKind) -> (n: usize)
        ensures
            n == count_kind(self@.blocks, kind),
    {
        let mut n: usize = 0;
        let mut i: usize = 0;
        while i < self.blocks.len()
            invariant
                i <= self.blocks.len(),
                n <= i,
                n == count_kind(self.blocks@.take(i as int), kind),
            decreases self.blocks.len() - i,
        {
            proof {
                lemma_count_kind_step(self.blocks@, kind, i as int);
            }
            if self.blocks[i].state.kind() == kind {
                n = n + 1;
            }
            i = i + 1;
        }
        proof {
            assert(self.blocks@.take(i as int) == self.blocks@);
        }
        n
    }

    /// Counts the blocks that carry a chain marker.
    pub fn count_chain(&self) -> (n: usize)
        ensures
            n == count_chained(self@.blocks),
    {
        let mut n: usize = 0;
        let mut i: usize = 0;
        while i < self.blocks.len()
            invariant
                i <= self.blocks.len(),
                n <= i,
                n == count_chained(self.blocks@.take(i as int)),
            decreases self.blocks.len() - i,
        {
            proof {
                lemma_count_chained_step(self.blocks@, i as int);
            }
            if self.blocks[i].has_chain() {
                n = n + 1;
            }
            i = i + 1;
        }
        proof {
            assert(self.blocks@.take(i as int) == self.blocks@);
        }
        n
    }
}

} // verus!
