//! Blocks: a position, a colour and exactly one lifecycle state.

use vstd::prelude::*;
use crate::timer::Timer;

verus! {

/// How long a swapped block takes to reach the neighbouring column.
pub const MOVE_DURATION_MS: u32 = 40;

/// How long a block stays eligible for a chain after the block below it was
/// cleared.
pub const CHAIN_DURATION_MS: u32 = 40;

/// How long a block hovers before it starts to fall.
pub const FLOAT_DURATION_MS: u32 = 20;

/// Time a matched block takes to clear, per block of the match.
pub const DESPAWN_UNIT_MS: u32 = 300;

/// The colour of a block.
#[derive(Clone, Copy, Debug, PartialEq, Eq, Hash, Structural)]
pub enum BlockColor {
    Red,
    Green,
    Blue,
    Yellow,
    Purple,
    Indigo,
}

/// The lifecycle state of a block. A block is in exactly one of them.
#[derive(Clone, Copy, Debug, PartialEq, Eq, Structural)]
pub enum BlockState {
    /// Rising from below the floor.
    Spawning,
    /// At rest: may be swapped and matched.
    Fixed,
    /// Ordered to the column at `target_x`; the slide has not started.
    Move { target_x: i32 },
    /// Sliding from `start_x` to `target_x`.
    Moving { start_x: i32, target_x: i32, elapsed_ms: u32 },
    /// Part of a match found this tick.
    Matched,
    /// Clearing; the block is removed when the timer runs out.
    Despawning { timer: Timer },
    /// Found without support.
    FallPrepare,
    /// Hovering before the fall.
    Floating { timer: Timer },
    /// Falling.
    Fall,
    /// Landed; waiting to be aligned.
    FixedPrepare,
}

/// The lifecycle state of a block without what the state carries.
#[derive(Clone, Copy, Debug, PartialEq, Eq, Hash, Structural)]
pub enum StateKind {
    Spawning,
    Fixed,
    Move,
    Moving,
    Matched,
    Despawning,
    FallPrepare,
    Floating,
    Fall,
    FixedPrepare,
}

impl BlockState {
    /// The kind of this state.
    pub open spec fn kind_of(self) -> StateKind {
        match self {
            BlockState::Spawning => StateKind::Spawning,
            BlockState::Fixed => StateKind::Fixed,
            BlockState::Move { .. } => StateKind::Move,
            BlockState::Moving { .. } => StateKind::Moving,
            BlockState::Matched => StateKind::Matched,
            BlockState::Despawning { .. } => StateKind::Despawning,
            BlockState::FallPrepare => StateKind::FallPrepare,
            BlockState::Floating { .. } => StateKind::Floating,
            BlockState::Fall => StateKind::Fall,
            BlockState::FixedPrepare => StateKind::FixedPrepare,
        }
    }

    /// Computes the kind of this state.
    pub fn kind(&self) -> (k: StateKind)
        ensures
            k == self.kind_of(),
    {
        match self {
            BlockState::Spawning => StateKind::Spawning,
            BlockState::Fixed => StateKind::Fixed,
            BlockState::Move { .. } => StateKind::Move,
            BlockState::Moving { .. } => StateKind::Moving,
            BlockState::Matched => StateKind::Matched,
            BlockState::Despawning { .. } => StateKind::Despawning,
            BlockState::FallPrepare => StateKind::FallPrepare,
            BlockState::Floating { .. } => StateKind::Floating,
            BlockState::Fall => StateKind::Fall,
            BlockState::FixedPrepare => StateKind::FixedPrepare,
        }
    }
}

/// A block of the board.
#[derive(Clone, Copy, Debug, PartialEq, Eq)]
pub struct Block {
    pub x: i32,
    pub y: i32,
    pub color: BlockColor,
    pub state: BlockState,
    /// Present while the block is eligible for a chain.
    pub chain: Option<Timer>,
}

impl Block {
    /// A block without a chain marker.
    pub open spec fn plain(x: i32, y: i32, color: BlockColor, state: BlockState) -> Block {
        Block { x, y, color, state, chain: None }
    }

    /// This block in another state.
    pub open spec fn in_state(self, state: BlockState) -> Block {
        Block { state, ..self }
    }

    /// This block at another height.
    pub open spec fn at_y(self, y: i32) -> Block {
        Block { y, ..self }
    }

    /// This block in another column.
    pub open spec fn at_x(self, x: i32) -> Block {
        Block { x, ..self }
    }

    /// This block with a fresh chain marker.
    pub open spec fn chained(self) -> Block {
        Block { chain: Some(Timer::started(CHAIN_DURATION_MS)), ..self }
    }

    /// Whether the block is ordered to move or sliding.
    pub open spec fn swapping(self) -> bool {
        self.state is Move || self.state is Moving
    }

    /// Whether the block keeps the board from being lifted: it is neither at
    /// rest nor spawning.
    pub open spec fn unsettled(self) -> bool {
        !(self.state is Fixed) && !(self.state is Spawning)
    }

    /// Creates a block without a chain marker.
    pub fn new(x: i32, y: i32, color: BlockColor, state: BlockState) -> (b: Block)
        ensures
            b == Block::plain(x, y, color, state),
    {
        Block { x, y, color, state, chain: None }
    }

    /// Creates a block that carries a chain marker of the given duration.
    pub fn with_chain(
        x: i32,
        y: i32,
        color: BlockColor,
        state: BlockState,
        chain_ms: u32,
    ) -> (b: Block)
        ensures
            b == (Block { chain: Some(Timer::started(chain_ms)), ..Block::plain(x, y, color, state) }),
    {
        Block { x, y, color, state, chain: Some(Timer::from_millis(chain_ms)) }
    }

    /// Whether the block is rising from below the floor.
    pub fn is_spawning(&self) -> (r: bool)
        ensures
            r == (self.state is Spawning),
    {
        match self.state {
            BlockState::Spawning => true,
            _ => false,
        }
    }

    /// Whether the block is at rest.
    pub fn is_fixed(&self) -> (r: bool)
        ensures
            r == (self.state is Fixed),
    {
        match self.state {
            BlockState::Fixed => true,
            _ => false,
        }
    }

    /// Whether the block is ordered to another column.
    pub fn is_move(&self) -> (r: bool)
        ensures
            r == (self.state is Move),
    {
        match self.state {
            BlockState::Move { .. } => true,
            _ => false,
        }
    }

    /// Whether the block is sliding to another column.
    pub fn is_moving(&self) -> (r: bool)
        ensures
            r == (self.state is Moving),
    {
        match self.state {
            BlockState::Moving { .. } => true,
            _ => false,
        }
    }

    /// Whether the block is part of a match.
    pub fn is_matched(&self) -> (r: bool)
        ensures
            r == (self.state is Matched),
    {
        match self.state {
            BlockState::Matched => true,
            _ => false,
        }
    }

    /// Whether the block is clearing.
    pub fn is_despawning(&self) -> (r: bool)
        ensures
            r == (self.state is Despawning),
    {
        match self.state {
            BlockState::Despawning { .. } => true,
            _ => false,
        }
    }

    /// Whether the block was found without support.
    pub fn is_fall_prepare(&self) -> (r: bool)
        ensures
            r == (self.state is FallPrepare),
    {
        match self.state {
            BlockState::FallPrepare => true,
            _ => false,
        }
    }

    /// Whether the block hovers before its fall.
    pub fn is_floating(&self) -> (r: bool)
        ensures
            r == (self.state is Floating),
    {
        match self.state {
            BlockState::Floating { .. } => true,
            _ => false,
        }
    }

    /// Whether the block is falling.
    pub fn is_fall(&self) -> (r: bool)
        ensures
            r == (self.state is Fall),
    {
        match self.state {
            BlockState::Fall => true,
            _ => false,
        }
    }

    /// Whether the block has landed and waits to come to rest.
    pub fn is_fixed_prepare(&self) -> (r: bool)
        ensures
            r == (self.state is FixedPrepare),
    {
        match self.state {
            BlockState::FixedPrepare => true,
            _ => false,
        }
    }

    /// Whether the block carries a chain marker.
    pub fn has_chain(&self) -> (r: bool)
        ensures
            r == (self.chain is Some),
    {
        self.chain.is_some()
    }

    /// Whether the block keeps the board from being lifted.
    pub fn is_unsettled(&self) -> (r: bool)
        ensures
            r == self.unsettled(),
    {
        !self.is_fixed() && !self.is_spawning()
    }
}

} // verus!
