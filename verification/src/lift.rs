//! The lift: the whole board rises while nothing on it is in motion, blocks
//! that rise above the floor settle, and the game ends once a block has been
//! lifted over the kill line.

use vstd::prelude::*;
use crate::block::{Block, BlockState};
use crate::board::{
    Board,
    BoardView,
    Cursor,
    GameSpeed,
    BOTTOM_RECYCLE_Y,
    BOTTOM_START_Y,
    MANUAL_SPEED,
};
use crate::geometry::{clamp_coord, raised, travel, travelled, FLOOR_Y, KILL_LINE_Y};
use crate::timer::Timer;

verus! {

/// Whether some block keeps the board from being lifted: a block that is
/// neither at rest nor spawning.
pub open spec fn blocked(s: Seq<Block>) -> bool {
    exists|i: int| 0 <= i < s.len() && (#[trigger] s[i]).unsettled()
}

/// Whether the lift advances the board on a tick of `dt_ms`: the countdown
/// has run out by then and no block keeps the board from being lifted.
pub open spec fn lifts(b: BoardView, dt_ms: u32) -> bool {
    b.count_timer.ticked(dt_ms).finished && !blocked(b.blocks)
}

/// A height after the board has risen by `rise`.
pub open spec fn lifted_y(y: i32, rise: int) -> i32 {
    clamp_coord(y + rise) as i32
}

/// The board after the lift stage. The countdown always advances. If the
/// lift is on, every block, the cursor and the spawn marker rise by the way
/// covered at the current speed; if not, nothing moves.
pub open spec fn spec_auto_liftup(b: BoardView, dt_ms: u32) -> BoardView {
    let rise = travel(b.speed.current as int, dt_ms as int);
    if lifts(b, dt_ms) {
        BoardView {
            blocks: Seq::new(
                b.blocks.len(),
                |i: int| b.blocks[i].at_y(lifted_y(b.blocks[i].y, rise)),
            ),
            cursor: Cursor { y: lifted_y(b.cursor.y, rise), ..b.cursor },
            bottom_y: lifted_y(b.bottom_y, rise),
            count_timer: b.count_timer.ticked(dt_ms),
            ..b
        }
    } else {
        BoardView { count_timer: b.count_timer.ticked(dt_ms), ..b }
    }
}

/// The board after a forced lift was asked for or not: if it was, the
/// countdown is cut to nothing and the lift runs at `MANUAL_SPEED`.
pub open spec fn spec_manual_liftup(b: BoardView, lift: bool) -> BoardView {
    if lift {
        BoardView {
            count_timer: Timer { duration_ms: 0, ..b.count_timer },
            speed: GameSpeed { current: MANUAL_SPEED, ..b.speed },
            ..b
        }
    } else {
        b
    }
}

/// Whether some block is above the kill line.
pub open spec fn over_line(s: Seq<Block>) -> bool {
    exists|i: int| 0 <= i < s.len() && (#[trigger] s[i]).y > KILL_LINE_Y
}

/// Whether the game ends now: it has not ended before, the lift is active
/// and a block is above the kill line.
pub open spec fn game_ends(b: BoardView) -> bool {
    !b.game_over && b.count_timer.finished && over_line(b.blocks)
}

/// The board after the test for the end of the game.
pub open spec fn spec_check_game_over(b: BoardView) -> BoardView {
    BoardView { game_over: b.game_over || game_ends(b), ..b }
}

/// A block after the spawn test: a spawning block that has risen above the
/// floor is at rest.
pub open spec fn spawn_settled(b: Block) -> Block {
    if b.state is Spawning && b.y > FLOOR_Y {
        b.in_state(BlockState::Fixed)
    } else {
        b
    }
}

/// The board after the spawn test.
pub open spec fn spec_spawning_to_fixed(b: BoardView) -> BoardView {
    b.with_blocks(Seq::new(b.blocks.len(), |i: int| spawn_settled(b.blocks[i])))
}

/// The board after the spawn marker was looked after: once it has risen to
/// `BOTTOM_RECYCLE_Y` it starts again one row lower, ahead by the way the
/// board rises on this tick, and the lift goes back to its normal speed.
pub open spec fn spec_bottom_down(b: BoardView, dt_ms: u32) -> BoardView {
    if b.bottom_y >= BOTTOM_RECYCLE_Y {
        BoardView {
            bottom_y: lifted_y(BOTTOM_START_Y, travel(b.speed.current as int, dt_ms as int)),
            speed: GameSpeed { current: b.speed.origin, ..b.speed },
            ..b
        }
    } else {
        b
    }
}

impl Board {
    /// Tests whether some block keeps the board from being lifted.
    pub fn is_blocked(&self) -> (r: bool)
        ensures
            r == blocked(self@.blocks),
    {
        let mut i: usize = 0;
        while i < self.blocks.len()
            invariant
                i <= self.blocks@.len(),
                forall|k: int| 0 <= k < i ==> !(#[trigger] self.blocks@[k]).unsettled(),
            decreases self.blocks@.len() - i,
        {
            if self.blocks[i].is_unsettled() {
                return true;
            }
            i = i + 1;
        }
        false
    }

    /// Advances the countdown to the lift, and lifts the board if the
    /// countdown has run out and no block is in motion: every block, the
    /// cursor and the spawn marker rise by the way covered at the current
    /// speed in `dt_ms` milliseconds. Tells whether the board was lifted.
    pub fn auto_liftup(&mut self, dt_ms: u32) -> (lifted: bool)
        ensures
            final(self)@ == spec_auto_liftup(old(self)@, dt_ms),
            lifted == lifts(old(self)@, dt_ms),
    {
        self.count_timer.tick(dt_ms);
        if !self.count_timer.finished() || self.is_blocked() {
            return false;
        }
        let rise: u64 = travelled(self.speed.current, dt_ms);
        self.cursor.y = raised(self.cursor.y, rise);
        self.bottom_y = raised(self.bottom_y, rise);
        let n: usize = self.blocks.len();
        let mut i: usize = 0;
        while i < n
            invariant
                n == old(self)@.blocks.len(),
                self.blocks@.len() == n,
                rise == travel(old(self)@.speed.current as int, dt_ms as int),
                i <= n,
                forall|k: int|
                    0 <= k < i ==> self.blocks@[k] == old(self)@.blocks[k].at_y(
                        lifted_y(old(self)@.blocks[k].y, rise as int),
                    ),
                forall|k: int| i <= k < n ==> self.blocks@[k] == old(self)@.blocks[k],
                self@.with_blocks(old(self)@.blocks) == (BoardView {
                    cursor: Cursor { y: lifted_y(old(self)@.cursor.y, rise as int), ..old(self)@.cursor },
                    bottom_y: lifted_y(old(self)@.bottom_y, rise as int),
                    count_timer: old(self)@.count_timer.ticked(dt_ms),
                    ..old(self)@
                }),
            decreases n - i,
        {
            let b: Block = self.blocks[i];
            self.blocks.set(i, Block { y: raised(b.y, rise), ..b });
            i = i + 1;
        }
        assert(self@.blocks =~= spec_auto_liftup(old(self)@, dt_ms).blocks);
        true
    }

    /// Forces the lift if `lift` is asked for: the countdown is cut to
    /// nothing and the lift runs at `MANUAL_SPEED` until the spawn marker
    /// recycles.
    pub fn manual_liftup(&mut self, lift: bool)
        ensures
            final(self)@ == spec_manual_liftup(old(self)@, lift),
    {
        if lift {
            self.count_timer.set_duration(0);
            self.speed.current = MANUAL_SPEED;
        }
    }

    /// Ends the game if the lift is active and a block is above the kill
    /// line. Tells whether the game has ended on this call; once it has, no
    /// later call tells so again.
    pub fn check_game_over(&mut self) -> (fired: bool)
        ensures
            final(self)@ == spec_check_game_over(old(self)@),
            fired == game_ends(old(self)@),
    {
        if self.game_over || !self.count_timer.finished() {
            return false;
        }
        let mut i: usize = 0;
        while i < self.blocks.len()
            invariant
                *self == *old(self),
                !self.game_over,
                self.count_timer.finished,
                i <= self.blocks@.len(),
                forall|k: int| 0 <= k < i ==> (#[trigger] self.blocks@[k]).y <= KILL_LINE_Y,
            decreases self.blocks@.len() - i,
        {
            if self.blocks[i].y > KILL_LINE_Y {
                assert(old(self)@.blocks[i as int].y > KILL_LINE_Y);
                self.game_over = true;
                return true;
            }
            i = i + 1;
        }
        false
    }

    /// Brings every spawning block that has risen above the floor to rest.
    pub fn spawning_to_fixed(&mut self)
        ensures
            final(self)@ == spec_spawning_to_fixed(old(self)@),
    {
        let n: usize = self.blocks.len();
        let mut i: usize = 0;
        while i < n
            invariant
                n == old(self)@.blocks.len(),
                self.blocks@.len() == n,
                i <= n,
                forall|k: int| 0 <= k < i ==> self.blocks@[k] == spawn_settled(old(self)@.blocks[k]),
                forall|k: int| i <= k < n ==> self.blocks@[k] == old(self)@.blocks[k],
                self@.with_blocks(old(self)@.blocks) == old(self)@,
            decreases n - i,
        {
            let b: Block = self.blocks[i];
            if b.is_spawning() && b.y > FLOOR_Y {
                self.blocks.set(i, Block { state: BlockState::Fixed, ..b });
            }
            i = i + 1;
        }
        assert(self@.blocks =~= spec_spawning_to_fixed(old(self)@).blocks);
    }

    /// Recycles the spawn marker once it has risen to `BOTTOM_RECYCLE_Y`, and
    /// ends a forced lift.
    pub fn bottom_down(&mut self, dt_ms: u32)
        ensures
            final(self)@ == spec_bottom_down(old(self)@, dt_ms),
    {
        if self.bottom_y >= BOTTOM_RECYCLE_Y {
            self.bottom_y = raised(BOTTOM_START_Y, travelled(self.speed.current, dt_ms));
            self.speed.current = self.speed.origin;
        }
    }
}

} // verus!
