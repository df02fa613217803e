//! Moving the cursor over the board.

use vstd::prelude::*;
use crate::board::{Board, BoardView, Cursor};
use crate::geometry::BLOCK_SIZE;

verus! {

/// The cursor stays strictly within this distance of the middle column line.
pub const CURSOR_REACH_X: i32 = 125_000;

/// The cursor stays strictly within this distance of the middle row.
pub const CURSOR_REACH_Y: i32 = 300_000;

/// A wish to move the cursor: so many block steps to the right and upwards.
#[derive(Clone, Copy, Debug, PartialEq, Eq, Structural)]
pub struct CursorMove {
    pub dx: i8,
    pub dy: i8,
}

/// The cursor after a move: along each axis it goes where it is sent if that
/// place lies strictly within reach, and stays where it is if not.
pub open spec fn moved_cursor(c: Cursor, m: CursorMove) -> Cursor {
    let x = c.x + m.dx * BLOCK_SIZE;
    let y = c.y + m.dy * BLOCK_SIZE;
    Cursor {
        x: if -CURSOR_REACH_X < x < CURSOR_REACH_X {
            x as i32
        } else {
            c.x
        },
        y: if -CURSOR_REACH_Y < y < CURSOR_REACH_Y {
            y as i32
        } else {
            c.y
        },
    }
}

/// The board after the cursor stage.
pub open spec fn spec_move_cursor(b: BoardView, movement: Option<CursorMove>) -> BoardView {
    match movement {
        Some(m) => BoardView { cursor: moved_cursor(b.cursor, m), ..b },
        None => b,
    }
}

impl Board {
    /// Moves the cursor by whole blocks, as far as it stays on the board.
    pub fn move_cursor(&mut self, movement: Option<CursorMove>)
        ensures
            final(self)@ == spec_move_cursor(old(self)@, movement),
    {
        match movement {
            Some(m) => {
                assert(-128 * 50_000 <= m.dx as int * BLOCK_SIZE as int <= 127 * 50_000
                    && -128 * 50_000 <= m.dy as int * BLOCK_SIZE as int <= 127 * 50_000)
                    by (nonlinear_arith)
                    requires
                        -128 <= m.dx as int <= 127,
                        -128 <= m.dy as int <= 127,
                        BLOCK_SIZE as int == 50_000,
                ;
                let x: i64 = self.cursor.x as i64 + m.dx as i64 * BLOCK_SIZE as i64;
                let y: i64 = self.cursor.y as i64 + m.dy as i64 * BLOCK_SIZE as i64;
                if -(CURSOR_REACH_X as i64) < x && x < CURSOR_REACH_X as i64 {
                    self.cursor.x = x as i32;
                }
                if -(CURSOR_REACH_Y as i64) < y && y < CURSOR_REACH_Y as i64 {
                    self.cursor.y = y as i32;
                }
            },
            None => {},
        }
    }
}

} // verus!
