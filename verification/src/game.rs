//! One tick of the game: every stage once, in the order in which each reads
//! what the one before has written.

use vstd::prelude::*;
use crate::block::BlockColor;
use crate::board::{Board, BoardView};
use crate::cursor::{spec_move_cursor, CursorMove};
use crate::despawn::{
    removed_places,
    same_places,
    spec_despawn_block,
    spec_prepare_despawn_block,
    spec_remove_chain,
    spec_reset_chain_counter,
};
use crate::gravity::{
    spec_check_fall_block,
    spec_fall_block,
    spec_fall_upward,
    spec_fixedprepare_to_fixed,
    spec_floating_to_fall,
    spec_stop_fall_block,
};
use crate::lift::{
    game_ends,
    lifts,
    spec_auto_liftup,
    spec_bottom_down,
    spec_check_game_over,
    spec_manual_liftup,
    spec_spawning_to_fixed,
};
use crate::matching::spec_match_block;
use crate::spawn::{random_row, spawn_due, spec_generate_spawning_block, valid_row};
use crate::swap::{spec_ease_moving, spec_move_block, spec_move_tag_block, spec_moving_to_fixed};

verus! {

/// What the player asks for on a tick.
#[derive(Clone, Copy, Debug, PartialEq, Eq)]
pub struct Intent {
    /// A step of the cursor.
    pub movement: Option<CursorMove>,
    /// A swap at the cursor.
    pub swap: bool,
    /// A forced lift.
    pub lift: bool,
}

/// What a tick has done to the board besides moving blocks.
#[derive(Debug)]
pub struct TickReport {
    /// Whether a spawn row was appended to the blocks.
    pub spawned: bool,
    /// The places of the blocks that were removed, in rising order, among the
    /// blocks as they stood after a spawn row was appended.
    pub removed: Vec<usize>,
    /// Whether the game has ended on this tick.
    pub game_over: bool,
    /// Whether the board was lifted.
    pub lifted: bool,
}

/// The board after the stages that slide swapped blocks.
pub open spec fn spec_move_stage(b: BoardView, swap: bool, dt_ms: u32) -> BoardView {
    spec_moving_to_fixed(spec_ease_moving(spec_move_block(spec_move_tag_block(b, swap)), dt_ms))
}

/// The board after the stages of gravity.
pub open spec fn spec_fall_stage(b: BoardView, dt_ms: u32) -> BoardView {
    spec_fixedprepare_to_fixed(
        spec_stop_fall_block(
            spec_fall_block(
                spec_floating_to_fall(spec_fall_upward(spec_check_fall_block(b)), dt_ms),
                dt_ms,
            ),
        ),
    )
}

/// The board after the stages that bring in new blocks, if `row` are the
/// colours drawn.
pub open spec fn spec_spawn_stage(b: BoardView, dt_ms: u32, row: Seq<BlockColor>) -> BoardView {
    spec_bottom_down(spec_spawning_to_fixed(spec_generate_spawning_block(b, dt_ms, row)), dt_ms)
}

/// The board as the spawn stage finds it on a tick.
pub open spec fn spec_before_spawn(b: BoardView, intent: Intent, dt_ms: u32) -> BoardView {
    spec_fall_stage(spec_move_stage(b, intent.swap, dt_ms), dt_ms)
}

/// The board as the removal of cleared blocks finds it on a tick.
pub open spec fn spec_before_despawn(b: BoardView, intent: Intent, dt_ms: u32, row: Seq<BlockColor>) -> BoardView {
    spec_prepare_despawn_block(
        spec_match_block(
            spec_move_cursor(
                spec_spawn_stage(spec_before_spawn(b, intent, dt_ms), dt_ms, row),
                intent.movement,
            ),
        ),
    )
}

/// The board as the lift finds it on a tick.
pub open spec fn spec_before_lift(b: BoardView, intent: Intent, dt_ms: u32, row: Seq<BlockColor>) -> BoardView {
    spec_manual_liftup(spec_check_game_over(spec_before_end(b, intent, dt_ms, row)), intent.lift)
}

/// The board after the cursor has moved and matches were found, timed and
/// cleared.
pub open spec fn spec_clear_stage(b: BoardView, movement: Option<CursorMove>, dt_ms: u32) -> BoardView {
    spec_reset_chain_counter(
        spec_remove_chain(
            spec_despawn_block(
                spec_prepare_despawn_block(spec_match_block(spec_move_cursor(b, movement))),
                dt_ms,
            ),
            dt_ms,
        ),
    )
}

/// The board as the test for the end of the game finds it on a tick.
pub open spec fn spec_before_end(b: BoardView, intent: Intent, dt_ms: u32, row: Seq<BlockColor>) -> BoardView {
    spec_clear_stage(
        spec_spawn_stage(spec_fall_stage(spec_move_stage(b, intent.swap, dt_ms), dt_ms), dt_ms, row),
        intent.movement,
        dt_ms,
    )
}

/// The board after a tick, if `row` are the colours drawn for a spawn row.
/// A game that has ended stays as it is. Otherwise the stages run in this
/// order: sliding, gravity, spawning, cursor and clearing, the test for the
/// end of the game, the lift.
pub open spec fn spec_tick(b: BoardView, intent: Intent, dt_ms: u32, row: Seq<BlockColor>) -> BoardView {
    if b.game_over {
        b
    } else {
        spec_auto_liftup(
            spec_manual_liftup(
                spec_check_game_over(spec_before_end(b, intent, dt_ms, row)),
                intent.lift,
            ),
            dt_ms,
        )
    }
}

/// Whether the game ends on a tick.
pub open spec fn tick_ends_game(b: BoardView, intent: Intent, dt_ms: u32, row: Seq<BlockColor>) -> bool {
    !b.game_over && game_ends(spec_before_end(b, intent, dt_ms, row))
}

/// Whether a report tells what a tick has done. On a game that has ended it
/// tells of nothing. Otherwise it tells whether a spawn row was due, which
/// blocks were removed, whether the game has ended and whether the board
/// was lifted, each as the stage concerned found the board.
pub open spec fn reports(
    report: TickReport,
    b: BoardView,
    intent: Intent,
    dt_ms: u32,
    row: Seq<BlockColor>,
) -> bool {
    if b.game_over {
        !report.spawned && report.removed@.len() == 0 && !report.game_over && !report.lifted
    } else {
        &&& report.spawned == spawn_due(spec_before_spawn(b, intent, dt_ms))
        &&& same_places(
            report.removed@,
            removed_places(spec_before_despawn(b, intent, dt_ms, row).blocks, dt_ms),
        )
        &&& report.game_over == tick_ends_game(b, intent, dt_ms, row)
        &&& report.lifted == lifts(spec_before_lift(b, intent, dt_ms, row), dt_ms)
    }
}

impl Board {
    /// Runs one tick of `dt_ms` milliseconds with the colours given for a
    /// spawn row; they are placed only if a row is due.
    pub fn tick_with_row(&mut self, intent: &Intent, dt_ms: u32, row: &Vec<BlockColor>) -> (report:
        TickReport)
        ensures
            final(self)@ == spec_tick(old(self)@, *intent, dt_ms, row@),
            reports(report, old(self)@, *intent, dt_ms, row@),
    {
        if self.game_over {
            return TickReport { spawned: false, removed: Vec::new(), game_over: false, lifted: false };
        }
        self.move_tag_block(intent.swap);
        self.move_block();
        self.ease_moving(dt_ms);
        self.moving_to_fixed();
        self.check_fall_block();
        self.fall_upward();
        self.floating_to_fall(dt_ms);
        self.fall_block(dt_ms);
        self.stop_fall_block();
        self.fixedprepare_to_fixed();
        let spawned: bool = self.spawn_row(dt_ms, row);
        self.spawning_to_fixed();
        self.bottom_down(dt_ms);
        self.move_cursor(intent.movement);
        self.match_block();
        self.prepare_despawn_block();
        let removed: Vec<usize> = self.despawn_block(dt_ms);
        self.remove_chain(dt_ms);
        self.reset_chain_counter();
        assert(self@ == spec_before_end(old(self)@, *intent, dt_ms, row@));
        let game_over: bool = self.check_game_over();
        self.manual_liftup(intent.lift);
        let lifted: bool = self.auto_liftup(dt_ms);
        TickReport { spawned, removed, game_over, lifted }
    }

    /// Runs one tick of `dt_ms` milliseconds. The colours of a spawn row are
    /// drawn at random; whatever the generator gives, the board is the one
    /// that `tick_with_row` makes of some valid row.
    pub fn tick(&mut self, intent: &Intent, dt_ms: u32) -> (report: TickReport)
        ensures
            exists|row: Seq<BlockColor>|
                valid_row(row) && final(self)@ == #[trigger] spec_tick(old(self)@, *intent, dt_ms, row)
                    && reports(report, old(self)@, *intent, dt_ms, row),
    {
        let row: Vec<BlockColor> = random_row();
        let report: TickReport = self.tick_with_row(intent, dt_ms, &row);
        assert(valid_row(row@) && self@ == spec_tick(old(self)@, *intent, dt_ms, row@) && reports(
            report,
            old(self)@,
            *intent,
            dt_ms,
            row@,
        ));
        report
    }
}

} // verus!
