//! Laws that relate several stages of the game.

use vstd::prelude::*;
use crate::block::{Block, BlockColor, BlockState, MOVE_DURATION_MS};
use crate::board::BoardView;
use crate::column::{candidate, is_walk, lemma_walk_is, reached, walk_from, Pick};
use crate::cursor::CURSOR_REACH_X;
use crate::despawn::{chain_step, cleared_around, clearing, clearing_flags, freed};
use crate::game::{spec_before_end, spec_move_stage, spec_tick, tick_ends_game, Intent};
use crate::geometry::{travel, BLOCK_SIZE, HALF_BLOCK};
use crate::gravity::{
    afloat,
    fall_prepared,
    float_step,
    floated,
    floats,
    lemma_settle_one,
    rest_step,
    settled_from,
    settled_upto,
    snapped,
    FLOAT_GAP,
    REST_REACH,
};
use crate::lift::{blocked, game_ends, lifts, spec_auto_liftup, spec_check_game_over, spec_manual_liftup};
use crate::swap::{
    in_cell,
    left_x,
    lemma_sole_occupant,
    right_x,
    spec_ease_moving,
    spec_move_block,
    spec_move_tag_block,
    spec_moving_to_fixed,
    swapped_blocks,
};

verus! {

/// Whether blocks `l` and `r` stand at rest in the cell under the left and
/// under the right half of the cursor, with the cursor on the board, while no
/// other block lies in either cell or is on its way to another column.
pub open spec fn straddles(b: BoardView, l: int, r: int) -> bool {
    &&& 0 <= l < b.blocks.len()
    &&& 0 <= r < b.blocks.len()
    &&& -CURSOR_REACH_X < b.cursor.x < CURSOR_REACH_X
    &&& b.blocks[l].state is Fixed
    &&& b.blocks[r].state is Fixed
    &&& in_cell(b.blocks[l], left_x(b.cursor), b.cursor.y as int)
    &&& in_cell(b.blocks[r], right_x(b.cursor), b.cursor.y as int)
    &&& forall|k: int|
        0 <= k < b.blocks.len() && k != l && k != r ==> {
            &&& !in_cell(#[trigger] b.blocks[k], left_x(b.cursor), b.cursor.y as int)
            &&& !in_cell(b.blocks[k], right_x(b.cursor), b.cursor.y as int)
            &&& !b.blocks[k].swapping()
        }
}

/// One swap of two blocks that straddle the cursor, slid to its end, puts
/// each of them at rest in exactly the other one's column and leaves every
/// other block as it was.
pub proof fn lemma_swap_once(b: BoardView, l: int, r: int, dt_ms: u32)
    requires
        straddles(b, l, r),
        dt_ms >= MOVE_DURATION_MS,
    ensures
        spec_move_stage(b, true, dt_ms) == b.with_blocks(
            b.blocks.update(l, b.blocks[l].at_x(right_x(b.cursor) as i32)).update(
                r,
                b.blocks[r].at_x(left_x(b.cursor) as i32),
            ),
        ),
        l != r,
{
    let s = b.blocks;
    let c = b.cursor;
    assert(l != r);
    assert forall|j: int| 0 <= j < s.len() && j != l implies !in_cell(
        #[trigger] s[j],
        left_x(c),
        c.y as int,
    ) by {}
    assert forall|j: int| 0 <= j < s.len() && j != r implies !in_cell(
        #[trigger] s[j],
        right_x(c),
        c.y as int,
    ) by {}
    lemma_sole_occupant(s, left_x(c), c.y as int, l);
    lemma_sole_occupant(s, right_x(c), c.y as int, r);
    let tagged = spec_move_tag_block(b, true);
    assert(tagged.blocks == swapped_blocks(s, c));
    assert(tagged.blocks[l].state == (BlockState::Move { target_x: right_x(c) as i32 }));
    assert(tagged.blocks[r].state == (BlockState::Move { target_x: left_x(c) as i32 }));
    let started = spec_move_block(tagged);
    let eased = spec_ease_moving(started, dt_ms);
    let placed = spec_moving_to_fixed(eased);
    let goal = s.update(l, s[l].at_x(right_x(c) as i32)).update(r, s[r].at_x(left_x(c) as i32));
    assert forall|k: int| 0 <= k < s.len() implies placed.blocks[k] == goal[k] by {
        if k != l && k != r {
            assert(tagged.blocks[k] == s[k]);
            assert(!s[k].swapping());
            assert(started.blocks[k] == s[k]);
            assert(eased.blocks[k] == s[k]);
        } else if k == l {
            assert(started.blocks[k].state == (BlockState::Moving {
                start_x: s[l].x,
                target_x: right_x(c) as i32,
                elapsed_ms: 0,
            }));
            assert(eased.blocks[k].state == (BlockState::Moving {
                start_x: s[l].x,
                target_x: right_x(c) as i32,
                elapsed_ms: MOVE_DURATION_MS,
            }));
        } else {
            assert(started.blocks[k].state == (BlockState::Moving {
                start_x: s[r].x,
                target_x: left_x(c) as i32,
                elapsed_ms: 0,
            }));
            assert(eased.blocks[k].state == (BlockState::Moving {
                start_x: s[r].x,
                target_x: left_x(c) as i32,
                elapsed_ms: MOVE_DURATION_MS,
            }));
        }
    }
    assert(placed.blocks =~= goal);
}

/// Swap symmetry: two swaps in a row of two blocks that straddle the cursor,
/// each slid to its end, bring both blocks back to their own columns, at
/// rest, and leave every other block as it was. Blocks that stood exactly in
/// the middle of their cells are back exactly where they were.
pub proof fn lemma_swap_twice(b: BoardView, l: int, r: int, first_ms: u32, second_ms: u32)
    requires
        straddles(b, l, r),
        first_ms >= MOVE_DURATION_MS,
        second_ms >= MOVE_DURATION_MS,
    ensures
        spec_move_stage(spec_move_stage(b, true, first_ms), true, second_ms) == b.with_blocks(
            b.blocks.update(l, b.blocks[l].at_x(left_x(b.cursor) as i32)).update(
                r,
                b.blocks[r].at_x(right_x(b.cursor) as i32),
            ),
        ),
        b.blocks[l].x == left_x(b.cursor) && b.blocks[r].x == right_x(b.cursor) ==> spec_move_stage(
            spec_move_stage(b, true, first_ms),
            true,
            second_ms,
        ) == b,
{
    lemma_swap_once(b, l, r, first_ms);
    let once = spec_move_stage(b, true, first_ms);
    assert(straddles(once, r, l)) by {
        assert forall|k: int| 0 <= k < once.blocks.len() && k != l && k != r implies {
            &&& !in_cell(#[trigger] once.blocks[k], left_x(once.cursor), once.cursor.y as int)
            &&& !in_cell(once.blocks[k], right_x(once.cursor), once.cursor.y as int)
            &&& !once.blocks[k].swapping()
        } by {
            assert(once.blocks[k] == b.blocks[k]);
        }
    }
    lemma_swap_once(once, r, l, second_ms);
    let twice = spec_move_stage(once, true, second_ms);
    let goal = b.blocks.update(l, b.blocks[l].at_x(left_x(b.cursor) as i32)).update(
        r,
        b.blocks[r].at_x(right_x(b.cursor) as i32),
    );
    assert(twice.blocks =~= goal);
    if b.blocks[l].x == left_x(b.cursor) && b.blocks[r].x == right_x(b.cursor) {
        assert(goal =~= b.blocks);
    }
}

/// Lift stall: while a block is in motion, that is in any state but at rest
/// and spawning, the lift moves nothing, whether or not its countdown has run
/// out: every block, the cursor and the spawn marker stay where they are.
pub proof fn lemma_lift_stalls(b: BoardView, dt_ms: u32)
    requires
        blocked(b.blocks),
    ensures
        !lifts(b, dt_ms),
        spec_auto_liftup(b, dt_ms).blocks == b.blocks,
        spec_auto_liftup(b, dt_ms).cursor == b.cursor,
        spec_auto_liftup(b, dt_ms).bottom_y == b.bottom_y,
{
}

/// The lift never lowers the board: after the lift stage no block, nor the
/// cursor, nor the spawn marker is lower than before.
pub proof fn lemma_lift_never_lowers(b: BoardView, dt_ms: u32, i: int)
    requires
        0 <= i < b.blocks.len(),
    ensures
        spec_auto_liftup(b, dt_ms).blocks.len() == b.blocks.len(),
        spec_auto_liftup(b, dt_ms).blocks[i].y >= b.blocks[i].y,
        spec_auto_liftup(b, dt_ms).cursor.y >= b.cursor.y,
        spec_auto_liftup(b, dt_ms).bottom_y >= b.bottom_y,
{
    assert(travel(b.speed.current as int, dt_ms as int) >= 0) by (nonlinear_arith)
        requires
            b.speed.current >= 0,
            dt_ms >= 0,
    ;
}

/// The end of the game is told once: whatever the board, the test for the
/// end of the game does not tell it again right after it has run.
pub proof fn lemma_game_over_fires_once(b: BoardView)
    ensures
        !game_ends(spec_check_game_over(b)),
        game_ends(b) ==> spec_check_game_over(b).game_over,
        b.game_over ==> spec_check_game_over(b) == b,
{
}

/// A game that has ended stays ended: a tick changes nothing on it and does
/// not tell the end again.
pub proof fn lemma_ended_game_is_still(b: BoardView, intent: Intent, dt_ms: u32, row: Seq<BlockColor>)
    requires
        b.game_over,
    ensures
        spec_tick(b, intent, dt_ms, row) == b,
        !tick_ends_game(b, intent, dt_ms, row),
{
}

/// Of two ticks in a row, whatever the player asks for and whatever colours
/// are drawn, at most one tells the end of the game: once a tick has told
/// it, the board is ended, and the next tick does not tell it again.
pub proof fn lemma_one_tick_ends_game(
    b: BoardView,
    first: Intent,
    first_ms: u32,
    first_row: Seq<BlockColor>,
    second: Intent,
    second_ms: u32,
    second_row: Seq<BlockColor>,
)
    requires
        tick_ends_game(b, first, first_ms, first_row),
    ensures
        spec_tick(b, first, first_ms, first_row).game_over,
        !tick_ends_game(spec_tick(b, first, first_ms, first_row), second, second_ms, second_row),
{
    let before = spec_before_end(b, first, first_ms, first_row);
    let checked = spec_check_game_over(before);
    assert(checked.game_over);
    assert(spec_manual_liftup(checked, first.lift).game_over);
}

/// Whether blocks `a` and `b` stand stacked right on block `d`, one and two
/// blocks above it in its column, while no other block that a walk of this
/// kind considers stands in the column above `d` lower than `clear_y`.
pub open spec fn stack_of_three(s: Seq<Block>, pick: Pick, d: int, a: int, b: int, clear_y: int) -> bool {
    &&& 0 <= d < s.len()
    &&& 0 <= a < s.len()
    &&& 0 <= b < s.len()
    &&& a != b
    &&& candidate(s, pick, s[d].x as int, s[d].y as int, s.len() as int, a)
    &&& candidate(s, pick, s[d].x as int, s[d].y as int, s.len() as int, b)
    &&& s[a].y == s[d].y + BLOCK_SIZE
    &&& s[b].y == s[d].y + 2 * BLOCK_SIZE
    &&& forall|k: int| #[trigger]
        candidate(s, pick, s[d].x as int, s[d].y as int, s.len() as int, k) && k != a && k != b
            ==> s[k].y >= clear_y
}

/// Chain propagation: when the lowest block of a stack of three is removed,
/// and no other block is removed with it, the two blocks that stand right on
/// it become eligible for a chain, and no block does that stands above them
/// with a gap of half a block or more.
pub proof fn lemma_chain_propagation(s: Seq<Block>, dt_ms: u32, d: int, a: int, b: int)
    requires
        stack_of_three(s, Pick::NotDespawning, d, a, b, s[d].y + 3 * BLOCK_SIZE + HALF_BLOCK),
        clearing(s[d], dt_ms),
        forall|k: int| 0 <= k < s.len() && k != d ==> !clearing(#[trigger] s[k], dt_ms),
    ensures
        forall|j: int| 0 <= j < s.len() ==> (freed(s, dt_ms, j) <==> (j == a || j == b)),
        cleared_around(s, dt_ms, a) == s[a].chained(),
        cleared_around(s, dt_ms, b) == s[b].chained(),
        forall|j: int|
            0 <= j < s.len() && j != a && j != b && !(s[j].state is Despawning) ==> cleared_around(
                s,
                dt_ms,
                j,
            ) == s[j],
{
    let run = seq![a, b];
    let x = s[d].x as int;
    let y = s[d].y as int;
    assert(is_walk(s, Pick::NotDespawning, x, chain_step(), y, y, s.len() as int, 1, run)) by {
        assert forall|c: int| #[trigger]
            candidate(s, Pick::NotDespawning, x, y, s.len() as int, c) && !run.contains(
                c,
            ) implies c != a && c != b by {
            if c == a {
                assert(run[0] == c);
            }
            if c == b {
                assert(run[1] == c);
            }
        }
    }
    lemma_walk_is(s, Pick::NotDespawning, x, chain_step(), y, y, s.len() as int, 1, s.len(), run);
    let whole = walk_from(s, Pick::NotDespawning, chain_step(), d);
    assert(whole == run);
    let flags = clearing_flags(s, dt_ms);
    assert forall|j: int| 0 <= j < s.len() implies (freed(s, dt_ms, j) <==> (j == a || j == b)) by {
        if j == a {
            assert(run[0] == j);
            assert(flags[d] && walk_from(s, Pick::NotDespawning, chain_step(), d).contains(j));
        }
        if j == b {
            assert(run[1] == j);
            assert(flags[d] && walk_from(s, Pick::NotDespawning, chain_step(), d).contains(j));
        }
        if freed(s, dt_ms, j) {
            let g = choose|g: int|
                0 <= g < s.len() && flags[g] && #[trigger] walk_from(
                    s,
                    Pick::NotDespawning,
                    chain_step(),
                    g,
                ).contains(j);
            assert(g == d);
            let q = choose|q: int| 0 <= q < run.len() && run[q] == j;
            assert(q == 0 || q == 1);
        }
    }
}

/// Gravity grouping: an unsupported block with two blocks at rest stacked
/// right on it floats with both of them as a group of three, and a block
/// that stands more than a block and a half above the group stays at rest.
pub proof fn lemma_gravity_grouping(s: Seq<Block>, f: int, a: int, b: int)
    requires
        stack_of_three(s, Pick::Fixed, f, a, b, s[f].y + 2 * BLOCK_SIZE + FLOAT_GAP + 1),
        s[f].state is FallPrepare,
        forall|k: int| 0 <= k < s.len() && k != f ==> !((#[trigger] s[k]).state is FallPrepare),
    ensures
        forall|j: int| 0 <= j < s.len() ==> (floats(s, j) <==> (j == f || j == a || j == b)),
        floated(s)[f] == afloat(s[f]),
        floated(s)[a] == afloat(s[a]),
        floated(s)[b] == afloat(s[b]),
        forall|j: int| 0 <= j < s.len() && j != f && j != a && j != b ==> floated(s)[j] == s[j],
{
    let run = seq![a, b];
    let x = s[f].x as int;
    let y = s[f].y as int;
    assert(is_walk(s, Pick::Fixed, x, float_step(), y, y, s.len() as int, 1, run)) by {
        assert forall|c: int| #[trigger]
            candidate(s, Pick::Fixed, x, y, s.len() as int, c) && !run.contains(c) implies c != a
            && c != b by {
            if c == a {
                assert(run[0] == c);
            }
            if c == b {
                assert(run[1] == c);
            }
        }
    }
    lemma_walk_is(s, Pick::Fixed, x, float_step(), y, y, s.len() as int, 1, s.len(), run);
    let whole = walk_from(s, Pick::Fixed, float_step(), f);
    assert(whole == run);
    let starts = fall_prepared(s);
    assert forall|j: int| 0 <= j < s.len() implies (floats(s, j) <==> (j == f || j == a || j == b)) by {
        if j == a {
            assert(run[0] == j);
            assert(starts[f] && walk_from(s, Pick::Fixed, float_step(), f).contains(j));
        }
        if j == b {
            assert(run[1] == j);
            assert(starts[f] && walk_from(s, Pick::Fixed, float_step(), f).contains(j));
        }
        if reached(s, starts, Pick::Fixed, float_step(), j) {
            let g = choose|g: int|
                0 <= g < s.len() && starts[g] && #[trigger] walk_from(
                    s,
                    Pick::Fixed,
                    float_step(),
                    g,
                ).contains(j);
            assert(g == f);
            let q = choose|q: int| 0 <= q < run.len() && run[q] == j;
            assert(q == 0 || q == 1);
        }
    }
}

/// Landing of a column: when the lowest block of a falling stack of three
/// has landed, and the two blocks on it are falling one and two blocks above
/// it, all three come to rest where they are, while a falling block further
/// up than half a block above the stack goes on falling.
pub proof fn lemma_column_comes_to_rest(s: Seq<Block>, p: int, a: int, b: int)
    requires
        stack_of_three(s, Pick::Fall, p, a, b, s[p].y + 3 * BLOCK_SIZE + REST_REACH),
        s[p].state is FixedPrepare,
        forall|k: int| 0 <= k < s.len() && k != p ==> !((#[trigger] s[k]).state is FixedPrepare),
    ensures
        settled_upto(s, s.len()) == s.update(p, s[p].in_state(BlockState::Fixed)).update(
            a,
            s[a].in_state(BlockState::Fixed),
        ).update(b, s[b].in_state(BlockState::Fixed)),
{
    let run = seq![a, b];
    let x = s[p].x as int;
    let y = s[p].y as int;
    assert(is_walk(s, Pick::Fall, x, rest_step(), y, y, s.len() as int, 1, run)) by {
        assert forall|c: int| #[trigger]
            candidate(s, Pick::Fall, x, y, s.len() as int, c) && !run.contains(c) implies c != a
            && c != b by {
            if c == a {
                assert(run[0] == c);
            }
            if c == b {
                assert(run[1] == c);
            }
        }
    }
    lemma_walk_is(s, Pick::Fall, x, rest_step(), y, y, s.len() as int, 1, s.len(), run);
    assert(walk_from(s, Pick::Fall, rest_step(), p) == run);
    let started = s.update(p, s[p].in_state(BlockState::Fixed));
    let one = snapped(started, run, y, 1);
    let two = snapped(started, run, y, 2);
    assert(snapped(started, run, y, 0) == started);
    assert(one == started.update(a, s[a].in_state(BlockState::Fixed))) by {
        assert(started[a] == s[a]);
    }
    assert(two == one.update(b, s[b].in_state(BlockState::Fixed))) by {
        assert(one[b] == s[b]);
    }
    assert(settled_from(s, p) == two);
    assert forall|i: int| p < i < s.len() implies !((#[trigger] settled_from(s, p)[i]).state is FixedPrepare) by {
        if i != a && i != b {
            assert(two[i] == s[i]);
        }
    }
    lemma_settle_one(s, p, s.len());
}

} // verus!
