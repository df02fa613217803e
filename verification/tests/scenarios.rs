use panepow::actions::{
    set_lift_action, set_movement_actions, Controls, KeyState, LiftAction, MoveActions,
    FIRST_REINPUT_MS, REINPUT_MS,
};
use panepow::block::{Block, BlockColor, BlockState, StateKind};
use panepow::board::{Board, Cursor, GameSpeed};
use panepow::column::{find_next_above, walk_up, Pick, Step};
use panepow::cursor::CursorMove;
use panepow::despawn::combo_duration;
use panepow::game::Intent;
use panepow::geometry::{
    collide, distance, is_near, is_offset_near, lowered, raised, saturate, travelled, Collision,
    BLOCK_SIZE, HALF_BLOCK, UNITS_PER_PIXEL,
};
use panepow::matching::{is_following, Axis};
use panepow::spawn::{column_centre, draw_row, random_row, seed_cell, ColorPool};
use panepow::swap::lerp;
use panepow::timer::Timer;

fn units(pixels: i32) -> i32 {
    pixels * UNITS_PER_PIXEL
}

fn board_of(blocks: Vec<Block>) -> Board {
    let mut board = Board::new();
    for block in blocks {
        board.add_block(block);
    }
    board
}

fn fixed(x: i32, y: i32, color: BlockColor) -> Block {
    Block::new(x, y, color, BlockState::Fixed)
}

fn state_of(board: &Board, index: usize) -> StateKind {
    board.block(index).unwrap().state.kind()
}

fn still() -> Intent {
    Intent { movement: None, swap: false, lift: false }
}

fn plain_row() -> Vec<BlockColor> {
    vec![
        BlockColor::Red,
        BlockColor::Green,
        BlockColor::Blue,
        BlockColor::Red,
        BlockColor::Green,
        BlockColor::Blue,
    ]
}

#[test]
fn swap_twice_restores_both_columns() {
    let mut board = board_of(vec![
        fixed(-HALF_BLOCK, 0, BlockColor::Red),
        fixed(HALF_BLOCK, 0, BlockColor::Blue),
        fixed(3 * HALF_BLOCK, 0, BlockColor::Green),
    ]);
    for round in 0..2 {
        board.move_tag_block(true);
        board.move_block();
        board.ease_moving(40);
        board.moving_to_fixed();
        assert_eq!(board.count(StateKind::Fixed), 3);
        let left = board.block(0).unwrap();
        let right = board.block(1).unwrap();
        if round == 0 {
            assert_eq!((left.x, right.x), (HALF_BLOCK, -HALF_BLOCK));
        } else {
            assert_eq!((left.x, right.x), (-HALF_BLOCK, HALF_BLOCK));
        }
        assert_eq!(board.block(2).unwrap(), fixed(3 * HALF_BLOCK, 0, BlockColor::Green));
    }
}

#[test]
fn swap_slides_linearly_and_settles_on_arrival() {
    let mut board = board_of(vec![fixed(-HALF_BLOCK, 0, BlockColor::Red)]);
    board.move_tag_block(true);
    assert_eq!(
        board.block(0).unwrap().state,
        BlockState::Move { target_x: HALF_BLOCK }
    );
    board.move_block();
    assert_eq!(
        board.block(0).unwrap().state,
        BlockState::Moving { start_x: -HALF_BLOCK, target_x: HALF_BLOCK, elapsed_ms: 0 }
    );
    board.ease_moving(10);
    board.moving_to_fixed();
    assert_eq!(board.block(0).unwrap().x, -12_500);
    assert_eq!(state_of(&board, 0), StateKind::Moving);
    board.ease_moving(25);
    board.moving_to_fixed();
    assert_eq!(board.block(0).unwrap().x, 18_750);
    board.ease_moving(5);
    board.moving_to_fixed();
    assert_eq!(board.block(0).unwrap(), fixed(HALF_BLOCK, 0, BlockColor::Red));
}

#[test]
fn swap_without_request_does_nothing() {
    let mut board = board_of(vec![
        fixed(-HALF_BLOCK, 0, BlockColor::Red),
        fixed(HALF_BLOCK, 0, BlockColor::Blue),
    ]);
    board.move_tag_block(false);
    assert_eq!(board.count(StateKind::Fixed), 2);
}

#[test]
fn swap_into_empty_cell_is_guarded_by_a_block_hanging_in() {
    // A falling block hangs into the empty left cell from above.
    let mut board = board_of(vec![
        fixed(HALF_BLOCK, 0, BlockColor::Red),
        Block::new(-HALF_BLOCK, units(30), BlockColor::Blue, BlockState::Fall),
    ]);
    board.move_tag_block(true);
    assert_eq!(board.count(StateKind::Move), 0);
    // A block at rest one whole row higher does not guard the cell.
    let mut board = board_of(vec![
        fixed(HALF_BLOCK, 0, BlockColor::Red),
        fixed(-HALF_BLOCK, BLOCK_SIZE, BlockColor::Blue),
    ]);
    board.move_tag_block(true);
    assert_eq!(
        board.block(0).unwrap().state,
        BlockState::Move { target_x: -HALF_BLOCK }
    );
    assert_eq!(state_of(&board, 1), StateKind::Fixed);
}

#[test]
fn lerp_gives_exact_points() {
    assert_eq!(lerp(0, 50_000, 0), 0);
    assert_eq!(lerp(0, 50_000, 40), 50_000);
    assert_eq!(lerp(0, 50_000, 1), 1_250);
    assert_eq!(lerp(50_000, 0, 1), 48_750);
    assert_eq!(lerp(-25_000, 25_000, 20), 0);
    assert_eq!(lerp(0, 7, 13), 2);
    assert_eq!(lerp(7, 0, 13), 5);
    assert_eq!(lerp(i32::MIN, i32::MAX, 40), i32::MAX);
    assert_eq!(lerp(i32::MAX, i32::MIN, 20), 0);
}

#[test]
fn run_of_two_never_matches() {
    let mut board = board_of(vec![
        fixed(-HALF_BLOCK, 0, BlockColor::Red),
        fixed(HALF_BLOCK, 0, BlockColor::Red),
        fixed(HALF_BLOCK, BLOCK_SIZE, BlockColor::Blue),
        fixed(HALF_BLOCK, 2 * BLOCK_SIZE, BlockColor::Blue),
    ]);
    board.match_block();
    assert_eq!(board.count(StateKind::Matched), 0);
    assert_eq!(board.count(StateKind::Fixed), 4);
}

#[test]
fn match_ignores_blocks_that_are_not_at_rest() {
    let mut board = board_of(vec![
        fixed(-HALF_BLOCK, 0, BlockColor::Red),
        Block::new(HALF_BLOCK, 0, BlockColor::Red, BlockState::Fall),
        fixed(3 * HALF_BLOCK, 0, BlockColor::Red),
    ]);
    board.match_block();
    assert_eq!(board.count(StateKind::Matched), 0);
}

#[test]
fn match_tolerance_is_strictly_half_a_block() {
    // The third block is exactly half a block off the row: no match.
    let mut board = board_of(vec![
        fixed(0, 0, BlockColor::Red),
        fixed(BLOCK_SIZE, 0, BlockColor::Red),
        fixed(2 * BLOCK_SIZE, HALF_BLOCK, BlockColor::Red),
    ]);
    board.match_block();
    assert_eq!(board.count(StateKind::Matched), 0);
    // One unit closer and it is part of the row.
    let mut board = board_of(vec![
        fixed(0, 0, BlockColor::Red),
        fixed(BLOCK_SIZE, 0, BlockColor::Red),
        fixed(2 * BLOCK_SIZE, HALF_BLOCK - 1, BlockColor::Red),
    ]);
    board.match_block();
    assert_eq!(board.count(StateKind::Matched), 3);
}

#[test]
fn match_marks_the_union_of_a_row_and_a_column() {
    // Three in a row and three in a column share the corner block.
    let mut board = board_of(vec![
        fixed(0, 0, BlockColor::Red),
        fixed(BLOCK_SIZE, 0, BlockColor::Red),
        fixed(2 * BLOCK_SIZE, 0, BlockColor::Red),
        fixed(0, BLOCK_SIZE, BlockColor::Red),
        fixed(0, 2 * BLOCK_SIZE, BlockColor::Red),
        fixed(BLOCK_SIZE, BLOCK_SIZE, BlockColor::Blue),
    ]);
    board.match_block();
    assert_eq!(board.count(StateKind::Matched), 5);
    assert_eq!(state_of(&board, 5), StateKind::Fixed);
}

#[test]
fn following_is_directed_and_needs_one_colour() {
    let a = fixed(0, 0, BlockColor::Red);
    let b = fixed(BLOCK_SIZE, 0, BlockColor::Red);
    let c = fixed(0, BLOCK_SIZE, BlockColor::Red);
    let d = fixed(BLOCK_SIZE, 0, BlockColor::Blue);
    assert!(is_following(&a, &b, Axis::Row));
    assert!(!is_following(&b, &a, Axis::Row));
    assert!(!is_following(&a, &b, Axis::Column));
    assert!(is_following(&a, &c, Axis::Column));
    assert!(!is_following(&a, &d, Axis::Row));
}

#[test]
fn chain_reaches_the_stack_above_and_stops_at_a_gap() {
    let mut board = board_of(vec![
        Block::new(0, 0, BlockColor::Red, BlockState::Despawning { timer: Timer::from_millis(300) }),
        fixed(0, BLOCK_SIZE, BlockColor::Blue),
        fixed(0, 2 * BLOCK_SIZE, BlockColor::Green),
        fixed(0, 4 * BLOCK_SIZE, BlockColor::Yellow),
        fixed(BLOCK_SIZE, BLOCK_SIZE, BlockColor::Purple),
    ]);
    // The timer has not run out yet: nothing is removed, nothing chained.
    let removed = board.despawn_block(299);
    assert!(removed.is_empty());
    assert_eq!(board.len(), 5);
    assert_eq!(board.count_chain(), 0);
    // Now it runs out.
    let removed = board.despawn_block(1);
    assert_eq!(removed, vec![0]);
    assert_eq!(board.len(), 4);
    assert_eq!(
        board.block(0).unwrap(),
        Block::with_chain(0, BLOCK_SIZE, BlockColor::Blue, BlockState::Fixed, 40)
    );
    assert_eq!(
        board.block(1).unwrap(),
        Block::with_chain(0, 2 * BLOCK_SIZE, BlockColor::Green, BlockState::Fixed, 40)
    );
    assert_eq!(board.block(2).unwrap(), fixed(0, 4 * BLOCK_SIZE, BlockColor::Yellow));
    assert_eq!(board.block(3).unwrap(), fixed(BLOCK_SIZE, BLOCK_SIZE, BlockColor::Purple));
}

#[test]
fn despawn_removes_several_blocks_and_keeps_the_order_of_the_rest() {
    let clearing = BlockState::Despawning { timer: Timer::from_millis(10) };
    let mut board = board_of(vec![
        fixed(0, 0, BlockColor::Red),
        Block::new(BLOCK_SIZE, 0, BlockColor::Blue, clearing),
        fixed(2 * BLOCK_SIZE, 0, BlockColor::Green),
        Block::new(3 * BLOCK_SIZE, 0, BlockColor::Blue, clearing),
        Block::new(
            4 * BLOCK_SIZE,
            0,
            BlockColor::Blue,
            BlockState::Despawning { timer: Timer::from_millis(20) },
        ),
    ]);
    let removed = board.despawn_block(10);
    assert_eq!(removed, vec![1, 3]);
    assert_eq!(board.len(), 3);
    assert_eq!(board.block(0).unwrap(), fixed(0, 0, BlockColor::Red));
    assert_eq!(board.block(1).unwrap(), fixed(2 * BLOCK_SIZE, 0, BlockColor::Green));
    let mut later = Timer::from_millis(20);
    later.tick(10);
    assert_eq!(
        board.block(2).unwrap().state,
        BlockState::Despawning { timer: later }
    );
}

#[test]
fn combo_sets_the_time_to_clear() {
    assert_eq!(combo_duration(0), 0);
    assert_eq!(combo_duration(1), 300);
    assert_eq!(combo_duration(3), 900);
    assert_eq!(combo_duration(6), 1_800);
    assert_eq!(combo_duration(usize::MAX), u32::MAX);
    let mut board = Board::new();
    for i in 0..4 {
        board.add_block(Block::new(i * BLOCK_SIZE, 0, BlockColor::Red, BlockState::Matched));
    }
    board.add_block(fixed(0, BLOCK_SIZE, BlockColor::Blue));
    board.prepare_despawn_block();
    for i in 0..4 {
        assert_eq!(
            board.block(i).unwrap().state,
            BlockState::Despawning { timer: Timer::from_millis(1_200) }
        );
    }
    assert_eq!(state_of(&board, 4), StateKind::Fixed);
}

#[test]
fn chain_counter_goes_up_once_and_stops_at_its_limit() {
    let mut board = board_of(vec![
        Block::with_chain(0, 0, BlockColor::Red, BlockState::Matched, 40),
        Block::with_chain(BLOCK_SIZE, 0, BlockColor::Red, BlockState::Matched, 40),
    ]);
    board.chain_counter = 3;
    board.prepare_despawn_block();
    assert_eq!(board.chain_counter, 4);
    let mut board =
        board_of(vec![Block::with_chain(0, 0, BlockColor::Red, BlockState::Matched, 40)]);
    board.chain_counter = u32::MAX;
    board.prepare_despawn_block();
    assert_eq!(board.chain_counter, u32::MAX);
    // A chain marker on a block that is not matched does not count.
    let mut board = board_of(vec![
        Block::with_chain(0, 0, BlockColor::Red, BlockState::Fixed, 40),
        Block::new(BLOCK_SIZE, 0, BlockColor::Red, BlockState::Matched),
    ]);
    board.prepare_despawn_block();
    assert_eq!(board.chain_counter, 1);
}

#[test]
fn chain_marker_ages_only_at_rest() {
    let mut board = board_of(vec![
        Block::with_chain(0, 0, BlockColor::Red, BlockState::Fixed, 40),
        Block::with_chain(0, BLOCK_SIZE, BlockColor::Red, BlockState::Fall, 40),
    ]);
    board.remove_chain(39);
    assert_eq!(board.count_chain(), 2);
    let mut aged = Timer::from_millis(40);
    aged.tick(39);
    assert_eq!(board.block(0).unwrap().chain, Some(aged));
    assert_eq!(board.block(1).unwrap().chain, Some(Timer::from_millis(40)));
    board.remove_chain(1);
    assert_eq!(board.count_chain(), 1);
    assert_eq!(board.block(0).unwrap().chain, None);
}

#[test]
fn unsupported_block_floats_with_the_stack_on_it() {
    let mut board = board_of(vec![
        fixed(0, 0, BlockColor::Red),
        fixed(0, BLOCK_SIZE, BlockColor::Green),
        fixed(0, 2 * BLOCK_SIZE, BlockColor::Blue),
        fixed(BLOCK_SIZE, BLOCK_SIZE, BlockColor::Purple),
    ]);
    board.check_fall_block();
    assert_eq!(state_of(&board, 0), StateKind::FallPrepare);
    assert_eq!(state_of(&board, 1), StateKind::Fixed);
    assert_eq!(state_of(&board, 2), StateKind::Fixed);
    // The block to the side stands on no block either.
    assert_eq!(state_of(&board, 3), StateKind::FallPrepare);
    let mut board = board_of(vec![
        Block::new(0, 0, BlockColor::Red, BlockState::FallPrepare),
        fixed(0, BLOCK_SIZE, BlockColor::Green),
        fixed(0, 2 * BLOCK_SIZE, BlockColor::Blue),
        fixed(0, 2 * BLOCK_SIZE + 75_001, BlockColor::Yellow),
        fixed(BLOCK_SIZE, BLOCK_SIZE, BlockColor::Purple),
    ]);
    board.fall_upward();
    let afloat = BlockState::Floating { timer: Timer::from_millis(20) };
    assert_eq!(board.block(0).unwrap().state, afloat);
    assert_eq!(board.block(1).unwrap().state, afloat);
    assert_eq!(board.block(2).unwrap().state, afloat);
    assert_eq!(state_of(&board, 3), StateKind::Fixed);
    assert_eq!(state_of(&board, 4), StateKind::Fixed);
}

#[test]
fn floating_group_reaches_exactly_a_block_and_a_half() {
    let mut board = board_of(vec![
        Block::new(0, 0, BlockColor::Red, BlockState::FallPrepare),
        fixed(0, 75_000, BlockColor::Green),
    ]);
    board.fall_upward();
    assert_eq!(board.count(StateKind::Floating), 2);
}

#[test]
fn floating_block_falls_after_its_delay() {
    let mut board = board_of(vec![Block::new(
        0,
        0,
        BlockColor::Red,
        BlockState::Floating { timer: Timer::from_millis(20) },
    )]);
    board.floating_to_fall(19);
    assert_eq!(state_of(&board, 0), StateKind::Floating);
    board.floating_to_fall(1);
    assert_eq!(state_of(&board, 0), StateKind::Fall);
}

#[test]
fn falling_block_drops_by_speed_times_time() {
    let mut board = board_of(vec![
        Block::new(0, 100_000, BlockColor::Red, BlockState::Fall),
        fixed(BLOCK_SIZE, 100_000, BlockColor::Red),
        Block::new(0, i32::MIN + 5, BlockColor::Red, BlockState::Fall),
    ]);
    board.fall_block(16);
    assert_eq!(board.block(0).unwrap().y, 100_000 - 9_600);
    assert_eq!(board.block(1).unwrap().y, 100_000);
    assert_eq!(board.block(2).unwrap().y, i32::MIN);
}

#[test]
fn landing_puts_the_block_exactly_on_top() {
    let mut board = board_of(vec![
        Block::new(0, 40_000, BlockColor::Red, BlockState::Fall),
        fixed(0, 0, BlockColor::Blue),
        Block::new(BLOCK_SIZE, 60_000, BlockColor::Red, BlockState::Fall),
        Block::new(3 * BLOCK_SIZE, 49_000, BlockColor::Red, BlockState::Fall),
        Block::new(3 * BLOCK_SIZE, 0, BlockColor::Red, BlockState::Fall),
    ]);
    board.stop_fall_block();
    assert_eq!(
        board.block(0).unwrap(),
        Block::new(0, BLOCK_SIZE, BlockColor::Red, BlockState::FixedPrepare)
    );
    assert_eq!(state_of(&board, 2), StateKind::Fall);
    assert_eq!(board.block(2).unwrap().y, 60_000);
    // A falling block does not land on another falling block.
    assert_eq!(state_of(&board, 3), StateKind::Fall);
}

#[test]
fn landed_block_brings_the_column_above_to_rest() {
    let mut board = board_of(vec![
        Block::new(0, 0, BlockColor::Red, BlockState::FixedPrepare),
        Block::new(0, BLOCK_SIZE - 10_000, BlockColor::Green, BlockState::Fall),
        Block::new(0, 2 * BLOCK_SIZE - 10_000, BlockColor::Blue, BlockState::Fall),
        Block::new(0, 3 * BLOCK_SIZE + 25_001, BlockColor::Yellow, BlockState::Fall),
        Block::new(BLOCK_SIZE, BLOCK_SIZE, BlockColor::Purple, BlockState::Fall),
    ]);
    board.fixedprepare_to_fixed();
    assert_eq!(board.block(0).unwrap(), fixed(0, 0, BlockColor::Red));
    assert_eq!(board.block(1).unwrap(), fixed(0, BLOCK_SIZE, BlockColor::Green));
    assert_eq!(board.block(2).unwrap(), fixed(0, 2 * BLOCK_SIZE, BlockColor::Blue));
    assert_eq!(state_of(&board, 3), StateKind::Fall);
    assert_eq!(board.block(3).unwrap().y, 3 * BLOCK_SIZE + 25_001);
    assert_eq!(state_of(&board, 4), StateKind::Fall);
}

#[test]
fn collide_names_the_side_that_was_hit() {
    assert_eq!(collide(0, 0, 0, 0), None);
    assert_eq!(collide(0, 49_999, 0, 0), Some(Collision::Top));
    assert_eq!(collide(0, 50_000, 0, 0), None);
    assert_eq!(collide(0, -10_000, 0, 0), Some(Collision::Bottom));
    assert_eq!(collide(-10_000, 0, 0, 0), Some(Collision::Left));
    assert_eq!(collide(10_000, 0, 0, 0), Some(Collision::Right));
    assert_eq!(collide(10_000, 20_000, 0, 0), Some(Collision::Top));
    assert_eq!(collide(20_000, 10_000, 0, 0), Some(Collision::Right));
    assert_eq!(collide(20_000, 20_000, 0, 0), Some(Collision::Right));
    assert_eq!(collide(i32::MIN, i32::MIN, i32::MAX, i32::MAX), None);
}

#[test]
fn distances_and_saturation() {
    assert_eq!(distance(i32::MIN, i32::MAX), 4_294_967_295);
    assert_eq!(distance(5, -5), 10);
    assert!(is_near(0, 24_999, HALF_BLOCK));
    assert!(!is_near(0, 25_000, HALF_BLOCK));
    assert!(is_offset_near(0, 74_999, BLOCK_SIZE, HALF_BLOCK));
    assert!(!is_offset_near(0, 75_000, BLOCK_SIZE, HALF_BLOCK));
    assert!(!is_offset_near(0, 25_000, BLOCK_SIZE, HALF_BLOCK));
    assert_eq!(saturate(i64::MAX), i32::MAX);
    assert_eq!(saturate(i64::MIN), i32::MIN);
    assert_eq!(saturate(-7), -7);
    assert_eq!(travelled(10, 16), 160);
    assert_eq!(travelled(u32::MAX, u32::MAX), 18_446_744_065_119_617_025);
    assert_eq!(raised(0, 160), 160);
    assert_eq!(raised(i32::MAX - 1, 5), i32::MAX);
    assert_eq!(raised(i32::MIN, u64::MAX), i32::MAX);
    assert_eq!(lowered(0, 9_600), -9_600);
    assert_eq!(lowered(i32::MIN + 1, 5), i32::MIN);
}

#[test]
fn lift_advances_with_spawning_blocks_and_stalls_with_a_block_in_motion() {
    let mut board = board_of(vec![
        fixed(0, 0, BlockColor::Red),
        Block::new(0, -350_000, BlockColor::Blue, BlockState::Spawning),
    ]);
    board.count_timer = Timer::from_millis(0);
    let lifted = board.auto_liftup(16);
    assert!(lifted);
    assert_eq!(board.block(0).unwrap().y, 160);
    assert_eq!(board.block(1).unwrap().y, -350_000 + 160);
    assert_eq!(board.cursor, Cursor { x: 0, y: 160 });
    assert_eq!(board.bottom_y, -350_000 + 160);

    let in_motion = vec![
        BlockState::Move { target_x: 0 },
        BlockState::Moving { start_x: 0, target_x: BLOCK_SIZE, elapsed_ms: 3 },
        BlockState::Matched,
        BlockState::Despawning { timer: Timer::from_millis(300) },
        BlockState::FallPrepare,
        BlockState::Floating { timer: Timer::from_millis(20) },
        BlockState::Fall,
        BlockState::FixedPrepare,
    ];
    for state in in_motion {
        let mut board = board_of(vec![
            fixed(0, 0, BlockColor::Red),
            Block::new(BLOCK_SIZE, 0, BlockColor::Blue, state),
        ]);
        board.count_timer = Timer::from_millis(0);
        let lifted = board.auto_liftup(16);
        assert!(!lifted);
        assert!(board.count_timer.finished());
        assert_eq!(board.block(0).unwrap().y, 0);
        assert_eq!(board.block(1).unwrap().y, 0);
        assert_eq!(board.cursor, Cursor { x: 0, y: 0 });
        assert_eq!(board.bottom_y, -350_000);
    }
}

#[test]
fn lift_waits_for_its_countdown() {
    let mut board = board_of(vec![fixed(0, 0, BlockColor::Red)]);
    assert!(!board.auto_liftup(999));
    assert_eq!(board.block(0).unwrap().y, 0);
    assert!(board.auto_liftup(1));
    assert_eq!(board.block(0).unwrap().y, 10);
    assert!(board.auto_liftup(100));
    assert_eq!(board.block(0).unwrap().y, 1_010);
}

#[test]
fn lift_on_an_empty_board_moves_cursor_and_marker_only() {
    let mut board = Board::new();
    board.count_timer = Timer::from_millis(0);
    assert!(board.auto_liftup(10));
    assert_eq!(board.len(), 0);
    assert_eq!(board.cursor.y, 100);
}

#[test]
fn forced_lift_is_fast_until_the_marker_recycles() {
    let mut board = board_of(vec![fixed(0, 0, BlockColor::Red)]);
    board.manual_liftup(false);
    assert_eq!(board.speed, GameSpeed { current: 10, origin: 10 });
    assert_eq!(board.count_timer.duration(), 1_000);
    board.manual_liftup(true);
    assert_eq!(board.speed, GameSpeed { current: 100, origin: 10 });
    assert!(board.auto_liftup(10));
    assert_eq!(board.block(0).unwrap().y, 1_000);
    board.bottom_y = -300_000;
    board.bottom_down(10);
    assert_eq!(board.bottom_y, -350_000 + 1_000);
    assert_eq!(board.speed, GameSpeed { current: 10, origin: 10 });
    // Below the recycle height nothing happens.
    board.bottom_y = -300_001;
    board.speed.current = 100;
    board.bottom_down(10);
    assert_eq!(board.bottom_y, -300_001);
    assert_eq!(board.speed.current, 100);
}

#[test]
fn game_over_is_told_once() {
    let mut board = board_of(vec![fixed(0, 250_001, BlockColor::Red)]);
    // The lift is not active yet.
    assert!(!board.check_game_over());
    assert!(!board.game_over);
    board.count_timer.tick(1_000);
    assert!(board.check_game_over());
    assert!(board.game_over);
    assert!(!board.check_game_over());
    assert!(board.game_over);
    let report = board.tick_with_row(&still(), 16, &plain_row());
    assert!(!report.game_over);
    assert!(!report.lifted);
    assert!(board.game_over);
    assert_eq!(board.block(0).unwrap().y, 250_001);
}

#[test]
fn game_goes_on_at_the_kill_line() {
    let mut board = board_of(vec![fixed(0, 250_000, BlockColor::Red)]);
    board.count_timer.tick(1_000);
    assert!(!board.check_game_over());
    assert!(!board.game_over);
}

#[test]
fn tick_tells_the_end_of_the_game_once() {
    let mut board = board_of(vec![
        fixed(0, 250_001, BlockColor::Red),
        fixed(0, 200_001, BlockColor::Blue),
        fixed(0, 150_001, BlockColor::Green),
    ]);
    board.count_timer = Timer::from_millis(0);
    board.count_timer.tick(0);
    // The lowest block has no support.
    let first = board.tick_with_row(&still(), 16, &plain_row());
    assert!(first.game_over);
    assert!(board.game_over);
    let second = board.tick_with_row(&still(), 16, &plain_row());
    assert!(!second.game_over);
    let third = board.tick(&still(), 16);
    assert!(!third.game_over);
}

#[test]
fn spawning_block_settles_only_above_the_floor() {
    let mut board = board_of(vec![
        Block::new(0, -300_000, BlockColor::Red, BlockState::Spawning),
        Block::new(0, -299_999, BlockColor::Red, BlockState::Spawning),
    ]);
    board.spawning_to_fixed();
    assert_eq!(state_of(&board, 0), StateKind::Spawning);
    assert_eq!(state_of(&board, 1), StateKind::Fixed);
}

#[test]
fn spawn_row_stands_below_the_lowest_spawning_block() {
    let mut board = Board::new();
    for i in 0..6 {
        board.add_block(Block::new(
            column_centre(i),
            -350_000 - 7 * (i as i32),
            BlockColor::Red,
            BlockState::Spawning,
        ));
    }
    assert_eq!(board.lowest_spawning_y(), Some(-350_035));
    let spawned = board.spawn_row(16, &plain_row());
    assert!(spawned);
    assert_eq!(board.len(), 12);
    for i in 0..6 {
        assert_eq!(
            board.block(6 + i).unwrap(),
            Block::new(
                -125_000 + 50_000 * (i as i32),
                -350_035 - 50_000 + 160,
                plain_row()[i],
                BlockState::Spawning
            )
        );
    }
    // Twelve spawning blocks: no row is due.
    assert!(!board.spawn_row(16, &plain_row()));
    assert!(!board.generate_spawning_block(16));
    assert_eq!(board.len(), 12);
}

#[test]
fn random_rows_keep_colours_apart() {
    for _ in 0..500 {
        let row = random_row();
        assert_eq!(row.len(), 6);
        for i in 0..6 {
            assert_ne!(row[i], BlockColor::Indigo);
            if i >= 1 {
                assert_ne!(row[i], row[i - 1]);
            }
            if i >= 2 {
                assert_ne!(row[i], row[i - 2]);
            }
        }
    }
}

#[test]
fn colour_pool_holds_back_the_last_two() {
    let mut pool = ColorPool::new();
    assert_eq!(pool.take(0), BlockColor::Red);
    assert_eq!(pool.take(0), BlockColor::Green);
    assert_eq!(
        pool.available,
        vec![BlockColor::Blue, BlockColor::Yellow, BlockColor::Purple]
    );
    assert_eq!(pool.held, vec![BlockColor::Red, BlockColor::Green]);
    assert_eq!(pool.take(2), BlockColor::Purple);
    assert_eq!(
        pool.available,
        vec![BlockColor::Blue, BlockColor::Yellow, BlockColor::Red]
    );
    assert_eq!(pool.held, vec![BlockColor::Green, BlockColor::Purple]);
    let row = draw_row(&mut pool, 40);
    assert_eq!(row.len(), 40);
    assert_ne!(row[0], BlockColor::Green);
    assert_ne!(row[0], BlockColor::Purple);
    assert_ne!(row[1], BlockColor::Purple);
    for i in 2..40 {
        assert_ne!(row[i], row[i - 1]);
        assert_ne!(row[i], row[i - 2]);
    }
}

#[test]
fn starting_board_is_the_arrangement_and_two_spawn_rows() {
    let mut first_colours = Vec::new();
    for _ in 0..200 {
        let board = Board::setup_board();
        assert_eq!(board.len(), 42);
        assert_eq!(board.count(StateKind::Fixed), 30);
        assert_eq!(board.count(StateKind::Spawning), 12);
        assert_eq!(board.chain_counter, 1);
        assert_eq!(board.speed, GameSpeed { current: 10, origin: 10 });
        assert_eq!(board.count_timer, Timer::from_millis(1_000));
        assert!(!board.game_over);
        // The bottom row of the arrangement reads 4 3 2 0 4 2.
        let bottom: Vec<Block> = (0..6).map(|i| board.block(i).unwrap()).collect();
        for (i, block) in bottom.iter().enumerate() {
            assert_eq!(block.x, -125_000 + 50_000 * (i as i32));
            assert_eq!(block.y, -300_000);
        }
        assert_eq!(bottom[0].color, bottom[4].color);
        assert_eq!(bottom[2].color, bottom[5].color);
        assert_ne!(bottom[0].color, bottom[1].color);
        assert_ne!(bottom[1].color, bottom[2].color);
        assert_ne!(bottom[2].color, bottom[3].color);
        assert_ne!(bottom[0].color, bottom[3].color);
        // The topmost block of the arrangement stands in the second column.
        assert_eq!(board.block(29).unwrap().x, -75_000);
        assert_eq!(board.block(29).unwrap().y, 0);
        assert_eq!(board.block(30).unwrap().y, -350_000);
        assert_eq!(board.block(36).unwrap().y, -400_000);
        first_colours.push(bottom[0].color);
    }
    // The palette is shuffled: the same cell does not always get one colour.
    assert!(first_colours.iter().any(|c| *c != first_colours[0]));
}

#[test]
fn from_seed_places_the_cells_it_has_colours_for() {
    let palette = vec![
        BlockColor::Red,
        BlockColor::Green,
        BlockColor::Blue,
        BlockColor::Yellow,
        BlockColor::Purple,
    ];
    let board = Board::from_seed(&palette, Some(0), &plain_row(), &plain_row());
    assert_eq!(board.len(), 42);
    assert_eq!(board.block(0).unwrap(), fixed(-125_000, -300_000, BlockColor::Purple));
    assert_eq!(board.block(1).unwrap(), fixed(-75_000, -300_000, BlockColor::Yellow));
    assert_eq!(board.block(6).unwrap(), fixed(-125_000, -250_000, BlockColor::Blue));
    let board = Board::from_seed(&palette, None, &plain_row(), &plain_row());
    assert_eq!(board.len(), 12);
    let board = Board::from_seed(&palette, Some(1), &plain_row(), &plain_row());
    assert_eq!(board.len(), 12);
    let short = vec![BlockColor::Red];
    let board = Board::from_seed(&short, Some(0), &plain_row(), &plain_row());
    assert_eq!(board.count(StateKind::Fixed), 7);
    assert_eq!(seed_cell(0, 0), Some(4));
    assert_eq!(seed_cell(6, 1), Some(3));
    assert_eq!(seed_cell(6, 0), None);
    assert_eq!(seed_cell(7, 0), None);
}

#[test]
fn cursor_stays_on_the_board() {
    let mut board = Board::new();
    board.move_cursor(None);
    assert_eq!(board.cursor, Cursor { x: 0, y: 0 });
    board.move_cursor(Some(CursorMove { dx: 1, dy: 1 }));
    assert_eq!(board.cursor, Cursor { x: BLOCK_SIZE, y: BLOCK_SIZE });
    board.move_cursor(Some(CursorMove { dx: 2, dy: -1 }));
    assert_eq!(board.cursor, Cursor { x: BLOCK_SIZE, y: 0 });
    board.move_cursor(Some(CursorMove { dx: 127, dy: -128 }));
    assert_eq!(board.cursor, Cursor { x: BLOCK_SIZE, y: 0 });
}

#[test]
fn timer_fires_once() {
    let mut timer = Timer::from_millis(30);
    timer.tick(29);
    assert!(!timer.finished() && !timer.just_finished());
    timer.tick(1);
    assert!(timer.finished() && timer.just_finished());
    timer.tick(100);
    assert!(timer.finished() && !timer.just_finished());
    assert_eq!(timer.elapsed_ms, 30);
    timer.reset();
    assert_eq!(timer, Timer::from_millis(30));
    timer.tick(u32::MAX);
    timer.tick(u32::MAX);
    assert!(timer.finished());
    timer.set_duration(7);
    assert_eq!(timer.duration(), 7);
    assert!(timer.finished());
}

#[test]
fn held_direction_repeats_after_its_pauses() {
    let mut actions = MoveActions::new();
    let mut keys = Controls::none();
    keys.right = KeyState::pressed_now();
    set_movement_actions(&mut actions, &keys, 16);
    assert_eq!(actions.cursor_movement, Some(CursorMove { dx: 1, dy: 0 }));
    keys.right = KeyState { pressed: true, just_pressed: false, just_released: false };
    set_movement_actions(&mut actions, &keys, 399);
    assert_eq!(actions.cursor_movement, Some(CursorMove { dx: 0, dy: 0 }));
    set_movement_actions(&mut actions, &keys, 1);
    assert_eq!(actions.cursor_movement, Some(CursorMove { dx: 1, dy: 0 }));
    assert_eq!(actions.reinput_timer.duration(), REINPUT_MS);
    set_movement_actions(&mut actions, &keys, 40);
    assert_eq!(actions.cursor_movement, Some(CursorMove { dx: 1, dy: 0 }));
    keys.right = KeyState { pressed: false, just_pressed: false, just_released: true };
    set_movement_actions(&mut actions, &keys, 40);
    assert_eq!(actions.cursor_movement, Some(CursorMove { dx: 0, dy: 0 }));
    set_movement_actions(&mut actions, &Controls::none(), 40);
    assert_eq!(actions.cursor_movement, None);
    assert!(FIRST_REINPUT_MS > REINPUT_MS);
}

#[test]
fn held_lift_repeats_and_stops_when_released() {
    let mut actions = LiftAction::new();
    let mut keys = Controls::none();
    set_lift_action(&mut actions, &keys, 16);
    assert!(!actions.lift);
    keys.lift = KeyState::pressed_now();
    set_lift_action(&mut actions, &keys, 16);
    assert!(actions.lift);
    assert_eq!(actions.reinput_timer, Timer::from_millis(REINPUT_MS));
    keys.lift = KeyState { pressed: true, just_pressed: false, just_released: false };
    set_lift_action(&mut actions, &keys, 16);
    assert!(actions.lift);
    keys.lift = KeyState::released();
    set_lift_action(&mut actions, &keys, 16);
    assert!(!actions.lift);
}

#[test]
fn walk_takes_the_lowest_block_first() {
    let blocks = vec![
        fixed(0, 0, BlockColor::Red),
        fixed(0, 2 * BLOCK_SIZE, BlockColor::Red),
        fixed(0, BLOCK_SIZE, BlockColor::Red),
        fixed(0, BLOCK_SIZE, BlockColor::Blue),
        fixed(BLOCK_SIZE, BLOCK_SIZE, BlockColor::Red),
        Block::new(0, 3 * BLOCK_SIZE, BlockColor::Red, BlockState::Fall),
    ];
    assert_eq!(find_next_above(&blocks, Pick::Fixed, 0, 0, blocks.len()), Some(2));
    assert_eq!(find_next_above(&blocks, Pick::Fixed, 0, BLOCK_SIZE, 2), Some(3));
    assert_eq!(find_next_above(&blocks, Pick::Fixed, 0, BLOCK_SIZE, 3), Some(1));
    assert_eq!(find_next_above(&blocks, Pick::Fixed, 0, 2 * BLOCK_SIZE, 1), None);
    assert_eq!(find_next_above(&blocks, Pick::Fall, 0, 0, 6), Some(5));
    assert_eq!(find_next_above(&blocks, Pick::NotDespawning, BLOCK_SIZE, 0, 6), Some(4));
    // Two blocks share the first level: the walk by levels ends after one.
    assert_eq!(walk_up(&blocks, Pick::Fixed, Step::Level { tolerance: HALF_BLOCK }, 0), vec![2]);
    assert_eq!(walk_up(&blocks, Pick::Fixed, Step::Gap { limit: 75_000 }, 0), vec![2, 3, 1]);
    assert_eq!(walk_up(&blocks, Pick::Fixed, Step::Gap { limit: 49_999 }, 0), Vec::<usize>::new());
}

#[test]
fn three_in_a_row_clear_after_their_time_and_free_the_block_above() {
    let mut board = Board::new();
    board.count_timer = Timer::from_millis(1_000_000);
    // A full bottom row, three Red in it, and a block on the middle Red.
    let colours = [
        BlockColor::Red,
        BlockColor::Red,
        BlockColor::Red,
        BlockColor::Blue,
        BlockColor::Green,
        BlockColor::Yellow,
    ];
    for (i, colour) in colours.iter().enumerate() {
        board.add_block(fixed(column_centre(i), -300_000, *colour));
    }
    board.add_block(fixed(column_centre(1), -250_000, BlockColor::Purple));
    for i in 0..6 {
        board.add_block(Block::new(
            column_centre(i),
            -350_000,
            BlockColor::Indigo,
            BlockState::Spawning,
        ));
        board.add_block(Block::new(
            column_centre(i),
            -400_000,
            BlockColor::Indigo,
            BlockState::Spawning,
        ));
    }
    board.match_block();
    assert_eq!(board.count(StateKind::Matched), 3);
    for i in 0..3 {
        assert_eq!(state_of(&board, i), StateKind::Matched);
    }
    board.prepare_despawn_block();
    for i in 0..3 {
        assert_eq!(
            board.block(i).unwrap().state,
            BlockState::Despawning { timer: Timer::from_millis(900) }
        );
    }
    assert_eq!(board.chain_counter, 1);
    assert!(board.despawn_block(899).is_empty());
    assert_eq!(board.count(StateKind::Despawning), 3);
    assert_eq!(board.despawn_block(1), vec![0, 1, 2]);
    assert_eq!(board.count(StateKind::Despawning), 0);
    assert_eq!(board.len(), 16);
    assert_eq!(board.count_chain(), 1);
    assert_eq!(
        board.block(3).unwrap(),
        Block::with_chain(column_centre(1), -250_000, BlockColor::Purple, BlockState::Fixed, 40)
    );
}

#[test]
fn ticks_carry_a_match_through_to_the_fall() {
    let mut board = Board::new();
    board.count_timer = Timer::from_millis(1_000_000);
    let colours = [
        BlockColor::Red,
        BlockColor::Red,
        BlockColor::Red,
        BlockColor::Blue,
        BlockColor::Green,
        BlockColor::Yellow,
    ];
    let below = [
        BlockColor::Blue,
        BlockColor::Green,
        BlockColor::Yellow,
        BlockColor::Green,
        BlockColor::Yellow,
        BlockColor::Blue,
    ];
    for (i, colour) in colours.iter().enumerate() {
        board.add_block(fixed(column_centre(i), -250_000, *colour));
        board.add_block(fixed(column_centre(i), -300_000, below[i]));
    }
    board.add_block(fixed(column_centre(1), -200_000, BlockColor::Purple));
    for i in 0..6 {
        board.add_block(Block::new(
            column_centre(i),
            -350_000,
            BlockColor::Indigo,
            BlockState::Spawning,
        ));
        board.add_block(Block::new(
            column_centre(i),
            -400_000,
            BlockColor::Indigo,
            BlockState::Spawning,
        ));
    }
    let total = board.len();
    // The match is found and timed on the first tick.
    let report = board.tick_with_row(&still(), 16, &plain_row());
    assert!(!report.spawned && !report.lifted && !report.game_over);
    assert!(report.removed.is_empty());
    assert_eq!(board.count(StateKind::Despawning), 3);
    // 900 ms later the three blocks are gone and the block above is free.
    let mut removed = Vec::new();
    for _ in 0..56 {
        let report = board.tick_with_row(&still(), 16, &plain_row());
        removed.extend(report.removed);
    }
    assert_eq!(removed.len(), 3);
    assert_eq!(board.len(), total - 3);
    assert_eq!(board.count(StateKind::Despawning), 0);
    // It falls, lands on the row below and comes to rest there.
    for _ in 0..60 {
        board.tick_with_row(&still(), 16, &plain_row());
    }
    let purple: Vec<Block> = (0..board.len())
        .map(|i| board.block(i).unwrap())
        .filter(|b| b.color == BlockColor::Purple)
        .collect();
    assert_eq!(purple.len(), 1);
    assert_eq!(purple[0].state, BlockState::Fixed);
    assert_eq!(purple[0].y, -250_000);
    assert_eq!(purple[0].x, column_centre(1));
    assert_eq!(board.chain_counter, 1);
}

#[test]
fn tick_moves_the_cursor_and_swaps() {
    let mut board = board_of(vec![
        fixed(-HALF_BLOCK, -300_000, BlockColor::Red),
        fixed(HALF_BLOCK, -300_000, BlockColor::Blue),
    ]);
    board.cursor = Cursor { x: 0, y: -300_000 };
    let swap = Intent { movement: Some(CursorMove { dx: 1, dy: 0 }), swap: true, lift: false };
    board.tick_with_row(&swap, 40, &plain_row());
    assert_eq!(board.cursor, Cursor { x: BLOCK_SIZE, y: -300_000 });
    assert_eq!(board.block(0).unwrap(), fixed(HALF_BLOCK, -300_000, BlockColor::Red));
    assert_eq!(board.block(1).unwrap(), fixed(-HALF_BLOCK, -300_000, BlockColor::Blue));
}
