//! Filling the board: the blocks a game starts with, and the rows of new
//! blocks that rise from below.

use vstd::prelude::*;
use crate::block::{Block, BlockColor, BlockState, StateKind};
use crate::board::{count_kind, Board, BoardView, BOTTOM_START_Y};
use crate::geometry::{
    clamp_coord,
    saturate_wide,
    travel,
    travelled,
    BLOCK_SIZE,
    BOARD_WIDTH,
    FLOOR_Y,
    LEFT_COLUMN_X,
};
use crate::random::{choose_index, random_index, shuffle_colors};

verus! {

/// How many of the colours placed last may not be placed again.
pub const EXCLUSION_WINDOW: usize = 2;

/// Number of starting arrangements.
pub const PATTERN_COUNT: usize = 1;

/// Cells of a starting arrangement.
pub const PATTERN_CELLS: usize = 42;

/// The colour number in a cell of the starting arrangement, rows counted
/// from the bottom; `None` where the cell is empty.
pub open spec fn pattern_at(row: int, col: int) -> Option<int> {
    if row == 0 && col == 0 {
        Some(4)
    } else if row == 0 && col == 1 {
        Some(3)
    } else if row == 0 && col == 2 {
        Some(2)
    } else if row == 0 && col == 3 {
        Some(0)
    } else if row == 0 && col == 4 {
        Some(4)
    } else if row == 0 && col == 5 {
        Some(2)
    } else if row == 1 && col == 0 {
        Some(2)
    } else if row == 1 && col == 1 {
        Some(0)
    } else if row == 1 && col == 2 {
        Some(4)
    } else if row == 1 && col == 3 {
        Some(1)
    } else if row == 1 && col == 4 {
        Some(0)
    } else if row == 1 && col == 5 {
        Some(1)
    } else if row == 2 && col == 0 {
        Some(3)
    } else if row == 2 && col == 1 {
        Some(1)
    } else if row == 2 && col == 2 {
        Some(3)
    } else if row == 2 && col == 3 {
        Some(0)
    } else if row == 2 && col == 4 {
        Some(3)
    } else if row == 2 && col == 5 {
        Some(4)
    } else if row == 3 && col == 0 {
        Some(1)
    } else if row == 3 && col == 1 {
        Some(2)
    } else if row == 3 && col == 3 {
        Some(3)
    } else if row == 3 && col == 4 {
        Some(2)
    } else if row == 4 && col == 0 {
        Some(0)
    } else if row == 4 && col == 1 {
        Some(2)
    } else if row == 4 && col == 3 {
        Some(2)
    } else if row == 4 && col == 4 {
        Some(1)
    } else if row == 5 && col == 1 {
        Some(0)
    } else if row == 5 && col == 3 {
        Some(1)
    } else if row == 5 && col == 4 {
        Some(0)
    } else if row == 6 && col == 1 {
        Some(3)
    } else {
        None
    }
}

/// Reads a cell of the starting arrangement.
pub fn seed_cell(row: usize, col: usize) -> (cell: Option<usize>)
    ensures
        match cell {
            Some(n) => pattern_at(row as int, col as int) == Some(n as int),
            None => pattern_at(row as int, col as int) is None,
        },
{
    if row == 0 && col == 0 {
        Some(4)
    } else if row == 0 && col == 1 {
        Some(3)
    } else if row == 0 && col == 2 {
        Some(2)
    } else if row == 0 && col == 3 {
        Some(0)
    } else if row == 0 && col == 4 {
        Some(4)
    } else if row == 0 && col == 5 {
        Some(2)
    } else if row == 1 && col == 0 {
        Some(2)
    } else if row == 1 && col == 1 {
        Some(0)
    } else if row == 1 && col == 2 {
        Some(4)
    } else if row == 1 && col == 3 {
        Some(1)
    } else if row == 1 && col == 4 {
        Some(0)
    } else if row == 1 && col == 5 {
        Some(1)
    } else if row == 2 && col == 0 {
        Some(3)
    } else if row == 2 && col == 1 {
        Some(1)
    } else if row == 2 && col == 2 {
        Some(3)
    } else if row == 2 && col == 3 {
        Some(0)
    } else if row == 2 && col == 4 {
        Some(3)
    } else if row == 2 && col == 5 {
        Some(4)
    } else if row == 3 && col == 0 {
        Some(1)
    } else if row == 3 && col == 1 {
        Some(2)
    } else if row == 3 && col == 3 {
        Some(3)
    } else if row == 3 && col == 4 {
        Some(2)
    } else if row == 4 && col == 0 {
        Some(0)
    } else if row == 4 && col == 1 {
        Some(2)
    } else if row == 4 && col == 3 {
        Some(2)
    } else if row == 4 && col == 4 {
        Some(1)
    } else if row == 5 && col == 1 {
        Some(0)
    } else if row == 5 && col == 3 {
        Some(1)
    } else if row == 5 && col == 4 {
        Some(0)
    } else if row == 6 && col == 1 {
        Some(3)
    } else {
        None
    }
}


/// The colours to draw from, and the colours placed last, which may not be
/// drawn. A colour that is drawn is held back; once more than
/// `EXCLUSION_WINDOW` colours are held back, the oldest of them may be drawn
/// again.
#[derive(Debug)]
pub struct ColorPool {
    pub available: Vec<BlockColor>,
    /// The colours placed last, the latest at the end.
    pub held: Vec<BlockColor>,
}

/// Whether a colour is one that games are played with.
pub open spec fn in_palette(c: BlockColor) -> bool {
    !(c is Indigo)
}

/// The colours that games are played with.
pub open spec fn palette() -> Seq<BlockColor> {
    seq![
        BlockColor::Red,
        BlockColor::Green,
        BlockColor::Blue,
        BlockColor::Yellow,
        BlockColor::Purple,
    ]
}

/// Whether no colour occurs twice among the available and the held ones, and
/// no more colours are held than may be.
pub open spec fn pool_wf(available: Seq<BlockColor>, held: Seq<BlockColor>) -> bool {
    &&& available.no_duplicates()
    &&& held.no_duplicates()
    &&& forall|i: int, j: int|
        0 <= i < available.len() && 0 <= j < held.len() ==> available[i] != held[j]
    &&& held.len() <= EXCLUSION_WINDOW
}

/// The held colours after `c` was drawn.
pub open spec fn held_after(held: Seq<BlockColor>, c: BlockColor) -> Seq<BlockColor> {
    if held.len() >= EXCLUSION_WINDOW {
        held.skip(1).push(c)
    } else {
        held.push(c)
    }
}

/// The available colours after the one at `index` was drawn.
pub open spec fn available_after(available: Seq<BlockColor>, held: Seq<BlockColor>, index: int) -> Seq<
    BlockColor,
> {
    if held.len() >= EXCLUSION_WINDOW {
        available.remove(index).push(held[0])
    } else {
        available.remove(index)
    }
}

/// Whether no colour of a row comes again within the next `EXCLUSION_WINDOW`
/// places.
pub open spec fn spaced(row: Seq<BlockColor>) -> bool {
    forall|i: int, j: int| 0 <= i < j < row.len() && j - i <= EXCLUSION_WINDOW ==> row[i] != row[j]
}

/// The colours placed last: the end of `history`, `EXCLUSION_WINDOW` long at
/// most.
pub open spec fn recent(history: Seq<BlockColor>) -> Seq<BlockColor> {
    if history.len() > EXCLUSION_WINDOW {
        history.skip(history.len() - EXCLUSION_WINDOW)
    } else {
        history
    }
}

/// Whether a row can be placed as a spawn row: one colour for each column,
/// none of them within two places of itself, all from the palette.
pub open spec fn valid_row(row: Seq<BlockColor>) -> bool {
    &&& row.len() == BOARD_WIDTH
    &&& spaced(row)
    &&& forall|i: int| 0 <= i < row.len() ==> in_palette(#[trigger] row[i])
}

impl ColorPool {
    /// Whether the pool is well formed.
    pub open spec fn wf(&self) -> bool {
        pool_wf(self.available@, self.held@)
    }

    /// Whether the pool holds this colour, available or held back.
    pub open spec fn has(&self, c: BlockColor) -> bool {
        self.available@.contains(c) || self.held@.contains(c)
    }

    /// Creates the pool of the palette, all of it available.
    pub fn new() -> (pool: ColorPool)
        ensures
            pool.wf(),
            pool.available@ == palette(),
            pool.held@.len() == 0,
    {
        let mut available: Vec<BlockColor> = Vec::new();
        available.push(BlockColor::Red);
        available.push(BlockColor::Green);
        available.push(BlockColor::Blue);
        available.push(BlockColor::Yellow);
        available.push(BlockColor::Purple);
        assert(available@ =~= palette());
        ColorPool { available, held: Vec::new() }
    }

    /// Draws the available colour at `index` and holds it back; the oldest
    /// colour held back becomes available again once more than
    /// `EXCLUSION_WINDOW` are.
    pub fn take(&mut self, index: usize) -> (color: BlockColor)
        requires
            old(self).wf(),
            index < old(self).available@.len(),
        ensures
            color == old(self).available@[index as int],
            final(self).available@ == available_after(
                old(self).available@,
                old(self).held@,
                index as int,
            ),
            final(self).held@ == held_after(old(self).held@, color),
            final(self).wf(),
            final(self).available@.len() + final(self).held@.len() == old(self).available@.len()
                + old(self).held@.len(),
            forall|c: BlockColor| final(self).has(c) ==> old(self).has(c),
    {
        let ghost av = self.available@;
        let ghost he = self.held@;
        let color: BlockColor = self.available.remove(index);
        self.held.push(color);
        if self.held.len() > EXCLUSION_WINDOW {
            let back: BlockColor = self.held.remove(0);
            self.available.push(back);
            assert(self.held@ =~= he.skip(1).push(color));
        }
        proof {
            let av2 = self.available@;
            let he2 = self.held@;
            assert(av2 =~= available_after(av, he, index as int));
            assert(he2 =~= held_after(he, color));
            assert forall|i: int| 0 <= i < av.remove(index as int).len() implies av.remove(
                index as int,
            )[i] == av[if i < index {
                i
            } else {
                i + 1
            }] by {}
            assert(av2.no_duplicates()) by {
                assert forall|i: int, j: int| 0 <= i < av2.len() && 0 <= j < av2.len() && i != j implies av2[i]
                    != av2[j] by {
                    let n = av.remove(index as int).len();
                    let src_i = if i < index {
                        i
                    } else {
                        i + 1
                    };
                    let src_j = if j < index {
                        j
                    } else {
                        j + 1
                    };
                    if i < n && j < n {
                        assert(av2[i] == av[src_i]);
                        assert(av2[j] == av[src_j]);
                    } else if i < n {
                        assert(av2[i] == av[src_i]);
                        assert(av2[j] == he[0]);
                    } else if j < n {
                        assert(av2[j] == av[src_j]);
                        assert(av2[i] == he[0]);
                    }
                }
            }
            assert(he2.no_duplicates()) by {
                assert forall|i: int, j: int| 0 <= i < he2.len() && 0 <= j < he2.len() && i != j implies he2[i]
                    != he2[j] by {
                    if he.len() >= EXCLUSION_WINDOW {
                        if i < he2.len() - 1 {
                            assert(he2[i] == he[i + 1]);
                        }
                        if j < he2.len() - 1 {
                            assert(he2[j] == he[j + 1]);
                        }
                    } else {
                        if i < he2.len() - 1 {
                            assert(he2[i] == he[i]);
                        }
                        if j < he2.len() - 1 {
                            assert(he2[j] == he[j]);
                        }
                    }
                }
            }
            assert forall|i: int, j: int| 0 <= i < av2.len() && 0 <= j < he2.len() implies av2[i]
                != he2[j] by {
                let n = av.remove(index as int).len();
                let src_i = if i < index {
                    i
                } else {
                    i + 1
                };
                if i < n {
                    assert(av2[i] == av[src_i]);
                } else {
                    assert(av2[i] == he[0]);
                }
                if j < he2.len() - 1 {
                    if he.len() >= EXCLUSION_WINDOW {
                        assert(he2[j] == he[j + 1]);
                    } else {
                        assert(he2[j] == he[j]);
                    }
                } else {
                    assert(he2[j] == color);
                }
            }
            assert forall|c: BlockColor| self.has(c) implies old(self).has(c) by {
                if av2.contains(c) {
                    let i = choose|i: int| 0 <= i < av2.len() && av2[i] == c;
                    let n = av.remove(index as int).len();
                    if i < n {
                        let src_i = if i < index {
                            i
                        } else {
                            i + 1
                        };
                        assert(av[src_i] == c);
                    } else {
                        assert(he[0] == c);
                    }
                } else {
                    let j = choose|j: int| 0 <= j < he2.len() && he2[j] == c;
                    if j < he2.len() - 1 {
                        if he.len() >= EXCLUSION_WINDOW {
                            assert(he[j + 1] == c);
                        } else {
                            assert(he[j] == c);
                        }
                    } else {
                        assert(av[index as int] == c);
                    }
                }
            }
        }
        color
    }
}

/// Draws `count` colours, each at a random place among the available ones.
/// The generator decides which colours come; whatever it gives, no colour
/// comes again within `EXCLUSION_WINDOW` places, not even of the colours
/// that were held back before.
pub fn draw_row(pool: &mut ColorPool, count: usize) -> (row: Vec<BlockColor>)
    requires
        old(pool).wf(),
        old(pool).available@.len() + old(pool).held@.len() > EXCLUSION_WINDOW,
    ensures
        row@.len() == count,
        spaced(old(pool).held@ + row@),
        spaced(row@),
        forall|i: int| 0 <= i < row@.len() ==> old(pool).has(#[trigger] row@[i]),
        final(pool).wf(),
        final(pool).held@ == recent(old(pool).held@ + row@),
        forall|c: BlockColor| final(pool).has(c) ==> old(pool).has(c),
{
    let ghost before = old(pool).held@;
    let ghost total = old(pool).available@.len() + old(pool).held@.len();
    let mut row: Vec<BlockColor> = Vec::new();
    assert(before + row@ =~= before);
    while row.len() < count
        invariant
            pool.wf(),
            pool.available@.len() + pool.held@.len() == total,
            total > EXCLUSION_WINDOW,
            row@.len() <= count,
            spaced(before + row@),
            pool.held@ == recent(before + row@),
            forall|i: int| 0 <= i < row@.len() ==> old(pool).has(#[trigger] row@[i]),
            forall|c: BlockColor| pool.has(c) ==> old(pool).has(c),
        decreases count - row@.len(),
    {
        let ghost history = before + row@;
        let ghost held = pool.held@;
        let ghost available = pool.available@;
        let index: usize = random_index(pool.available.len());
        assert(pool.has(available[index as int]));
        let color: BlockColor = pool.take(index);
        row.push(color);
        proof {
            let longer = before + row@;
            assert(longer =~= history.push(color));
            assert(pool.held@ =~= recent(longer));
            assert forall|i: int, j: int|
                0 <= i < j < longer.len() && j - i <= EXCLUSION_WINDOW implies longer[i]
                != longer[j] by {
                if j < history.len() {
                    assert(longer[i] == history[i] && longer[j] == history[j]);
                } else {
                    let shift = history.len() - held.len();
                    assert(held[i - shift] == history[i]);
                }
            }
        }
    }
    proof {
        let whole = before + row@;
        assert forall|i: int, j: int| 0 <= i < j < row@.len() && j - i <= EXCLUSION_WINDOW implies row@[i]
            != row@[j] by {
            assert(whole[before.len() + i] == row@[i]);
            assert(whole[before.len() + j] == row@[j]);
        }
    }
    row
}

/// Draws the colours of a spawn row from the shuffled palette. Whatever the
/// generator gives, the row is `BOARD_WIDTH` long, no colour of it comes
/// again within two places, and all are colours of the palette.
pub fn random_row() -> (row: Vec<BlockColor>)
    ensures
        valid_row(row@),
{
    let mut pool: ColorPool = ColorPool::new();
    shuffle_colors(&mut pool.available);
    proof {
        broadcast use vstd::seq_lib::group_to_multiset_ensures;

        let shuffled = pool.available@;
        palette().lemma_multiset_has_no_duplicates();
        shuffled.lemma_multiset_has_no_duplicates_conv();
        assert(shuffled.to_multiset().len() == palette().to_multiset().len());
        assert(shuffled.len() == palette().len());
        assert forall|c: BlockColor| shuffled.contains(c) implies in_palette(c) by {
            vstd::seq_lib::to_multiset_contains(shuffled, c);
            vstd::seq_lib::to_multiset_contains(palette(), c);
            assert(palette().contains(c));
        }
    }
    let row: Vec<BlockColor> = draw_row(&mut pool, BOARD_WIDTH);
    row
}

/// A row that can be placed as a spawn row.
pub open spec fn spare_row() -> Seq<BlockColor> {
    seq![
        BlockColor::Red,
        BlockColor::Green,
        BlockColor::Blue,
        BlockColor::Red,
        BlockColor::Green,
        BlockColor::Blue,
    ]
}

/// There is a row that can be placed as a spawn row.
pub proof fn lemma_some_row_is_valid()
    ensures
        valid_row(spare_row()),
{
}

/// Centre of a column, columns counted from the left from 0.
pub open spec fn column_x(col: int) -> i32 {
    clamp_coord(LEFT_COLUMN_X + col * BLOCK_SIZE) as i32
}

/// A row of spawning blocks at height `y`, one of each colour given, from
/// the leftmost column on.
pub open spec fn row_blocks(colors: Seq<BlockColor>, y: i32) -> Seq<Block> {
    Seq::new(
        colors.len(),
        |col: int| Block::plain(column_x(col), y, colors[col], BlockState::Spawning),
    )
}

/// The lowest height of a spawning block, if there is one.
pub open spec fn lowest_spawning(s: Seq<Block>) -> Option<i32>
    decreases s.len(),
{
    if s.len() == 0 {
        None
    } else {
        let rest = lowest_spawning(s.drop_last());
        if s.last().state is Spawning {
            match rest {
                Some(y) => if s.last().y < y {
                    Some(s.last().y)
                } else {
                    Some(y)
                },
                None => Some(s.last().y),
            }
        } else {
            rest
        }
    }
}

/// Whether a new spawn row is due: exactly one row of spawning blocks is
/// left.
pub open spec fn spawn_due(b: BoardView) -> bool {
    count_kind(b.blocks, StateKind::Spawning) == BOARD_WIDTH
}

/// Height of a new spawn row: one block below the lowest spawning block,
/// ahead by the way the board rises on this tick.
pub open spec fn spawn_y(b: BoardView, dt_ms: u32) -> i32 {
    match lowest_spawning(b.blocks) {
        Some(y) => clamp_coord(y - BLOCK_SIZE + travel(b.speed.current as int, dt_ms as int)) as i32,
        None => BOTTOM_START_Y,
    }
}

/// The board after the spawn stage, if `row` are the colours drawn: where a
/// row is due, a row of spawning blocks of these colours stands below the
/// lowest spawning block.
pub open spec fn spec_generate_spawning_block(b: BoardView, dt_ms: u32, row: Seq<BlockColor>) -> BoardView {
    if spawn_due(b) {
        b.with_blocks(b.blocks + row_blocks(row, spawn_y(b, dt_ms)))
    } else {
        b
    }
}

/// The block of the starting arrangement in a cell, cells counted row by row
/// from the bottom left; `palette` gives the colour of each colour number.
pub open spec fn seed_block(palette: Seq<BlockColor>, cell: int) -> Option<Block> {
    let row = cell / (BOARD_WIDTH as int);
    let col = cell % (BOARD_WIDTH as int);
    match pattern_at(row, col) {
        Some(n) => if n < palette.len() {
            Some(
                Block::plain(
                    column_x(col),
                    (FLOOR_Y + row * BLOCK_SIZE) as i32,
                    palette[n],
                    BlockState::Fixed,
                ),
            )
        } else {
            None
        },
        None => None,
    }
}

/// The blocks of the first `k` cells of the starting arrangement.
pub open spec fn seed_blocks(palette: Seq<BlockColor>, k: nat) -> Seq<Block>
    decreases k,
{
    if k == 0 {
        Seq::empty()
    } else {
        let rest = seed_blocks(palette, (k - 1) as nat);
        match seed_block(palette, k - 1) {
            Some(b) => rest.push(b),
            None => rest,
        }
    }
}

/// Whether a choice names a starting arrangement.
pub open spec fn names_pattern(pattern: Option<usize>) -> bool {
    pattern matches Some(which) && which < PATTERN_COUNT
}

/// The board a game starts with: the blocks of the starting arrangement at
/// rest from the floor up, if an arrangement was chosen, and two spawn rows
/// below the floor.
pub open spec fn spec_setup_board(
    palette: Seq<BlockColor>,
    pattern: Option<usize>,
    first_row: Seq<BlockColor>,
    second_row: Seq<BlockColor>,
) -> BoardView {
    let seeds = if names_pattern(pattern) {
        seed_blocks(palette, PATTERN_CELLS as nat)
    } else {
        Seq::empty()
    };
    BoardView::empty().with_blocks(
        seeds + row_blocks(first_row, BOTTOM_START_Y) + row_blocks(
            second_row,
            (BOTTOM_START_Y - BLOCK_SIZE) as i32,
        ),
    )
}

/// Computes the centre of a column.
pub fn column_centre(col: usize) -> (x: i32)
    ensures
        x == column_x(col as int),
{
    assert(0 <= col as int * BLOCK_SIZE as int <= 0xffff_ffff_ffff_ffff * 50_000) by (nonlinear_arith)
        requires
            0 <= col as int <= 0xffff_ffff_ffff_ffff,
            BLOCK_SIZE as int == 50_000,
    ;
    saturate_wide(LEFT_COLUMN_X as i128 + col as i128 * BLOCK_SIZE as i128)
}

impl Board {
    /// Appends a row of spawning blocks at height `y`, one of each colour
    /// given, from the leftmost column on.
    pub fn add_row(&mut self, colors: &Vec<BlockColor>, y: i32)
        ensures
            final(self)@ == old(self)@.with_blocks(old(self)@.blocks + row_blocks(colors@, y)),
    {
        let n: usize = colors.len();
        let mut col: usize = 0;
        while col < n
            invariant
                n == colors@.len(),
                col <= n,
                self@ == old(self)@.with_blocks(
                    old(self)@.blocks + row_blocks(colors@, y).take(col as int),
                ),
            decreases n - col,
        {
            let block: Block = Block::new(column_centre(col), y, colors[col], BlockState::Spawning);
            self.blocks.push(block);
            assert(self@.blocks =~= old(self)@.blocks + row_blocks(colors@, y).take(col + 1));
            col = col + 1;
        }
        assert(row_blocks(colors@, y).take(n as int) =~= row_blocks(colors@, y));
    }

    /// Finds the lowest height of a spawning block.
    pub fn lowest_spawning_y(&self) -> (lowest: Option<i32>)
        ensures
            lowest == lowest_spawning(self@.blocks),
    {
        let mut lowest: Option<i32> = None;
        let mut i: usize = 0;
        while i < self.blocks.len()
            invariant
                i <= self.blocks@.len(),
                lowest == lowest_spawning(self.blocks@.take(i as int)),
            decreases self.blocks@.len() - i,
        {
            proof {
                assert(self.blocks@.take(i + 1).drop_last() == self.blocks@.take(i as int));
                assert(self.blocks@.take(i + 1).last() == self.blocks@[i as int]);
            }
            let b: &Block = &self.blocks[i];
            if b.is_spawning() {
                lowest = match lowest {
                    Some(y) => if b.y < y {
                        Some(b.y)
                    } else {
                        Some(y)
                    },
                    None => Some(b.y),
                };
            }
            i = i + 1;
        }
        proof {
            assert(self.blocks@.take(i as int) == self.blocks@);
        }
        lowest
    }

    /// Places a spawn row of the colours given if one is due: when exactly
    /// one row of spawning blocks is left, the new row stands one block below
    /// the lowest of them, ahead by the way the board rises on this tick.
    /// Tells whether a row was placed.
    pub fn spawn_row(&mut self, dt_ms: u32, row: &Vec<BlockColor>) -> (spawned: bool)
        ensures
            final(self)@ == spec_generate_spawning_block(old(self)@, dt_ms, row@),
            spawned == spawn_due(old(self)@),
    {
        if self.count(StateKind::Spawning) != BOARD_WIDTH {
            return false;
        }
        let y: i32 = match self.lowest_spawning_y() {
            Some(lowest) => saturate_wide(
                lowest as i128 - BLOCK_SIZE as i128 + travelled(self.speed.current, dt_ms) as i128,
            ),
            None => BOTTOM_START_Y,
        };
        self.add_row(row, y);
        true
    }

    /// Places a spawn row of random colours if one is due. The colours are
    /// drawn from the shuffled palette; whatever the generator gives, the row
    /// placed is a valid one.
    pub fn generate_spawning_block(&mut self, dt_ms: u32) -> (spawned: bool)
        ensures
            exists|row: Seq<BlockColor>|
                valid_row(row) && final(self)@ == #[trigger] spec_generate_spawning_block(
                    old(self)@,
                    dt_ms,
                    row,
                ),
            spawned == spawn_due(old(self)@),
    {
        if self.count(StateKind::Spawning) != BOARD_WIDTH {
            proof {
                lemma_some_row_is_valid();
                let row = spare_row();
                assert(valid_row(row) && self@ == spec_generate_spawning_block(
                    old(self)@,
                    dt_ms,
                    row,
                ));
            }
            return false;
        }
        let row: Vec<BlockColor> = random_row();
        let spawned: bool = self.spawn_row(dt_ms, &row);
        assert(valid_row(row@) && self@ == spec_generate_spawning_block(old(self)@, dt_ms, row@));
        spawned
    }

    /// Builds the board a game starts with from the choices given: `palette`
    /// gives the colour of each colour number of the starting arrangement,
    /// `pattern` tells whether an arrangement was chosen, and the two rows
    /// are the colours of the spawn rows below the floor.
    pub fn from_seed(
        palette: &Vec<BlockColor>,
        pattern: Option<usize>,
        first_row: &Vec<BlockColor>,
        second_row: &Vec<BlockColor>,
    ) -> (board: Board)
        ensures
            board@ == spec_setup_board(palette@, pattern, first_row@, second_row@),
    {
        let mut board: Board = Board::new();
        let chosen: bool = match pattern {
            Some(which) => which < PATTERN_COUNT,
            None => false,
        };
        if chosen {
            let mut cell: usize = 0;
            while cell < PATTERN_CELLS
                invariant
                    cell <= PATTERN_CELLS,
                    board@ == BoardView::empty().with_blocks(seed_blocks(palette@, cell as nat)),
                decreases PATTERN_CELLS - cell,
            {
                let row: usize = cell / BOARD_WIDTH;
                let col: usize = cell % BOARD_WIDTH;
                match seed_cell(row, col) {
                    Some(n) => {
                        if n < palette.len() {
                            let y: i32 = FLOOR_Y + (row as i32) * BLOCK_SIZE;
                            board.blocks.push(
                                Block::new(column_centre(col), y, palette[n], BlockState::Fixed),
                            );
                        }
                    },
                    None => {},
                }
                cell = cell + 1;
            }
        }
        board.add_row(first_row, BOTTOM_START_Y);
        board.add_row(second_row, BOTTOM_START_Y - BLOCK_SIZE);
        assert(board@.blocks =~= spec_setup_board(palette@, pattern, first_row@, second_row@).blocks);
        board
    }

    /// Builds the board a game starts with: the palette is shuffled, a
    /// starting arrangement is chosen and two spawn rows are drawn. Whatever
    /// the generator gives, the board is the one `from_seed` builds from some
    /// order of the palette, the arrangement, and two valid rows.
    pub fn setup_board() -> (board: Board)
        ensures
            exists|colors: Seq<BlockColor>, first_row: Seq<BlockColor>, second_row: Seq<BlockColor>|
                colors.to_multiset() == palette().to_multiset() && valid_row(first_row) && valid_row(
                    second_row,
                ) && board@ == #[trigger] spec_setup_board(colors, Some(0usize), first_row, second_row),
    {
        let mut pool: ColorPool = ColorPool::new();
        shuffle_colors(&mut pool.available);
        let pattern: Option<usize> = choose_index(PATTERN_COUNT);
        let first_row: Vec<BlockColor> = random_row();
        let second_row: Vec<BlockColor> = random_row();
        let board: Board = Board::from_seed(&pool.available, pattern, &first_row, &second_row);
        assert(pattern == Some(0usize));
        assert(pool.available@.to_multiset() == palette().to_multiset() && valid_row(first_row@)
            && valid_row(second_row@) && board@ == spec_setup_board(
            pool.available@,
            Some(0usize),
            first_row@,
            second_row@,
        ));
        board
    }
}

} // verus!
