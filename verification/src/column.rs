//! Walking up a column: the blocks above a place, lowest first, for as long
//! as each one is where the walk expects it.
//!
//! Clearing, floating and landing all gather the blocks that stand on a given
//! block. Blocks are ordered by height; two blocks at one height are ordered
//! by their place in the sequence.

use vstd::prelude::*;
use crate::block::Block;
use crate::geometry::{is_near, near, BLOCK_SIZE, HALF_BLOCK};

verus! {

/// Which blocks a walk considers.
#[derive(Clone, Copy, Debug, PartialEq, Eq, Structural)]
pub enum Pick {
    /// Every block that is not clearing.
    NotDespawning,
    /// Blocks at rest.
    Fixed,
    /// Falling blocks.
    Fall,
}

/// When a walk goes on to the next block.
#[derive(Clone, Copy, Debug, PartialEq, Eq, Structural)]
pub enum Step {
    /// The `n`-th block of the walk, counted from 1, must lie `n` blocks
    /// above the block the walk started from, to strictly less than
    /// `tolerance`.
    Level { tolerance: i32 },
    /// Each block must lie at most `limit` above the one before it.
    Gap { limit: i32 },
}

/// Whether a walk considers this block.
pub open spec fn picks(pick: Pick, b: Block) -> bool {
    match pick {
        Pick::NotDespawning => !(b.state is Despawning),
        Pick::Fixed => b.state is Fixed,
        Pick::Fall => b.state is Fall,
    }
}

/// Whether the place `(y, i)` comes before the place `(other_y, j)`: it is
/// lower, or as high and earlier in the sequence.
pub open spec fn before(y: int, i: int, other_y: int, j: int) -> bool {
    y < other_y || (y == other_y && i < j)
}

/// Whether block `j` is considered, stands in the column at `x` and comes
/// after the place `(after_y, after_i)`.
pub open spec fn candidate(
    s: Seq<Block>,
    pick: Pick,
    x: int,
    after_y: int,
    after_i: int,
    j: int,
) -> bool {
    &&& 0 <= j < s.len()
    &&& picks(pick, s[j])
    &&& near(s[j].x as int, x, HALF_BLOCK as int)
    &&& before(after_y, after_i, s[j].y as int, j)
}

/// Whether block `j` is the first candidate after the place
/// `(after_y, after_i)`.
pub open spec fn is_next_above(
    s: Seq<Block>,
    pick: Pick,
    x: int,
    after_y: int,
    after_i: int,
    j: int,
) -> bool {
    &&& candidate(s, pick, x, after_y, after_i, j)
    &&& forall|k: int| #[trigger]
        candidate(s, pick, x, after_y, after_i, k) ==> k == j || before(
            s[j].y as int,
            j,
            s[k].y as int,
            k,
        )
}

/// The first candidate after the place `(after_y, after_i)`, if there is one.
pub open spec fn next_above(s: Seq<Block>, pick: Pick, x: int, after_y: int, after_i: int) -> Option<
    int,
> {
    if exists|j: int| is_next_above(s, pick, x, after_y, after_i, j) {
        Some(choose|j: int| is_next_above(s, pick, x, after_y, after_i, j))
    } else {
        None
    }
}

/// Whether a walk that started from `base_y` and has come to `prev_y` takes a
/// block at height `y` as its `level`-th block.
pub open spec fn accepts(step: Step, base_y: int, prev_y: int, level: int, y: int) -> bool {
    match step {
        Step::Level { tolerance } => near(y, base_y + level * BLOCK_SIZE, tolerance as int),
        Step::Gap { limit } => y - prev_y <= limit,
    }
}

/// The blocks of a walk up the column at `x`, lowest first. The walk began at
/// height `base_y`; it goes on after the place `(after_y, after_i)` with its
/// `level`-th block, takes the
/// first candidate after the block it has reached, and ends with the first
/// one that `step` does not accept. `fuel` bounds its length.
pub open spec fn walk(
    s: Seq<Block>,
    pick: Pick,
    x: int,
    step: Step,
    base_y: int,
    after_y: int,
    after_i: int,
    level: int,
    fuel: nat,
) -> Seq<int>
    decreases fuel,
{
    if fuel == 0 {
        Seq::empty()
    } else {
        match next_above(s, pick, x, after_y, after_i) {
            None => Seq::empty(),
            Some(j) => if accepts(step, base_y, after_y, level, s[j].y as int) {
                seq![j] + walk(
                    s,
                    pick,
                    x,
                    step,
                    base_y,
                    s[j].y as int,
                    j,
                    level + 1,
                    (fuel - 1) as nat,
                )
            } else {
                Seq::empty()
            },
        }
    }
}

/// The whole walk up from block `i`: the blocks strictly higher than it in
/// its column.
pub open spec fn walk_from(s: Seq<Block>, pick: Pick, step: Step, i: int) -> Seq<int> {
    walk(s, pick, s[i].x as int, step, s[i].y as int, s[i].y as int, s.len() as int, 1, s.len())
}

/// At most one block is the first candidate.
pub proof fn lemma_next_above_unique(
    s: Seq<Block>,
    pick: Pick,
    x: int,
    after_y: int,
    after_i: int,
    j: int,
)
    requires
        is_next_above(s, pick, x, after_y, after_i, j),
    ensures
        next_above(s, pick, x, after_y, after_i) == Some(j),
{
    let c = choose|c: int| is_next_above(s, pick, x, after_y, after_i, c);
    assert(candidate(s, pick, x, after_y, after_i, c));
    assert(candidate(s, pick, x, after_y, after_i, j));
}

/// Without candidates there is no first one.
pub proof fn lemma_next_above_none(s: Seq<Block>, pick: Pick, x: int, after_y: int, after_i: int)
    requires
        forall|k: int| !candidate(s, pick, x, after_y, after_i, k),
    ensures
        next_above(s, pick, x, after_y, after_i) is None,
{
}

/// Every block of a walk is a block of the board that the walk considers, in
/// the column, and after the starting place.
pub proof fn lemma_walk_members(
    s: Seq<Block>,
    pick: Pick,
    x: int,
    step: Step,
    base_y: int,
    after_y: int,
    after_i: int,
    level: int,
    fuel: nat,
    p: int,
)
    requires
        0 <= p < walk(s, pick, x, step, base_y, after_y, after_i, level, fuel).len(),
    ensures
        candidate(
            s,
            pick,
            x,
            after_y,
            after_i,
            walk(s, pick, x, step, base_y, after_y, after_i, level, fuel)[p],
        ),
    decreases fuel,
{
    if fuel > 0 {
        match next_above(s, pick, x, after_y, after_i) {
            None => {},
            Some(j) => {
                assert(is_next_above(s, pick, x, after_y, after_i, j));
                if accepts(step, base_y, after_y, level, s[j].y as int) {
                    let rest = walk(
                        s,
                        pick,
                        x,
                        step,
                        base_y,
                        s[j].y as int,
                        j,
                        level + 1,
                        (fuel - 1) as nat,
                    );
                    if p > 0 {
                        lemma_walk_members(
                            s,
                            pick,
                            x,
                            step,
                            base_y,
                            s[j].y as int,
                            j,
                            level + 1,
                            (fuel - 1) as nat,
                            p - 1,
                        );
                        assert((seq![j] + rest)[p] == rest[p - 1]);
                    }
                }
            },
        }
    }
}

/// The height that a walk has reached after the first `k` blocks of `run`.
pub open spec fn reached_y(s: Seq<Block>, run: Seq<int>, after_y: int, k: int) -> int {
    if k == 0 {
        after_y
    } else {
        s[run[k - 1]].y as int
    }
}

/// Whether `run` is what a walk takes: its blocks are candidates in rising
/// order with no other candidate before or between them, each is accepted
/// in its turn, and no candidate beside them would be accepted next.
pub open spec fn is_walk(
    s: Seq<Block>,
    pick: Pick,
    x: int,
    step: Step,
    base_y: int,
    after_y: int,
    after_i: int,
    level: int,
    run: Seq<int>,
) -> bool {
    &&& forall|k: int|
        0 <= k < run.len() ==> candidate(s, pick, x, after_y, after_i, #[trigger] run[k])
    &&& forall|k: int, m: int|
        0 <= k < m < run.len() ==> before(
            s[#[trigger] run[k]].y as int,
            run[k],
            s[#[trigger] run[m]].y as int,
            run[m],
        )
    &&& forall|c: int, k: int|
        #[trigger] candidate(s, pick, x, after_y, after_i, c) && !run.contains(c) && 0 <= k
            < run.len() ==> before(s[#[trigger] run[k]].y as int, run[k], s[c].y as int, c)
    &&& forall|k: int|
        0 <= k < run.len() ==> accepts(
            step,
            base_y,
            reached_y(s, run, after_y, k),
            level + k,
            s[#[trigger] run[k]].y as int,
        )
    &&& forall|c: int| #[trigger]
        candidate(s, pick, x, after_y, after_i, c) && !run.contains(c) ==> !accepts(
            step,
            base_y,
            reached_y(s, run, after_y, run.len() as int),
            level + run.len(),
            s[c].y as int,
        )
}

/// A walk takes the candidates in rising order for as long as each is
/// accepted: if `run` is such a line of blocks, the walk is `run`.
pub proof fn lemma_walk_is(
    s: Seq<Block>,
    pick: Pick,
    x: int,
    step: Step,
    base_y: int,
    after_y: int,
    after_i: int,
    level: int,
    fuel: nat,
    run: Seq<int>,
)
    requires
        is_walk(s, pick, x, step, base_y, after_y, after_i, level, run),
        run.len() <= fuel,
    ensures
        walk(s, pick, x, step, base_y, after_y, after_i, level, fuel) == run,
    decreases run.len(),
{
    let found = walk(s, pick, x, step, base_y, after_y, after_i, level, fuel);
    if run.len() == 0 {
        if fuel > 0 {
            match next_above(s, pick, x, after_y, after_i) {
                None => {},
                Some(j) => {
                    assert(is_next_above(s, pick, x, after_y, after_i, j));
                    assert(candidate(s, pick, x, after_y, after_i, j));
                    assert(!run.contains(j));
                },
            }
        }
        assert(found =~= run);
    } else {
        let first = run[0];
        let rest = run.skip(1);
        assert(candidate(s, pick, x, after_y, after_i, first));
        assert forall|k: int| #[trigger] candidate(s, pick, x, after_y, after_i, k) implies k
            == first || before(s[first].y as int, first, s[k].y as int, k) by {
            if run.contains(k) {
                let q = choose|q: int| 0 <= q < run.len() && run[q] == k;
                if q > 0 {
                    assert(before(s[run[0]].y as int, run[0], s[run[q]].y as int, run[q]));
                }
            } else {
                assert(before(s[run[0]].y as int, run[0], s[k].y as int, k));
            }
        }
        lemma_next_above_unique(s, pick, x, after_y, after_i, first);
        assert(accepts(step, base_y, reached_y(s, run, after_y, 0), level + 0, s[run[0]].y as int));
        let next_y = s[first].y as int;
        assert(is_walk(s, pick, x, step, base_y, next_y, first, level + 1, rest)) by {
            assert forall|k: int| 0 <= k < rest.len() implies candidate(
                s,
                pick,
                x,
                next_y,
                first,
                #[trigger] rest[k],
            ) by {
                assert(rest[k] == run[k + 1]);
                assert(candidate(s, pick, x, after_y, after_i, run[k + 1]));
                assert(before(s[run[0]].y as int, run[0], s[run[k + 1]].y as int, run[k + 1]));
            }
            assert forall|k: int, m: int| 0 <= k < m < rest.len() implies before(
                s[#[trigger] rest[k]].y as int,
                rest[k],
                s[#[trigger] rest[m]].y as int,
                rest[m],
            ) by {
                assert(rest[k] == run[k + 1] && rest[m] == run[m + 1]);
                assert(before(s[run[k + 1]].y as int, run[k + 1], s[run[m + 1]].y as int, run[m + 1]));
            }
            assert forall|c: int| #[trigger]
                candidate(s, pick, x, next_y, first, c) && !rest.contains(c) implies candidate(
                s,
                pick,
                x,
                after_y,
                after_i,
                c,
            ) && !run.contains(c) by {
                if candidate(s, pick, x, next_y, first, c) && !rest.contains(c) {
                    if run.contains(c) {
                        let q = choose|q: int| 0 <= q < run.len() && run[q] == c;
                        if q > 0 {
                            assert(rest[q - 1] == c);
                        }
                    }
                }
            }
            assert forall|c: int, k: int|
                #[trigger] candidate(s, pick, x, next_y, first, c) && !rest.contains(c) && 0 <= k
                    < rest.len() implies before(
                s[#[trigger] rest[k]].y as int,
                rest[k],
                s[c].y as int,
                c,
            ) by {
                assert(rest[k] == run[k + 1]);
                assert(candidate(s, pick, x, after_y, after_i, c) && !run.contains(c));
                assert(before(s[run[k + 1]].y as int, run[k + 1], s[c].y as int, c));
            }
            assert forall|k: int| 0 <= k < rest.len() implies accepts(
                step,
                base_y,
                reached_y(s, rest, next_y, k),
                level + 1 + k,
                s[#[trigger] rest[k]].y as int,
            ) by {
                assert(rest[k] == run[k + 1]);
                if k > 0 {
                    assert(rest[k - 1] == run[k]);
                }
                assert(reached_y(s, rest, next_y, k) == reached_y(s, run, after_y, k + 1));
                assert(accepts(
                    step,
                    base_y,
                    reached_y(s, run, after_y, k + 1),
                    level + (k + 1),
                    s[run[k + 1]].y as int,
                ));
            }
            assert forall|c: int| #[trigger]
                candidate(s, pick, x, next_y, first, c) && !rest.contains(c) implies !accepts(
                step,
                base_y,
                reached_y(s, rest, next_y, rest.len() as int),
                level + 1 + rest.len(),
                s[c].y as int,
            ) by {
                assert(candidate(s, pick, x, after_y, after_i, c) && !run.contains(c));
                if rest.len() > 0 {
                    assert(rest[rest.len() - 1] == run[run.len() - 1]);
                }
                assert(reached_y(s, rest, next_y, rest.len() as int) == reached_y(
                    s,
                    run,
                    after_y,
                    run.len() as int,
                ));
            }
        }
        lemma_walk_is(s, pick, x, step, base_y, next_y, first, level + 1, (fuel - 1) as nat, rest);
        assert(found =~= seq![first] + rest);
        assert(seq![first] + rest =~= run);
    }
}

/// Tests whether a walk considers this block.
pub fn is_picked(pick: Pick, b: &Block) -> (r: bool)
    ensures
        r == picks(pick, *b),
{
    match pick {
        Pick::NotDespawning => !b.is_despawning(),
        Pick::Fixed => b.is_fixed(),
        Pick::Fall => b.is_fall(),
    }
}

/// Finds the first candidate after the place `(after_y, after_i)`.
pub fn find_next_above(blocks: &Vec<Block>, pick: Pick, x: i32, after_y: i32, after_i: usize) -> (r:
    Option<usize>)
    ensures
        match r {
            Some(j) => j < blocks@.len() && is_next_above(
                blocks@,
                pick,
                x as int,
                after_y as int,
                after_i as int,
                j as int,
            ),
            None => forall|k: int| !candidate(blocks@, pick, x as int, after_y as int, after_i as int, k),
        },
        r matches Some(j) ==> next_above(blocks@, pick, x as int, after_y as int, after_i as int)
            == Some(j as int),
        r is None ==> next_above(blocks@, pick, x as int, after_y as int, after_i as int) is None,
{
    let n: usize = blocks.len();
    let mut best: Option<usize> = None;
    let mut k: usize = 0;
    while k < n
        invariant
            n == blocks@.len(),
            k <= n,
            match best {
                Some(j) => j < k && candidate(
                    blocks@,
                    pick,
                    x as int,
                    after_y as int,
                    after_i as int,
                    j as int,
                ) && forall|m: int|
                    0 <= m < k && #[trigger] candidate(
                        blocks@,
                        pick,
                        x as int,
                        after_y as int,
                        after_i as int,
                        m,
                    ) ==> m == j || before(blocks@[j as int].y as int, j as int, blocks@[m].y as int, m),
                None => forall|m: int|
                    0 <= m < k ==> !candidate(
                        blocks@,
                        pick,
                        x as int,
                        after_y as int,
                        after_i as int,
                        m,
                    ),
            },
        decreases n - k,
    {
        let b: &Block = &blocks[k];
        let after: bool = b.y > after_y || (b.y == after_y && k > after_i);
        if is_picked(pick, b) && is_near(b.x, x, HALF_BLOCK) && after {
            match best {
                Some(j) => {
                    if b.y < blocks[j].y {
                        best = Some(k);
                    }
                },
                None => {
                    best = Some(k);
                },
            }
        }
        k = k + 1;
    }
    proof {
        match best {
            Some(j) => {
                lemma_next_above_unique(
                    blocks@,
                    pick,
                    x as int,
                    after_y as int,
                    after_i as int,
                    j as int,
                );
            },
            None => {
                lemma_next_above_none(blocks@, pick, x as int, after_y as int, after_i as int);
            },
        }
    }
    best
}

/// Tests whether a walk that started from `base_y` and has come to `prev_y`
/// takes a block at height `y` as its `level`-th block.
fn is_accepted(step: Step, base_y: i32, prev_y: i32, level: usize, y: i32) -> (r: bool)
    ensures
        r == accepts(step, base_y as int, prev_y as int, level as int, y as int),
{
    match step {
        Step::Level { tolerance } => {
            assert(0 <= level as int * BLOCK_SIZE as int <= 0xffff_ffff_ffff_ffff * 50_000)
                by (nonlinear_arith)
                requires
                    0 <= level as int <= 0xffff_ffff_ffff_ffff,
                    BLOCK_SIZE as int == 50_000,
            ;
            let expected: i128 = base_y as i128 + level as i128 * BLOCK_SIZE as i128;
            let wide_y: i128 = y as i128;
            let d: i128 = if wide_y <= expected {
                expected - wide_y
            } else {
                wide_y - expected
            };
            d < tolerance as i128
        },
        Step::Gap { limit } => y as i64 - prev_y as i64 <= limit as i64,
    }
}

/// Walks up the column of block `start` from that block; the blocks of the
/// walk come back lowest first.
pub fn walk_up(blocks: &Vec<Block>, pick: Pick, step: Step, start: usize) -> (run: Vec<usize>)
    requires
        start < blocks@.len(),
    ensures
        run@.len() == walk_from(blocks@, pick, step, start as int).len(),
        forall|p: int|
            0 <= p < run@.len() ==> run@[p] as int == walk_from(blocks@, pick, step, start as int)[p],
        forall|p: int| 0 <= p < run@.len() ==> run@[p] < blocks@.len(),
{
    let n: usize = blocks.len();
    let x: i32 = blocks[start].x;
    let base_y: i32 = blocks[start].y;
    let ghost whole = walk_from(blocks@, pick, step, start as int);
    let mut run: Vec<usize> = Vec::new();
    let mut after_y: i32 = blocks[start].y;
    let mut after_i: usize = n;
    let mut done: bool = false;
    while !done && run.len() < n
        invariant
            n == blocks@.len(),
            x == blocks@[start as int].x,
            base_y == blocks@[start as int].y,
            whole == walk_from(blocks@, pick, step, start as int),
            run@.len() <= n,
            forall|p: int| 0 <= p < run@.len() ==> run@[p] < n,
            whole =~= run@.map_values(|v: usize| v as int) + if done {
                Seq::<int>::empty()
            } else {
                walk(
                    blocks@,
                    pick,
                    x as int,
                    step,
                    base_y as int,
                    after_y as int,
                    after_i as int,
                    run@.len() as int + 1,
                    (n - run@.len()) as nat,
                )
            },
        decreases (if done { 0int } else { 1int }), n - run@.len(),
    {
        let next: Option<usize> = find_next_above(blocks, pick, x, after_y, after_i);
        match next {
            Some(j) => {
                if is_accepted(step, base_y, after_y, run.len() + 1, blocks[j].y) {
                    let ghost old_run = run@;
                    run.push(j);
                    proof {
                        let rest = walk(
                            blocks@,
                            pick,
                            x as int,
                            step,
                            base_y as int,
                            blocks@[j as int].y as int,
                            j as int,
                            old_run.len() as int + 2,
                            (n - old_run.len() - 1) as nat,
                        );
                        assert(run@.map_values(|v: usize| v as int) =~= old_run.map_values(
                            |v: usize| v as int,
                        ) + seq![j as int]);
                        assert(whole =~= old_run.map_values(|v: usize| v as int) + (seq![j as int]
                            + rest));
                    }
                    after_y = blocks[j].y;
                    after_i = j;
                } else {
                    done = true;
                }
            },
            None => {
                done = true;
            },
        }
    }
    proof {
        assert(whole =~= run@.map_values(|v: usize| v as int));
    }
    run
}

/// Whether the walk up from one of the first `f` blocks, marked in `starts`,
/// reaches block `j`.
pub open spec fn reached_below(
    s: Seq<Block>,
    starts: Seq<bool>,
    pick: Pick,
    step: Step,
    f: int,
    j: int,
) -> bool {
    exists|g: int| 0 <= g < f && starts[g] && #[trigger] walk_from(s, pick, step, g).contains(j)
}

/// Whether the walk up from some block marked in `starts` reaches block `j`.
pub open spec fn reached(s: Seq<Block>, starts: Seq<bool>, pick: Pick, step: Step, j: int) -> bool {
    reached_below(s, starts, pick, step, s.len() as int, j)
}

/// A block is reached from one of the first `f + 1` blocks if it is reached
/// from one of the first `f`, or from block `f` itself.
pub proof fn lemma_reached_step(
    s: Seq<Block>,
    starts: Seq<bool>,
    pick: Pick,
    step: Step,
    f: int,
    j: int,
)
    requires
        0 <= f,
    ensures
        reached_below(s, starts, pick, step, f + 1, j) == (reached_below(s, starts, pick, step, f, j)
            || (starts[f] && walk_from(s, pick, step, f).contains(j))),
{
    if reached_below(s, starts, pick, step, f + 1, j) {
        let g = choose|g: int|
            0 <= g < f + 1 && starts[g] && #[trigger] walk_from(s, pick, step, g).contains(j);
        if g < f {
            assert(0 <= g < f && starts[g] && walk_from(s, pick, step, g).contains(j));
        }
    }
    if reached_below(s, starts, pick, step, f, j) {
        let g = choose|g: int|
            0 <= g < f && starts[g] && #[trigger] walk_from(s, pick, step, g).contains(j);
        assert(0 <= g < f + 1 && starts[g] && walk_from(s, pick, step, g).contains(j));
    }
    if starts[f] && walk_from(s, pick, step, f).contains(j) {
        assert(0 <= f < f + 1 && starts[f] && walk_from(s, pick, step, f).contains(j));
    }
}

/// For every block, whether the walk up from some block marked in `starts`
/// reaches it.
pub fn mark_walks(blocks: &Vec<Block>, starts: &Vec<bool>, pick: Pick, step: Step) -> (marks: Vec<
    bool,
>)
    requires
        starts@.len() == blocks@.len(),
    ensures
        marks@.len() == blocks@.len(),
        forall|j: int|
            0 <= j < blocks@.len() ==> marks@[j] == reached(blocks@, starts@, pick, step, j),
{
    let n: usize = blocks.len();
    let mut marks: Vec<bool> = Vec::new();
    let mut i: usize = 0;
    while i < n
        invariant
            n == blocks@.len(),
            i <= n,
            marks@.len() == i,
            forall|j: int| 0 <= j < i ==> !marks@[j],
        decreases n - i,
    {
        marks.push(false);
        i = i + 1;
    }
    let mut f: usize = 0;
    while f < n
        invariant
            n == blocks@.len(),
            starts@.len() == n,
            marks@.len() == n,
            f <= n,
            forall|j: int|
                0 <= j < n ==> marks@[j] == reached_below(blocks@, starts@, pick, step, f as int, j),
        decreases n - f,
    {
        let ghost before_marks = marks@;
        let ghost whole = walk_from(blocks@, pick, step, f as int);
        if starts[f] {
            let run: Vec<usize> = walk_up(blocks, pick, step, f);
            let mut p: usize = 0;
            while p < run.len()
                invariant
                    n == blocks@.len(),
                    marks@.len() == n,
                    before_marks.len() == n,
                    p <= run@.len(),
                    run@.len() == whole.len(),
                    forall|q: int| 0 <= q < run@.len() ==> run@[q] as int == whole[q],
                    forall|q: int| 0 <= q < run@.len() ==> run@[q] < n,
                    forall|j: int|
                        0 <= j < n ==> marks@[j] == (before_marks[j] || whole.take(p as int).contains(
                            j,
                        )),
                decreases run@.len() - p,
            {
                let j: usize = run[p];
                let ghost marks_before = marks@;
                marks.set(j, true);
                proof {
                    let shorter = whole.take(p as int);
                    let longer = whole.take(p + 1);
                    assert forall|k: int| 0 <= k < n implies marks@[k] == (before_marks[k]
                        || longer.contains(k)) by {
                        if k == j {
                            assert(longer[p as int] == k);
                        } else {
                            assert(marks@[k] == marks_before[k]);
                            if longer.contains(k) {
                                let q = choose|q: int| 0 <= q < longer.len() && longer[q] == k;
                                assert(q != p);
                                assert(shorter[q] == k);
                            }
                            if shorter.contains(k) {
                                let q = choose|q: int| 0 <= q < shorter.len() && shorter[q] == k;
                                assert(longer[q] == k);
                            }
                        }
                    }
                }
                p = p + 1;
            }
            proof {
                assert(whole.take(p as int) == whole);
            }
        }
        proof {
            assert forall|j: int| 0 <= j < n implies marks@[j] == reached_below(
                blocks@,
                starts@,
                pick,
                step,
                f + 1,
                j,
            ) by {
                lemma_reached_step(blocks@, starts@, pick, step, f as int, j);
                assert(before_marks[j] == reached_below(blocks@, starts@, pick, step, f as int, j));
                if starts@[f as int] {
                    assert(marks@[j] == (before_marks[j] || whole.contains(j)));
                } else {
                    assert(marks@[j] == before_marks[j]);
                }
            }
        }
        f = f + 1;
    }
    marks
}

} // verus!
