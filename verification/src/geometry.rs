//! Lengths, tolerances and the geometric tests the simulation is built on.
//!
//! A coordinate is an `i32` counted in thousandths of a pixel. Differences
//! are taken in wider integers, so no test on two coordinates can overflow;
//! a coordinate that is written back is saturated to the `i32` range.

use vstd::prelude::*;

verus! {

/// Sub-pixel units per pixel.
pub const UNITS_PER_PIXEL: i32 = 1_000;

/// Edge length of a block.
pub const BLOCK_SIZE: i32 = 50_000;

/// Half a block: the tolerance of every "same cell" test.
pub const HALF_BLOCK: i32 = 25_000;

/// Number of columns of the board.
pub const BOARD_WIDTH: usize = 6;

/// Number of rows of the board.
pub const BOARD_HEIGHT: usize = 13;

/// Centre of the leftmost column.
pub const LEFT_COLUMN_X: i32 = -125_000;

/// Height of the lowest row in play. A block at or below it never falls, and a
/// spawning block settles once it has risen above it.
pub const FLOOR_Y: i32 = -300_000;

/// Height that ends the game once a block has been lifted above it.
pub const KILL_LINE_Y: i32 = 250_000;

/// Speed of a falling block, in pixels per second, which is units per
/// millisecond.
pub const FALL_SPEED: u32 = 600;

/// Distance between two coordinates.
pub open spec fn dist(a: int, b: int) -> int {
    if a <= b {
        b - a
    } else {
        a - b
    }
}

/// Whether two coordinates lie strictly less than `tolerance` apart.
pub open spec fn near(a: int, b: int, tolerance: int) -> bool {
    dist(a, b) < tolerance
}

/// Whether `b` lies `offset` beyond `a`, to strictly less than `tolerance`.
pub open spec fn offset_near(a: int, b: int, offset: int, tolerance: int) -> bool {
    dist(b - a, offset) < tolerance
}

/// The coordinate closest to `v` that fits the coordinate type.
pub open spec fn clamp_coord(v: int) -> int {
    if v < i32::MIN {
        i32::MIN as int
    } else if v > i32::MAX {
        i32::MAX as int
    } else {
        v
    }
}

/// Distance covered in `dt_ms` milliseconds at `speed` pixels per second.
pub open spec fn travel(speed: int, dt_ms: int) -> int {
    speed * dt_ms
}

/// Computes the distance between two coordinates.
pub fn distance(a: i32, b: i32) -> (d: i64)
    ensures
        d == dist(a as int, b as int),
{
    let wide_a: i64 = a as i64;
    let wide_b: i64 = b as i64;
    if wide_a <= wide_b {
        wide_b - wide_a
    } else {
        wide_a - wide_b
    }
}

/// Tests whether two coordinates lie strictly less than `tolerance` apart.
pub fn is_near(a: i32, b: i32, tolerance: i32) -> (r: bool)
    ensures
        r == near(a as int, b as int, tolerance as int),
{
    distance(a, b) < tolerance as i64
}

/// Tests whether `b` lies `offset` beyond `a`, to strictly less than
/// `tolerance`.
pub fn is_offset_near(a: i32, b: i32, offset: i32, tolerance: i32) -> (r: bool)
    ensures
        r == offset_near(a as int, b as int, offset as int, tolerance as int),
{
    let gap: i64 = b as i64 - a as i64;
    let wide_offset: i64 = offset as i64;
    let d: i64 = if gap <= wide_offset {
        wide_offset - gap
    } else {
        gap - wide_offset
    };
    d < tolerance as i64
}

/// Saturates a wide coordinate to the coordinate type.
pub fn saturate(v: i64) -> (r: i32)
    ensures
        r == clamp_coord(v as int),
{
    if v < i32::MIN as i64 {
        i32::MIN
    } else if v > i32::MAX as i64 {
        i32::MAX
    } else {
        v as i32
    }
}

/// Saturates a very wide coordinate to the coordinate type.
pub fn saturate_wide(v: i128) -> (r: i32)
    ensures
        r == clamp_coord(v as int),
{
    if v < i32::MIN as i128 {
        i32::MIN
    } else if v > i32::MAX as i128 {
        i32::MAX
    } else {
        v as i32
    }
}

/// Computes the distance covered in `dt_ms` milliseconds at `speed` pixels
/// per second.
pub fn travelled(speed: u32, dt_ms: u32) -> (d: u64)
    ensures
        d == travel(speed as int, dt_ms as int),
{
    assert(speed as int * dt_ms as int <= 0xffff_ffff * 0xffff_ffff) by (nonlinear_arith)
        requires
            0 <= speed as int <= 0xffff_ffff,
            0 <= dt_ms as int <= 0xffff_ffff,
    ;
    assert(0 <= speed as int * dt_ms as int) by (nonlinear_arith)
        requires
            0 <= speed as int,
            0 <= dt_ms as int,
    ;
    speed as u64 * dt_ms as u64
}

/// Moves a coordinate up by `amount`, saturating at the top of the range.
pub fn raised(y: i32, amount: u64) -> (r: i32)
    ensures
        r == clamp_coord(y + amount),
{
    let room: u64 = (i32::MAX as i64 - y as i64) as u64;
    if amount >= room {
        i32::MAX
    } else {
        (y as i64 + amount as i64) as i32
    }
}

/// Moves a coordinate down by `amount`, saturating at the bottom of the range.
pub fn lowered(y: i32, amount: u64) -> (r: i32)
    ensures
        r == clamp_coord(y - amount),
{
    let room: u64 = (y as i64 - i32::MIN as i64) as u64;
    if amount >= room {
        i32::MIN
    } else {
        (y as i64 - amount as i64) as i32
    }
}

/// The side of the second box on which the first one lies when two boxes
/// overlap.
#[derive(Clone, Copy, Debug, PartialEq, Eq, Structural)]
pub enum Collision {
    Left,
    Right,
    Top,
    Bottom,
}

/// Whether two block-sized boxes centred at `(ax, ay)` and `(ox, oy)` overlap.
pub open spec fn overlaps(ax: int, ay: int, ox: int, oy: int) -> bool {
    dist(ax, ox) < BLOCK_SIZE && dist(ay, oy) < BLOCK_SIZE
}

/// The side of the box at `(ox, oy)` that the box at `(ax, ay)` has hit, if
/// the two block-sized boxes overlap. A box that overlaps along both axes has hit the side along which
/// it has sunk in least; two boxes that coincide along an axis have hit no
/// side along it.
pub open spec fn collision(ax: int, ay: int, ox: int, oy: int) -> Option<Collision> {
    if !overlaps(ax, ay, ox, oy) {
        None
    } else if ax == ox && ay == oy {
        None
    } else if ay == oy {
        Some(
            if ax < ox {
                Collision::Left
            } else {
                Collision::Right
            },
        )
    } else if ax == ox || dist(ax, ox) < dist(ay, oy) {
        Some(
            if ay < oy {
                Collision::Bottom
            } else {
                Collision::Top
            },
        )
    } else {
        Some(
            if ax < ox {
                Collision::Left
            } else {
                Collision::Right
            },
        )
    }
}

/// Whether a block at `(ax, ay)` has come down onto the top of a block at
/// `(ox, oy)`: it is higher by less than a block, and closer sideways than it
/// is high.
pub open spec fn lands_on(ax: int, ay: int, ox: int, oy: int) -> bool {
    0 < ay - oy < BLOCK_SIZE && dist(ax, ox) < ay - oy
}

/// Computes the side of the box at `(ox, oy)` that the box at `(ax, ay)` has hit.
pub fn collide(ax: i32, ay: i32, ox: i32, oy: i32) -> (hit: Option<Collision>)
    ensures
        hit == collision(ax as int, ay as int, ox as int, oy as int),
        hit == Some(Collision::Top) <==> lands_on(ax as int, ay as int, ox as int, oy as int),
{
    let size: i64 = BLOCK_SIZE as i64;
    let dx: i64 = distance(ax, ox);
    let dy: i64 = distance(ay, oy);
    if dx >= size || dy >= size {
        return None;
    }
    let side: Option<Collision> = if ax < ox {
        Some(Collision::Left)
    } else if ax > ox {
        Some(Collision::Right)
    } else {
        None
    };
    let level: Option<Collision> = if ay < oy {
        Some(Collision::Bottom)
    } else if ay > oy {
        Some(Collision::Top)
    } else {
        None
    };
    match (side, level) {
        (Some(s), Some(l)) => {
            // The depth sunk in along an axis is the box size less the
            // distance, so the shallower side is the one further away.
            if dx < dy {
                Some(l)
            } else {
                Some(s)
            }
        },
        (Some(s), None) => Some(s),
        (None, Some(l)) => Some(l),
        (None, None) => None,
    }
}

} // verus!
