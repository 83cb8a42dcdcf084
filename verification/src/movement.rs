//! Grid positions and movement for the tile world that embeds the engine.

use vstd::prelude::*;

verus! {

/// A position on the area grid.
#[derive(Clone, Copy, Debug, PartialEq, Eq, Structural)]
pub struct Position {
    /// Column, from the left edge.
    pub x: u32,
    /// Row, from the bottom edge.
    pub y: u32,
}

/// An area of the game world.
#[derive(Clone, Debug)]
pub struct Area {
    /// Width and height of the area grid, in tiles.
    pub dimensions: [u32; 2],
}

/// A movement direction on the grid.
#[derive(Clone, Copy, Debug, PartialEq, Eq, Structural)]
pub enum Move {
    Up,
    Down,
    Left,
    Right,
}

/// Something the player character can do.
#[derive(Clone, Copy, Debug, PartialEq, Eq, Structural)]
pub enum Action {
    /// A context action at the current position.
    Action,
    /// A step in the given direction.
    Move(Move),
}

/// Event emitted when the player character has done something.
#[derive(Clone, Copy, Debug, PartialEq, Eq, Structural)]
pub struct PlayerActionEvent(pub Action);

/// Event emitted when on-screen transforms must be recomputed.
#[derive(Clone, Copy, Debug)]
pub struct UpdateTransformsEvent;

/// A value clamped into the closed range from `lo` up to and including
/// `hi`; when the range is empty, the lower bound wins below it and the
/// upper bound elsewhere.
pub open spec fn clamp_int(v: int, lo: int, hi: int) -> int {
    if v < lo {
        lo
    } else if v >= hi {
        hi
    } else {
        v
    }
}

/// Clamp input value to the range `[min, max]`.  Assumes that `max >= min`.
pub fn clamp_position(position: i32, min: u32, max: u32) -> (r: u32)
    ensures
        r as int == clamp_int(position as int, min as int, max as int),
{
    if position < 0 {
        min
    } else {
        let p = position as u32;
        if p < min {
            min
        } else if p >= max {
            max
        } else {
            p
        }
    }
}

/// One step up or right: the coordinate plus one, clamped.
fn clamp_inc(v: u32, min: u32, max: u32) -> (r: u32)
    ensures
        r as int == clamp_int(v as int + 1, min as int, max as int),
{
    if (v as u64) + 1 < (min as u64) {
        min
    } else if (v as u64) + 1 >= (max as u64) {
        max
    } else {
        v + 1
    }
}

/// One step down or left: the coordinate minus one, clamped.
fn clamp_dec(v: u32, min: u32, max: u32) -> (r: u32)
    ensures
        r as int == clamp_int(v as int - 1, min as int, max as int),
{
    if v <= min {
        min
    } else if v >= 1 && v - 1 >= max {
        max
    } else {
        v - 1
    }
}

/// Update the input position by moving it one step along the input
/// direction, clamping at the given edges `[min_x, min_y, max_x, max_y]`.
pub fn move_position(position: &mut Position, direction: &Move, bounds: &[u32; 4])
    ensures
        ({
            let b = *bounds;
            match direction {
                Move::Up => final(position).x == old(position).x && final(position).y as int
                    == clamp_int(old(position).y as int + 1, b[1] as int, b[3] as int),
                Move::Down => final(position).x == old(position).x && final(position).y as int
                    == clamp_int(old(position).y as int - 1, b[1] as int, b[3] as int),
                Move::Left => final(position).y == old(position).y && final(position).x as int
                    == clamp_int(old(position).x as int - 1, b[0] as int, b[2] as int),
                Move::Right => final(position).y == old(position).y && final(position).x as int
                    == clamp_int(old(position).x as int + 1, b[0] as int, b[2] as int),
            }
        }),
{
    match direction {
        Move::Up => {
            position.y = clamp_inc(position.y, bounds[1], bounds[3]);
        },
        Move::Down => {
            position.y = clamp_dec(position.y, bounds[1], bounds[3]);
        },
        Move::Left => {
            position.x = clamp_dec(position.x, bounds[0], bounds[2]);
        },
        Move::Right => {
            position.x = clamp_inc(position.x, bounds[0], bounds[2]);
        },
    }
}

/// Update the input position, clamping at given edges.
pub fn update_position(position: &mut Position, direction: &Move, bounds: &[u32; 4])
    ensures
        ({
            let b = *bounds;
            match direction {
                Move::Up => final(position).x == old(position).x && final(position).y as int
                    == clamp_int(old(position).y as int + 1, b[1] as int, b[3] as int),
                Move::Down => final(position).x == old(position).x && final(position).y as int
                    == clamp_int(old(position).y as int - 1, b[1] as int, b[3] as int),
                Move::Left => final(position).y == old(position).y && final(position).x as int
                    == clamp_int(old(position).x as int - 1, b[0] as int, b[2] as int),
                Move::Right => final(position).y == old(position).y && final(position).x as int
                    == clamp_int(old(position).x as int + 1, b[0] as int, b[2] as int),
            }
        }),
{
    move_position(position, direction, bounds)
}

} // verus!
