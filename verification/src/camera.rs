//! Keeping the camera on the player while staying inside the area.

use vstd::prelude::*;

use crate::movement::{clamp_int, Position};

verus! {

/// Half of one less than the size: the midpoint of a zero-based grid axis.
pub open spec fn half_span(s: int) -> int {
    if s == 0 {
        0
    } else {
        (s - 1) / 2
    }
}

/// Clamp a non-negative coordinate to the range `[min, max]`.
fn clamp_u32(v: u32, min: u32, max: u32) -> (r: u32)
    ensures
        r as int == clamp_int(v as int, min as int, max as int),
{
    if v < min {
        min
    } else if v >= max {
        max
    } else {
        v
    }
}

/// One camera bound: the size minus the border minus one, clamped to
/// `[lo, hi]`.
fn far_bound(size: u32, border: u32, lo: u32, hi: u32) -> (r: u32)
    ensures
        r as int == clamp_int(size as int - border as int - 1, lo as int, hi as int),
{
    let v: i64 = size as i64 - border as i64 - 1;
    if v < lo as i64 {
        lo
    } else if v >= hi as i64 {
        hi
    } else {
        v as u32
    }
}

/// Get the closed area in which the camera can move on the current grid.
///
/// The allowed area leaves a border of the input sizes at every edge which
/// the camera will not enter; a border larger than the area centres the
/// camera.
pub fn get_valid_camera_positions(dimensions: &[u32; 2], border_x: u32, border_y: u32) -> (r: [u32;
    4])
    ensures
        ({
            let sx = dimensions[0] as int;
            let sy = dimensions[1] as int;
            &&& r[0] as int == clamp_int(border_x as int, 0, half_span(sx))
            &&& r[1] as int == clamp_int(border_y as int, 0, half_span(sy))
            &&& r[2] as int == clamp_int(sx - border_x - 1, half_span(sx), sx)
            &&& r[3] as int == clamp_int(sy - border_y - 1, half_span(sy), sy)
        }),
{
    let size_x = dimensions[0];
    let size_y = dimensions[1];
    let half_x: u32 = if size_x == 0 {
        0
    } else {
        (size_x - 1) / 2
    };
    let half_y: u32 = if size_y == 0 {
        0
    } else {
        (size_y - 1) / 2
    };
    [
        clamp_u32(border_x, 0, half_x),
        clamp_u32(border_y, 0, half_y),
        far_bound(size_x, border_x, half_x, size_x),
        far_bound(size_y, border_y, half_y, size_y),
    ]
}

/// Update the input position to the target, clamping to the given area
/// `[min_x, min_y, max_x, max_y]`.
pub fn update_position(position: &mut Position, target: &Position, bounds: &[u32; 4])
    ensures
        final(position).x as int == clamp_int(
            target.x as int,
            bounds[0] as int,
            bounds[2] as int,
        ),
        final(position).y as int == clamp_int(
            target.y as int,
            bounds[1] as int,
            bounds[3] as int,
        ),
{
    position.x = clamp_u32(target.x, bounds[0], bounds[2]);
    position.y = clamp_u32(target.y, bounds[1], bounds[3]);
}

} // verus!
