//! Tests of the grid movement helpers and the camera bounds.

use inkling::camera::get_valid_camera_positions;
use inkling::movement::clamp_position;

#[test]
fn position_clamps_to_closed_range() {
    // Lower than min
    assert_eq!(5, clamp_position(0, 5, 5));
    assert_eq!(0, clamp_position(-1, 0, 5));

    // Higher than max
    assert_eq!(5, clamp_position(11, 0, 5));

    // Same min and max
    assert_eq!(5, clamp_position(4, 5, 5));
    assert_eq!(5, clamp_position(5, 5, 5));
    assert_eq!(5, clamp_position(6, 5, 5));

    // In range
    assert_eq!(1, clamp_position(1, 1, 4));
    assert_eq!(2, clamp_position(2, 1, 4));
    assert_eq!(3, clamp_position(3, 1, 4));
    assert_eq!(4, clamp_position(4, 1, 4));
}

#[test]
fn player_position_clamps_to_closed_range() {
    // Lower than min
    assert_eq!(5, clamp_position(0, 5, 5));
    assert_eq!(0, clamp_position(-1, 0, 5));

    // Higher than max
    assert_eq!(5, clamp_position(11, 0, 5));

    // Same min and max
    assert_eq!(5, clamp_position(4, 5, 5));
    assert_eq!(5, clamp_position(5, 5, 5));
    assert_eq!(5, clamp_position(6, 5, 5));

    // In range
    assert_eq!(1, clamp_position(1, 1, 4));
    assert_eq!(2, clamp_position(2, 1, 4));
    assert_eq!(3, clamp_position(3, 1, 4));
    assert_eq!(4, clamp_position(4, 1, 4));
}

#[test]
fn utils_position_clamps_to_closed_range() {
    // Lower than min
    assert_eq!(5, clamp_position(0, 5, 5));
    assert_eq!(0, clamp_position(-1, 0, 5));

    // Higher than max
    assert_eq!(5, clamp_position(11, 0, 5));

    // Same min and max
    assert_eq!(5, clamp_position(4, 5, 5));
    assert_eq!(5, clamp_position(5, 5, 5));
    assert_eq!(5, clamp_position(6, 5, 5));

    // In range
    assert_eq!(1, clamp_position(1, 1, 4));
    assert_eq!(2, clamp_position(2, 1, 4));
    assert_eq!(3, clamp_position(3, 1, 4));
    assert_eq!(4, clamp_position(4, 1, 4));
}

#[test]
fn valid_camera_positions_without_border_is_full_area() {
    assert_eq!(&[0, 0, 0, 0], &get_valid_camera_positions(&[0, 0], 0, 0));
    assert_eq!(&[0, 0, 19, 9], &get_valid_camera_positions(&[20, 10], 0, 0));
}

#[test]
fn valid_camera_positions_with_small_border_works() {
    assert_eq!(&[1, 1, 18, 8], &get_valid_camera_positions(&[20, 10], 1, 1));
    assert_eq!(&[2, 2, 17, 7], &get_valid_camera_positions(&[20, 10], 2, 2));
}

#[test]
fn valid_camera_positions_with_large_borders_are_centered() {
    assert_eq!(
        &[9, 4, 10, 4],
        &get_valid_camera_positions(&[20, 10], 9, 9),
        "border larger than size along y but not x"
    );
    assert_eq!(
        &[9, 4, 9, 4],
        &get_valid_camera_positions(&[20, 10], 100, 100),
        "border larger than area"
    );
}

#[test]
fn valid_camera_positions_adjusts_with_different_border_values_along_x_and_y() {
    // Zero sized along both axes
    assert_eq!(&[0, 0, 0, 0], &get_valid_camera_positions(&[0, 0], 1, 0));
    assert_eq!(&[0, 0, 0, 0], &get_valid_camera_positions(&[0, 0], 0, 1));

    // Small borders
    assert_eq!(&[1, 0, 8, 0], &get_valid_camera_positions(&[10, 0], 1, 0));
    assert_eq!(&[0, 1, 0, 8], &get_valid_camera_positions(&[0, 10], 0, 1));
    assert_eq!(&[1, 2, 18, 7], &get_valid_camera_positions(&[20, 10], 1, 2));

    // Large border for either
    assert_eq!(&[9, 1, 9, 8], &get_valid_camera_positions(&[20, 10], 10, 1));
    assert_eq!(
        &[1, 4, 18, 4],
        &get_valid_camera_positions(&[20, 10], 1, 10)
    );
}
