use heightmap::projection::{Fixed2, RenderParams, ONE};

const PX: i32 = 65536;

fn params(origin: (i32, i32), along: (i32, i32), across: (i32, i32), lift: i32) -> RenderParams {
    RenderParams {
        origin: Fixed2 { x: origin.0, y: origin.1 },
        axes: [
            Fixed2 { x: along.0, y: along.1 },
            Fixed2 { x: across.0, y: across.1 },
            Fixed2 { x: 0, y: lift },
        ],
    }
}

#[test]
fn one_pixel_is_sixteen_fractional_bits() {
    assert_eq!(ONE, 1 << 16);
}

#[test]
fn half_step_rounds_toward_zero() {
    assert_eq!(params((0, 0), (5, -5), (0, 0), 0).half_step(), (2, -2));
    assert_eq!(params((0, 0), (-1, 1), (0, 0), 0).half_step(), (0, 0));
    assert_eq!(params((0, 0), (PX, -PX), (0, 0), 0).half_step(), (32768, -32768));
    assert_eq!(
        params((0, 0), (i32::MIN, i32::MAX), (0, 0), 0).half_step(),
        (-1_073_741_824, 1_073_741_823)
    );
}

#[test]
fn row_origin_lies_half_a_row_past_the_row_start() {
    let p = params((10 * PX, -10 * PX), (0, 0), (PX, -2 * PX), 0);
    assert_eq!(p.row_origin(0), (10 * PX as i64 + 32768, -11 * PX as i64));
    assert_eq!(p.row_origin(3), (13 * PX as i64 + 32768, -17 * PX as i64));
}

#[test]
fn row_origin_rounds_half_units_down() {
    let p = params((10, -10), (0, 0), (3, -3), 0);
    assert_eq!(p.row_origin(0), (11, -12));
    assert_eq!(p.row_origin(2), (17, -18));
    assert_eq!(p.row_origin(2047), (6152, -6153));
}

#[test]
fn row_origin_does_not_overflow() {
    let p = params((i32::MAX, i32::MIN), (0, 0), (i32::MAX, i32::MIN), 0);
    assert_eq!(
        p.row_origin(2047),
        (
            2_147_483_647 + (2_147_483_647i64 * 4095).div_euclid(2),
            -2_147_483_648 + (-2_147_483_648i64 * 4095).div_euclid(2)
        )
    );
}

#[test]
fn row_start_is_the_column_of_the_row_origin() {
    let p = params((2 * PX + PX / 2, 0), (PX, 0), (PX, 0), 0);
    assert_eq!(p.project_start(8, 0), 3);
    assert_eq!(p.project_start(8, 3), 6);
    let q = params((2 * PX + PX / 2, 0), (PX, 0), (0, 0), 0);
    assert_eq!(q.project_start(8, 0), 2);
    assert_eq!(q.project_start(8, 2047), 2);
}

#[test]
fn row_start_is_held_on_the_screen() {
    assert_eq!(params((-1, 0), (PX, 0), (0, 0), 0).project_start(8, 0), 0);
    assert_eq!(params((-90 * PX, 0), (PX, 0), (0, 0), 0).project_start(8, 5), 0);
    assert_eq!(params((8 * PX - 1, 0), (PX, 0), (0, 0), 0).project_start(8, 0), 7);
    assert_eq!(params((8 * PX, 0), (PX, 0), (0, 0), 0).project_start(8, 0), 8);
    assert_eq!(params((100 * PX, 0), (PX, 0), (0, 0), 0).project_start(8, 0), 8);
    assert_eq!(params((100 * PX, 0), (PX, 0), (0, 0), 0).project_start(0, 0), 0);
}

#[test]
fn cell_edge_advances_by_whole_steps() {
    let p = params((PX * 3 / 4, 0), (PX / 2, 0), (0, 0), 0);
    assert_eq!(p.project_edge(8, 0, 0), 0);
    assert_eq!(p.project_edge(8, 0, 1), 1);
    assert_eq!(p.project_edge(8, 0, 3), 2);
    assert_eq!(p.project_edge(8, 0, 14), 7);
    assert_eq!(p.project_edge(8, 0, 15), 8);
    assert_eq!(p.project_edge(8, 0, 2047), 8);
}

#[test]
fn cell_edge_follows_a_leftward_row() {
    let p = params((2 * PX, 0), (-PX, 0), (PX, 0), 0);
    assert_eq!(p.project_edge(8, 0, 0), 2);
    assert_eq!(p.project_edge(8, 0, 1), 1);
    assert_eq!(p.project_edge(8, 0, 2), 0);
    assert_eq!(p.project_edge(8, 0, 3), 0);
    assert_eq!(p.project_edge(8, 4, 3), 3);
}

#[test]
fn cell_edge_uses_the_truncated_half_step() {
    // Half of 3 is 1, so each cell advances by 2 units, not 3.
    let p = params((PX - 4094, 0), (3, 0), (0, 0), 0);
    assert_eq!(p.project_edge(8, 0, 2046), 0);
    assert_eq!(p.project_edge(8, 0, 2047), 1);
    // Half of -3 is -1.
    let q = params((PX + 4093, 0), (-3, 0), (0, 0), 0);
    assert_eq!(q.project_edge(8, 0, 2046), 1);
    assert_eq!(q.project_edge(8, 0, 2047), 0);
}

#[test]
fn cell_top_adds_centre_offset_and_elevation() {
    let p = params((0, 5 * PX + PX / 2), (0, PX / 4), (0, -PX), -PX / 2);
    // 5.5 - 1.5 + 5 * 0.125 - 3 * 0.5 = 3.125
    assert_eq!(p.project_top(1, 2, 0x0300_0000), 3);
    // Only the top byte is elevation.
    assert_eq!(p.project_top(1, 2, 0x03ff_ffff), 3);
    assert_eq!(p.project_top(1, 2, 0x0012_3456), 4);
    // 5.5 - 0.5 + 0.125 = 5.125
    assert_eq!(p.project_top(0, 0, 0), 5);
}

#[test]
fn cell_top_stops_at_the_top_of_the_screen() {
    let p = params((0, 5 * PX + PX / 2), (0, PX / 4), (0, -PX), -PX / 2);
    assert_eq!(p.project_top(1, 2, 0xff00_0000), 0);
    assert_eq!(p.project_top(9, 0, 0), 0);
    let just_above = params((0, -1), (0, 0), (0, 0), 0);
    assert_eq!(just_above.project_top(0, 0, 0), 0);
}

#[test]
fn cell_top_may_lie_far_below_the_screen() {
    let p = params((0, i32::MAX), (0, i32::MAX), (0, i32::MAX), i32::MAX);
    let expected = (2_147_483_647i64
        + (2_147_483_647i64 * 4095).div_euclid(2)
        + 1_073_741_823i64 * 4095
        + 255 * 2_147_483_647i64)
        .div_euclid(65536);
    assert_eq!(p.project_top(2047, 2047, 0xffff_ffff), expected);
}
