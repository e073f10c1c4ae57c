use tlc::config::Thermocouple;
use tlc::interp::{
    Interp, bilinear_axes, bilinear_blend_of, bilinear_plan, interp1d_plan, line_blend_of,
};
use tlc::matrix::Matrix;

fn tc(column_num: usize, y: i32, x: i32) -> Thermocouple {
    Thermocouple { column_num, pos: (y, x) }
}

/// The 1D blend, in floats, for one frame.
fn blend_line(l_temp: f32, r_temp: f32, b: &tlc::interp::LineBlend) -> f32 {
    (l_temp * (b.r - b.pos) as f32 + r_temp * (b.pos - b.l) as f32) / (b.r - b.l) as f32
}

#[test]
fn line_blend_at_thermocouple_is_exact() {
    // Thermocouples at columns 0 and 10: at each one's own coordinate the
    // interpolation returns exactly its temperature, clamping or not.
    let tc_pos: Vec<i64> = vec![0, 10];
    for &do_extra in &[false, true] {
        let at_left = line_blend_of(&tc_pos, 0, do_extra);
        assert_eq!(at_left.pos, at_left.l);
        assert_eq!(blend_line(31.5, 99.0, &at_left), 31.5);
        let at_right = line_blend_of(&tc_pos, 10, do_extra);
        assert_eq!(at_right.pos, at_right.r);
        assert_eq!(blend_line(31.5, 99.0, &at_right), 99.0);
    }
}

#[test]
fn line_blend_midpoint_averages() {
    let tc_pos: Vec<i64> = vec![0, 10];
    let mid = line_blend_of(&tc_pos, 5, false);
    assert_eq!(blend_line(10.0, 20.0, &mid), 15.0);
}

#[test]
fn line_blend_clamps_without_extrapolation() {
    // Thermocouples at 2 and 8: position 0 clamps to 2, position 9 to 8.
    let tc_pos: Vec<i64> = vec![2, 8];
    let low = line_blend_of(&tc_pos, 0, false);
    assert_eq!(low.pos, 2);
    let high = line_blend_of(&tc_pos, 9, false);
    assert_eq!(high.pos, 8);
    // With extrapolation the raw positions stay.
    let low_extra = line_blend_of(&tc_pos, 0, true);
    assert_eq!(low_extra.pos, 0);
    let high_extra = line_blend_of(&tc_pos, 9, true);
    assert_eq!(high_extra.pos, 9);
}

#[test]
fn line_plan_covers_every_position() {
    let tc_pos: Vec<i64> = vec![0, 4, 9];
    let plan = interp1d_plan(&tc_pos, 10, false).unwrap();
    assert_eq!(plan.len(), 10);
    // The scan walks the bracket monotonically.
    assert_eq!((plan[0].li, plan[0].ri), (0, 1));
    assert_eq!((plan[4].li, plan[4].ri), (1, 2));
    assert_eq!((plan[9].li, plan[9].ri), (1, 2));
}

#[test]
fn line_plan_needs_two_thermocouples() {
    let tc_pos: Vec<i64> = vec![3];
    assert!(interp1d_plan(&tc_pos, 5, false).is_err());
}

/// The bilinear blend, in floats, for one frame.
fn blend_grid(t: [f32; 4], b: &tlc::interp::BilinearBlend) -> f32 {
    (t[0] * (b.x1 - b.x) as f32 * (b.y1 - b.y) as f32
        + t[1] * (b.x - b.x0) as f32 * (b.y1 - b.y) as f32
        + t[2] * (b.x1 - b.x) as f32 * (b.y - b.y0) as f32
        + t[3] * (b.x - b.x0) as f32 * (b.y - b.y0) as f32)
        / (b.x1 - b.x0) as f32
        / (b.y1 - b.y0) as f32
}

#[test]
fn bilinear_axes_take_grid_edges() {
    // A 2-by-3 grid of thermocouples, region corner at (8, 8).
    let tcs = vec![
        tc(0, 10, 10),
        tc(1, 10, 15),
        tc(2, 10, 20),
        tc(3, 20, 10),
        tc(4, 20, 15),
        tc(5, 20, 20),
    ];
    let (tc_x, tc_y) = bilinear_axes(&tcs, (8, 8), (2, 3)).unwrap();
    assert_eq!(tc_x, vec![2, 7, 12]);
    assert_eq!(tc_y, vec![2, 12]);
}

#[test]
fn bilinear_blend_at_corners_is_exact() {
    // Thermocouple temperatures 1..=6 on the 2-by-3 grid; at each grid
    // corner the blend returns that corner's temperature exactly.
    let tc_x: Vec<i64> = vec![2, 7, 12];
    let tc_y: Vec<i64> = vec![2, 12];
    let temps = [1.0f32, 2.0, 3.0, 4.0, 5.0, 6.0];
    let cal_w = 14usize;
    let corner_temp = |b: &tlc::interp::BilinearBlend| {
        let t00 = temps[3 * b.yi0 + b.xi0];
        let t01 = temps[3 * b.yi0 + b.xi1];
        let t10 = temps[3 * b.yi1 + b.xi0];
        let t11 = temps[3 * b.yi1 + b.xi1];
        [t00, t01, t10, t11]
    };
    for &do_extra in &[false, true] {
        for (k, &(y, x)) in [(2i64, 2i64), (2, 7), (2, 12), (12, 2), (12, 7), (12, 12)]
            .iter()
            .enumerate()
        {
            let pos = (y as usize) * cal_w + x as usize;
            let b = bilinear_blend_of(&tc_x, &tc_y, cal_w, pos, do_extra);
            let got = blend_grid(corner_temp(&b), &b);
            assert_eq!(got, temps[k], "corner {} with extrapolation {}", k, do_extra);
        }
    }
}

#[test]
fn bilinear_plan_covers_every_pixel() {
    let tc_x: Vec<i64> = vec![2, 7, 12];
    let tc_y: Vec<i64> = vec![2, 12];
    let plan = bilinear_plan(&tc_x, &tc_y, (14, 14), true).unwrap();
    assert_eq!(plan.len(), 14 * 14);
    // Pixel (0, 0) lies above and left of the grid: with extrapolation its
    // raw coordinates stay; the bracketing cell is the first one.
    let b = &plan[0];
    assert_eq!((b.x, b.y), (0, 0));
    assert_eq!((b.xi0, b.xi1, b.yi0, b.yi1), (0, 1, 0, 1));
}

#[test]
fn bilinear_plan_clamps_outside_pixels() {
    let tc_x: Vec<i64> = vec![2, 7, 12];
    let tc_y: Vec<i64> = vec![2, 12];
    let plan = bilinear_plan(&tc_x, &tc_y, (14, 14), false).unwrap();
    let b = &plan[0];
    assert_eq!((b.x, b.y), (2, 2));
}

#[test]
fn bilinear_axes_reject_thin_grids() {
    let tcs = vec![tc(0, 10, 10), tc(1, 10, 15)];
    assert!(bilinear_axes(&tcs, (0, 0), (1, 2)).is_err());
    assert!(bilinear_axes(&tcs, (0, 0), (2, 2)).is_err());
}

#[test]
fn interp_single_point_maps_rows_by_orientation() {
    // A horizontal field keeps one row per region column.
    let temps = Matrix::from_vec(vec![1.0f32, 2.0, 3.0, 4.0, 5.0, 6.0], 3, 2).unwrap();
    let field = Interp { temps };
    let region = (4usize, 3usize);
    // Pixel 7 sits at column 1 of a 3-wide region.
    assert_eq!(field.interp_single_point(7, region), vec![3.0, 4.0]);
    // A vertical field keeps one row per region row.
    let temps = Matrix::from_vec(vec![1.0f32, 2.0, 3.0, 4.0, 5.0, 6.0, 7.0, 8.0], 4, 2).unwrap();
    let field = Interp { temps };
    // Pixel 7 sits at row 2 of the region.
    assert_eq!(field.interp_single_point(7, region), vec![5.0, 6.0]);
}

#[test]
fn interp_single_frame_broadcasts_horizontal() {
    // Horizontal: one row per region column, broadcast down the rows.
    let temps = Matrix::from_vec(vec![1.0f32, 2.0, 3.0], 3, 1).unwrap();
    let field = Interp { temps };
    let frame = field.single_frame(0, (2, 3)).unwrap();
    assert_eq!(frame.nrows(), 2);
    assert_eq!(frame.ncols(), 3);
    for r in 0..2 {
        assert_eq!(frame.get(r, 0), 1.0);
        assert_eq!(frame.get(r, 1), 2.0);
        assert_eq!(frame.get(r, 2), 3.0);
    }
}
