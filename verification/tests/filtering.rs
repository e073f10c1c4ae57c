use tlc::filter::{median_filter_matrix, median_filter_series, wavelet_level_bounds, wavelet_plan};
use tlc::matrix::Matrix;

#[test]
fn median_window_one_is_identity() {
    let series: Vec<u8> = vec![9, 1, 200, 3, 3, 0, 255, 17];
    let out = median_filter_series(&series, 1);
    assert_eq!(out, series);
}

#[test]
fn median_window_five_single_peak() {
    // The sliding lower median over a window of five.
    let series: Vec<u8> = vec![10, 20, 30, 100, 30, 20, 10];
    let out = median_filter_series(&series, 5);
    assert_eq!(out, vec![10, 10, 20, 20, 30, 30, 30]);
}

#[test]
fn median_window_four_single_peak() {
    // An even window returns the lower of the two middle values.
    let series: Vec<u8> = vec![10, 20, 30, 100, 30, 20, 10];
    let out = median_filter_series(&series, 4);
    assert_eq!(out, vec![10, 10, 20, 20, 30, 30, 20]);
}

#[test]
fn median_window_descending() {
    let series: Vec<u8> = vec![70, 60, 50, 40, 30, 20, 10];
    let out = median_filter_series(&series, 5);
    assert_eq!(out, vec![70, 60, 60, 50, 50, 40, 30]);
}

#[test]
fn median_filter_runs_per_column() {
    // Two pixels (columns), five frames (rows).
    let data: Vec<u8> = vec![
        10, 70, //
        20, 60, //
        30, 50, //
        100, 40, //
        30, 30,
    ];
    let m = Matrix::from_vec(data, 5, 2).unwrap();
    let f = median_filter_matrix(&m, 3);
    let left: Vec<u8> = (0..5).map(|r| f.get(r, 0)).collect();
    let right: Vec<u8> = (0..5).map(|r| f.get(r, 1)).collect();
    assert_eq!(left, median_filter_series(&vec![10, 20, 30, 100, 30], 3));
    assert_eq!(right, median_filter_series(&vec![70, 60, 50, 40, 30], 3));
}

#[test]
fn wavelet_plan_hundred_frames() {
    // 100 / (16 - 1) = 6, which halves twice before reaching one, and
    // 100 is already a multiple of four.
    let plan = wavelet_plan(100, 16);
    assert_eq!(plan.max_level, 2);
    assert_eq!(plan.filter_len, 100);
}

#[test]
fn wavelet_plan_truncates_tail() {
    // 250 / 15 = 16 halves four times; 250 truncated to a multiple of
    // sixteen is 240, leaving ten frames unfiltered.
    let plan = wavelet_plan(250, 16);
    assert_eq!(plan.max_level, 4);
    assert_eq!(plan.filter_len, 240);
}

#[test]
fn wavelet_plan_short_history() {
    // Fewer frames than taps: depth zero, everything kept.
    let plan = wavelet_plan(10, 16);
    assert_eq!(plan.max_level, 0);
    assert_eq!(plan.filter_len, 10);
}

#[test]
fn wavelet_bands_walk_doubling_spans() {
    let bands = wavelet_level_bounds(100, 2);
    assert_eq!(bands, vec![(25, 50), (50, 100)]);
    let deeper = wavelet_level_bounds(240, 4);
    assert_eq!(deeper, vec![(15, 30), (30, 60), (60, 120), (120, 240)]);
}
