use tlc::error::TLCError;
use tlc::matrix::Matrix;
use tlc::peak::{detect_peak, peak_of_series};

#[test]
fn peak_two_pixels_three_frames() {
    // Series [1,5,3] and [9,2,2]: frames are rows, pixels are columns.
    let data: Vec<u8> = vec![
        1, 9, //
        5, 2, //
        3, 2,
    ];
    let g2d = Matrix::from_vec(data, 3, 2).unwrap();
    let peaks = detect_peak(&g2d).unwrap();
    assert_eq!(peaks, vec![1, 0]);
}

#[test]
fn peak_tie_breaks_to_earliest_frame() {
    let series: Vec<u8> = vec![2, 5, 5, 1, 5];
    assert_eq!(peak_of_series(&series).unwrap(), 1);
}

#[test]
fn peak_of_empty_series_is_reported() {
    let series: Vec<u8> = Vec::new();
    assert_eq!(peak_of_series(&series).unwrap_err(), TLCError::EmptySeries);
    let g2d = Matrix::from_vec(Vec::new(), 0, 3).unwrap();
    assert_eq!(detect_peak(&g2d).unwrap_err(), TLCError::EmptySeries);
}

#[test]
fn peak_of_constant_series_is_frame_zero() {
    let series: Vec<u8> = vec![7, 7, 7, 7];
    assert_eq!(peak_of_series(&series).unwrap(), 0);
}
