use tlc::codec::{encode_matrix_text, parse_matrix_text};
use tlc::error::TLCError;

fn cells_of(rows: &[&[f32]]) -> Vec<Vec<Vec<u8>>> {
    rows.iter()
        .map(|row| row.iter().map(|v| v.to_string().into_bytes()).collect())
        .collect()
}

#[test]
fn codec_exact_text_layout() {
    let rows: Vec<Vec<Vec<u8>>> = vec![
        vec![b"1.5".to_vec(), b"2".to_vec()],
        vec![b"-3.25".to_vec(), b"4".to_vec()],
    ];
    let text = encode_matrix_text(&rows);
    assert_eq!(text, b"1.5,2\n-3.25,4\n".to_vec());
}

#[test]
fn codec_round_trip_preserves_cells() {
    let rows: Vec<Vec<Vec<u8>>> = vec![
        vec![b"10".to_vec(), b"20".to_vec(), b"30".to_vec()],
        vec![b"40".to_vec(), b"50".to_vec(), b"60".to_vec()],
    ];
    let text = encode_matrix_text(&rows);
    let back = parse_matrix_text(&text).unwrap();
    assert_eq!(back, rows);
}

#[test]
fn nusselt_map_round_trips_through_text() {
    // Writing then reading a Nusselt map through the delimited-text format
    // reproduces the matrix within floating-point text precision — here
    // exactly, since Rust prints floats shortest-round-trip.
    let map: Vec<Vec<f32>> = vec![
        vec![1.5, -2.25, f32::NAN],
        vec![3.125e-3, 4.0, 1234.567],
    ];
    let as_cells = cells_of(&[&map[0], &map[1]]);
    let text = encode_matrix_text(&as_cells);
    let parsed = parse_matrix_text(&text).unwrap();
    let back: Vec<Vec<f32>> = parsed
        .iter()
        .map(|row| {
            row.iter()
                .map(|cell| String::from_utf8(cell.clone()).unwrap().parse::<f32>().unwrap())
                .collect()
        })
        .collect();
    assert_eq!(back.len(), 2);
    for (orig_row, back_row) in map.iter().zip(back.iter()) {
        assert_eq!(orig_row.len(), back_row.len());
        for (o, b) in orig_row.iter().zip(back_row.iter()) {
            if o.is_nan() {
                assert!(b.is_nan());
            } else {
                assert_eq!(o, b);
            }
        }
    }
}

#[test]
fn codec_handles_missing_final_newline() {
    let text = b"1,2\n3,4".to_vec();
    let rows = parse_matrix_text(&text).unwrap();
    assert_eq!(rows, vec![
        vec![b"1".to_vec(), b"2".to_vec()],
        vec![b"3".to_vec(), b"4".to_vec()],
    ]);
}

#[test]
fn codec_rejects_empty_text() {
    let text: Vec<u8> = Vec::new();
    assert_eq!(parse_matrix_text(&text).unwrap_err(), TLCError::EmptyText);
}

#[test]
fn error_messages_are_rendered() {
    assert_eq!(TLCError::EmptyText.message(), "delimited-text matrix is empty");
    assert_eq!(
        TLCError::EmptySeries.message(),
        "peak detection ran on an empty series"
    );
}
