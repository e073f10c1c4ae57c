use tlc::config::{FilterMethod, InterpMethod, IterationMethod, Thermocouple, TLCConfig};
use tlc::data::{StageOutcome, TLCData};
use tlc::error::TLCError;
use tlc::matrix::Matrix;

fn base_config() -> TLCConfig<f32> {
    TLCConfig {
        video_path: String::from("case.avi"),
        daq_path: String::from("case.lvm"),
        start_frame: 0,
        total_frames: 4,
        frame_rate: 25,
        start_row: 0,
        total_rows: 4,
        frame_num: 4,
        top_left_pos: (0, 0),
        region_shape: (2, 2),
        video_shape: (8, 8),
        thermocouples: vec![
            Thermocouple { column_num: 0, pos: (0, 0) },
            Thermocouple { column_num: 1, pos: (0, 1) },
        ],
        interp_method: InterpMethod::Horizontal,
        filter_method: FilterMethod::No,
        iteration_method: IterationMethod::NewtonTangent { h0: 50.0, max_iter_num: 10 },
        peak_temp: 35.0,
        solid_thermal_conductivity: 0.19,
        solid_thermal_diffusivity: 1.1e-7,
        characteristic_length: 0.015,
        air_thermal_conductivity: 0.0276,
        regulator: vec![1.0, 1.0],
    }
}

fn raw_matrix() -> Matrix<u8> {
    // 4 frames, 4 pixels.
    Matrix::from_vec(
        vec![
            1, 2, 3, 4, //
            5, 6, 7, 8, //
            9, 1, 2, 3, //
            4, 5, 6, 7,
        ],
        4,
        4,
    )
    .unwrap()
}

fn loaded_data() -> TLCData<f32> {
    let mut data = TLCData::new(base_config(), 1.0);
    data.store_raw_g2d(raw_matrix()).unwrap();
    let daq = Matrix::from_vec(
        vec![
            20.0f32, 21.0, //
            22.0, 23.0, //
            24.0, 25.0, //
            26.0, 27.0,
        ],
        4,
        2,
    )
    .unwrap();
    data.store_daq(daq).unwrap();
    data
}

#[test]
fn lazy_filtering_is_idempotent() {
    // Invoking the accessor twice without a setter in between returns
    // bit-identical cached data.
    let mut data = loaded_data();
    data.set_filter_method(FilterMethod::Median(3));
    assert_eq!(data.filtering().unwrap(), StageOutcome::Done);
    let first: Vec<u8> = data.get_filtered_g2d().unwrap().as_vec().clone();
    assert_eq!(data.filtering().unwrap(), StageOutcome::Done);
    let second: Vec<u8> = data.get_filtered_g2d().unwrap().as_vec().clone();
    assert_eq!(first, second);
}

#[test]
fn lazy_peaks_are_idempotent() {
    let mut data = loaded_data();
    assert_eq!(data.detect_peak().unwrap(), StageOutcome::Done);
    let first = data.get_peak_frames().unwrap().clone();
    assert_eq!(data.detect_peak().unwrap(), StageOutcome::Done);
    let second = data.get_peak_frames().unwrap().clone();
    assert_eq!(first, second);
}

#[test]
fn filter_setter_clears_downstream_only() {
    // Changing the filter method clears peak frames and the Nusselt map
    // but leaves the raw intensity matrix and temperature matrix alone.
    let mut data = loaded_data();
    data.detect_peak().unwrap();
    let t2d = data.select_t2d().unwrap();
    data.store_t2d(t2d).unwrap();
    let field = Matrix::from_vec(vec![30.0f32; 8], 2, 4).unwrap();
    data.store_interp(field).unwrap();
    data.store_nu(&vec![1.0f32, 2.0, 3.0, 4.0], 2.5).unwrap();
    assert!(data.get_peak_frames().is_some());
    assert!(data.get_nu2d().is_some());

    data.set_filter_method(FilterMethod::Median(3));

    assert!(data.get_filtered_g2d().is_none());
    assert!(data.get_peak_frames().is_none());
    assert!(data.get_nu2d().is_none());
    assert!(data.get_nu_ave().is_none());
    assert!(data.get_raw_g2d().is_some());
    assert!(data.get_t2d().is_some());
    assert!(data.get_daq().is_some());
    assert!(data.get_interp().is_some());
}

#[test]
fn region_setter_clears_all_but_daq() {
    let mut data = loaded_data();
    data.detect_peak().unwrap();
    data.set_region((1, 1), (3, 3));
    assert!(data.get_raw_g2d().is_none());
    assert!(data.get_filtered_g2d().is_none());
    assert!(data.get_peak_frames().is_none());
    assert!(data.get_t2d().is_none());
    assert!(data.get_interp().is_none());
    assert!(data.get_nu2d().is_none());
    assert!(data.get_daq().is_some());
    assert_eq!(data.get_config().region_shape, (3, 3));
}

#[test]
fn iteration_setter_clears_only_nusselt() {
    let mut data = loaded_data();
    data.detect_peak().unwrap();
    data.store_nu(&vec![1.0f32, 2.0, 3.0, 4.0], 2.5).unwrap();
    data.set_iteration_method(IterationMethod::NewtonDown { h0: 60.0, max_iter_num: 5 });
    assert!(data.get_nu2d().is_none());
    assert!(data.get_nu_ave().is_none());
    assert!(data.get_peak_frames().is_some());
    assert!(data.get_raw_g2d().is_some());
}

#[test]
fn start_frame_shifts_row_and_validates() {
    let mut data = loaded_data();
    data.detect_peak().unwrap();
    data.set_start_frame(1).unwrap();
    assert_eq!(data.get_config().start_frame, 1);
    assert_eq!(data.get_config().start_row, 1);
    assert_eq!(data.get_config().frame_num, 3);
    assert!(data.get_peak_frames().is_none());
    assert!(data.get_raw_g2d().is_none());

    // Beyond the video's frame count: rejected unchanged.
    let err = data.set_start_frame(99).unwrap_err();
    assert_eq!(err, TLCError::StartFrameOutOfRange { start_frame: 99, total_frames: 4 });
    assert_eq!(data.get_config().start_frame, 1);
}

#[test]
fn start_row_runs_off_daq_table() {
    let mut data = loaded_data();
    let err = data.set_start_row(4).unwrap_err();
    assert_eq!(err, TLCError::StartRowOutOfRange { start_row: 4, total_rows: 4 });
}

#[test]
fn regulator_must_match_thermocouple_count() {
    let mut data = loaded_data();
    let err = data.set_regulator(vec![1.0f32, 1.0, 1.0]).unwrap_err();
    assert_eq!(err, TLCError::LengthMismatch { expected: 2, actual: 3 });
    data.set_regulator(vec![0.5f32, 2.0]).unwrap();
    assert_eq!(data.get_config().regulator, vec![0.5, 2.0]);
}

#[test]
fn thermocouple_setter_resets_regulator() {
    let mut data = loaded_data();
    data.set_thermocouples(
        vec![
            Thermocouple { column_num: 0, pos: (0, 0) },
            Thermocouple { column_num: 1, pos: (0, 1) },
            Thermocouple { column_num: 1, pos: (0, 2) },
        ],
        1.0,
    );
    assert_eq!(data.get_config().regulator, vec![1.0, 1.0, 1.0]);
    assert!(data.get_t2d().is_none());
}

#[test]
fn new_synchronizes_regulator_length() {
    let mut config = base_config();
    config.regulator = vec![2.0];
    let data = TLCData::new(config, 1.0);
    assert_eq!(data.get_config().regulator, vec![1.0, 1.0]);
}

#[test]
fn select_t2d_reads_configured_columns() {
    let data = loaded_data();
    let t2d = data.select_t2d().unwrap();
    assert_eq!(t2d.nrows(), 2);
    assert_eq!(t2d.ncols(), 4);
    // Thermocouple 0 reads channel 0, thermocouple 1 channel 1.
    assert_eq!(t2d.get(0, 0), 20.0);
    assert_eq!(t2d.get(0, 3), 26.0);
    assert_eq!(t2d.get(1, 0), 21.0);
    assert_eq!(t2d.get(1, 3), 27.0);
}

#[test]
fn select_t2d_respects_start_row() {
    let mut data = loaded_data();
    data.set_start_row(1).unwrap();
    let daq = Matrix::from_vec(
        vec![
            20.0f32, 21.0, //
            22.0, 23.0, //
            24.0, 25.0, //
            26.0, 27.0,
        ],
        4,
        2,
    )
    .unwrap();
    data.store_daq(daq).unwrap();
    let t2d = data.select_t2d().unwrap();
    assert_eq!(t2d.ncols(), 3);
    assert_eq!(t2d.get(0, 0), 22.0);
}

#[test]
fn select_t2d_reports_bad_column() {
    let mut data = loaded_data();
    data.set_thermocouples(
        vec![Thermocouple { column_num: 7, pos: (0, 0) }, Thermocouple {
            column_num: 0,
            pos: (0, 1),
        }],
        1.0,
    );
    let err = match data.select_t2d() {
        Err(e) => e,
        Ok(_) => panic!("expected an error"),
    };
    assert_eq!(err, TLCError::DaqColumnOutOfRange { column: 7, total_columns: 2 });
}

#[test]
fn select_t2d_reports_missing_daq() {
    let data = TLCData::<f32>::new(base_config(), 1.0);
    let err = match data.select_t2d() {
        Err(e) => e,
        Ok(_) => panic!("expected an error"),
    };
    assert_eq!(err, TLCError::DaqMissing);
}

#[test]
fn filtering_without_raw_is_reported() {
    let mut data = TLCData::<f32>::new(base_config(), 1.0);
    assert_eq!(data.filtering().unwrap_err(), TLCError::RawMissing);
}

#[test]
fn wavelet_filtering_is_announced() {
    let mut data = loaded_data();
    data.set_filter_method(FilterMethod::Wavelet(0.5));
    assert_eq!(data.filtering().unwrap(), StageOutcome::NeedWavelet);
    // The computed matrix comes back through the store.
    let filtered = raw_matrix();
    data.store_filtered(filtered).unwrap();
    assert_eq!(data.detect_peak().unwrap(), StageOutcome::Done);
}

#[test]
fn no_filter_copies_raw() {
    let mut data = loaded_data();
    assert_eq!(data.filtering().unwrap(), StageOutcome::Done);
    let raw: Vec<u8> = data.get_raw_g2d().unwrap().as_vec().clone();
    let filtered: Vec<u8> = data.get_filtered_g2d().unwrap().as_vec().clone();
    assert_eq!(raw, filtered);
}

#[test]
fn synchronize_aligns_window() {
    let mut config = base_config();
    config.synchronize(3, 1);
    assert_eq!(config.start_frame, 2);
    assert_eq!(config.start_row, 0);
    assert_eq!(config.frame_num, 2);
    config.synchronize(0, 2);
    assert_eq!(config.start_frame, 0);
    assert_eq!(config.start_row, 2);
    assert_eq!(config.frame_num, 2);
}

#[test]
fn video_path_setter_keeps_temperature_side() {
    let mut data = loaded_data();
    data.detect_peak().unwrap();
    let t2d = data.select_t2d().unwrap();
    data.store_t2d(t2d).unwrap();
    data.set_video_path(String::from("other.avi"), 30, 8, (16, 16));
    assert!(data.get_raw_g2d().is_none());
    assert!(data.get_peak_frames().is_none());
    assert!(data.get_t2d().is_some());
    assert!(data.get_daq().is_some());
    assert_eq!(data.get_config().total_frames, 8);
    assert_eq!(data.get_config().frame_num, 4);
}

#[test]
fn daq_path_setter_keeps_video_side() {
    let mut data = loaded_data();
    data.detect_peak().unwrap();
    data.set_daq_path(String::from("other.lvm"), 10);
    assert!(data.get_daq().is_none());
    assert!(data.get_t2d().is_none());
    assert!(data.get_raw_g2d().is_some());
    assert!(data.get_peak_frames().is_some());
    assert_eq!(data.get_config().total_rows, 10);
    assert_eq!(data.get_config().frame_num, 4);
}

#[test]
fn storing_fresh_raw_evicts_its_downstream() {
    // A freshly read intensity matrix invalidates everything derived from
    // the previous one; the DAQ side stays.
    let mut data = loaded_data();
    data.detect_peak().unwrap();
    data.store_nu(&vec![1.0f32, 2.0, 3.0, 4.0], 2.5).unwrap();
    data.store_raw_g2d(raw_matrix()).unwrap();
    assert!(data.get_filtered_g2d().is_none());
    assert!(data.get_peak_frames().is_none());
    assert!(data.get_nu2d().is_none());
    assert!(data.get_nu_ave().is_none());
    assert!(data.get_raw_g2d().is_some());
    assert!(data.get_daq().is_some());
}

#[test]
fn frame_field_errors_are_specific() {
    // The single-frame spread reports a missing field, then an
    // out-of-range frame, each with its own error.
    let mut data = loaded_data();
    assert_eq!(
        match data.interp_frame_field(0) {
            Err(e) => e,
            Ok(_) => panic!("expected an error"),
        },
        TLCError::InterpMissing
    );
    let field = Matrix::from_vec(vec![30.0f32; 8], 2, 4).unwrap();
    data.store_interp(field).unwrap();
    assert_eq!(
        match data.interp_frame_field(9) {
            Err(e) => e,
            Ok(_) => panic!("expected an error"),
        },
        TLCError::FrameOutOfRange { frame: 9, frame_num: 4 }
    );
    let frame = data.interp_frame_field(1).unwrap();
    assert_eq!(frame.nrows(), 2);
    assert_eq!(frame.ncols(), 2);
}
