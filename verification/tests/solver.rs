use tlc::config::{FilterMethod, InterpMethod, IterationMethod, Thermocouple, TLCConfig};
use tlc::data::TLCData;
use tlc::matrix::Matrix;
use tlc::solve::{
    DampedStep, PixelDecision, TangentStep, WARMUP_SAMPLES, assemble_map, newton_damped_step,
    newton_tangent_step, solve_decisions,
};

#[test]
fn newton_tangent_linear_equation_converges_to_five() {
    // f(h) = h - 5 with derivative 1 and initial guess 0: the first Newton
    // update lands exactly on the root, and the 1e-3 stopping tolerance
    // accepts it on the following step.
    let f = |h: f32| h - 5.0;
    let df = |_h: f32| 1.0f32;
    let mut h = 0.0f32;
    let mut result = None;
    let mut steps = 0usize;
    for _ in 0..10 {
        let next_h = h - f(h) / df(h);
        steps += 1;
        let diverged = next_h.abs() > 10000.0;
        let converged = (next_h - h).abs() < 1e-3;
        match newton_tangent_step(diverged, converged) {
            TangentStep::ReturnNan => {
                result = Some(f32::NAN);
                break;
            }
            TangentStep::ReturnNext => {
                result = Some(next_h);
                break;
            }
            TangentStep::Continue => h = next_h,
        }
    }
    assert_eq!(h, 5.0, "one iteration reaches the root");
    assert_eq!(result, Some(5.0));
    assert_eq!(steps, 2);
}

#[test]
fn newton_tangent_divergence_is_nan() {
    // f(h) = -1 constantly with derivative 1e-6: the first step flies off.
    let mut h = 0.0f32;
    let next_h = h - (-1.0) / 1.0e-6f32;
    let diverged = next_h.abs() > 10000.0;
    let converged = (next_h - h).abs() < 1e-3;
    match newton_tangent_step(diverged, converged) {
        TangentStep::ReturnNan => h = f32::NAN,
        TangentStep::ReturnNext | TangentStep::Continue => {}
    }
    assert!(h.is_nan());
}

#[test]
fn newton_damped_order_of_decisions() {
    assert_eq!(newton_damped_step(true, true, true), DampedStep::ReturnNext);
    assert_eq!(newton_damped_step(false, true, false), DampedStep::Accept);
    assert_eq!(newton_damped_step(false, false, true), DampedStep::ReturnNan);
    assert_eq!(newton_damped_step(false, false, false), DampedStep::Halve);
}

#[test]
fn warmup_peaks_are_skipped_as_nan() {
    // Peak frames at or before the four-sample warm-up window give
    // not-a-number without solving, whatever the iteration method.
    assert_eq!(WARMUP_SAMPLES, 4);
    let peaks: Vec<usize> = vec![0, 3, 4, 5, 9];
    let decisions = solve_decisions(&peaks, 5, (1, 5));
    assert_eq!(decisions[0], PixelDecision::Nan);
    assert_eq!(decisions[1], PixelDecision::Nan);
    assert_eq!(decisions[2], PixelDecision::Nan);
    assert_eq!(decisions[3], PixelDecision::Solve { peak_frame: 5, interp_row: 3 });
    assert_eq!(decisions[4], PixelDecision::Solve { peak_frame: 9, interp_row: 4 });
}

#[test]
fn solve_plan_skips_warmup_whatever_the_method() {
    for method in [
        IterationMethod::NewtonTangent { h0: 50.0, max_iter_num: 10 },
        IterationMethod::NewtonDown { h0: 50.0, max_iter_num: 10 },
    ] {
        let config = TLCConfig {
            video_path: String::new(),
            daq_path: String::new(),
            start_frame: 0,
            total_frames: 8,
            frame_rate: 25,
            start_row: 0,
            total_rows: 8,
            frame_num: 8,
            top_left_pos: (0, 0),
            region_shape: (1, 2),
            video_shape: (8, 8),
            thermocouples: vec![
                Thermocouple { column_num: 0, pos: (0, 0) },
                Thermocouple { column_num: 1, pos: (0, 1) },
            ],
            interp_method: InterpMethod::Horizontal,
            filter_method: FilterMethod::No,
            iteration_method: method,
            peak_temp: 35.0,
            solid_thermal_conductivity: 0.19,
            solid_thermal_diffusivity: 1.1e-7,
            characteristic_length: 0.015,
            air_thermal_conductivity: 0.0276,
            regulator: vec![1.0, 1.0],
        };
        let mut data = TLCData::new(config, 1.0);
        // 8 frames, 2 pixels: pixel 0 peaks at frame 2 (inside warm-up),
        // pixel 1 at frame 6.
        let raw = Matrix::from_vec(
            vec![
                0, 0, //
                1, 1, //
                9, 2, //
                2, 3, //
                2, 4, //
                2, 5, //
                2, 9, //
                2, 1,
            ],
            8,
            2,
        )
        .unwrap();
        data.store_raw_g2d(raw).unwrap();
        data.detect_peak().unwrap();
        let field = Matrix::from_vec(vec![30.0f32; 16], 2, 8).unwrap();
        data.store_interp(field).unwrap();
        let plan = data.solve_plan().unwrap();
        assert_eq!(plan[0], PixelDecision::Nan);
        assert_eq!(plan[1], PixelDecision::Solve { peak_frame: 6, interp_row: 1 });
    }
}

#[test]
fn assembled_map_is_flipped_vertically() {
    let values: Vec<f32> = vec![0.0, 1.0, 2.0, 3.0, 4.0, 5.0];
    let map = assemble_map(&values, (2, 3)).unwrap();
    assert_eq!(map.nrows(), 2);
    assert_eq!(map.ncols(), 3);
    assert_eq!((map.get(0, 0), map.get(0, 1), map.get(0, 2)), (3.0, 4.0, 5.0));
    assert_eq!((map.get(1, 0), map.get(1, 1), map.get(1, 2)), (0.0, 1.0, 2.0));
}

#[test]
fn assembled_map_rejects_bad_length() {
    let values: Vec<f32> = vec![0.0; 5];
    assert!(assemble_map(&values, (2, 3)).is_err());
}

#[test]
fn store_nu_places_values_and_mean() {
    let config = TLCConfig {
        video_path: String::new(),
        daq_path: String::new(),
        start_frame: 0,
        total_frames: 4,
        frame_rate: 25,
        start_row: 0,
        total_rows: 4,
        frame_num: 4,
        top_left_pos: (0, 0),
        region_shape: (2, 2),
        video_shape: (8, 8),
        thermocouples: vec![],
        interp_method: InterpMethod::Horizontal,
        filter_method: FilterMethod::No,
        iteration_method: IterationMethod::NewtonTangent { h0: 50.0, max_iter_num: 10 },
        peak_temp: 35.0,
        solid_thermal_conductivity: 0.19,
        solid_thermal_diffusivity: 1.1e-7,
        characteristic_length: 0.015,
        air_thermal_conductivity: 0.0276,
        regulator: vec![],
    };
    let mut data = TLCData::new(config, 1.0);
    data.store_nu(&vec![1.0f32, 2.0, 3.0, 4.0], 2.5).unwrap();
    let map = data.get_nu2d().unwrap();
    assert_eq!((map.get(0, 0), map.get(0, 1)), (3.0, 4.0));
    assert_eq!((map.get(1, 0), map.get(1, 1)), (1.0, 2.0));
    assert_eq!(data.get_nu_ave(), Some(2.5));
}
