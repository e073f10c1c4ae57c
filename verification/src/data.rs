use vstd::prelude::*;

use crate::config::{FilterMethod, InterpMethod, IterationMethod, Thermocouple, TLCConfig, spec_min};
use crate::error::TLCError;
use crate::filter::{copy_matrix, median_filter_matrix, median_filter_series, median_filtered};
use crate::interp::{
    BilinearBlend, Interp, LineBlend, axis_positions, bilinear_axes, bilinear_plan, interp1d_plan,
};
use crate::matrix::Matrix;
use crate::peak::{detect_peak, is_first_peak};
use crate::solve::{PixelDecision, solve_decisions};

verus! {

/// Configuration plus every derived entity, produced lazily and destroyed
/// whenever a configuration value it transitively depends on changes. No
/// entity is ever recomputed while present, and no stale entity is ever
/// returned: each setter below evicts exactly the entities downstream of
/// the field it writes.
pub struct TLCData<F> {
    config: TLCConfig<F>,
    /// Green intensities: frames as rows, region pixels as columns.
    raw_g2d: Option<Matrix<u8>>,
    /// The same, after the configured temporal filter.
    filtered_g2d: Option<Matrix<u8>>,
    /// Per pixel, the frame of peak filtered intensity.
    peak_frames: Option<Vec<usize>>,
    /// The DAQ table: samples as rows, channels as columns.
    daq: Option<Matrix<F>>,
    /// Calibrated thermocouple temperatures: one row per thermocouple,
    /// one column per frame.
    t2d: Option<Matrix<F>>,
    /// The interpolated temperature field.
    interp: Option<Interp<F>>,
    /// The Nusselt map, region-shaped, bottom row first.
    nu2d: Option<Matrix<F>>,
    /// Mean of the map, ignoring not-a-number entries.
    nu_nan_mean: Option<F>,
}

/// A lazy stage's outcome: the entity is in place, or the caller must run
/// the wavelet transform (whose scalar arithmetic lives outside this
/// crate) and store the result.
#[derive(Clone, Copy, Debug, PartialEq, Eq)]
pub enum StageOutcome {
    /// The entity is cached now.
    Done,
    /// The wavelet filter is configured: compute it outside and store it.
    NeedWavelet,
}

/// A single pixel's filtered history, or the request to run the wavelet
/// transform outside.
pub enum SinglePointFilter {
    /// The filtered history of the requested pixel.
    Series(Vec<u8>),
    /// The wavelet filter is configured: compute this pixel outside.
    NeedWavelet,
}

/// The filtered matrix this crate computes for a filter method: the
/// identity copy, or the per-pixel sliding median. (The wavelet variant is
/// computed outside and only stored here.)
pub open spec fn filtered_matches<F>(
    method: FilterMethod<F>,
    raw: Matrix<u8>,
    f: Matrix<u8>,
) -> bool {
    &&& f.wf()
    &&& f.spec_rows() == raw.spec_rows()
    &&& f.spec_cols() == raw.spec_cols()
    &&& match method {
        FilterMethod::No => f.view() == raw.view(),
        FilterMethod::Median(w) => forall|c: int|
            0 <= c < f.spec_cols() ==> #[trigger] f.col(c) == median_filtered(
                raw.col(c),
                w as nat,
            ),
        FilterMethod::Wavelet(_) => false,
    }
}

impl<F: Copy> TLCData<F> {
    /// The current configuration.
    pub closed spec fn spec_config(&self) -> TLCConfig<F> {
        self.config
    }

    /// The cached raw intensity matrix, if read.
    pub closed spec fn spec_raw(&self) -> Option<Matrix<u8>> {
        self.raw_g2d
    }

    /// The cached filtered intensity matrix, if computed.
    pub closed spec fn spec_filtered(&self) -> Option<Matrix<u8>> {
        self.filtered_g2d
    }

    /// The cached peak-frame vector, if detected.
    pub closed spec fn spec_peaks(&self) -> Option<Vec<usize>> {
        self.peak_frames
    }

    /// The cached DAQ table, if read.
    pub closed spec fn spec_daq(&self) -> Option<Matrix<F>> {
        self.daq
    }

    /// The cached temperature matrix, if built.
    pub closed spec fn spec_t2d(&self) -> Option<Matrix<F>> {
        self.t2d
    }

    /// The cached interpolated field, if built.
    pub closed spec fn spec_interp(&self) -> Option<Interp<F>> {
        self.interp
    }

    /// The cached Nusselt map, if solved.
    pub closed spec fn spec_nu2d(&self) -> Option<Matrix<F>> {
        self.nu2d
    }

    /// The cached Nusselt mean, if solved.
    pub closed spec fn spec_nu_mean(&self) -> Option<F> {
        self.nu_nan_mean
    }

    /// The cache invariant: the configuration invariant holds, every
    /// cached matrix is rectangular, and every cached entity of the video
    /// side keeps the shape it was computed at — the raw matrix holds one
    /// column per region pixel, a filtered matrix exists only beside a raw
    /// matrix of its own shape, the peak vector holds one entry per pixel,
    /// and the Nusselt map is region-shaped and cached together with its
    /// mean. Every setter and store preserves this by evicting what a
    /// changed field or fresh upstream value would leave stale.
    pub open spec fn wf(&self) -> bool {
        &&& self.spec_config().wf()
        &&& (self.spec_raw() matches Some(m) ==> m.wf() && m.spec_cols()
            == self.spec_config().pix_num())
        &&& (self.spec_filtered() matches Some(f) ==> f.wf() && (self.spec_raw() matches Some(m)
            && f.spec_rows() == m.spec_rows() && f.spec_cols() == m.spec_cols()))
        &&& (self.spec_peaks() matches Some(p) ==> p@.len() == self.spec_config().pix_num())
        &&& (self.spec_daq() matches Some(m) ==> m.wf())
        &&& (self.spec_t2d() matches Some(m) ==> m.wf())
        &&& (self.spec_interp() matches Some(ip) ==> ip.wf())
        &&& (self.spec_nu2d() matches Some(m) ==> m.wf() && m.spec_rows()
            == self.spec_config().region_shape.0 && m.spec_cols()
            == self.spec_config().region_shape.1)
        &&& (self.spec_nu2d() is Some <==> self.spec_nu_mean() is Some)
    }

    /// A fresh pipeline around a configuration: nothing is cached yet, and
    /// the calibration vector is re-synchronized (reset to the caller's
    /// neutral factor `one` when its length disagrees with the
    /// thermocouple count).
    pub fn new(config: TLCConfig<F>, one: F) -> (data: TLCData<F>)
        ensures
            data.wf(),
            data.spec_config() == (TLCConfig {
                regulator: data.spec_config().regulator,
                ..config
            }),
            config.wf() ==> data.spec_config().regulator == config.regulator,
            !config.wf() ==> {
                &&& data.spec_config().regulator@.len() == config.thermocouples@.len()
                &&& forall|i: int| 0 <= i < data.spec_config().regulator@.len()
                    ==> data.spec_config().regulator@[i] == one
            },
            data.spec_raw() is None,
            data.spec_filtered() is None,
            data.spec_peaks() is None,
            data.spec_daq() is None,
            data.spec_t2d() is None,
            data.spec_interp() is None,
            data.spec_nu2d() is None,
            data.spec_nu_mean() is None,
    {
        let mut config = config;
        config.init_regulator(one);
        TLCData {
            config,
            raw_g2d: None,
            filtered_g2d: None,
            peak_frames: None,
            daq: None,
            t2d: None,
            interp: None,
            nu2d: None,
            nu_nan_mean: None,
        }
    }

    /// The configuration, read-only.
    pub fn get_config(&self) -> (c: &TLCConfig<F>)
        ensures
            *c == self.spec_config(),
    {
        &self.config
    }

    /// The raw intensity matrix, if read.
    pub fn get_raw_g2d(&self) -> (r: Option<&Matrix<u8>>)
        ensures
            match r {
                Some(m) => self.spec_raw() == Some(*m),
                None => self.spec_raw() is None,
            },
    {
        self.raw_g2d.as_ref()
    }

    /// The filtered intensity matrix, if computed.
    pub fn get_filtered_g2d(&self) -> (r: Option<&Matrix<u8>>)
        ensures
            match r {
                Some(m) => self.spec_filtered() == Some(*m),
                None => self.spec_filtered() is None,
            },
    {
        self.filtered_g2d.as_ref()
    }

    /// The peak-frame vector, if detected.
    pub fn get_peak_frames(&self) -> (r: Option<&Vec<usize>>)
        ensures
            match r {
                Some(v) => self.spec_peaks() == Some(*v),
                None => self.spec_peaks() is None,
            },
    {
        self.peak_frames.as_ref()
    }

    /// The DAQ table, if read.
    pub fn get_daq(&self) -> (r: Option<&Matrix<F>>)
        ensures
            match r {
                Some(m) => self.spec_daq() == Some(*m),
                None => self.spec_daq() is None,
            },
    {
        self.daq.as_ref()
    }

    /// The temperature matrix, if built.
    pub fn get_t2d(&self) -> (r: Option<&Matrix<F>>)
        ensures
            match r {
                Some(m) => self.spec_t2d() == Some(*m),
                None => self.spec_t2d() is None,
            },
    {
        self.t2d.as_ref()
    }

    /// The interpolated field, if built.
    pub fn get_interp(&self) -> (r: Option<&Interp<F>>)
        ensures
            match r {
                Some(ip) => self.spec_interp() == Some(*ip),
                None => self.spec_interp() is None,
            },
    {
        self.interp.as_ref()
    }

    /// The Nusselt map, if solved.
    pub fn get_nu2d(&self) -> (r: Option<&Matrix<F>>)
        ensures
            match r {
                Some(m) => self.spec_nu2d() == Some(*m),
                None => self.spec_nu2d() is None,
            },
    {
        self.nu2d.as_ref()
    }

    /// The Nusselt mean (ignoring not-a-number entries), if solved.
    pub fn get_nu_ave(&self) -> (r: Option<F>)
        ensures
            r == self.spec_nu_mean(),
    {
        self.nu_nan_mean
    }

    // -----------------------------------------------------------------
    // Setters. Each writes one configuration field and evicts exactly
    // the derived entities downstream of it.
    // -----------------------------------------------------------------

    /// Points the pipeline at another video, with the metadata the caller
    /// read from it. Evicts everything derived from video data; the DAQ
    /// side stays.
    pub fn set_video_path(
        &mut self,
        video_path: String,
        frame_rate: usize,
        total_frames: usize,
        video_shape: (usize, usize),
    )
        requires
            old(self).wf(),
            old(self).spec_config().start_frame <= total_frames,
            old(self).spec_config().start_row <= old(self).spec_config().total_rows,
        ensures
            final(self).wf(),
            final(self).spec_config() == (TLCConfig {
                video_path,
                frame_rate,
                total_frames,
                video_shape,
                frame_num: final(self).spec_config().frame_num,
                ..old(self).spec_config()
            }),
            final(self).spec_config().frame_num == spec_min(
                (total_frames - old(self).spec_config().start_frame) as nat,
                (old(self).spec_config().total_rows - old(self).spec_config().start_row) as nat,
            ),
            final(self).spec_raw() is None,
            final(self).spec_filtered() is None,
            final(self).spec_peaks() is None,
            final(self).spec_nu2d() is None,
            final(self).spec_nu_mean() is None,
            final(self).spec_daq() == old(self).spec_daq(),
            final(self).spec_t2d() == old(self).spec_t2d(),
            final(self).spec_interp() == old(self).spec_interp(),
    {
        self.config.video_path = video_path;
        self.config.frame_rate = frame_rate;
        self.config.total_frames = total_frames;
        self.config.video_shape = video_shape;
        self.config.init_frame_num();
        self.raw_g2d = None;
        self.filtered_g2d = None;
        self.peak_frames = None;
        self.nu2d = None;
        self.nu_nan_mean = None;
    }

    /// Points the pipeline at another DAQ table, with the row count the
    /// caller read from it. Evicts everything derived from DAQ data; the
    /// video side stays.
    pub fn set_daq_path(&mut self, daq_path: String, total_rows: usize)
        requires
            old(self).wf(),
            old(self).spec_config().start_frame <= old(self).spec_config().total_frames,
            old(self).spec_config().start_row <= total_rows,
        ensures
            final(self).wf(),
            final(self).spec_config() == (TLCConfig {
                daq_path,
                total_rows,
                frame_num: final(self).spec_config().frame_num,
                ..old(self).spec_config()
            }),
            final(self).spec_config().frame_num == spec_min(
                (old(self).spec_config().total_frames
                    - old(self).spec_config().start_frame) as nat,
                (total_rows - old(self).spec_config().start_row) as nat,
            ),
            final(self).spec_daq() is None,
            final(self).spec_t2d() is None,
            final(self).spec_interp() is None,
            final(self).spec_nu2d() is None,
            final(self).spec_nu_mean() is None,
            final(self).spec_raw() == old(self).spec_raw(),
            final(self).spec_filtered() == old(self).spec_filtered(),
            final(self).spec_peaks() == old(self).spec_peaks(),
    {
        self.config.daq_path = daq_path;
        self.config.total_rows = total_rows;
        self.config.init_frame_num();
        self.daq = None;
        self.t2d = None;
        self.interp = None;
        self.nu2d = None;
        self.nu_nan_mean = None;
    }

    /// Changes the temporal filter. Evicts the filtered matrix, the peak
    /// frames and the Nusselt results; the raw intensity matrix and the
    /// whole temperature side stay.
    pub fn set_filter_method(&mut self, filter_method: FilterMethod<F>)
        requires
            old(self).wf(),
        ensures
            final(self).wf(),
            final(self).spec_config() == (TLCConfig {
                filter_method,
                ..old(self).spec_config()
            }),
            final(self).spec_filtered() is None,
            final(self).spec_peaks() is None,
            final(self).spec_nu2d() is None,
            final(self).spec_nu_mean() is None,
            final(self).spec_raw() == old(self).spec_raw(),
            final(self).spec_daq() == old(self).spec_daq(),
            final(self).spec_t2d() == old(self).spec_t2d(),
            final(self).spec_interp() == old(self).spec_interp(),
    {
        self.config.filter_method = filter_method;
        self.filtered_g2d = None;
        self.peak_frames = None;
        self.nu2d = None;
        self.nu_nan_mean = None;
    }

    /// Changes the interpolation method. Evicts the interpolated field and
    /// the Nusselt results.
    pub fn set_interp_method(&mut self, interp_method: InterpMethod)
        requires
            old(self).wf(),
        ensures
            final(self).wf(),
            final(self).spec_config() == (TLCConfig {
                interp_method,
                ..old(self).spec_config()
            }),
            final(self).spec_interp() is None,
            final(self).spec_nu2d() is None,
            final(self).spec_nu_mean() is None,
            final(self).spec_raw() == old(self).spec_raw(),
            final(self).spec_filtered() == old(self).spec_filtered(),
            final(self).spec_peaks() == old(self).spec_peaks(),
            final(self).spec_daq() == old(self).spec_daq(),
            final(self).spec_t2d() == old(self).spec_t2d(),
    {
        self.config.interp_method = interp_method;
        self.interp = None;
        self.nu2d = None;
        self.nu_nan_mean = None;
    }

    /// Changes the Newton iteration variant. Evicts only the Nusselt
    /// results.
    pub fn set_iteration_method(&mut self, iteration_method: IterationMethod<F>)
        requires
            old(self).wf(),
        ensures
            final(self).wf(),
            final(self).spec_config() == (TLCConfig {
                iteration_method,
                ..old(self).spec_config()
            }),
            final(self).spec_nu2d() is None,
            final(self).spec_nu_mean() is None,
            final(self).spec_raw() == old(self).spec_raw(),
            final(self).spec_filtered() == old(self).spec_filtered(),
            final(self).spec_peaks() == old(self).spec_peaks(),
            final(self).spec_daq() == old(self).spec_daq(),
            final(self).spec_t2d() == old(self).spec_t2d(),
            final(self).spec_interp() == old(self).spec_interp(),
    {
        self.config.iteration_method = iteration_method;
        self.nu2d = None;
        self.nu_nan_mean = None;
    }

    /// Moves or resizes the calculation region. Every derived entity that
    /// reads pixels depends on it, so everything but the raw DAQ table is
    /// evicted.
    pub fn set_region(&mut self, top_left_pos: (usize, usize), region_shape: (usize, usize))
        requires
            old(self).wf(),
        ensures
            final(self).wf(),
            final(self).spec_config() == (TLCConfig {
                top_left_pos,
                region_shape,
                ..old(self).spec_config()
            }),
            final(self).spec_raw() is None,
            final(self).spec_filtered() is None,
            final(self).spec_peaks() is None,
            final(self).spec_t2d() is None,
            final(self).spec_interp() is None,
            final(self).spec_nu2d() is None,
            final(self).spec_nu_mean() is None,
            final(self).spec_daq() == old(self).spec_daq(),
    {
        self.config.top_left_pos = top_left_pos;
        self.config.region_shape = region_shape;
        self.raw_g2d = None;
        self.filtered_g2d = None;
        self.peak_frames = None;
        self.t2d = None;
        self.interp = None;
        self.nu2d = None;
        self.nu_nan_mean = None;
    }

    /// Replaces the calibration vector. Its length must match the
    /// thermocouple count — the configuration invariant — else the vector
    /// is rejected unchanged. Evicts the temperature side on success.
    pub fn set_regulator(&mut self, regulator: Vec<F>) -> (r: Result<(), TLCError>)
        requires
            old(self).wf(),
        ensures
            final(self).wf(),
            r matches Ok(_) <==> regulator@.len()
                == old(self).spec_config().thermocouples@.len(),
            r matches Ok(_) ==> {
                &&& final(self).spec_config() == (TLCConfig {
                    regulator,
                    ..old(self).spec_config()
                })
                &&& final(self).spec_t2d() is None
                &&& final(self).spec_interp() is None
                &&& final(self).spec_nu2d() is None
                &&& final(self).spec_nu_mean() is None
                &&& final(self).spec_raw() == old(self).spec_raw()
                &&& final(self).spec_filtered() == old(self).spec_filtered()
                &&& final(self).spec_peaks() == old(self).spec_peaks()
                &&& final(self).spec_daq() == old(self).spec_daq()
            },
            r matches Err(e) ==> {
                &&& *final(self) == *old(self)
                &&& e == (TLCError::LengthMismatch {
                    expected: old(self).spec_config().thermocouples@.len() as usize,
                    actual: regulator@.len() as usize,
                })
            },
    {
        if regulator.len() != self.config.thermocouples.len() {
            let expected = self.config.thermocouples.len();
            let actual = regulator.len();
            return Err(TLCError::LengthMismatch { expected, actual });
        }
        self.config.regulator = regulator;
        self.t2d = None;
        self.interp = None;
        self.nu2d = None;
        self.nu_nan_mean = None;
        Ok(())
    }

    /// Changes the peak (indicator) temperature. Evicts only the Nusselt
    /// results.
    pub fn set_peak_temp(&mut self, peak_temp: F)
        requires
            old(self).wf(),
        ensures
            final(self).wf(),
            final(self).spec_config() == (TLCConfig { peak_temp, ..old(self).spec_config() }),
            final(self).spec_nu2d() is None,
            final(self).spec_nu_mean() is None,
            final(self).spec_raw() == old(self).spec_raw(),
            final(self).spec_filtered() == old(self).spec_filtered(),
            final(self).spec_peaks() == old(self).spec_peaks(),
            final(self).spec_daq() == old(self).spec_daq(),
            final(self).spec_t2d() == old(self).spec_t2d(),
            final(self).spec_interp() == old(self).spec_interp(),
    {
        self.config.peak_temp = peak_temp;
        self.nu2d = None;
        self.nu_nan_mean = None;
    }

    /// Changes the solid's thermal conductivity. Evicts only the Nusselt
    /// results.
    pub fn set_solid_thermal_conductivity(&mut self, solid_thermal_conductivity: F)
        requires
            old(self).wf(),
        ensures
            final(self).wf(),
            final(self).spec_config() == (TLCConfig {
                solid_thermal_conductivity,
                ..old(self).spec_config()
            }),
            final(self).spec_nu2d() is None,
            final(self).spec_nu_mean() is None,
            final(self).spec_raw() == old(self).spec_raw(),
            final(self).spec_filtered() == old(self).spec_filtered(),
            final(self).spec_peaks() == old(self).spec_peaks(),
            final(self).spec_daq() == old(self).spec_daq(),
            final(self).spec_t2d() == old(self).spec_t2d(),
            final(self).spec_interp() == old(self).spec_interp(),
    {
        self.config.solid_thermal_conductivity = solid_thermal_conductivity;
        self.nu2d = None;
        self.nu_nan_mean = None;
    }

    /// Changes the solid's thermal diffusivity. Evicts only the Nusselt
    /// results.
    pub fn set_solid_thermal_diffusivity(&mut self, solid_thermal_diffusivity: F)
        requires
            old(self).wf(),
        ensures
            final(self).wf(),
            final(self).spec_config() == (TLCConfig {
                solid_thermal_diffusivity,
                ..old(self).spec_config()
            }),
            final(self).spec_nu2d() is None,
            final(self).spec_nu_mean() is None,
            final(self).spec_raw() == old(self).spec_raw(),
            final(self).spec_filtered() == old(self).spec_filtered(),
            final(self).spec_peaks() == old(self).spec_peaks(),
            final(self).spec_daq() == old(self).spec_daq(),
            final(self).spec_t2d() == old(self).spec_t2d(),
            final(self).spec_interp() == old(self).spec_interp(),
    {
        self.config.solid_thermal_diffusivity = solid_thermal_diffusivity;
        self.nu2d = None;
        self.nu_nan_mean = None;
    }

    /// Changes the air's thermal conductivity. Evicts only the Nusselt
    /// results.
    pub fn set_air_thermal_conductivity(&mut self, air_thermal_conductivity: F)
        requires
            old(self).wf(),
        ensures
            final(self).wf(),
            final(self).spec_config() == (TLCConfig {
                air_thermal_conductivity,
                ..old(self).spec_config()
            }),
            final(self).spec_nu2d() is None,
            final(self).spec_nu_mean() is None,
            final(self).spec_raw() == old(self).spec_raw(),
            final(self).spec_filtered() == old(self).spec_filtered(),
            final(self).spec_peaks() == old(self).spec_peaks(),
            final(self).spec_daq() == old(self).spec_daq(),
            final(self).spec_t2d() == old(self).spec_t2d(),
            final(self).spec_interp() == old(self).spec_interp(),
    {
        self.config.air_thermal_conductivity = air_thermal_conductivity;
        self.nu2d = None;
        self.nu_nan_mean = None;
    }

    /// Changes the characteristic length. Evicts only the Nusselt results.
    pub fn set_characteristic_length(&mut self, characteristic_length: F)
        requires
            old(self).wf(),
        ensures
            final(self).wf(),
            final(self).spec_config() == (TLCConfig {
                characteristic_length,
                ..old(self).spec_config()
            }),
            final(self).spec_nu2d() is None,
            final(self).spec_nu_mean() is None,
            final(self).spec_raw() == old(self).spec_raw(),
            final(self).spec_filtered() == old(self).spec_filtered(),
            final(self).spec_peaks() == old(self).spec_peaks(),
            final(self).spec_daq() == old(self).spec_daq(),
            final(self).spec_t2d() == old(self).spec_t2d(),
            final(self).spec_interp() == old(self).spec_interp(),
    {
        self.config.characteristic_length = characteristic_length;
        self.nu2d = None;
        self.nu_nan_mean = None;
    }

    /// Moves the processed window to a new start frame (shifting the DAQ
    /// start row along, as the configuration does). Every derived entity
    /// reads the window, so on success everything but the raw DAQ table
    /// is evicted; a rejected start frame changes nothing.
    pub fn set_start_frame(&mut self, start_frame: usize) -> (r: Result<(), TLCError>)
        requires
            old(self).wf(),
            old(self).spec_config().start_row + start_frame <= usize::MAX,
        ensures
            final(self).wf(),
            r matches Ok(_) <==> {
                &&& start_frame < old(self).spec_config().total_frames
                &&& old(self).spec_config().start_row + start_frame
                    >= old(self).spec_config().start_frame
                &&& old(self).spec_config().start_row + start_frame
                    - old(self).spec_config().start_frame < old(self).spec_config().total_rows
            },
            r matches Ok(_) ==> {
                &&& final(self).spec_config().start_frame == start_frame
                &&& final(self).spec_config().start_row == old(self).spec_config().start_row
                    + start_frame - old(self).spec_config().start_frame
                &&& final(self).spec_config() == (TLCConfig {
                    start_frame: final(self).spec_config().start_frame,
                    start_row: final(self).spec_config().start_row,
                    frame_num: final(self).spec_config().frame_num,
                    ..old(self).spec_config()
                })
                &&& final(self).spec_raw() is None
                &&& final(self).spec_filtered() is None
                &&& final(self).spec_peaks() is None
                &&& final(self).spec_t2d() is None
                &&& final(self).spec_interp() is None
                &&& final(self).spec_nu2d() is None
                &&& final(self).spec_nu_mean() is None
                &&& final(self).spec_daq() == old(self).spec_daq()
            },
            r matches Err(_) ==> *final(self) == *old(self),
    {
        match self.config.set_start_frame(start_frame) {
            Ok(_) => {
                self.raw_g2d = None;
                self.filtered_g2d = None;
                self.peak_frames = None;
                self.t2d = None;
                self.interp = None;
                self.nu2d = None;
                self.nu_nan_mean = None;
                Ok(())
            },
            Err(e) => Err(e),
        }
    }

    /// Moves the processed window to a new DAQ start row (shifting the
    /// video start frame along). Same eviction as `set_start_frame`.
    pub fn set_start_row(&mut self, start_row: usize) -> (r: Result<(), TLCError>)
        requires
            old(self).wf(),
            old(self).spec_config().start_frame + start_row <= usize::MAX,
        ensures
            final(self).wf(),
            r matches Ok(_) <==> {
                &&& start_row < old(self).spec_config().total_rows
                &&& old(self).spec_config().start_frame + start_row
                    >= old(self).spec_config().start_row
                &&& old(self).spec_config().start_frame + start_row
                    - old(self).spec_config().start_row < old(self).spec_config().total_frames
            },
            r matches Ok(_) ==> {
                &&& final(self).spec_config().start_row == start_row
                &&& final(self).spec_config().start_frame == old(self).spec_config().start_frame
                    + start_row - old(self).spec_config().start_row
                &&& final(self).spec_config() == (TLCConfig {
                    start_frame: final(self).spec_config().start_frame,
                    start_row: final(self).spec_config().start_row,
                    frame_num: final(self).spec_config().frame_num,
                    ..old(self).spec_config()
                })
                &&& final(self).spec_raw() is None
                &&& final(self).spec_filtered() is None
                &&& final(self).spec_peaks() is None
                &&& final(self).spec_t2d() is None
                &&& final(self).spec_interp() is None
                &&& final(self).spec_nu2d() is None
                &&& final(self).spec_nu_mean() is None
                &&& final(self).spec_daq() == old(self).spec_daq()
            },
            r matches Err(_) ==> *final(self) == *old(self),
    {
        match self.config.set_start_row(start_row) {
            Ok(_) => {
                self.raw_g2d = None;
                self.filtered_g2d = None;
                self.peak_frames = None;
                self.t2d = None;
                self.interp = None;
                self.nu2d = None;
                self.nu_nan_mean = None;
                Ok(())
            },
            Err(e) => Err(e),
        }
    }

    /// Replaces the thermocouple list, re-synchronizing the calibration
    /// vector (reset to `one` per thermocouple when the lengths disagree).
    /// Evicts the temperature side.
    pub fn set_thermocouples(&mut self, thermocouples: Vec<Thermocouple>, one: F)
        requires
            old(self).wf(),
        ensures
            final(self).wf(),
            final(self).spec_config() == (TLCConfig {
                thermocouples,
                regulator: final(self).spec_config().regulator,
                ..old(self).spec_config()
            }),
            old(self).spec_config().regulator@.len() == thermocouples@.len()
                ==> final(self).spec_config().regulator
                    == old(self).spec_config().regulator,
            old(self).spec_config().regulator@.len() != thermocouples@.len() ==> {
                &&& final(self).spec_config().regulator@.len() == thermocouples@.len()
                &&& forall|i: int| 0 <= i < final(self).spec_config().regulator@.len()
                    ==> final(self).spec_config().regulator@[i] == one
            },
            final(self).spec_t2d() is None,
            final(self).spec_interp() is None,
            final(self).spec_nu2d() is None,
            final(self).spec_nu_mean() is None,
            final(self).spec_raw() == old(self).spec_raw(),
            final(self).spec_filtered() == old(self).spec_filtered(),
            final(self).spec_peaks() == old(self).spec_peaks(),
            final(self).spec_daq() == old(self).spec_daq(),
    {
        self.config.set_thermocouples(thermocouples, one);
        self.t2d = None;
        self.interp = None;
        self.nu2d = None;
        self.nu_nan_mean = None;
    }

    // -----------------------------------------------------------------
    // Lazy stages. Each returns the cached entity untouched when it is
    // already present, and otherwise computes it from its upstream
    // entity — except the wavelet filter, whose scalar arithmetic runs
    // outside this crate and comes back through `store_filtered`.
    // -----------------------------------------------------------------

    /// How the filtered matrix may change across a lazy stage: a cached
    /// matrix stays as it is; a missing one stays missing or becomes the
    /// filter of the cached raw matrix.
    pub open spec fn filtering_progress(pre: Self, post: Self) -> bool {
        if pre.spec_filtered() is Some {
            post.spec_filtered() == pre.spec_filtered()
        } else {
            post.spec_filtered() is None || {
                &&& pre.spec_raw() matches Some(raw)
                &&& post.spec_filtered() matches Some(f)
                    && filtered_matches(pre.spec_config().filter_method, raw, f)
            }
        }
    }

    /// Applies the configured temporal filter to the raw intensity
    /// matrix, unless a filtered matrix is already cached. The no-op and
    /// median filters are computed here; the wavelet filter is announced
    /// to the caller instead.
    pub fn filtering(&mut self) -> (r: Result<StageOutcome, TLCError>)
        requires
            old(self).wf(),
            old(self).spec_config().filter_method matches FilterMethod::Median(w) ==> w >= 1,
        ensures
            final(self).wf(),
            final(self).spec_config() == old(self).spec_config(),
            final(self).spec_raw() == old(self).spec_raw(),
            final(self).spec_peaks() == old(self).spec_peaks(),
            final(self).spec_daq() == old(self).spec_daq(),
            final(self).spec_t2d() == old(self).spec_t2d(),
            final(self).spec_interp() == old(self).spec_interp(),
            final(self).spec_nu2d() == old(self).spec_nu2d(),
            final(self).spec_nu_mean() == old(self).spec_nu_mean(),
            match r {
                Ok(StageOutcome::Done) => {
                    &&& (old(self).spec_filtered() is Some ==> *final(self) == *old(self))
                    &&& (old(self).spec_filtered() is None ==> {
                        &&& old(self).spec_raw() matches Some(raw)
                        &&& final(self).spec_filtered() matches Some(f)
                            && filtered_matches(old(self).spec_config().filter_method, raw, f)
                    })
                },
                Ok(StageOutcome::NeedWavelet) => {
                    &&& *final(self) == *old(self)
                    &&& old(self).spec_filtered() is None
                    &&& old(self).spec_raw() is Some
                    &&& old(self).spec_config().filter_method is Wavelet
                },
                Err(e) => {
                    &&& *final(self) == *old(self)
                    &&& old(self).spec_filtered() is None
                    &&& old(self).spec_raw() is None
                    &&& e == TLCError::RawMissing
                },
            },
    {
        if self.filtered_g2d.is_some() {
            return Ok(StageOutcome::Done);
        }
        let computed: Option<Matrix<u8>> = match (&self.raw_g2d, &self.config.filter_method) {
            (None, _) => {
                return Err(TLCError::RawMissing);
            },
            (Some(raw), FilterMethod::No) => Some(copy_matrix(raw)),
            (Some(raw), FilterMethod::Median(w)) => Some(median_filter_matrix(raw, *w)),
            (Some(_), FilterMethod::Wavelet(_)) => None,
        };
        match computed {
            Some(f) => {
                self.filtered_g2d = Some(f);
                Ok(StageOutcome::Done)
            },
            None => Ok(StageOutcome::NeedWavelet),
        }
    }

    /// Stores a filtered matrix computed outside (the wavelet case). The
    /// matrix must have the raw matrix's shape; the raw matrix must be
    /// present to check against.
    pub fn store_filtered(&mut self, filtered: Matrix<u8>) -> (r: Result<(), TLCError>)
        requires
            old(self).wf(),
            filtered.wf(),
            old(self).spec_config().filter_method is Wavelet,
        ensures
            final(self).wf(),
            final(self).spec_config() == old(self).spec_config(),
            final(self).spec_raw() == old(self).spec_raw(),
            final(self).spec_peaks() == old(self).spec_peaks(),
            final(self).spec_daq() == old(self).spec_daq(),
            final(self).spec_t2d() == old(self).spec_t2d(),
            final(self).spec_interp() == old(self).spec_interp(),
            final(self).spec_nu2d() == old(self).spec_nu2d(),
            final(self).spec_nu_mean() == old(self).spec_nu_mean(),
            r matches Ok(_) <==> (old(self).spec_raw() matches Some(raw)
                && filtered.spec_rows() == raw.spec_rows()
                && filtered.spec_cols() == raw.spec_cols()),
            r matches Ok(_) ==> final(self).spec_filtered() == Some(filtered),
            r matches Err(e) ==> *final(self) == *old(self) && (if old(self).spec_raw() is None {
                e == TLCError::RawMissing
            } else {
                e matches TLCError::ShapeMismatch { .. }
            }),
    {
        match &self.raw_g2d {
            None => Err(TLCError::RawMissing),
            Some(raw) => {
                let rows = raw.nrows();
                let cols = raw.ncols();
                if filtered.nrows() != rows || filtered.ncols() != cols {
                    return Err(TLCError::ShapeMismatch {
                        expected_rows: rows,
                        expected_cols: cols,
                        actual_rows: filtered.nrows(),
                        actual_cols: filtered.ncols(),
                    });
                }
                self.filtered_g2d = Some(filtered);
                Ok(())
            },
        }
    }

    /// One pixel's filtered history, computed without filtering the whole
    /// matrix; the wavelet case is announced to the caller instead.
    pub fn filtering_single_point(&self, pos: usize) -> (r: Result<SinglePointFilter, TLCError>)
        requires
            self.wf(),
            self.spec_config().filter_method matches FilterMethod::Median(w) ==> w >= 1,
        ensures
            match r {
                Ok(SinglePointFilter::Series(v)) => {
                    &&& self.spec_raw() matches Some(raw)
                    &&& pos < raw.spec_cols()
                    &&& match self.spec_config().filter_method {
                        FilterMethod::No => v@ == raw.col(pos as int),
                        FilterMethod::Median(w) => v@ == median_filtered(
                            raw.col(pos as int),
                            w as nat,
                        ),
                        FilterMethod::Wavelet(_) => false,
                    }
                },
                Ok(SinglePointFilter::NeedWavelet) => {
                    &&& self.spec_raw() matches Some(raw) && pos < raw.spec_cols()
                    &&& self.spec_config().filter_method is Wavelet
                },
                Err(e) => {
                    if self.spec_raw() is None {
                        e == TLCError::RawMissing
                    } else {
                        &&& pos >= self.spec_raw()->Some_0.spec_cols()
                        &&& e matches TLCError::PixelOutOfRange { .. }
                    }
                },
            },
    {
        match &self.raw_g2d {
            None => Err(TLCError::RawMissing),
            Some(raw) => {
                let cols = raw.ncols();
                if pos >= cols {
                    return Err(TLCError::PixelOutOfRange { pos, pix_num: cols });
                }
                match &self.config.filter_method {
                    FilterMethod::No => {
                        let v = raw.col_to_vec(pos);
                        proof {
                            assert(v@ =~= raw.col(pos as int));
                        }
                        Ok(SinglePointFilter::Series(v))
                    },
                    FilterMethod::Median(w) => {
                        let series = raw.col_to_vec(pos);
                        proof {
                            assert(series@ =~= raw.col(pos as int));
                        }
                        let v = median_filter_series(&series, *w);
                        Ok(SinglePointFilter::Series(v))
                    },
                    FilterMethod::Wavelet(_) => Ok(SinglePointFilter::NeedWavelet),
                }
            },
        }
    }

    /// Finds each pixel's peak frame in the filtered matrix, filtering
    /// first if nothing is cached yet. A cached peak vector is returned
    /// untouched; the wavelet case is announced to the caller.
    pub fn detect_peak(&mut self) -> (r: Result<StageOutcome, TLCError>)
        requires
            old(self).wf(),
            old(self).spec_config().filter_method matches FilterMethod::Median(w) ==> w >= 1,
        ensures
            final(self).wf(),
            final(self).spec_config() == old(self).spec_config(),
            final(self).spec_raw() == old(self).spec_raw(),
            final(self).spec_daq() == old(self).spec_daq(),
            final(self).spec_t2d() == old(self).spec_t2d(),
            final(self).spec_interp() == old(self).spec_interp(),
            final(self).spec_nu2d() == old(self).spec_nu2d(),
            final(self).spec_nu_mean() == old(self).spec_nu_mean(),
            Self::filtering_progress(*old(self), *final(self)),
            match r {
                Ok(StageOutcome::Done) => {
                    &&& (old(self).spec_peaks() is Some ==> *final(self) == *old(self))
                    &&& (old(self).spec_peaks() is None ==> {
                        &&& final(self).spec_peaks() matches Some(v)
                        &&& final(self).spec_filtered() matches Some(f)
                        &&& v@.len() == f.spec_cols()
                        &&& forall|p: int| 0 <= p < v@.len()
                            ==> is_first_peak(f.col(p), #[trigger] v@[p] as int)
                    })
                },
                Ok(StageOutcome::NeedWavelet) => {
                    &&& *final(self) == *old(self)
                    &&& old(self).spec_peaks() is None
                    &&& old(self).spec_filtered() is None
                    &&& old(self).spec_raw() is Some
                    &&& old(self).spec_config().filter_method is Wavelet
                },
                Err(e) => {
                    &&& final(self).spec_peaks() is None
                    &&& old(self).spec_peaks() is None
                    &&& (e == TLCError::RawMissing ==> *final(self) == *old(self))
                    &&& (e != TLCError::RawMissing ==> {
                        &&& e == TLCError::EmptySeries
                        &&& final(self).spec_filtered() matches Some(f)
                            && f.spec_rows() == 0 && f.spec_cols() > 0
                    })
                },
            },
    {
        if self.peak_frames.is_some() {
            return Ok(StageOutcome::Done);
        }
        match self.filtering() {
            Err(e) => {
                return Err(e);
            },
            Ok(StageOutcome::NeedWavelet) => {
                return Ok(StageOutcome::NeedWavelet);
            },
            Ok(StageOutcome::Done) => {},
        }
        let peaks = match &self.filtered_g2d {
            Some(f) => match detect_peak(f) {
                Ok(p) => p,
                Err(e) => {
                    return Err(e);
                },
            },
            None => unreached(),
        };
        self.peak_frames = Some(peaks);
        Ok(StageOutcome::Done)
    }

    // -----------------------------------------------------------------
    // The temperature side.
    // -----------------------------------------------------------------

    /// Stores the raw intensity matrix the caller extracted from the
    /// video: one row per processed frame, one column per region pixel.
    /// Everything derived from the previous raw matrix — the filtered
    /// matrix, the peak frames and the Nusselt results — is evicted, so
    /// nothing stale survives the fresh upstream data.
    pub fn store_raw_g2d(&mut self, g2d: Matrix<u8>) -> (r: Result<(), TLCError>)
        requires
            old(self).wf(),
            g2d.wf(),
        ensures
            final(self).wf(),
            final(self).spec_config() == old(self).spec_config(),
            final(self).spec_daq() == old(self).spec_daq(),
            final(self).spec_t2d() == old(self).spec_t2d(),
            final(self).spec_interp() == old(self).spec_interp(),
            r matches Ok(_) <==> (g2d.spec_rows() == old(self).spec_config().frame_num
                && g2d.spec_cols() == old(self).spec_config().pix_num()),
            r matches Ok(_) ==> {
                &&& final(self).spec_raw() == Some(g2d)
                &&& final(self).spec_filtered() is None
                &&& final(self).spec_peaks() is None
                &&& final(self).spec_nu2d() is None
                &&& final(self).spec_nu_mean() is None
            },
            r matches Err(e) ==> *final(self) == *old(self)
                && e matches TLCError::ShapeMismatch { .. },
    {
        let frame_num = self.config.frame_num;
        let (cal_h, cal_w) = self.config.region_shape;
        let ok = match cal_h.checked_mul(cal_w) {
            Some(pix) => g2d.nrows() == frame_num && g2d.ncols() == pix,
            None => {
                proof {
                    g2d.lemma_size_bound();
                }
                false
            },
        };
        if !ok {
            return Err(TLCError::ShapeMismatch {
                expected_rows: frame_num,
                expected_cols: cal_w,
                actual_rows: g2d.nrows(),
                actual_cols: g2d.ncols(),
            });
        }
        self.raw_g2d = Some(g2d);
        self.filtered_g2d = None;
        self.peak_frames = None;
        self.nu2d = None;
        self.nu_nan_mean = None;
        Ok(())
    }

    /// Stores the DAQ table the caller read: one row per sample, one
    /// column per channel. The row count must match the configured total.
    pub fn store_daq(&mut self, daq: Matrix<F>) -> (r: Result<(), TLCError>)
        requires
            old(self).wf(),
            daq.wf(),
        ensures
            final(self).wf(),
            final(self).spec_config() == old(self).spec_config(),
            final(self).spec_raw() == old(self).spec_raw(),
            final(self).spec_filtered() == old(self).spec_filtered(),
            final(self).spec_peaks() == old(self).spec_peaks(),
            final(self).spec_t2d() == old(self).spec_t2d(),
            final(self).spec_interp() == old(self).spec_interp(),
            final(self).spec_nu2d() == old(self).spec_nu2d(),
            final(self).spec_nu_mean() == old(self).spec_nu_mean(),
            r matches Ok(_) <==> daq.spec_rows() == old(self).spec_config().total_rows,
            r matches Ok(_) ==> final(self).spec_daq() == Some(daq),
            r matches Err(e) ==> *final(self) == *old(self)
                && e matches TLCError::ShapeMismatch { .. },
    {
        if daq.nrows() != self.config.total_rows {
            return Err(TLCError::ShapeMismatch {
                expected_rows: self.config.total_rows,
                expected_cols: daq.ncols(),
                actual_rows: daq.nrows(),
                actual_cols: daq.ncols(),
            });
        }
        self.daq = Some(daq);
        Ok(())
    }

    /// Reads each thermocouple's configured DAQ column over the processed
    /// window into a thermocouple-by-frame matrix — the temperature
    /// matrix before calibration, which the caller scales by the
    /// regulator in its own scalar type and stores back.
    pub fn select_t2d(&self) -> (r: Result<Matrix<F>, TLCError>)
        requires
            self.wf(),
            self.spec_config().start_row + self.spec_config().frame_num <= usize::MAX,
        ensures
            match r {
                Ok(m) => {
                    &&& self.spec_daq() matches Some(d)
                    &&& m.wf()
                    &&& m.spec_rows() == self.spec_config().thermocouples@.len()
                    &&& m.spec_cols() == self.spec_config().frame_num
                    &&& self.spec_config().start_row + self.spec_config().frame_num
                        <= d.spec_rows()
                    &&& forall|i: int| 0 <= i < m.spec_rows()
                        ==> #[trigger] self.spec_config().thermocouples@[i].column_num
                            < d.spec_cols()
                    &&& forall|i: int, f: int|
                        0 <= i < m.spec_rows() && 0 <= f < m.spec_cols()
                            ==> #[trigger] m.at(i, f) == d.at(
                                self.spec_config().start_row + f,
                                self.spec_config().thermocouples@[i].column_num as int,
                            )
                },
                Err(e) => {
                    if self.spec_daq() is None {
                        e == TLCError::DaqMissing
                    } else {
                        let d = self.spec_daq()->Some_0;
                        if self.spec_config().start_row + self.spec_config().frame_num
                            > d.spec_rows() {
                            e == (TLCError::DaqRowsExhausted {
                                needed: (self.spec_config().start_row
                                    + self.spec_config().frame_num) as usize,
                                total_rows: d.spec_rows() as usize,
                            })
                        } else {
                            exists|k: int|
                                {
                                    &&& 0 <= k < self.spec_config().thermocouples@.len()
                                    &&& (#[trigger] self.spec_config().thermocouples@[k]).column_num
                                        >= d.spec_cols()
                                    &&& e == (TLCError::DaqColumnOutOfRange {
                                        column: self.spec_config().thermocouples@[k].column_num,
                                        total_columns: d.spec_cols() as usize,
                                    })
                                }
                        }
                    }
                },
            },
    {
        let daq = match &self.daq {
            None => {
                return Err(TLCError::DaqMissing);
            },
            Some(d) => d,
        };
        let start_row = self.config.start_row;
        let frame_num = self.config.frame_num;
        if start_row + frame_num > daq.nrows() {
            proof {
                daq.lemma_dims_bound();
            }
            return Err(TLCError::DaqRowsExhausted {
                needed: start_row + frame_num,
                total_rows: daq.nrows(),
            });
        }
        let tc_count = self.config.thermocouples.len();
        let daq_cols = daq.ncols();
        let mut i: usize = 0;
        while i < tc_count
            invariant
                self.spec_daq() matches Some(d) && d == *daq,
                tc_count == self.spec_config().thermocouples@.len(),
                daq_cols == daq.spec_cols(),
                start_row == self.spec_config().start_row,
                frame_num == self.spec_config().frame_num,
                start_row + frame_num <= daq.spec_rows(),
                i <= tc_count,
                forall|k: int| 0 <= k < i
                    ==> (#[trigger] self.spec_config().thermocouples@[k]).column_num < daq_cols,
            decreases tc_count - i,
        {
            let col = self.config.thermocouples[i].column_num;
            if col >= daq_cols {
                proof {
                    daq.lemma_dims_bound();
                    let k = i as int;
                    assert(0 <= k < self.spec_config().thermocouples@.len());
                    assert((self.spec_config().thermocouples@[k]).column_num >= daq_cols);
                }
                return Err(TLCError::DaqColumnOutOfRange { column: col, total_columns: daq_cols });
            }
            i += 1;
        }
        let mut data: Vec<F> = Vec::new();
        let mut t: usize = 0;
        while t < tc_count
            invariant
                self.wf(),
                self.spec_daq() matches Some(d) && d == *daq,
                daq.wf(),
                tc_count == self.spec_config().thermocouples@.len(),
                daq_cols == daq.spec_cols(),
                start_row == self.spec_config().start_row,
                frame_num == self.spec_config().frame_num,
                start_row + frame_num <= daq.spec_rows(),
                forall|k: int| 0 <= k < tc_count
                    ==> (#[trigger] self.spec_config().thermocouples@[k]).column_num < daq_cols,
                t <= tc_count,
                data@.len() == t * frame_num,
                forall|i2: int, f: int|
                    0 <= i2 < t && 0 <= f < frame_num
                        ==> #[trigger] data@[i2 * frame_num + f] == daq.at(
                            start_row + f,
                            self.spec_config().thermocouples@[i2].column_num as int,
                        ),
            decreases tc_count - t,
        {
            let col = self.config.thermocouples[t].column_num;
            let mut f: usize = 0;
            while f < frame_num
                invariant
                    self.wf(),
                    self.spec_daq() matches Some(d) && d == *daq,
                    daq.wf(),
                    tc_count == self.spec_config().thermocouples@.len(),
                    daq_cols == daq.spec_cols(),
                    start_row == self.spec_config().start_row,
                    frame_num == self.spec_config().frame_num,
                    start_row + frame_num <= daq.spec_rows(),
                    forall|k: int| 0 <= k < tc_count
                        ==> (#[trigger] self.spec_config().thermocouples@[k]).column_num
                            < daq_cols,
                    t < tc_count,
                    col == self.spec_config().thermocouples@[t as int].column_num,
                    col < daq_cols,
                    f <= frame_num,
                    data@.len() == t * frame_num + f,
                    forall|i2: int, f2: int|
                        0 <= i2 < t && 0 <= f2 < frame_num
                            ==> #[trigger] data@[i2 * frame_num + f2] == daq.at(
                                start_row + f2,
                                self.spec_config().thermocouples@[i2].column_num as int,
                            ),
                    forall|f2: int|
                        0 <= f2 < f
                            ==> #[trigger] data@[t * frame_num + f2] == daq.at(
                                start_row + f2,
                                col as int,
                            ),
                decreases frame_num - f,
            {
                proof {
                    daq.lemma_dims_bound();
                }
                let v = daq.get(start_row + f, col);
                let ghost prev = data@;
                data.push(v);
                proof {
                    assert forall|i2: int, f2: int| 0 <= i2 < t && 0 <= f2 < frame_num
                        implies #[trigger] data@[i2 * frame_num + f2]
                            == prev[i2 * frame_num + f2] by {
                        assert(i2 * frame_num + f2 < t * frame_num) by (nonlinear_arith)
                            requires 0 <= i2 < t, 0 <= f2 < frame_num;
                        assert(0 <= i2 * frame_num + f2) by (nonlinear_arith)
                            requires 0 <= i2, 0 <= f2, 0 <= frame_num;
                    }
                }
                f += 1;
            }
            proof {
                assert((t + 1) * frame_num == t * frame_num + frame_num) by (nonlinear_arith);
            }
            t += 1;
        }
        match Matrix::from_vec(data, tc_count, frame_num) {
            Ok(m) => {
                proof {
                    assert forall|i2: int, f: int|
                        0 <= i2 < tc_count && 0 <= f < frame_num
                            implies #[trigger] m.at(i2, f) == daq.at(
                                start_row + f,
                                self.spec_config().thermocouples@[i2].column_num as int,
                            ) by {
                        crate::matrix::lemma_row_major_index(
                            i2, f, tc_count as int, frame_num as int,
                        );
                    }
                }
                Ok(m)
            },
            Err(_) => unreached(),
        }
    }

    /// Stores the calibrated temperature matrix the caller built from
    /// `select_t2d` and the regulator: one row per thermocouple, one
    /// column per frame.
    pub fn store_t2d(&mut self, t2d: Matrix<F>) -> (r: Result<(), TLCError>)
        requires
            old(self).wf(),
            t2d.wf(),
        ensures
            final(self).wf(),
            final(self).spec_config() == old(self).spec_config(),
            final(self).spec_raw() == old(self).spec_raw(),
            final(self).spec_filtered() == old(self).spec_filtered(),
            final(self).spec_peaks() == old(self).spec_peaks(),
            final(self).spec_daq() == old(self).spec_daq(),
            final(self).spec_interp() == old(self).spec_interp(),
            final(self).spec_nu2d() == old(self).spec_nu2d(),
            final(self).spec_nu_mean() == old(self).spec_nu_mean(),
            r matches Ok(_) <==> (t2d.spec_rows()
                == old(self).spec_config().thermocouples@.len()
                && t2d.spec_cols() == old(self).spec_config().frame_num),
            r matches Ok(_) ==> final(self).spec_t2d() == Some(t2d),
            r matches Err(e) ==> *final(self) == *old(self)
                && e matches TLCError::ShapeMismatch { .. },
    {
        if t2d.nrows() != self.config.thermocouples.len()
            || t2d.ncols() != self.config.frame_num {
            return Err(TLCError::ShapeMismatch {
                expected_rows: self.config.thermocouples.len(),
                expected_cols: self.config.frame_num,
                actual_rows: t2d.nrows(),
                actual_cols: t2d.ncols(),
            });
        }
        self.t2d = Some(t2d);
        Ok(())
    }
}

/// Whether an interpolation method extrapolates beyond the outermost
/// thermocouples.
pub open spec fn do_extra_of(m: InterpMethod) -> bool {
    m is HorizontalExtra || m is VerticalExtra || m is BilinearExtra
}

/// The thermocouple coordinates along a 1D interpolation axis, relative
/// to the region's top-left corner.
pub open spec fn axis_of<F>(cfg: TLCConfig<F>, vertical: bool) -> Seq<i64> {
    Seq::new(
        cfg.thermocouples@.len(),
        |i: int| (if vertical {
            cfg.thermocouples@[i].pos.0 - cfg.top_left_pos.0
        } else {
            cfg.thermocouples@[i].pos.1 - cfg.top_left_pos.1
        }) as i64,
    )
}

/// The x coordinates of a bilinear thermocouple grid: the first row of
/// the grid, relative to the region's top-left corner.
pub open spec fn grid_x_of<F>(cfg: TLCConfig<F>, tc_shape: (usize, usize)) -> Seq<i64> {
    Seq::new(
        tc_shape.1 as nat,
        |j: int| (cfg.thermocouples@[j].pos.1 - cfg.top_left_pos.1) as i64,
    )
}

/// The y coordinates of a bilinear thermocouple grid: the first column of
/// the grid, relative to the region's top-left corner.
pub open spec fn grid_y_of<F>(cfg: TLCConfig<F>, tc_shape: (usize, usize)) -> Seq<i64> {
    Seq::new(
        tc_shape.0 as nat,
        |i: int| (cfg.thermocouples@[i * tc_shape.1].pos.0 - cfg.top_left_pos.0) as i64,
    )
}

/// The per-position blend plan of the configured interpolation: one blend
/// per output line position for the 1D methods, one per region pixel for
/// the bilinear ones.
pub enum InterpPlan {
    /// 1D: one blend per output line position.
    Line(Vec<LineBlend>),
    /// Bilinear: one blend per region pixel, row-major.
    Grid(Vec<BilinearBlend>),
}

impl<F: Copy> TLCData<F> {
    /// Builds the blend plan of the configured interpolation method over
    /// the configured region and thermocouples. The caller runs the plan
    /// over the temperature matrix in its own scalar type and stores the
    /// field back.
    pub fn interp_plan(&self) -> (r: Result<InterpPlan, TLCError>)
        requires
            self.wf(),
            self.spec_config().top_left_pos.0 <= i32::MAX,
            self.spec_config().top_left_pos.1 <= i32::MAX,
            self.spec_config().region_shape.0 <= i32::MAX,
            self.spec_config().region_shape.1 <= i32::MAX,
            self.spec_config().region_shape.0 * self.spec_config().region_shape.1
                <= usize::MAX,
            self.spec_config().interp_method matches InterpMethod::Bilinear(s)
                ==> s.0 * s.1 <= usize::MAX,
            self.spec_config().interp_method matches InterpMethod::BilinearExtra(s)
                ==> s.0 * s.1 <= usize::MAX,
        ensures
            match r {
                Ok(InterpPlan::Line(plan)) => {
                    let cfg = self.spec_config();
                    let vertical = cfg.interp_method is Vertical
                        || cfg.interp_method is VerticalExtra;
                    &&& (cfg.interp_method is Horizontal || cfg.interp_method is HorizontalExtra
                        || cfg.interp_method is Vertical || cfg.interp_method is VerticalExtra)
                    &&& cfg.thermocouples@.len() >= 2
                    &&& plan@.len() == (if vertical {
                        cfg.region_shape.0
                    } else {
                        cfg.region_shape.1
                    })
                    &&& forall|p: int| 0 <= p < plan@.len()
                        ==> #[trigger] plan@[p] == crate::interp::line_blend_at(
                            axis_of(cfg, vertical),
                            p,
                            do_extra_of(cfg.interp_method),
                        )
                },
                Ok(InterpPlan::Grid(plan)) => {
                    let cfg = self.spec_config();
                    exists|s: (usize, usize)|
                        {
                            &&& (cfg.interp_method == InterpMethod::Bilinear(s)
                                || cfg.interp_method == InterpMethod::BilinearExtra(s))
                            &&& s.0 >= 2
                            &&& s.1 >= 2
                            &&& cfg.thermocouples@.len() >= s.0 * s.1
                            &&& cfg.region_shape.1 >= 1
                            &&& plan@.len() == cfg.region_shape.0 * cfg.region_shape.1
                            &&& forall|p: int| 0 <= p < plan@.len()
                                ==> #[trigger] plan@[p] == crate::interp::bilinear_blend_at(
                                    grid_x_of(cfg, s),
                                    grid_y_of(cfg, s),
                                    cfg.region_shape.1 as int,
                                    p,
                                    do_extra_of(cfg.interp_method),
                                )
                        }
                },
                Err(_) => {
                    let cfg = self.spec_config();
                    match cfg.interp_method {
                        InterpMethod::Horizontal | InterpMethod::HorizontalExtra
                        | InterpMethod::Vertical | InterpMethod::VerticalExtra =>
                            cfg.thermocouples@.len() < 2,
                        InterpMethod::Bilinear(s) | InterpMethod::BilinearExtra(s) =>
                            s.0 < 2 || s.1 < 2 || cfg.thermocouples@.len() < s.0 * s.1
                                || cfg.region_shape.1 == 0,
                    }
                },
            },
    {
        let (cal_h, cal_w) = self.config.region_shape;
        match self.config.interp_method {
            InterpMethod::Horizontal | InterpMethod::HorizontalExtra => {
                let do_extra = matches!(self.config.interp_method, InterpMethod::HorizontalExtra);
                let tc_pos = axis_positions(&self.config.thermocouples, self.config.top_left_pos.1, false);
                proof {
                    assert(tc_pos@ =~= axis_of(self.spec_config(), false));
                }
                match interp1d_plan(&tc_pos, cal_w, do_extra) {
                    Ok(plan) => Ok(InterpPlan::Line(plan)),
                    Err(e) => Err(e),
                }
            },
            InterpMethod::Vertical | InterpMethod::VerticalExtra => {
                let do_extra = matches!(self.config.interp_method, InterpMethod::VerticalExtra);
                let tc_pos = axis_positions(&self.config.thermocouples, self.config.top_left_pos.0, true);
                proof {
                    assert(tc_pos@ =~= axis_of(self.spec_config(), true));
                }
                match interp1d_plan(&tc_pos, cal_h, do_extra) {
                    Ok(plan) => Ok(InterpPlan::Line(plan)),
                    Err(e) => Err(e),
                }
            },
            InterpMethod::Bilinear(tc_shape) | InterpMethod::BilinearExtra(tc_shape) => {
                let do_extra = matches!(self.config.interp_method, InterpMethod::BilinearExtra(_));
                let axes = match bilinear_axes(
                    &self.config.thermocouples,
                    self.config.top_left_pos,
                    tc_shape,
                ) {
                    Ok(a) => a,
                    Err(e) => {
                        return Err(e);
                    },
                };
                let (tc_x, tc_y) = axes;
                proof {
                    assert(tc_x@ =~= grid_x_of(self.spec_config(), tc_shape));
                    assert(tc_y@ =~= grid_y_of(self.spec_config(), tc_shape));
                }
                proof {
                    assert(cal_h * cal_w <= i64::MAX) by (nonlinear_arith)
                        requires cal_h <= i32::MAX, cal_w <= i32::MAX;
                }
                match bilinear_plan(&tc_x, &tc_y, (cal_h, cal_w), do_extra) {
                    Ok(plan) => {
                        proof {
                            let cfg = self.spec_config();
                            let s = tc_shape;
                            assert(cfg.interp_method == InterpMethod::Bilinear(s)
                                || cfg.interp_method == InterpMethod::BilinearExtra(s));
                        }
                        Ok(InterpPlan::Grid(plan))
                    },
                    Err(e) => Err(e),
                }
            },
        }
    }

    /// Stores the interpolated field the caller computed from the plan:
    /// one row per line position (1D) or per pixel (bilinear), one column
    /// per frame.
    pub fn store_interp(&mut self, temps: Matrix<F>) -> (r: Result<(), TLCError>)
        requires
            old(self).wf(),
            temps.wf(),
        ensures
            final(self).wf(),
            final(self).spec_config() == old(self).spec_config(),
            final(self).spec_raw() == old(self).spec_raw(),
            final(self).spec_filtered() == old(self).spec_filtered(),
            final(self).spec_peaks() == old(self).spec_peaks(),
            final(self).spec_daq() == old(self).spec_daq(),
            final(self).spec_t2d() == old(self).spec_t2d(),
            final(self).spec_nu2d() == old(self).spec_nu2d(),
            final(self).spec_nu_mean() == old(self).spec_nu_mean(),
            r matches Ok(_) <==> ({
                let cfg = old(self).spec_config();
                &&& temps.spec_cols() == cfg.frame_num
                &&& match cfg.interp_method {
                    InterpMethod::Horizontal | InterpMethod::HorizontalExtra =>
                        temps.spec_rows() == cfg.region_shape.1,
                    InterpMethod::Vertical | InterpMethod::VerticalExtra =>
                        temps.spec_rows() == cfg.region_shape.0,
                    InterpMethod::Bilinear(_) | InterpMethod::BilinearExtra(_) =>
                        temps.spec_rows() == cfg.pix_num(),
                }
            }),
            r matches Ok(_) ==> final(self).spec_interp() matches Some(ip)
                && ip.temps == temps,
            r matches Err(e) ==> *final(self) == *old(self)
                && e matches TLCError::ShapeMismatch { .. },
    {
        let (cal_h, cal_w) = self.config.region_shape;
        let expected_rows = match self.config.interp_method {
            InterpMethod::Horizontal | InterpMethod::HorizontalExtra => Some(cal_w),
            InterpMethod::Vertical | InterpMethod::VerticalExtra => Some(cal_h),
            InterpMethod::Bilinear(_) | InterpMethod::BilinearExtra(_) => cal_h.checked_mul(cal_w),
        };
        let ok = match expected_rows {
            Some(rows) => temps.nrows() == rows && temps.ncols() == self.config.frame_num,
            None => {
                proof {
                    temps.lemma_size_bound();
                    temps.lemma_dims_bound();
                }
                false
            },
        };
        if !ok {
            return Err(TLCError::ShapeMismatch {
                expected_rows: match expected_rows {
                    Some(rows) => rows,
                    None => usize::MAX,
                },
                expected_cols: self.config.frame_num,
                actual_rows: temps.nrows(),
                actual_cols: temps.ncols(),
            });
        }
        self.interp = Some(Interp { temps });
        Ok(())
    }

    /// One pixel's interpolated temperature history, read from the cached
    /// field.
    pub fn interp_single_point(&self, pos: usize) -> (r: Result<Vec<F>, TLCError>)
        requires
            self.wf(),
            self.spec_config().region_shape.0 * self.spec_config().region_shape.1
                <= usize::MAX,
        ensures
            match r {
                Ok(v) => {
                    &&& self.spec_interp() matches Some(ip)
                    &&& pos < self.spec_config().pix_num()
                    &&& v@ == ip.temps.row(
                        crate::interp::interp_row_of_pixel(
                            ip.temps.spec_rows(),
                            self.spec_config().region_shape.0 as nat,
                            self.spec_config().region_shape.1 as nat,
                            pos as int,
                        ),
                    )
                },
                Err(e) => {
                    if self.spec_interp() is None {
                        e == TLCError::InterpMissing
                    } else if pos >= self.spec_config().pix_num() {
                        e == (TLCError::PixelOutOfRange {
                            pos,
                            pix_num: self.spec_config().pix_num() as usize,
                        })
                    } else {
                        let rows = self.spec_interp()->Some_0.temps.spec_rows();
                        &&& rows != self.spec_config().region_shape.1
                        &&& rows != self.spec_config().region_shape.0
                        &&& rows != self.spec_config().pix_num()
                        &&& e matches TLCError::ShapeMismatch { .. }
                    }
                },
            },
    {
        let ip = match &self.interp {
            None => {
                return Err(TLCError::InterpMissing);
            },
            Some(ip) => ip,
        };
        let (cal_h, cal_w) = self.config.region_shape;
        let pix_num = cal_h * cal_w;
        if pos >= pix_num {
            return Err(TLCError::PixelOutOfRange { pos, pix_num });
        }
        let rows = ip.temps.nrows();
        if rows != cal_w && rows != cal_h && rows != pix_num {
            return Err(TLCError::ShapeMismatch {
                expected_rows: cal_h,
                expected_cols: cal_w,
                actual_rows: rows,
                actual_cols: ip.temps.ncols(),
            });
        }
        proof {
            assert(cal_w >= 1) by (nonlinear_arith)
                requires pos < cal_h * cal_w, pos >= 0;
        }
        Ok(ip.interp_single_point(pos, (cal_h, cal_w)))
    }

    /// The interpolated field at one frame, spread over the whole region
    /// (the caller reduces and flips it for preview in its own scalar
    /// type).
    pub fn interp_frame_field(&self, frame: usize) -> (r: Result<Matrix<F>, TLCError>)
        requires
            self.wf(),
            self.spec_config().region_shape.0 * self.spec_config().region_shape.1
                <= usize::MAX,
        ensures
            match r {
                Ok(m) => {
                    &&& self.spec_interp() matches Some(ip)
                    &&& frame < ip.temps.spec_cols()
                    &&& m.wf()
                    &&& m.spec_rows() == self.spec_config().region_shape.0
                    &&& m.spec_cols() == self.spec_config().region_shape.1
                    &&& forall|i: int, j: int|
                        0 <= i < m.spec_rows() && 0 <= j < m.spec_cols()
                            ==> #[trigger] m.at(i, j) == ip.temps.at(
                                if ip.temps.spec_rows() == self.spec_config().region_shape.1 {
                                    j
                                } else if ip.temps.spec_rows()
                                    == self.spec_config().region_shape.0 {
                                    i
                                } else {
                                    i * self.spec_config().region_shape.1 + j
                                },
                                frame as int,
                            )
                },
                Err(e) => {
                    if self.spec_interp() is None {
                        e == TLCError::InterpMissing
                    } else {
                        let ip = self.spec_interp()->Some_0;
                        if frame >= ip.temps.spec_cols() {
                            e == (TLCError::FrameOutOfRange {
                                frame,
                                frame_num: ip.temps.spec_cols() as usize,
                            })
                        } else {
                            &&& ip.temps.spec_rows() != self.spec_config().region_shape.1
                            &&& ip.temps.spec_rows() != self.spec_config().region_shape.0
                            &&& ip.temps.spec_rows() != self.spec_config().pix_num()
                            &&& e matches TLCError::ShapeMismatch { .. }
                        }
                    }
                },
            },
    {
        let ip = match &self.interp {
            None => {
                return Err(TLCError::InterpMissing);
            },
            Some(ip) => ip,
        };
        let (cal_h, cal_w) = self.config.region_shape;
        ip.single_frame(frame, (cal_h, cal_w))
    }

    /// The per-pixel plan of the inverse solve: not-a-number for every
    /// pixel whose peak lies at or before the warm-up window, whatever
    /// the iteration method; for every other pixel, its peak frame and
    /// the field row holding its interpolated history.
    pub fn solve_plan(&self) -> (r: Result<Vec<PixelDecision>, TLCError>)
        requires
            self.wf(),
            self.spec_config().region_shape.0 * self.spec_config().region_shape.1
                <= usize::MAX,
        ensures
            match r {
                Ok(ds) => {
                    &&& self.spec_peaks() matches Some(peaks)
                    &&& self.spec_interp() is Some
                    &&& peaks@.len() == self.spec_config().pix_num()
                    &&& self.spec_config().region_shape.1 >= 1
                    &&& ds@.len() == peaks@.len()
                    &&& forall|p: int| 0 <= p < ds@.len()
                        ==> #[trigger] ds@[p] == (if peaks@[p] <= crate::solve::WARMUP_SAMPLES {
                            PixelDecision::Nan
                        } else {
                            PixelDecision::Solve {
                                peak_frame: peaks@[p],
                                interp_row: crate::interp::interp_row_of_pixel(
                                    self.spec_interp()->Some_0.temps.spec_rows(),
                                    self.spec_config().region_shape.0 as nat,
                                    self.spec_config().region_shape.1 as nat,
                                    p,
                                ) as usize,
                            }
                        })
                    &&& forall|p: int| 0 <= p < ds@.len()
                        ==> ((#[trigger] ds@[p] == PixelDecision::Nan)
                            <==> peaks@[p] <= crate::solve::WARMUP_SAMPLES)
                },
                Err(e) => {
                    if self.spec_peaks() is None {
                        e == TLCError::PeaksMissing
                    } else if self.spec_interp() is None {
                        e == TLCError::InterpMissing
                    } else if self.spec_config().region_shape.1 == 0
                        && self.spec_peaks()->Some_0@.len() == 0 {
                        e matches TLCError::ShapeMismatch { .. }
                    } else {
                        &&& self.spec_peaks()->Some_0@.len() != self.spec_config().pix_num()
                        &&& e matches TLCError::LengthMismatch { .. }
                    }
                },
            },
    {
        let peaks = match &self.peak_frames {
            None => {
                return Err(TLCError::PeaksMissing);
            },
            Some(p) => p,
        };
        let ip = match &self.interp {
            None => {
                return Err(TLCError::InterpMissing);
            },
            Some(ip) => ip,
        };
        let (cal_h, cal_w) = self.config.region_shape;
        let pix_num = cal_h * cal_w;
        if peaks.len() != pix_num {
            return Err(TLCError::LengthMismatch { expected: pix_num, actual: peaks.len() });
        }
        if cal_w == 0 {
            return Err(TLCError::ShapeMismatch {
                expected_rows: cal_h,
                expected_cols: cal_w,
                actual_rows: 0,
                actual_cols: 0,
            });
        }
        Ok(solve_decisions(peaks, ip.temps.nrows(), (cal_h, cal_w)))
    }

    /// Stores the per-pixel solver results: the values arrive pixel
    /// row-major and are shaped into the region grid, bottom row first,
    /// beside their mean over the non-not-a-number entries, which the
    /// caller computed in its own scalar type.
    pub fn store_nu(&mut self, values: &Vec<F>, nan_mean: F) -> (r: Result<(), TLCError>)
        requires
            old(self).wf(),
            old(self).spec_config().region_shape.0 * old(self).spec_config().region_shape.1
                <= usize::MAX,
        ensures
            final(self).wf(),
            final(self).spec_config() == old(self).spec_config(),
            final(self).spec_raw() == old(self).spec_raw(),
            final(self).spec_filtered() == old(self).spec_filtered(),
            final(self).spec_peaks() == old(self).spec_peaks(),
            final(self).spec_daq() == old(self).spec_daq(),
            final(self).spec_t2d() == old(self).spec_t2d(),
            final(self).spec_interp() == old(self).spec_interp(),
            r matches Ok(_) <==> values@.len() == old(self).spec_config().pix_num(),
            r matches Ok(_) ==> {
                &&& final(self).spec_nu_mean() == Some(nan_mean)
                &&& final(self).spec_nu2d() matches Some(m)
                &&& m.wf()
                &&& m.spec_rows() == old(self).spec_config().region_shape.0
                &&& m.spec_cols() == old(self).spec_config().region_shape.1
                &&& forall|i: int, j: int|
                    0 <= i < m.spec_rows() && 0 <= j < m.spec_cols()
                        ==> #[trigger] m.at(i, j) == values@[
                            (old(self).spec_config().region_shape.0 - 1 - i)
                                * old(self).spec_config().region_shape.1 + j
                        ]
            },
            r matches Err(e) ==> *final(self) == *old(self)
                && e matches TLCError::LengthMismatch { .. },
    {
        let (cal_h, cal_w) = self.config.region_shape;
        match crate::solve::assemble_map(values, (cal_h, cal_w)) {
            Ok(m) => {
                self.nu2d = Some(m);
                self.nu_nan_mean = Some(nan_mean);
                Ok(())
            },
            Err(e) => Err(e),
        }
    }
}

} // verus!
