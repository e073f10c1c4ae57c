use vstd::prelude::*;

use crate::error::TLCError;

verus! {

/// A reference thermocouple: which DAQ column holds its readings, and where
/// it sits in pixel space (row, column).
#[derive(Clone, Copy, Debug, PartialEq, Eq)]
pub struct Thermocouple {
    pub column_num: usize,
    pub pos: (i32, i32),
}

/// Temporal filter applied to each pixel's intensity history.
/// `F` is the scalar the caller computes in; this crate only stores it.
#[derive(Clone, Copy, Debug)]
pub enum FilterMethod<F> {
    No,
    Median(usize),
    Wavelet(F),
}

/// How sparse thermocouple histories are expanded onto the pixel grid.
/// The bilinear variants carry the thermocouple grid shape (height, width).
#[derive(Clone, Copy, Debug, PartialEq, Eq)]
pub enum InterpMethod {
    Horizontal,
    HorizontalExtra,
    Vertical,
    VerticalExtra,
    Bilinear((usize, usize)),
    BilinearExtra((usize, usize)),
}

/// Newton-type iteration used by the inverse-conduction solve
/// (initial guess, maximum iteration count).
#[derive(Clone, Copy, Debug)]
pub enum IterationMethod<F> {
    NewtonTangent { h0: F, max_iter_num: usize },
    NewtonDown { h0: F, max_iter_num: usize },
}

/// All configuration the numerical pipeline depends on.
///
/// `F` is the scalar type of the physical constants and calibration factors;
/// the integer geometry and windowing fields are what this crate reasons
/// about. Path fields identify the sources for cache-invalidation purposes;
/// reading them is the caller's concern.
pub struct TLCConfig<F> {
    /// Video file path.
    pub video_path: String,
    /// DAQ file path.
    pub daq_path: String,
    /// First video frame of the processed window.
    pub start_frame: usize,
    /// Total frames the video offers.
    pub total_frames: usize,
    /// Video frame rate, frames per second.
    pub frame_rate: usize,
    /// First DAQ row of the processed window.
    pub start_row: usize,
    /// Total rows the DAQ table offers.
    pub total_rows: usize,
    /// Number of frames actually processed.
    pub frame_num: usize,
    /// Top-left corner of the calculation region (y, x).
    pub top_left_pos: (usize, usize),
    /// Calculation region size (height, width).
    pub region_shape: (usize, usize),
    /// Full video frame size (height, width).
    pub video_shape: (usize, usize),
    /// Reference thermocouples.
    pub thermocouples: Vec<Thermocouple>,
    /// Spatial interpolation method.
    pub interp_method: InterpMethod,
    /// Temporal filter method.
    pub filter_method: FilterMethod<F>,
    /// Newton iteration variant for the inverse solve.
    pub iteration_method: IterationMethod<F>,
    /// Peak (indicator) temperature.
    pub peak_temp: F,
    /// Solid thermal conductivity.
    pub solid_thermal_conductivity: F,
    /// Solid thermal diffusivity.
    pub solid_thermal_diffusivity: F,
    /// Characteristic length for the Nusselt conversion.
    pub characteristic_length: F,
    /// Air thermal conductivity for the Nusselt conversion.
    pub air_thermal_conductivity: F,
    /// Per-thermocouple calibration multiplier.
    pub regulator: Vec<F>,
}

/// The smaller of two sizes.
pub open spec fn spec_min(a: nat, b: nat) -> nat {
    if a <= b {
        a
    } else {
        b
    }
}

impl<F: Copy> TLCConfig<F> {
    /// The calibration vector always carries one factor per thermocouple.
    pub open spec fn wf(&self) -> bool {
        self.regulator@.len() == self.thermocouples@.len()
    }

    /// Number of pixels in the calculation region.
    pub open spec fn pix_num(&self) -> nat {
        (self.region_shape.0 * self.region_shape.1) as nat
    }

    /// Re-synchronizes the calibration vector with the thermocouple list:
    /// when their lengths disagree, every factor is reset to `one`, the
    /// neutral multiplier supplied by the caller (this crate manufactures
    /// no scalar constants).
    pub fn init_regulator(&mut self, one: F)
        ensures
            final(self).wf(),
            *final(self) == (TLCConfig { regulator: final(self).regulator, ..*old(self) }),
            old(self).wf() ==> final(self).regulator == old(self).regulator,
            !old(self).wf() ==> {
                &&& final(self).regulator@.len() == old(self).thermocouples@.len()
                &&& forall|i: int| 0 <= i < final(self).regulator@.len()
                    ==> final(self).regulator@[i] == one
            },
    {
        if self.thermocouples.len() != self.regulator.len() {
            let n = self.thermocouples.len();
            let mut reg: Vec<F> = Vec::new();
            let mut i: usize = 0;
            while i < n
                invariant
                    i <= n,
                    reg@.len() == i,
                    forall|j: int| 0 <= j < i ==> reg@[j] == one,
                decreases n - i,
            {
                reg.push(one);
                i += 1;
            }
            self.regulator = reg;
        }
    }

    /// Recomputes how many frames are actually processed: the shorter of
    /// what remains of the video after `start_frame` and of the DAQ table
    /// after `start_row`.
    pub fn init_frame_num(&mut self)
        requires
            old(self).start_frame <= old(self).total_frames,
            old(self).start_row <= old(self).total_rows,
        ensures
            *final(self) == (TLCConfig { frame_num: final(self).frame_num, ..*old(self) }),
            final(self).frame_num == spec_min(
                (old(self).total_frames - old(self).start_frame) as nat,
                (old(self).total_rows - old(self).start_row) as nat,
            ),
    {
        let from_video = self.total_frames - self.start_frame;
        let from_daq = self.total_rows - self.start_row;
        self.frame_num = if from_video <= from_daq {
            from_video
        } else {
            from_daq
        };
    }

    /// Moves the processed window to a new start frame, shifting the DAQ
    /// start row by the same offset so video and DAQ stay synchronized.
    /// Rejects a window that runs off either source.
    pub fn set_start_frame(&mut self, start_frame: usize) -> (r: Result<(), TLCError>)
        requires
            old(self).start_row + start_frame <= usize::MAX,
        ensures
            r matches Ok(_) <==> {
                &&& start_frame < old(self).total_frames
                &&& old(self).start_row + start_frame >= old(self).start_frame
                &&& old(self).start_row + start_frame - old(self).start_frame
                    < old(self).total_rows
            },
            r matches Ok(_) ==> {
                &&& final(self).start_frame == start_frame
                &&& final(self).start_row
                    == old(self).start_row + start_frame - old(self).start_frame
                &&& final(self).frame_num == spec_min(
                    (old(self).total_frames - start_frame) as nat,
                    (old(self).total_rows
                        - (old(self).start_row + start_frame - old(self).start_frame)) as nat,
                )
                &&& *final(self) == (TLCConfig {
                    start_frame: final(self).start_frame,
                    start_row: final(self).start_row,
                    frame_num: final(self).frame_num,
                    ..*old(self)
                })
            },
            r matches Err(e) ==> {
                &&& *final(self) == *old(self)
                &&& if start_frame >= old(self).total_frames {
                    e == (TLCError::StartFrameOutOfRange {
                        start_frame,
                        total_frames: old(self).total_frames,
                    })
                } else if old(self).start_row + start_frame < old(self).start_frame {
                    e == TLCError::SyncOutOfRange
                } else {
                    e == (TLCError::StartRowOutOfRange {
                        start_row: (old(self).start_row + start_frame
                            - old(self).start_frame) as usize,
                        total_rows: old(self).total_rows,
                    })
                }
            },
    {
        if start_frame >= self.total_frames {
            return Err(TLCError::StartFrameOutOfRange { start_frame, total_frames: self.total_frames });
        }
        if self.start_row + start_frame < self.start_frame {
            return Err(TLCError::SyncOutOfRange);
        }
        let start_row = self.start_row + start_frame - self.start_frame;
        if start_row >= self.total_rows {
            return Err(TLCError::StartRowOutOfRange { start_row, total_rows: self.total_rows });
        }
        self.start_frame = start_frame;
        self.start_row = start_row;
        self.init_frame_num();
        Ok(())
    }

    /// Moves the processed window to a new DAQ start row, shifting the video
    /// start frame by the same offset so video and DAQ stay synchronized.
    /// Rejects a window that runs off either source.
    pub fn set_start_row(&mut self, start_row: usize) -> (r: Result<(), TLCError>)
        requires
            old(self).start_frame + start_row <= usize::MAX,
        ensures
            r matches Ok(_) <==> {
                &&& start_row < old(self).total_rows
                &&& old(self).start_frame + start_row >= old(self).start_row
                &&& old(self).start_frame + start_row - old(self).start_row
                    < old(self).total_frames
            },
            r matches Ok(_) ==> {
                &&& final(self).start_row == start_row
                &&& final(self).start_frame
                    == old(self).start_frame + start_row - old(self).start_row
                &&& final(self).frame_num == spec_min(
                    (old(self).total_frames
                        - (old(self).start_frame + start_row - old(self).start_row)) as nat,
                    (old(self).total_rows - start_row) as nat,
                )
                &&& *final(self) == (TLCConfig {
                    start_frame: final(self).start_frame,
                    start_row: final(self).start_row,
                    frame_num: final(self).frame_num,
                    ..*old(self)
                })
            },
            r matches Err(e) ==> {
                &&& *final(self) == *old(self)
                &&& if start_row >= old(self).total_rows {
                    e == (TLCError::StartRowOutOfRange {
                        start_row,
                        total_rows: old(self).total_rows,
                    })
                } else if old(self).start_frame + start_row < old(self).start_row {
                    e == TLCError::SyncOutOfRange
                } else {
                    e == (TLCError::StartFrameOutOfRange {
                        start_frame: (old(self).start_frame + start_row
                            - old(self).start_row) as usize,
                        total_frames: old(self).total_frames,
                    })
                }
            },
    {
        if start_row >= self.total_rows {
            return Err(TLCError::StartRowOutOfRange { start_row, total_rows: self.total_rows });
        }
        if self.start_frame + start_row < self.start_row {
            return Err(TLCError::SyncOutOfRange);
        }
        let start_frame = self.start_frame + start_row - self.start_row;
        if start_frame >= self.total_frames {
            return Err(TLCError::StartFrameOutOfRange { start_frame, total_frames: self.total_frames });
        }
        self.start_row = start_row;
        self.start_frame = start_frame;
        self.init_frame_num();
        Ok(())
    }

    /// Aligns the window so that video frame `frame_index` and DAQ row
    /// `row_index` describe the same instant: the earlier source starts at
    /// zero and the other starts at the difference.
    pub fn synchronize(&mut self, frame_index: usize, row_index: usize)
        requires
            frame_index < row_index ==> row_index - frame_index <= old(self).total_rows,
            frame_index >= row_index ==> frame_index - row_index <= old(self).total_frames,
        ensures
            frame_index < row_index ==> {
                &&& final(self).start_frame == 0
                &&& final(self).start_row == row_index - frame_index
            },
            frame_index >= row_index ==> {
                &&& final(self).start_row == 0
                &&& final(self).start_frame == frame_index - row_index
            },
            final(self).frame_num == spec_min(
                (old(self).total_frames - final(self).start_frame) as nat,
                (old(self).total_rows - final(self).start_row) as nat,
            ),
            *final(self) == (TLCConfig {
                start_frame: final(self).start_frame,
                start_row: final(self).start_row,
                frame_num: final(self).frame_num,
                ..*old(self)
            }),
    {
        if frame_index < row_index {
            self.start_frame = 0;
            self.start_row = row_index - frame_index;
        } else {
            self.start_row = 0;
            self.start_frame = frame_index - row_index;
        }
        self.init_frame_num();
    }

    /// Replaces the thermocouple list and re-synchronizes the calibration
    /// vector (reset to `one` per thermocouple when the lengths disagree).
    pub fn set_thermocouples(&mut self, thermocouples: Vec<Thermocouple>, one: F)
        ensures
            final(self).wf(),
            final(self).thermocouples == thermocouples,
            *final(self) == (TLCConfig {
                thermocouples,
                regulator: final(self).regulator,
                ..*old(self)
            }),
            old(self).regulator@.len() == thermocouples@.len()
                ==> final(self).regulator == old(self).regulator,
            old(self).regulator@.len() != thermocouples@.len() ==> {
                &&& final(self).regulator@.len() == thermocouples@.len()
                &&& forall|i: int| 0 <= i < final(self).regulator@.len()
                    ==> final(self).regulator@[i] == one
            },
    {
        self.thermocouples = thermocouples;
        self.init_regulator(one);
    }
}

} // verus!
