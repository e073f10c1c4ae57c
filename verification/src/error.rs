use vstd::prelude::*;

verus! {

/// Errors reported by the pipeline core. Each variant carries the offending
/// values so that a caller can render a message; none of the core functions
/// panics on expected bad input.
#[derive(Clone, Copy, Debug, PartialEq, Eq, Structural)]
pub enum TLCError {
    /// Peak detection ran on a matrix with no frames.
    EmptySeries,
    /// A matrix was built or stored with a shape other than the expected one.
    ShapeMismatch { expected_rows: usize, expected_cols: usize, actual_rows: usize, actual_cols: usize },
    /// A flat buffer's length does not match the shape it should fill.
    LengthMismatch { expected: usize, actual: usize },
    /// A frame index lies beyond the processed range.
    FrameOutOfRange { frame: usize, frame_num: usize },
    /// The requested start frame lies beyond the video's total frame count.
    StartFrameOutOfRange { start_frame: usize, total_frames: usize },
    /// The requested start row lies beyond the DAQ table's total row count.
    StartRowOutOfRange { start_row: usize, total_rows: usize },
    /// Synchronizing start frame and start row would push one of them
    /// beyond its total.
    SyncOutOfRange,
    /// A thermocouple's DAQ column index lies beyond the table's width.
    DaqColumnOutOfRange { column: usize, total_columns: usize },
    /// The DAQ table has too few rows for the configured window.
    DaqRowsExhausted { needed: usize, total_rows: usize },
    /// Fewer thermocouples than the interpolation method needs.
    TooFewThermocouples { needed: usize, actual: usize },
    /// The raw intensity matrix is not cached yet.
    RawMissing,
    /// The DAQ table is not cached yet.
    DaqMissing,
    /// The peak-frame vector is not cached yet.
    PeaksMissing,
    /// The interpolated temperature field is not cached yet.
    InterpMissing,
    /// A pixel position lies beyond the calculation region.
    PixelOutOfRange { pos: usize, pix_num: usize },
    /// A frame buffer is too short for the configured region.
    FrameTooSmall { needed: usize, actual: usize },
    /// Parsing a delimited-text matrix found no rows.
    EmptyText,
}

impl TLCError {
    /// A short human-readable description of the error.
    pub fn message(&self) -> String {
        match self {
            TLCError::EmptySeries => "peak detection ran on an empty series".to_string(),
            TLCError::ShapeMismatch { .. } => "matrix shape mismatch".to_string(),
            TLCError::LengthMismatch { .. } => "buffer length does not match the target shape".to_string(),
            TLCError::FrameOutOfRange { .. } => "frame index out of range".to_string(),
            TLCError::StartFrameOutOfRange { .. } => "start frame exceeds the video's total frame count".to_string(),
            TLCError::StartRowOutOfRange { .. } => "start row exceeds the DAQ table's total row count".to_string(),
            TLCError::SyncOutOfRange => "synchronization pushes a start index out of range".to_string(),
            TLCError::DaqColumnOutOfRange { .. } => "thermocouple DAQ column out of range".to_string(),
            TLCError::DaqRowsExhausted { .. } => "DAQ table has too few rows for the configured window".to_string(),
            TLCError::TooFewThermocouples { .. } => "too few thermocouples for the interpolation method".to_string(),
            TLCError::RawMissing => "raw intensity matrix has not been read yet".to_string(),
            TLCError::DaqMissing => "DAQ table has not been read yet".to_string(),
            TLCError::PeaksMissing => "peak frames have not been detected yet".to_string(),
            TLCError::InterpMissing => "interpolated temperature field has not been built yet".to_string(),
            TLCError::PixelOutOfRange { .. } => "pixel position out of the calculation region".to_string(),
            TLCError::FrameTooSmall { .. } => "frame buffer too short for the configured region".to_string(),
            TLCError::EmptyText => "delimited-text matrix is empty".to_string(),
        }
    }
}

} // verus!
