use vstd::prelude::*;

use crate::error::TLCError;
use crate::interp::interp_row_of_pixel;
use crate::matrix::Matrix;

verus! {

/// How many leading samples of a pixel's temperature history give the
/// initial temperature; a peak at or before this window leaves too little
/// history to solve.
pub const WARMUP_SAMPLES: usize = 4;

/// What the solver does with one pixel: skip it as not-a-number, or run
/// the Newton iteration on the given peak frame and field row.
#[derive(Clone, Copy, Debug, PartialEq, Eq)]
pub enum PixelDecision {
    /// Too little history: the pixel's result is not-a-number.
    Nan,
    /// Solve with this peak frame, reading the interpolated history in
    /// this row of the field.
    Solve { peak_frame: usize, interp_row: usize },
}

/// The per-pixel plan of the inverse solve: a pixel whose peak lies at or
/// before the warm-up window is assigned not-a-number without solving,
/// whatever the iteration method; every other pixel is solved on its own
/// peak frame and interpolated history.
pub fn solve_decisions(
    peak_frames: &Vec<usize>,
    interp_rows: usize,
    region_shape: (usize, usize),
) -> (out: Vec<PixelDecision>)
    requires
        region_shape.1 >= 1,
        peak_frames@.len() == region_shape.0 * region_shape.1,
    ensures
        out@.len() == peak_frames@.len(),
        forall|p: int| 0 <= p < out@.len()
            ==> #[trigger] out@[p] == (if peak_frames@[p] <= WARMUP_SAMPLES {
                PixelDecision::Nan
            } else {
                PixelDecision::Solve {
                    peak_frame: peak_frames@[p],
                    interp_row: interp_row_of_pixel(
                        interp_rows as nat,
                        region_shape.0 as nat,
                        region_shape.1 as nat,
                        p,
                    ) as usize,
                }
            }),
        forall|p: int| 0 <= p < out@.len()
            ==> ((#[trigger] out@[p] == PixelDecision::Nan)
                <==> peak_frames@[p] <= WARMUP_SAMPLES),
{
    let (cal_h, cal_w) = region_shape;
    let n = peak_frames.len();
    let mut out: Vec<PixelDecision> = Vec::new();
    let mut p: usize = 0;
    while p < n
        invariant
            cal_w >= 1,
            n == peak_frames@.len(),
            n == cal_h * cal_w,
            (cal_h, cal_w) == region_shape,
            p <= n,
            out@.len() == p,
            forall|q: int| 0 <= q < p
                ==> #[trigger] out@[q] == (if peak_frames@[q] <= WARMUP_SAMPLES {
                    PixelDecision::Nan
                } else {
                    PixelDecision::Solve {
                        peak_frame: peak_frames@[q],
                        interp_row: interp_row_of_pixel(
                            interp_rows as nat,
                            cal_h as nat,
                            cal_w as nat,
                            q,
                        ) as usize,
                    }
                }),
        decreases n - p,
    {
        let peak = peak_frames[p];
        let decision = if peak <= WARMUP_SAMPLES {
            PixelDecision::Nan
        } else {
            let row = if interp_rows == cal_w {
                p % cal_w
            } else if interp_rows == cal_h {
                p / cal_w
            } else {
                p
            };
            PixelDecision::Solve { peak_frame: peak, interp_row: row }
        };
        out.push(decision);
        p += 1;
    }
    out
}

/// What a Newton-tangent iteration does after one step has been computed.
#[derive(Clone, Copy, Debug, PartialEq, Eq)]
pub enum TangentStep {
    /// The iterate ran away: the pixel's result is not-a-number.
    ReturnNan,
    /// The step fell below the stopping tolerance: return the new iterate.
    ReturnNext,
    /// Keep iterating from the new iterate.
    Continue,
}

/// The Newton-tangent control decision. The caller evaluates the
/// floating-point tests — `diverged` is whether the new iterate's
/// magnitude exceeds the divergence bound, `converged` whether the step's
/// magnitude fell below the stopping tolerance — and this decides, in
/// that order: divergence wins, then convergence, else continue.
pub fn newton_tangent_step(diverged: bool, converged: bool) -> (r: TangentStep)
    ensures
        r == TangentStep::ReturnNan <==> diverged,
        r == TangentStep::ReturnNext <==> (!diverged && converged),
        r == TangentStep::Continue <==> (!diverged && !converged),
{
    if diverged {
        TangentStep::ReturnNan
    } else if converged {
        TangentStep::ReturnNext
    } else {
        TangentStep::Continue
    }
}

/// What a damped (line-searched) Newton iteration does with one damped
/// trial step.
#[derive(Clone, Copy, Debug, PartialEq, Eq)]
pub enum DampedStep {
    /// The damped step fell below the stopping tolerance: return the new
    /// iterate.
    ReturnNext,
    /// The new iterate reduced the residual: accept it and leave the
    /// damping loop.
    Accept,
    /// The damping factor underflowed: the pixel's result is not-a-number.
    ReturnNan,
    /// Halve the damping factor and try again.
    Halve,
}

/// The damped-Newton control decision for one trial. The caller evaluates
/// the floating-point tests — `step_small` is whether the damped step's
/// magnitude fell below the stopping tolerance, `improved` whether the
/// trial residual shrank in magnitude, `damping_exhausted` whether the
/// halved damping factor fell below its floor — and this decides, in that
/// order: stop, accept, give up, or halve again.
pub fn newton_damped_step(step_small: bool, improved: bool, damping_exhausted: bool) -> (r:
    DampedStep)
    ensures
        r == DampedStep::ReturnNext <==> step_small,
        r == DampedStep::Accept <==> (!step_small && improved),
        r == DampedStep::ReturnNan <==> (!step_small && !improved && damping_exhausted),
        r == DampedStep::Halve <==> (!step_small && !improved && !damping_exhausted),
{
    if step_small {
        DampedStep::ReturnNext
    } else if improved {
        DampedStep::Accept
    } else if damping_exhausted {
        DampedStep::ReturnNan
    } else {
        DampedStep::Halve
    }
}

/// Shapes the per-pixel results into the region grid, bottom row first
/// (the map is flipped vertically to match physical coordinates, exactly
/// as the interpolated previews are).
pub fn assemble_map<F: Copy>(values: &Vec<F>, region_shape: (usize, usize)) -> (out: Result<
    Matrix<F>,
    TLCError,
>)
    requires
        region_shape.0 * region_shape.1 <= usize::MAX,
    ensures
        match out {
            Ok(m) => {
                &&& values@.len() == region_shape.0 * region_shape.1
                &&& m.wf()
                &&& m.spec_rows() == region_shape.0
                &&& m.spec_cols() == region_shape.1
                &&& forall|r: int, c: int|
                    0 <= r < m.spec_rows() && 0 <= c < m.spec_cols()
                        ==> #[trigger] m.at(r, c)
                            == values@[(region_shape.0 - 1 - r) * region_shape.1 + c]
            },
            Err(e) => {
                &&& values@.len() != region_shape.0 * region_shape.1
                &&& e == (TLCError::LengthMismatch {
                    expected: (region_shape.0 * region_shape.1) as usize,
                    actual: values@.len() as usize,
                })
            },
        },
{
    let (cal_h, cal_w) = region_shape;
    let pix_num = cal_h * cal_w;
    if values.len() != pix_num {
        return Err(TLCError::LengthMismatch { expected: pix_num, actual: values.len() });
    }
    let mut data: Vec<F> = Vec::new();
    let n = values.len();
    let mut i: usize = 0;
    while i < n
        invariant
            n == values@.len(),
            i <= n,
            data@.len() == i,
            forall|j: int| 0 <= j < i ==> data@[j] == values@[j],
        decreases n - i,
    {
        let v = values[i];
        data.push(v);
        i += 1;
    }
    let flat = match Matrix::from_vec(data, cal_h, cal_w) {
        Ok(m) => m,
        Err(_) => unreached(),
    };
    let flipped = flat.flip_vertical();
    proof {
        assert forall|r: int, c: int| 0 <= r < cal_h && 0 <= c < cal_w
            implies #[trigger] flipped.at(r, c) == values@[(cal_h - 1 - r) * cal_w + c] by {
            crate::matrix::lemma_row_major_index(cal_h - 1 - r, c, cal_h as int, cal_w as int);
        }
    }
    Ok(flipped)
}

} // verus!
