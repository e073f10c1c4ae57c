use vstd::prelude::*;

use crate::error::TLCError;
use crate::matrix::Matrix;

verus! {

/// `i` is the index of the first occurrence of the maximum of `s`: no value
/// exceeds `s[i]`, and everything before frame `i` stays strictly below it.
pub open spec fn is_first_peak(s: Seq<u8>, i: int) -> bool {
    &&& 0 <= i < s.len()
    &&& forall|j: int| 0 <= j < s.len() ==> s[j] <= s[i]
    &&& forall|j: int| 0 <= j < i ==> s[j] < s[i]
}

/// The frame index of one pixel's peak intensity; the earliest frame wins
/// a tie. An empty history is reported, not a panic.
pub fn peak_of_series(series: &Vec<u8>) -> (r: Result<usize, TLCError>)
    ensures
        match r {
            Ok(i) => is_first_peak(series@, i as int),
            Err(e) => series@.len() == 0 && e == TLCError::EmptySeries,
        },
{
    let n = series.len();
    if n == 0 {
        return Err(TLCError::EmptySeries);
    }
    let mut best: usize = 0;
    let mut best_val: u8 = series[0];
    let mut j: usize = 1;
    while j < n
        invariant
            n == series@.len(),
            1 <= j <= n,
            best < j,
            best_val == series@[best as int],
            forall|k: int| 0 <= k < j ==> series@[k] <= best_val,
            forall|k: int| 0 <= k < best ==> series@[k] < best_val,
        decreases n - j,
    {
        let v = series[j];
        if v > best_val {
            best = j;
            best_val = v;
        }
        j += 1;
    }
    Ok(best)
}

/// Per pixel (per column of the filtered matrix), the frame index of the
/// maximum intensity, earliest frame first on ties. Fails only when the
/// matrix has pixels but no frames.
pub fn detect_peak(g2d: &Matrix<u8>) -> (r: Result<Vec<usize>, TLCError>)
    requires
        g2d.wf(),
    ensures
        match r {
            Ok(peaks) => {
                &&& peaks@.len() == g2d.spec_cols()
                &&& forall|p: int| 0 <= p < peaks@.len()
                    ==> is_first_peak(g2d.col(p), #[trigger] peaks@[p] as int)
            },
            Err(e) => {
                &&& g2d.spec_rows() == 0
                &&& g2d.spec_cols() > 0
                &&& e == TLCError::EmptySeries
            },
        },
{
    let rows = g2d.nrows();
    let cols = g2d.ncols();
    if rows == 0 && cols > 0 {
        return Err(TLCError::EmptySeries);
    }
    let mut peaks: Vec<usize> = Vec::new();
    let mut c: usize = 0;
    while c < cols
        invariant
            g2d.wf(),
            cols == g2d.spec_cols(),
            rows == g2d.spec_rows(),
            rows > 0 || cols == 0,
            c <= cols,
            peaks@.len() == c,
            forall|p: int| 0 <= p < c
                ==> is_first_peak(g2d.col(p), #[trigger] peaks@[p] as int),
        decreases cols - c,
    {
        let series = g2d.col_to_vec(c);
        proof {
            assert(series@ =~= g2d.col(c as int));
        }
        let peak = match peak_of_series(&series) {
            Ok(i) => i,
            Err(_) => unreached(),
        };
        peaks.push(peak);
        c += 1;
    }
    Ok(peaks)
}

} // verus!
