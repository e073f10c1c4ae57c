use vstd::prelude::*;

use crate::error::TLCError;
use crate::matrix::Matrix;

verus! {

// ---------------------------------------------------------------------------
// The sliding-window median, as mathematics.
// ---------------------------------------------------------------------------

/// `v` inserted into the already-sorted sequence `s`, keeping it sorted.
pub open spec fn insert_sorted(v: u8, s: Seq<u8>) -> Seq<u8>
    decreases s.len(),
{
    if s.len() == 0 {
        seq![v]
    } else if v <= s[0] {
        seq![v] + s
    } else {
        seq![s[0]] + insert_sorted(v, s.drop_first())
    }
}

/// `s` sorted ascending, by insertion.
pub open spec fn sort_u8(s: Seq<u8>) -> Seq<u8>
    decreases s.len(),
{
    if s.len() == 0 {
        Seq::<u8>::empty()
    } else {
        insert_sorted(s[0], sort_u8(s.drop_first()))
    }
}

/// The lower median of a non-empty sequence: the middle element of the
/// sorted order (for an even length, the left one of the middle pair).
pub open spec fn median_of(s: Seq<u8>) -> u8
    recommends
        s.len() > 0,
{
    sort_u8(s)[((s.len() - 1) / 2) as int]
}

/// A window of capacity `cap` after consuming one more value: the value is
/// appended, and the oldest entry leaves once the window is full.
pub open spec fn window_push(w: Seq<u8>, v: u8, cap: nat) -> Seq<u8>
    recommends
        cap >= 1,
        w.len() <= cap,
{
    if w.len() < cap {
        w.push(v)
    } else {
        w.drop_first().push(v)
    }
}

/// The window a size-`cap` median filter holds right after consuming
/// `s[i]`: the last `cap` values so far (fewer while filling up).
pub open spec fn sliding_window(s: Seq<u8>, i: int, cap: nat) -> Seq<u8>
    recommends
        0 <= i < s.len(),
        cap >= 1,
{
    s.subrange(if i + 1 >= cap { i + 1 - cap } else { 0 }, i + 1)
}

/// The whole series run through a size-`cap` sliding median.
pub open spec fn median_filtered(s: Seq<u8>, cap: nat) -> Seq<u8>
    recommends
        cap >= 1,
{
    Seq::new(s.len(), |i: int| median_of(sliding_window(s, i, cap)))
}

/// A sliding window is never empty and never larger than its capacity.
pub proof fn lemma_sliding_window_len(s: Seq<u8>, i: int, cap: nat)
    requires
        0 <= i < s.len(),
        cap >= 1,
    ensures
        1 <= sliding_window(s, i, cap).len() <= cap,
{
}

/// Consuming `s[i]` turns the previous window into the next one.
pub proof fn lemma_window_push(s: Seq<u8>, i: int, cap: nat)
    requires
        0 <= i < s.len(),
        cap >= 1,
    ensures
        sliding_window(s, i, cap) == window_push(
            if i == 0 { Seq::<u8>::empty() } else { sliding_window(s, i - 1, cap) },
            s[i],
            cap,
        ),
{
    if i == 0 {
        assert(sliding_window(s, 0, cap) =~= Seq::<u8>::empty().push(s[0]));
    } else {
        let prev = sliding_window(s, i - 1, cap);
        if prev.len() < cap {
            assert(sliding_window(s, i, cap) =~= prev.push(s[i]));
        } else {
            assert(sliding_window(s, i, cap) =~= prev.drop_first().push(s[i]));
        }
    }
}

/// A window of size one holds exactly the value just consumed, whose median
/// is that value itself.
pub proof fn lemma_window_one(s: Seq<u8>, i: int)
    requires
        0 <= i < s.len(),
    ensures
        sliding_window(s, i, 1) =~= seq![s[i]],
        median_of(sliding_window(s, i, 1)) == s[i],
{
    assert(sliding_window(s, i, 1) =~= seq![s[i]]);
    let single = seq![s[i]];
    assert(single.drop_first() =~= Seq::<u8>::empty());
    assert(sort_u8(Seq::<u8>::empty()) == Seq::<u8>::empty());
    assert(sort_u8(single) == insert_sorted(s[i], Seq::<u8>::empty()));
    assert(insert_sorted(s[i], Seq::<u8>::empty()) == seq![s[i]]);
}

/// A sliding median with window size one returns any series unchanged.
pub proof fn lemma_median_window_one_is_identity(s: Seq<u8>)
    ensures
        median_filtered(s, 1) == s,
{
    assert forall|i: int| 0 <= i < s.len()
        implies median_of(sliding_window(s, i, 1)) == s[i] by {
        lemma_window_one(s, i);
    }
    assert(median_filtered(s, 1) =~= s);
}

// ---------------------------------------------------------------------------
// The outside filter: median::Filter, trusted at its documented behaviour.
// ---------------------------------------------------------------------------

#[verifier::external_type_specification]
#[verifier::external_body]
#[verifier::reject_recursive_types(T)]
pub struct ExMedianFilter<T>(median::Filter<T>);

/// The values a `median::Filter` currently holds, oldest first.
pub uninterp spec fn median_window(f: median::Filter<u8>) -> Seq<u8>;

/// The window size a `median::Filter` was created with.
pub uninterp spec fn median_width(f: median::Filter<u8>) -> nat;

/// Relies on `median::Filter::new`: a fresh filter with the given window
/// size holds no values yet.
#[verifier::external_body]
fn median_filter_new(size: usize) -> (f: median::Filter<u8>)
    requires
        size >= 1,
    ensures
        median_window(f) == Seq::<u8>::empty(),
        median_width(f) == size as nat,
{
    median::Filter::new(size)
}

/// Relies on `median::Filter::consume`: the value enters the ring buffer
/// (displacing the oldest once the buffer is full) and the call returns the
/// median of the values now held — for an even count, the lower of the two
/// middle values in sorted order.
#[verifier::external_body]
fn median_filter_consume(f: &mut median::Filter<u8>, v: u8) -> (r: u8)
    requires
        median_width(*old(f)) >= 1,
        median_window(*old(f)).len() <= median_width(*old(f)),
    ensures
        median_width(*final(f)) == median_width(*old(f)),
        median_window(*final(f)) == window_push(
            median_window(*old(f)),
            v,
            median_width(*old(f)),
        ),
        r == median_of(median_window(*final(f))),
{
    f.consume(v)
}

// ---------------------------------------------------------------------------
// The filtering stages built on it.
// ---------------------------------------------------------------------------

/// One pixel's intensity history run through the sliding median.
pub fn median_filter_series(series: &Vec<u8>, window: usize) -> (out: Vec<u8>)
    requires
        window >= 1,
    ensures
        out@ == median_filtered(series@, window as nat),
{
    let mut f = median_filter_new(window);
    let mut out: Vec<u8> = Vec::new();
    let n = series.len();
    let mut i: usize = 0;
    while i < n
        invariant
            window >= 1,
            n == series@.len(),
            i <= n,
            out@.len() == i,
            median_width(f) == window as nat,
            i == 0 ==> median_window(f) == Seq::<u8>::empty(),
            i > 0 ==> median_window(f) == sliding_window(series@, i - 1, window as nat),
            forall|j: int| 0 <= j < i
                ==> out@[j] == median_of(sliding_window(series@, j, window as nat)),
        decreases n - i,
    {
        proof {
            if i > 0 {
                lemma_sliding_window_len(series@, i - 1, window as nat);
            }
            lemma_window_push(series@, i as int, window as nat);
        }
        let v = series[i];
        let r = median_filter_consume(&mut f, v);
        out.push(r);
        i += 1;
    }
    proof {
        assert(out@ =~= median_filtered(series@, window as nat));
    }
    out
}

/// Every pixel's history (one matrix column) run through the sliding
/// median; frames are rows, pixels are columns, and the shape is kept.
pub fn median_filter_matrix(g2d: &Matrix<u8>, window: usize) -> (out: Matrix<u8>)
    requires
        g2d.wf(),
        window >= 1,
    ensures
        out.wf(),
        out.spec_rows() == g2d.spec_rows(),
        out.spec_cols() == g2d.spec_cols(),
        forall|c: int| 0 <= c < out.spec_cols()
            ==> #[trigger] out.col(c) == median_filtered(g2d.col(c), window as nat),
{
    let rows = g2d.nrows();
    let cols = g2d.ncols();
    let mut out = match Matrix::filled(rows, cols, 0u8) {
        Ok(m) => m,
        Err(_) => {
            proof {
                g2d.lemma_size_bound();
            }
            unreached()
        },
    };
    let mut c: usize = 0;
    while c < cols
        invariant
            g2d.wf(),
            window >= 1,
            rows == g2d.spec_rows(),
            cols == g2d.spec_cols(),
            out.wf(),
            out.spec_rows() == rows,
            out.spec_cols() == cols,
            c <= cols,
            forall|j: int| 0 <= j < c
                ==> #[trigger] out.col(j) == median_filtered(g2d.col(j), window as nat),
        decreases cols - c,
    {
        let ghost snapshot = out;
        let series = g2d.col_to_vec(c);
        proof {
            assert(series@ =~= g2d.col(c as int));
        }
        let filtered = median_filter_series(&series, window);
        out.set_col(c, &filtered);
        proof {
            assert(out.col(c as int) =~= median_filtered(g2d.col(c as int), window as nat));
            assert forall|j: int| 0 <= j < c
                implies #[trigger] out.col(j) == median_filtered(g2d.col(j), window as nat) by {
                assert(out.col(j) =~= snapshot.col(j));
            }
        }
        c += 1;
    }
    out
}

/// An identical copy of an intensity matrix (the no-op filter).
pub fn copy_matrix(g2d: &Matrix<u8>) -> (out: Matrix<u8>)
    requires
        g2d.wf(),
    ensures
        out.wf(),
        out.spec_rows() == g2d.spec_rows(),
        out.spec_cols() == g2d.spec_cols(),
        out.view() == g2d.view(),
{
    let rows = g2d.nrows();
    let cols = g2d.ncols();
    let data = g2d.as_vec();
    let mut copied: Vec<u8> = Vec::new();
    let n = data.len();
    let mut i: usize = 0;
    while i < n
        invariant
            n == data@.len(),
            i <= n,
            copied@.len() == i,
            forall|j: int| 0 <= j < i ==> copied@[j] == data@[j],
        decreases n - i,
    {
        let v = data[i];
        copied.push(v);
        i += 1;
    }
    proof {
        assert(copied@ =~= g2d.view());
    }
    match Matrix::from_vec(copied, rows, cols) {
        Ok(m) => m,
        Err(_) => unreached(),
    }
}

// ---------------------------------------------------------------------------
// Wavelet planning: the integer layout of the transform. The transform
// itself runs in the caller's scalar type outside this crate.
// ---------------------------------------------------------------------------

/// Two raised to the power `k`.
pub open spec fn pow2(k: nat) -> nat
    decreases k,
{
    if k == 0 {
        1
    } else {
        2 * pow2((k - 1) as nat)
    }
}

/// The number of times `n` can be halved before reaching one
/// (zero for `n <= 1`).
pub open spec fn floor_log2(n: nat) -> nat
    decreases n,
{
    if n <= 1 {
        0
    } else {
        1 + floor_log2(n / 2)
    }
}

/// Doubling never shrinks a power of two.
pub proof fn lemma_pow2_monotone(a: nat, b: nat)
    requires
        a <= b,
    ensures
        pow2(a) <= pow2(b),
    decreases b,
{
    if a < b && b > 0 {
        lemma_pow2_monotone(a, (b - 1) as nat);
    }
}

/// A power of two outgrows its exponent.
pub proof fn lemma_pow2_exceeds(k: nat)
    ensures
        pow2(k) > k,
    decreases k,
{
    if k > 0 {
        lemma_pow2_exceeds((k - 1) as nat);
    }
}

/// How the wavelet filter lays out one pixel's history: the decomposition
/// depth and how many leading frames take part in the transform (the tail
/// beyond the power-of-two-aligned length stays unfiltered).
pub struct WaveletPlan {
    /// Decomposition depth.
    pub max_level: usize,
    /// How many leading frames are transformed.
    pub filter_len: usize,
}

/// Computes the wavelet decomposition plan for a history of `data_len`
/// frames under a wavelet with `tap_count` coefficients: the depth is the
/// number of times `data_len / (tap_count - 1)` can be halved while staying
/// at least one, and the transformed length is `data_len` truncated to a
/// multiple of two-to-the-depth.
pub fn wavelet_plan(data_len: usize, tap_count: usize) -> (plan: WaveletPlan)
    requires
        tap_count >= 2,
    ensures
        plan.max_level as nat == floor_log2((data_len as int / (tap_count - 1)) as nat),
        pow2(plan.max_level as nat) <= usize::MAX,
        plan.filter_len as nat
            == (data_len as nat / pow2(plan.max_level as nat)) * pow2(plan.max_level as nat),
        plan.filter_len <= data_len,
{
    let n = data_len / (tap_count - 1);
    let mut m = n;
    let mut level: usize = 0;
    let mut p: usize = 1;
    while m > 1
        invariant
            p == pow2(level as nat),
            floor_log2(n as nat) == level + floor_log2(m as nat),
            p * m <= n,
        decreases m,
    {
        let ghost pre_p = p as int;
        let ghost pre_m = m as int;
        proof {
            assert(pre_p >= 1) by {
                lemma_pow2_monotone(0, level as nat);
            }
            assert(pre_p * 2 <= pre_p * pre_m) by (nonlinear_arith)
                requires pre_m >= 2, pre_p >= 1;
            assert((pre_p * 2) * (pre_m / 2) <= pre_p * pre_m) by (nonlinear_arith)
                requires pre_m >= 2, pre_p >= 1, 2 * (pre_m / 2) <= pre_m;
            assert(floor_log2(pre_m as nat) == 1 + floor_log2((pre_m / 2) as nat));
            lemma_pow2_exceeds(level as nat);
        }
        m = m / 2;
        level = level + 1;
        p = p * 2;
    }
    proof {
        assert(floor_log2(m as nat) == 0);
        assert(p >= 1) by {
            lemma_pow2_monotone(0, level as nat);
        }
        lemma_div_mul_le(data_len as int, p as int);
    }
    let app_len = data_len / p;
    let filter_len = app_len * p;
    WaveletPlan { max_level: level, filter_len }
}

/// Dividing and multiplying back by the same positive number never grows
/// a value.
pub proof fn lemma_div_mul_le(x: int, d: int) by (nonlinear_arith)
    requires
        x >= 0,
        d >= 1,
    ensures
        (x / d) * d <= x,
        x / d >= 0,
{
}

/// The half-open coefficient bands `[start, end)` that soft-thresholding
/// walks, finest band last: after a depth-`level` transform of
/// `filter_len` samples, band `k` (from the coarsest detail up) spans
/// `filter_len / 2^level * 2^k .. filter_len / 2^level * 2^(k+1)`.
pub fn wavelet_level_bounds(filter_len: usize, level: usize) -> (bands: Vec<(usize, usize)>)
    requires
        pow2(level as nat) <= usize::MAX,
    ensures
        bands@.len() == level,
        forall|k: int| 0 <= k < level ==> #[trigger] bands@[k]
            == (
                ((filter_len as int / (pow2(level as nat) as int)) * (pow2(k as nat) as int)) as usize,
                ((filter_len as int / (pow2(level as nat) as int)) * (pow2((k + 1) as nat) as int)) as usize,
            ),
        forall|k: int| 0 <= k < level ==> (#[trigger] bands@[k]).1 <= filter_len,
{
    let mut p: usize = 1;
    let mut k: usize = 0;
    while k < level
        invariant
            k <= level,
            p == pow2(k as nat),
            pow2(level as nat) <= usize::MAX,
        decreases level - k,
    {
        proof {
            lemma_pow2_monotone(k as nat + 1, level as nat);
        }
        p = p * 2;
        k = k + 1;
    }
    let ghost pl = pow2(level as nat) as int;
    proof {
        assert(pl >= 1) by {
            lemma_pow2_monotone(0, level as nat);
        }
    }
    let base = filter_len / p;
    let mut bands: Vec<(usize, usize)> = Vec::new();
    let mut start = base;
    let mut i: usize = 0;
    proof {
        assert(pow2(0) == 1);
        assert(base * pow2(0) == base) by (nonlinear_arith)
            requires pow2(0) == 1, base >= 0;
        lemma_div_mul_le(filter_len as int, pl);
    }
    while i < level
        invariant
            i <= level,
            bands@.len() == i,
            base == filter_len as int / pl,
            pl == pow2(level as nat),
            pl >= 1,
            start == base * pow2(i as nat),
            start <= filter_len,
            forall|k: int| 0 <= k < i ==> #[trigger] bands@[k]
                == (
                    ((filter_len as int / pl) * (pow2(k as nat) as int)) as usize,
                    ((filter_len as int / pl) * (pow2((k + 1) as nat) as int)) as usize,
                ),
            forall|k: int| 0 <= k < i ==> (#[trigger] bands@[k]).1 <= filter_len,
        decreases level - i,
    {
        proof {
            lemma_pow2_monotone((i + 1) as nat, level as nat);
            assert(base * pow2((i + 1) as nat) <= base * pl) by (nonlinear_arith)
                requires base >= 0, pow2((i + 1) as nat) <= pl;
            lemma_div_mul_le(filter_len as int, pl);
            assert(base * pow2((i + 1) as nat) == 2 * (base * pow2(i as nat))) by (nonlinear_arith)
                requires pow2((i + 1) as nat) == 2 * pow2(i as nat);
            assert(pow2((i + 1) as nat) == 2 * pow2(i as nat));
        }
        let end = start * 2;
        bands.push((start, end));
        start = end;
        i = i + 1;
    }
    bands
}

} // verus!
