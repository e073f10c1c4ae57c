use vstd::prelude::*;

use crate::config::Thermocouple;
use crate::error::TLCError;
use crate::matrix::Matrix;

verus! {

// ---------------------------------------------------------------------------
// Bracket search along one axis.
// ---------------------------------------------------------------------------

/// Where the scan for the bracketing thermocouple pair ends when it stands
/// at index `ri`: it advances while the position has reached the right
/// neighbour and a further pair exists.
pub open spec fn scan_bracket(tc: Seq<i64>, pos: int, ri: int) -> int
    recommends
        1 <= ri < tc.len(),
    decreases tc.len() - ri,
{
    if 1 <= ri < tc.len() - 1 && pos >= tc[ri] {
        scan_bracket(tc, pos, ri + 1)
    } else {
        ri
    }
}

/// The scan stays inside the list.
pub proof fn lemma_scan_bracket_range(tc: Seq<i64>, pos: int, ri: int)
    requires
        1 <= ri <= tc.len() - 1,
    ensures
        ri <= scan_bracket(tc, pos, ri) <= tc.len() - 1,
    decreases tc.len() - ri,
{
    if 1 <= ri < tc.len() - 1 && pos >= tc[ri] {
        lemma_scan_bracket_range(tc, pos, ri + 1);
    }
}

/// A sequence of strictly ascending coordinates.
pub open spec fn strictly_increasing(s: Seq<i64>) -> bool {
    forall|i: int, j: int| 0 <= i < j < s.len() ==> s[i] < s[j]
}

/// On a strictly ascending list, the scan started at `ri` lands on `k + 1`
/// when the position equals interior coordinate `k` at or right of the
/// start, on `ri` itself when `k` lies left of the start, and on the last
/// index when `k` is the last coordinate.
pub proof fn lemma_scan_bracket_at(tc: Seq<i64>, k: int, ri: int)
    requires
        strictly_increasing(tc),
        tc.len() >= 2,
        0 <= k < tc.len(),
        1 <= ri <= tc.len() - 1,
    ensures
        k < ri ==> scan_bracket(tc, tc[k] as int, ri) == ri,
        ri <= k < tc.len() - 1 ==> scan_bracket(tc, tc[k] as int, ri) == k + 1,
        k == tc.len() - 1 ==> scan_bracket(tc, tc[k] as int, ri) == tc.len() - 1,
    decreases tc.len() - ri,
{
    if 1 <= ri < tc.len() - 1 && tc[k] >= tc[ri] {
        lemma_scan_bracket_at(tc, k, ri + 1);
    }
}

/// The position clamped into the bracket, the way the non-extrapolating
/// variants do it: first raised to the left coordinate, then capped at the
/// right one.
pub open spec fn clamp_to(pos: int, l: int, r: int) -> int {
    let raised = if pos >= l {
        pos
    } else {
        l
    };
    if raised <= r {
        raised
    } else {
        r
    }
}

// ---------------------------------------------------------------------------
// 1D interpolation plans.
// ---------------------------------------------------------------------------

/// Everything the per-frame blend of one output line position needs: the
/// bracketing thermocouple rows `li`/`ri`, their coordinates `l`/`r`, and
/// the (possibly clamped) position `pos`. The blend itself is
/// `(T[li] * (r - pos) + T[ri] * (pos - l)) / (r - l)`, computed in the
/// caller's scalar type.
#[derive(Clone, Copy, Debug, PartialEq, Eq)]
pub struct LineBlend {
    pub li: usize,
    pub ri: usize,
    pub l: i64,
    pub r: i64,
    pub pos: i64,
}

/// The blend of line position `pos`, as mathematics.
pub open spec fn line_blend_at(tc: Seq<i64>, pos: int, do_extra: bool) -> LineBlend
    recommends
        tc.len() >= 2,
{
    let ri = scan_bracket(tc, pos, 1);
    let li = ri - 1;
    let l = tc[li];
    let r = tc[ri];
    let pe = if do_extra {
        pos
    } else {
        clamp_to(pos, l as int, r as int)
    };
    LineBlend { li: li as usize, ri: ri as usize, l, r, pos: pe as i64 }
}

/// Weight on the left bracket row.
pub open spec fn line_weight_left(b: LineBlend) -> int {
    b.r - b.pos
}

/// Weight on the right bracket row.
pub open spec fn line_weight_right(b: LineBlend) -> int {
    b.pos - b.l
}

/// The blend's denominator.
pub open spec fn line_denom(b: LineBlend) -> int {
    b.r - b.l
}

/// The thermocouple coordinates along the interpolation axis, relative to
/// the region's top-left corner: the pixel-space column for the horizontal
/// methods, the pixel-space row for the vertical ones.
pub fn axis_positions(
    tcs: &Vec<Thermocouple>,
    origin: usize,
    vertical: bool,
) -> (out: Vec<i64>)
    requires
        origin <= i32::MAX,
    ensures
        out@.len() == tcs@.len(),
        forall|i: int| 0 <= i < out@.len() ==> out@[i] == (if vertical {
            tcs@[i].pos.0 - origin
        } else {
            tcs@[i].pos.1 - origin
        }),
{
    let mut out: Vec<i64> = Vec::new();
    let n = tcs.len();
    let mut i: usize = 0;
    while i < n
        invariant
            origin <= i32::MAX,
            n == tcs@.len(),
            i <= n,
            out@.len() == i,
            forall|j: int| 0 <= j < i ==> out@[j] == (if vertical {
                tcs@[j].pos.0 - origin
            } else {
                tcs@[j].pos.1 - origin
            }),
        decreases n - i,
    {
        let tc = tcs[i];
        let coord: i32 = if vertical {
            tc.pos.0
        } else {
            tc.pos.1
        };
        out.push(coord as i64 - origin as i64);
        i += 1;
    }
    out
}

/// The per-position blend plan of a 1D interpolation over `interp_len`
/// output positions. Rejects a thermocouple list too short to bracket
/// anything instead of reading past it.
pub fn interp1d_plan(
    tc_pos: &Vec<i64>,
    interp_len: usize,
    do_extra: bool,
) -> (out: Result<Vec<LineBlend>, TLCError>)
    requires
        interp_len <= i64::MAX,
    ensures
        match out {
            Ok(plan) => {
                &&& tc_pos@.len() >= 2
                &&& plan@.len() == interp_len
                &&& forall|p: int| 0 <= p < interp_len
                    ==> #[trigger] plan@[p] == line_blend_at(tc_pos@, p, do_extra)
            },
            Err(e) => {
                &&& tc_pos@.len() < 2
                &&& e == (TLCError::TooFewThermocouples { needed: 2, actual: tc_pos@.len() as usize })
            },
        },
{
    let n = tc_pos.len();
    if n < 2 {
        return Err(TLCError::TooFewThermocouples { needed: 2, actual: n });
    }
    let mut plan: Vec<LineBlend> = Vec::new();
    let mut p: usize = 0;
    while p < interp_len
        invariant
            interp_len <= i64::MAX,
            n == tc_pos@.len(),
            n >= 2,
            p <= interp_len,
            plan@.len() == p,
            forall|q: int| 0 <= q < p
                ==> #[trigger] plan@[q] == line_blend_at(tc_pos@, q, do_extra),
        decreases interp_len - p,
    {
        let blend = line_blend_of(tc_pos, p as i64, do_extra);
        plan.push(blend);
        p += 1;
    }
    Ok(plan)
}

/// One output position's blend, by the same scan the plan uses.
pub fn line_blend_of(tc_pos: &Vec<i64>, pos: i64, do_extra: bool) -> (b: LineBlend)
    requires
        tc_pos@.len() >= 2,
    ensures
        b == line_blend_at(tc_pos@, pos as int, do_extra),
        b.ri == b.li + 1,
        b.ri < tc_pos@.len(),
{
    let n = tc_pos.len();
    let mut ri: usize = 1;
    while ri < n - 1 && pos >= tc_pos[ri]
        invariant
            n == tc_pos@.len(),
            n >= 2,
            1 <= ri <= n - 1,
            scan_bracket(tc_pos@, pos as int, 1) == scan_bracket(tc_pos@, pos as int, ri as int),
        decreases n - ri,
    {
        ri += 1;
    }
    proof {
        assert(scan_bracket(tc_pos@, pos as int, ri as int) == ri);
    }
    let li = ri - 1;
    let l = tc_pos[li];
    let r = tc_pos[ri];
    let pe = if do_extra {
        pos
    } else {
        let raised = if pos >= l {
            pos
        } else {
            l
        };
        if raised <= r {
            raised
        } else {
            r
        }
    };
    LineBlend { li, ri, l, r, pos: pe }
}

/// At a thermocouple's own coordinate, the blend degenerates to that
/// thermocouple's row: the position coincides with one bracket end, whose
/// weight is then the whole denominator while the other weight vanishes —
/// so 1D interpolation there returns that thermocouple's history exactly,
/// with or without extrapolation.
pub proof fn lemma_line_blend_exact_at_thermocouple(tc: Seq<i64>, k: int, do_extra: bool)
    requires
        strictly_increasing(tc),
        2 <= tc.len() <= usize::MAX,
        0 <= k < tc.len(),
    ensures
        ({
            let b = line_blend_at(tc, tc[k] as int, do_extra);
            &&& (b.li == k && b.pos == b.l && line_weight_left(b) == line_denom(b)
                    && line_weight_right(b) == 0)
                || (b.ri == k && b.pos == b.r && line_weight_right(b) == line_denom(b)
                    && line_weight_left(b) == 0)
        }),
{
    lemma_scan_bracket_at(tc, k, 1);
    lemma_scan_bracket_range(tc, tc[k] as int, 1);
    let ri = scan_bracket(tc, tc[k] as int, 1);
    if k == 0 {
        assert(ri == 1);
        assert(tc[0] < tc[1]);
    } else if k < tc.len() - 1 {
        assert(ri == k + 1);
    } else {
        assert(ri == tc.len() - 1);
        assert(tc[ri - 1] < tc[ri]);
    }
}

// ---------------------------------------------------------------------------
// Bilinear interpolation plans.
// ---------------------------------------------------------------------------

/// Everything the per-frame blend of one pixel needs under bilinear
/// interpolation: the bracketing thermocouple grid cell (`xi0..xi1` by
/// `yi0..yi1`), the cell's corner coordinates, and the (possibly clamped)
/// pixel coordinates. Corner `(a, b)` of the cell holds thermocouple row
/// `tc_w * yi_a + xi_b`, weighted by `(Δx)(Δy)` over the cell area.
#[derive(Clone, Copy, Debug, PartialEq, Eq)]
pub struct BilinearBlend {
    pub xi0: usize,
    pub xi1: usize,
    pub yi0: usize,
    pub yi1: usize,
    pub x0: i64,
    pub x1: i64,
    pub y0: i64,
    pub y1: i64,
    pub x: i64,
    pub y: i64,
}

/// The blend of pixel `pos` (row-major in the region), as mathematics.
pub open spec fn bilinear_blend_at(
    tc_x: Seq<i64>,
    tc_y: Seq<i64>,
    cal_w: int,
    pos: int,
    do_extra: bool,
) -> BilinearBlend
    recommends
        tc_x.len() >= 2,
        tc_y.len() >= 2,
        cal_w >= 1,
{
    let x = pos % cal_w;
    let y = pos / cal_w;
    let xi1 = scan_bracket(tc_x, x as int, 1);
    let yi1 = scan_bracket(tc_y, y as int, 1);
    let x0 = tc_x[xi1 - 1];
    let x1 = tc_x[xi1];
    let y0 = tc_y[yi1 - 1];
    let y1 = tc_y[yi1];
    let xe = if do_extra {
        x
    } else {
        clamp_to(x as int, x0 as int, x1 as int)
    };
    let ye = if do_extra {
        y
    } else {
        clamp_to(y as int, y0 as int, y1 as int)
    };
    BilinearBlend {
        xi0: (xi1 - 1) as usize,
        xi1: xi1 as usize,
        yi0: (yi1 - 1) as usize,
        yi1: yi1 as usize,
        x0,
        x1,
        y0,
        y1,
        x: xe as i64,
        y: ye as i64,
    }
}

/// Weight of the corner at (`yi0`, `xi0`).
pub open spec fn bilinear_weight_00(b: BilinearBlend) -> int {
    (b.x1 - b.x) * (b.y1 - b.y)
}

/// Weight of the corner at (`yi0`, `xi1`).
pub open spec fn bilinear_weight_01(b: BilinearBlend) -> int {
    (b.x - b.x0) * (b.y1 - b.y)
}

/// Weight of the corner at (`yi1`, `xi0`).
pub open spec fn bilinear_weight_10(b: BilinearBlend) -> int {
    (b.x1 - b.x) * (b.y - b.y0)
}

/// Weight of the corner at (`yi1`, `xi1`).
pub open spec fn bilinear_weight_11(b: BilinearBlend) -> int {
    (b.x - b.x0) * (b.y - b.y0)
}

/// The cell area the four weights are normalized by.
pub open spec fn bilinear_denom(b: BilinearBlend) -> int {
    (b.x1 - b.x0) * (b.y1 - b.y0)
}

/// The thermocouple grid axes for bilinear interpolation, relative to the
/// region's top-left corner: the first `tc_w` thermocouples give the x
/// coordinates, every `tc_w`-th thermocouple gives a y coordinate.
/// Rejects a grid the thermocouple list cannot fill, or one with fewer
/// than two lines per axis (nothing brackets there).
pub fn bilinear_axes(
    tcs: &Vec<Thermocouple>,
    tl_pos: (usize, usize),
    tc_shape: (usize, usize),
) -> (out: Result<(Vec<i64>, Vec<i64>), TLCError>)
    requires
        tl_pos.0 <= i32::MAX,
        tl_pos.1 <= i32::MAX,
        tc_shape.0 * tc_shape.1 <= usize::MAX,
    ensures
        match out {
            Ok(axes) => {
                &&& tc_shape.0 >= 2
                &&& tc_shape.1 >= 2
                &&& tcs@.len() >= tc_shape.0 * tc_shape.1
                &&& axes.0@.len() == tc_shape.1
                &&& axes.1@.len() == tc_shape.0
                &&& forall|j: int| 0 <= j < tc_shape.1
                    ==> #[trigger] axes.0@[j] == tcs@[j].pos.1 - tl_pos.1
                &&& forall|i: int| 0 <= i < tc_shape.0
                    ==> #[trigger] axes.1@[i] == tcs@[i * tc_shape.1].pos.0 - tl_pos.0
            },
            Err(_) => {
                tc_shape.0 < 2 || tc_shape.1 < 2 || tcs@.len() < tc_shape.0 * tc_shape.1
            },
        },
{
    let (tc_h, tc_w) = tc_shape;
    if tc_h < 2 || tc_w < 2 {
        return Err(TLCError::TooFewThermocouples {
            needed: 2,
            actual: if tc_h < 2 { tc_h } else { tc_w },
        });
    }
    let need = tc_h * tc_w;
    if tcs.len() < need {
        return Err(TLCError::TooFewThermocouples { needed: need, actual: tcs.len() });
    }
    let mut tc_x: Vec<i64> = Vec::new();
    let mut j: usize = 0;
    while j < tc_w
        invariant
            tl_pos.1 <= i32::MAX,
            tc_h >= 2,
            tc_w >= 2,
            tc_h * tc_w <= tcs@.len(),
            j <= tc_w,
            tc_x@.len() == j,
            forall|q: int| 0 <= q < j ==> #[trigger] tc_x@[q] == tcs@[q].pos.1 - tl_pos.1,
        decreases tc_w - j,
    {
        proof {
            crate::matrix::lemma_row_major_index(0, j as int, tc_h as int, tc_w as int);
        }
        let tc = tcs[j];
        tc_x.push(tc.pos.1 as i64 - tl_pos.1 as i64);
        j += 1;
    }
    let mut tc_y: Vec<i64> = Vec::new();
    let mut i: usize = 0;
    while i < tc_h
        invariant
            tl_pos.0 <= i32::MAX,
            tc_h * tc_w <= tcs@.len(),
            tc_h * tc_w <= usize::MAX,
            tc_h >= 2,
            tc_w >= 2,
            i <= tc_h,
            tc_y@.len() == i,
            forall|q: int| 0 <= q < i ==> #[trigger] tc_y@[q] == tcs@[q * tc_w].pos.0 - tl_pos.0,
        decreases tc_h - i,
    {
        proof {
            crate::matrix::lemma_row_major_index(i as int, 0, tc_h as int, tc_w as int);
        }
        let tc = tcs[i * tc_w];
        tc_y.push(tc.pos.0 as i64 - tl_pos.0 as i64);
        i += 1;
    }
    Ok((tc_x, tc_y))
}

/// One pixel's bilinear blend, by the same scans the plan uses.
pub fn bilinear_blend_of(
    tc_x: &Vec<i64>,
    tc_y: &Vec<i64>,
    cal_w: usize,
    pos: usize,
    do_extra: bool,
) -> (b: BilinearBlend)
    requires
        tc_x@.len() >= 2,
        tc_y@.len() >= 2,
        cal_w >= 1,
        pos <= i64::MAX,
        cal_w <= i64::MAX,
    ensures
        b == bilinear_blend_at(tc_x@, tc_y@, cal_w as int, pos as int, do_extra),
        b.xi1 == b.xi0 + 1,
        b.xi1 < tc_x@.len(),
        b.yi1 == b.yi0 + 1,
        b.yi1 < tc_y@.len(),
{
    let x = (pos % cal_w) as i64;
    let y = (pos / cal_w) as i64;
    let nx = tc_x.len();
    let mut xi1: usize = 1;
    while xi1 < nx - 1 && x >= tc_x[xi1]
        invariant
            nx == tc_x@.len(),
            nx >= 2,
            1 <= xi1 <= nx - 1,
            scan_bracket(tc_x@, x as int, 1) == scan_bracket(tc_x@, x as int, xi1 as int),
        decreases nx - xi1,
    {
        xi1 += 1;
    }
    let ny = tc_y.len();
    let mut yi1: usize = 1;
    while yi1 < ny - 1 && y >= tc_y[yi1]
        invariant
            ny == tc_y@.len(),
            ny >= 2,
            1 <= yi1 <= ny - 1,
            scan_bracket(tc_y@, y as int, 1) == scan_bracket(tc_y@, y as int, yi1 as int),
        decreases ny - yi1,
    {
        yi1 += 1;
    }
    proof {
        assert(scan_bracket(tc_x@, x as int, xi1 as int) == xi1);
        assert(scan_bracket(tc_y@, y as int, yi1 as int) == yi1);
    }
    let x0 = tc_x[xi1 - 1];
    let x1 = tc_x[xi1];
    let y0 = tc_y[yi1 - 1];
    let y1 = tc_y[yi1];
    let xe = if do_extra {
        x
    } else {
        let raised = if x >= x0 {
            x
        } else {
            x0
        };
        if raised <= x1 {
            raised
        } else {
            x1
        }
    };
    let ye = if do_extra {
        y
    } else {
        let raised = if y >= y0 {
            y
        } else {
            y0
        };
        if raised <= y1 {
            raised
        } else {
            y1
        }
    };
    BilinearBlend { xi0: xi1 - 1, xi1, yi0: yi1 - 1, yi1, x0, x1, y0, y1, x: xe, y: ye }
}

/// The per-pixel blend plan of a bilinear interpolation over the whole
/// region, pixels row-major.
pub fn bilinear_plan(
    tc_x: &Vec<i64>,
    tc_y: &Vec<i64>,
    region_shape: (usize, usize),
    do_extra: bool,
) -> (out: Result<Vec<BilinearBlend>, TLCError>)
    requires
        tc_x@.len() >= 2,
        tc_y@.len() >= 2,
        region_shape.0 * region_shape.1 <= usize::MAX,
        region_shape.0 * region_shape.1 <= i64::MAX,
        region_shape.1 <= i64::MAX,
    ensures
        match out {
            Ok(plan) => {
                &&& region_shape.1 >= 1
                &&& plan@.len() == region_shape.0 * region_shape.1
                &&& forall|p: int| 0 <= p < plan@.len()
                    ==> #[trigger] plan@[p] == bilinear_blend_at(
                        tc_x@, tc_y@, region_shape.1 as int, p, do_extra,
                    )
            },
            Err(e) => {
                &&& region_shape.1 == 0
                &&& e == (TLCError::ShapeMismatch {
                    expected_rows: region_shape.0,
                    expected_cols: region_shape.1,
                    actual_rows: 0,
                    actual_cols: 0,
                })
            },
        },
{
    let (cal_h, cal_w) = region_shape;
    if cal_w == 0 {
        return Err(TLCError::ShapeMismatch {
            expected_rows: cal_h,
            expected_cols: cal_w,
            actual_rows: 0,
            actual_cols: 0,
        });
    }
    let pix_num = cal_h * cal_w;
    let mut plan: Vec<BilinearBlend> = Vec::new();
    let mut p: usize = 0;
    while p < pix_num
        invariant
            tc_x@.len() >= 2,
            tc_y@.len() >= 2,
            cal_w >= 1,
            cal_w <= i64::MAX,
            pix_num <= usize::MAX,
            pix_num <= i64::MAX,
            p <= pix_num,
            plan@.len() == p,
            forall|q: int| 0 <= q < p
                ==> #[trigger] plan@[q] == bilinear_blend_at(
                    tc_x@, tc_y@, cal_w as int, q, do_extra,
                ),
        decreases pix_num - p,
    {
        let blend = bilinear_blend_of(tc_x, tc_y, cal_w, p, do_extra);
        plan.push(blend);
        p += 1;
    }
    Ok(plan)
}

/// At a thermocouple grid corner, the blend degenerates to that corner:
/// the pixel coordinates coincide with one corner of the bracketing cell,
/// whose weight is then the whole cell area while the other three weights
/// vanish — so bilinear interpolation there returns the corner's history
/// exactly, with or without extrapolation.
pub proof fn lemma_bilinear_blend_exact_at_corner(
    tc_x: Seq<i64>,
    tc_y: Seq<i64>,
    kx: int,
    ky: int,
    cal_w: int,
    do_extra: bool,
)
    requires
        strictly_increasing(tc_x),
        strictly_increasing(tc_y),
        2 <= tc_x.len() <= usize::MAX,
        2 <= tc_y.len() <= usize::MAX,
        0 <= kx < tc_x.len(),
        0 <= ky < tc_y.len(),
        cal_w >= 1,
        0 <= tc_x[kx] < cal_w,
        0 <= tc_y[ky],
    ensures
        ({
            let b = bilinear_blend_at(tc_x, tc_y, cal_w, tc_y[ky] * cal_w + tc_x[kx], do_extra);
            &&& (b.x == b.x0 && b.xi0 == kx) || (b.x == b.x1 && b.xi1 == kx)
            &&& (b.y == b.y0 && b.yi0 == ky) || (b.y == b.y1 && b.yi1 == ky)
            &&& b.x == b.x0 && b.y == b.y0 ==> bilinear_weight_00(b) == bilinear_denom(b)
                && bilinear_weight_01(b) == 0 && bilinear_weight_10(b) == 0
                && bilinear_weight_11(b) == 0
            &&& b.x == b.x1 && b.y == b.y0 ==> bilinear_weight_01(b) == bilinear_denom(b)
                && bilinear_weight_00(b) == 0 && bilinear_weight_10(b) == 0
                && bilinear_weight_11(b) == 0
            &&& b.x == b.x0 && b.y == b.y1 ==> bilinear_weight_10(b) == bilinear_denom(b)
                && bilinear_weight_00(b) == 0 && bilinear_weight_01(b) == 0
                && bilinear_weight_11(b) == 0
            &&& b.x == b.x1 && b.y == b.y1 ==> bilinear_weight_11(b) == bilinear_denom(b)
                && bilinear_weight_00(b) == 0 && bilinear_weight_01(b) == 0
                && bilinear_weight_10(b) == 0
        }),
{
    let x = tc_x[kx];
    let y = tc_y[ky];
    let pos = y * cal_w + x;
    vstd::arithmetic::div_mod::lemma_fundamental_div_mod_converse(pos as int, cal_w, y as int, x as int);
    assert(pos % cal_w == x);
    assert(pos / cal_w == y);
    lemma_scan_bracket_at(tc_x, kx, 1);
    lemma_scan_bracket_at(tc_y, ky, 1);
    lemma_scan_bracket_range(tc_x, x as int, 1);
    lemma_scan_bracket_range(tc_y, y as int, 1);
    let b = bilinear_blend_at(tc_x, tc_y, cal_w, pos, do_extra);
    assert((b.x == b.x0 && b.xi0 == kx) || (b.x == b.x1 && b.xi1 == kx)) by {
        let xi1 = scan_bracket(tc_x, x as int, 1);
        if kx == 0 {
            assert(xi1 == 1);
            assert(tc_x[0] < tc_x[1]);
        } else if kx < tc_x.len() - 1 {
            assert(xi1 == kx + 1);
        } else {
            assert(xi1 == tc_x.len() - 1);
            assert(tc_x[xi1 - 1] < tc_x[xi1]);
        }
    }
    assert((b.y == b.y0 && b.yi0 == ky) || (b.y == b.y1 && b.yi1 == ky)) by {
        let yi1 = scan_bracket(tc_y, y as int, 1);
        if ky == 0 {
            assert(yi1 == 1);
            assert(tc_y[0] < tc_y[1]);
        } else if ky < tc_y.len() - 1 {
            assert(yi1 == ky + 1);
        } else {
            assert(yi1 == tc_y.len() - 1);
            assert(tc_y[yi1 - 1] < tc_y[yi1]);
        }
    }
}

// ---------------------------------------------------------------------------
// The interpolated field.
// ---------------------------------------------------------------------------

/// Which row of the interpolated field a pixel reads: a horizontal field
/// keeps one row per region column, a vertical one per region row, and a
/// bilinear one per pixel.
pub open spec fn interp_row_of_pixel(rows: nat, cal_h: nat, cal_w: nat, pos: int) -> int
    recommends
        cal_w >= 1,
{
    if rows == cal_w {
        pos % cal_w as int
    } else if rows == cal_h {
        pos / cal_w as int
    } else {
        pos
    }
}

/// The interpolated temperature field: one row of temperatures per line
/// (1D methods) or per pixel (bilinear), one column per frame. `F` is the
/// scalar the blend was computed in.
pub struct Interp<F> {
    /// The field itself.
    pub temps: Matrix<F>,
}

impl<F: Copy> Interp<F> {
    /// The backing matrix is rectangular.
    pub open spec fn wf(&self) -> bool {
        self.temps.wf()
    }

    /// One pixel's interpolated temperature history.
    pub fn interp_single_point(&self, pos: usize, region_shape: (usize, usize)) -> (out: Vec<F>)
        requires
            self.wf(),
            region_shape.1 >= 1,
            pos < region_shape.0 * region_shape.1,
            self.temps.spec_rows() == region_shape.1
                || self.temps.spec_rows() == region_shape.0
                || self.temps.spec_rows() == region_shape.0 * region_shape.1,
        ensures
            out@.len() == self.temps.spec_cols(),
            out@ == self.temps.row(
                interp_row_of_pixel(
                    self.temps.spec_rows(),
                    region_shape.0 as nat,
                    region_shape.1 as nat,
                    pos as int,
                ),
            ),
    {
        let (cal_h, cal_w) = region_shape;
        let rows = self.temps.nrows();
        let row = if rows == cal_w {
            pos % cal_w
        } else if rows == cal_h {
            proof {
                assert(pos / cal_w < cal_h) by (nonlinear_arith)
                    requires cal_w >= 1, pos < cal_h * cal_w;
            }
            pos / cal_w
        } else {
            pos
        };
        let out = self.temps.row_to_vec(row);
        proof {
            assert(out@ =~= self.temps.row(row as int));
        }
        out
    }

    /// The field at one frame, spread over the whole region: a horizontal
    /// field repeats its line down the rows, a vertical one across the
    /// columns, and a bilinear one reshapes pixel-per-row into the grid.
    /// Any other field shape is a reported mismatch.
    pub fn single_frame(&self, frame: usize, region_shape: (usize, usize)) -> (out: Result<
        Matrix<F>,
        TLCError,
    >)
        requires
            self.wf(),
            region_shape.0 * region_shape.1 <= usize::MAX,
        ensures
            match out {
                Ok(m) => {
                    &&& frame < self.temps.spec_cols()
                    &&& m.wf()
                    &&& m.spec_rows() == region_shape.0
                    &&& m.spec_cols() == region_shape.1
                    &&& forall|i: int, j: int|
                        0 <= i < region_shape.0 && 0 <= j < region_shape.1
                            ==> #[trigger] m.at(i, j) == self.temps.at(
                                if self.temps.spec_rows() == region_shape.1 {
                                    j
                                } else if self.temps.spec_rows() == region_shape.0 {
                                    i
                                } else {
                                    i * region_shape.1 + j
                                },
                                frame as int,
                            )
                    &&& (self.temps.spec_rows() == region_shape.1
                        || self.temps.spec_rows() == region_shape.0
                        || self.temps.spec_rows() == region_shape.0 * region_shape.1)
                },
                Err(e) => {
                    if frame >= self.temps.spec_cols() {
                        e == (TLCError::FrameOutOfRange {
                            frame,
                            frame_num: self.temps.spec_cols() as usize,
                        })
                    } else {
                        &&& self.temps.spec_rows() != region_shape.1
                        &&& self.temps.spec_rows() != region_shape.0
                        &&& self.temps.spec_rows() != region_shape.0 * region_shape.1
                        &&& e matches TLCError::ShapeMismatch { .. }
                    }
                },
            },
    {
        let (cal_h, cal_w) = region_shape;
        let cols = self.temps.ncols();
        if frame >= cols {
            return Err(TLCError::FrameOutOfRange { frame, frame_num: cols });
        }
        let rows = self.temps.nrows();
        let pix_num = cal_h * cal_w;
        if rows != cal_w && rows != cal_h && rows != pix_num {
            return Err(TLCError::ShapeMismatch {
                expected_rows: cal_h,
                expected_cols: cal_w,
                actual_rows: rows,
                actual_cols: cols,
            });
        }
        let mut data: Vec<F> = Vec::new();
        let mut i: usize = 0;
        while i < cal_h
            invariant
                self.wf(),
                frame < self.temps.spec_cols(),
                rows == self.temps.spec_rows(),
                pix_num == cal_h * cal_w,
                pix_num <= usize::MAX,
                rows == cal_w || rows == cal_h || rows == pix_num,
                i <= cal_h,
                data@.len() == i * cal_w,
                forall|a: int, j: int|
                    0 <= a < i && 0 <= j < cal_w
                        ==> #[trigger] data@[a * cal_w + j] == self.temps.at(
                            if rows == cal_w {
                                j
                            } else if rows == cal_h {
                                a
                            } else {
                                a * cal_w + j
                            },
                            frame as int,
                        ),
            decreases cal_h - i,
        {
            let mut j: usize = 0;
            while j < cal_w
                invariant
                    self.wf(),
                    frame < self.temps.spec_cols(),
                    rows == self.temps.spec_rows(),
                    pix_num == cal_h * cal_w,
                    pix_num <= usize::MAX,
                    rows == cal_w || rows == cal_h || rows == pix_num,
                    i < cal_h,
                    j <= cal_w,
                    data@.len() == i * cal_w + j,
                    forall|a: int, q: int|
                        0 <= a < i && 0 <= q < cal_w
                            ==> #[trigger] data@[a * cal_w + q] == self.temps.at(
                                if rows == cal_w {
                                    q
                                } else if rows == cal_h {
                                    a
                                } else {
                                    a * cal_w + q
                                },
                                frame as int,
                            ),
                    forall|q: int|
                        0 <= q < j
                            ==> #[trigger] data@[i * cal_w + q] == self.temps.at(
                                if rows == cal_w {
                                    q
                                } else if rows == cal_h {
                                    i as int
                                } else {
                                    i * cal_w + q
                                },
                                frame as int,
                            ),
                decreases cal_w - j,
            {
                proof {
                    crate::matrix::lemma_row_major_index(
                        i as int, j as int, cal_h as int, cal_w as int,
                    );
                }
                let src_row = if rows == cal_w {
                    j
                } else if rows == cal_h {
                    i
                } else {
                    i * cal_w + j
                };
                let v = self.temps.get(src_row, frame);
                let ghost prev = data@;
                data.push(v);
                proof {
                    assert forall|a: int, q: int| 0 <= a < i && 0 <= q < cal_w
                        implies #[trigger] data@[a * cal_w + q] == prev[a * cal_w + q] by {
                        assert(a * cal_w + q < i * cal_w) by (nonlinear_arith)
                            requires 0 <= a < i, 0 <= q < cal_w;
                        assert(0 <= a * cal_w + q) by (nonlinear_arith)
                            requires 0 <= a, 0 <= q, 0 <= cal_w;
                    }
                    assert forall|q: int| 0 <= q < j
                        implies #[trigger] data@[i * cal_w + q] == prev[i * cal_w + q] by {
                    }
                }
                j += 1;
            }
            proof {
                assert((i + 1) * cal_w == i * cal_w + cal_w) by (nonlinear_arith);
            }
            i += 1;
        }
        match Matrix::from_vec(data, cal_h, cal_w) {
            Ok(m) => {
                proof {
                    assert forall|a: int, j: int| 0 <= a < cal_h && 0 <= j < cal_w
                        implies #[trigger] m.at(a, j) == self.temps.at(
                            if rows == cal_w {
                                j
                            } else if rows == cal_h {
                                a
                            } else {
                                a * cal_w + j
                            },
                            frame as int,
                        ) by {
                        crate::matrix::lemma_row_major_index(a, j, cal_h as int, cal_w as int);
                    }
                }
                Ok(m)
            },
            Err(_) => unreached(),
        }
    }
}

} // verus!
