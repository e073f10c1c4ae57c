use vstd::prelude::*;

use crate::error::TLCError;

verus! {

/// Byte offset of the green channel of the region pixel at (`r`, `c`): the
/// frame buffer is interleaved 3-byte RGB, rows of `row_bytes` bytes, and
/// offset 1 inside a pixel selects green.
pub open spec fn green_offset(
    row_bytes: int,
    tl_y: int,
    tl_x: int,
    r: int,
    c: int,
) -> int {
    (tl_y + r) * row_bytes + (tl_x + c) * 3 + 1
}

/// The offset grows along rows and columns, so the bottom-right pixel of
/// the region reads the highest byte.
pub proof fn lemma_green_offset_monotone(
    row_bytes: int,
    tl_y: int,
    tl_x: int,
    r1: int,
    c1: int,
    r2: int,
    c2: int,
) by (nonlinear_arith)
    requires
        row_bytes >= 0,
        tl_y >= 0,
        tl_x >= 0,
        0 <= r1 <= r2,
        0 <= c1 <= c2,
    ensures
        green_offset(row_bytes, tl_y, tl_x, r1, c1)
            <= green_offset(row_bytes, tl_y, tl_x, r2, c2),
{
}

/// Copies the green channel of every pixel of the calculation region out
/// of one decoded RGB frame, row-major. Rejects a frame buffer too short
/// to hold the region's bottom-right pixel instead of reading past it.
pub fn extract_green_row(
    rgb: &[u8],
    row_bytes: usize,
    tl_y: usize,
    tl_x: usize,
    cal_h: usize,
    cal_w: usize,
) -> (out: Result<Vec<u8>, TLCError>)
    requires
        cal_h * cal_w <= usize::MAX,
        tl_y + cal_h <= usize::MAX,
        tl_x + cal_w <= usize::MAX,
        green_offset(row_bytes as int, tl_y as int, tl_x as int, cal_h as int, cal_w as int)
            <= usize::MAX,
    ensures
        match out {
            Ok(v) => {
                &&& v@.len() == cal_h * cal_w
                &&& forall|r: int, c: int|
                    0 <= r < cal_h && 0 <= c < cal_w
                        ==> #[trigger] v@[r * cal_w + c]
                            == rgb@[green_offset(row_bytes as int, tl_y as int, tl_x as int, r, c)]
                &&& (cal_h > 0 && cal_w > 0 ==> green_offset(
                    row_bytes as int, tl_y as int, tl_x as int,
                    cal_h - 1, cal_w - 1,
                ) < rgb@.len())
            },
            Err(e) => {
                &&& cal_h > 0
                &&& cal_w > 0
                &&& green_offset(
                    row_bytes as int, tl_y as int, tl_x as int,
                    cal_h - 1, cal_w - 1,
                ) >= rgb@.len()
                &&& e matches TLCError::FrameTooSmall { .. }
            },
        },
{
    if cal_h == 0 || cal_w == 0 {
        let empty: Vec<u8> = Vec::new();
        proof {
            assert(cal_h * cal_w == 0) by (nonlinear_arith)
                requires cal_h == 0 || cal_w == 0;
        }
        return Ok(empty);
    }
    proof {
        lemma_green_offset_monotone(
            row_bytes as int, tl_y as int, tl_x as int,
            cal_h - 1, cal_w - 1, cal_h as int, cal_w as int,
        );
        assert((tl_y + cal_h) * row_bytes >= (tl_y + cal_h - 1) * row_bytes >= 0)
            by (nonlinear_arith)
            requires tl_y >= 0, cal_h >= 1, row_bytes >= 0;
        assert((tl_x + cal_w) * 3 >= (tl_x + cal_w - 1) * 3 >= 0) by (nonlinear_arith)
            requires tl_x >= 0, cal_w >= 1;
    }
    let last = (tl_y + (cal_h - 1)) * row_bytes + (tl_x + (cal_w - 1)) * 3 + 1;
    if last >= rgb.len() {
        return Err(TLCError::FrameTooSmall { needed: last, actual: rgb.len() });
    }
    let mut out: Vec<u8> = Vec::new();
    let mut r: usize = 0;
    while r < cal_h
        invariant
            cal_h > 0,
            cal_w > 0,
            cal_h * cal_w <= usize::MAX,
            tl_y + cal_h <= usize::MAX,
            tl_x + cal_w <= usize::MAX,
            green_offset(row_bytes as int, tl_y as int, tl_x as int, cal_h as int, cal_w as int)
                <= usize::MAX,
            r <= cal_h,
            out@.len() == r * cal_w,
            green_offset(row_bytes as int, tl_y as int, tl_x as int, cal_h - 1, cal_w - 1)
                < rgb@.len(),
            forall|i: int, j: int|
                0 <= i < r && 0 <= j < cal_w
                    ==> #[trigger] out@[i * cal_w + j]
                        == rgb@[green_offset(row_bytes as int, tl_y as int, tl_x as int, i, j)],
        decreases cal_h - r,
    {
        let mut c: usize = 0;
        while c < cal_w
            invariant
                cal_h > 0,
                cal_w > 0,
                cal_h * cal_w <= usize::MAX,
                tl_y + cal_h <= usize::MAX,
                tl_x + cal_w <= usize::MAX,
                green_offset(row_bytes as int, tl_y as int, tl_x as int, cal_h as int, cal_w as int)
                    <= usize::MAX,
                r < cal_h,
                c <= cal_w,
                out@.len() == r * cal_w + c,
                green_offset(row_bytes as int, tl_y as int, tl_x as int, cal_h - 1, cal_w - 1)
                    < rgb@.len(),
                forall|i: int, j: int|
                    0 <= i < r && 0 <= j < cal_w
                        ==> #[trigger] out@[i * cal_w + j]
                            == rgb@[green_offset(row_bytes as int, tl_y as int, tl_x as int, i, j)],
                forall|j: int|
                    0 <= j < c
                        ==> #[trigger] out@[r * cal_w + j]
                            == rgb@[green_offset(row_bytes as int, tl_y as int, tl_x as int, r as int, j)],
            decreases cal_w - c,
        {
            proof {
                lemma_green_offset_monotone(
                    row_bytes as int, tl_y as int, tl_x as int,
                    r as int, c as int, cal_h - 1, cal_w - 1,
                );
                lemma_green_offset_monotone(
                    row_bytes as int, tl_y as int, tl_x as int,
                    r as int, c as int, cal_h as int, cal_w as int,
                );
                assert((tl_y + r) * row_bytes >= 0) by (nonlinear_arith)
                    requires tl_y >= 0, r >= 0, row_bytes >= 0;
                assert((tl_x + c) * 3 >= 0) by (nonlinear_arith)
                    requires tl_x >= 0, c >= 0;
                assert(r * cal_w + c < cal_h * cal_w) by (nonlinear_arith)
                    requires 0 <= r < cal_h, 0 <= c < cal_w;
            }
            let idx = (tl_y + r) * row_bytes + (tl_x + c) * 3 + 1;
            let v = rgb[idx];
            out.push(v);
            proof {
                assert forall|i: int, j: int| 0 <= i < r && 0 <= j < cal_w
                    implies #[trigger] (i * cal_w + j) < r * cal_w + c by {
                    assert(i * cal_w + j < r * cal_w) by (nonlinear_arith)
                        requires 0 <= i < r, 0 <= j < cal_w;
                }
            }
            c += 1;
        }
        proof {
            assert((r + 1) * cal_w == r * cal_w + cal_w) by (nonlinear_arith);
        }
        r += 1;
    }
    proof {
        assert(out@.len() == cal_h * cal_w);
    }
    Ok(out)
}

/// The shared frame-packet store: an append-only sequence bounded by the
/// number of frames one run will consume. The demuxing task appends;
/// readers poll its length and proceed only once enough packets exist.
/// Callers wrap it in their own lock for cross-thread sharing.
pub struct PacketCache<T> {
    packets: Vec<T>,
    target: usize,
}

impl<T> PacketCache<T> {
    /// The packets held so far, in arrival order.
    pub closed spec fn view(&self) -> Seq<T> {
        self.packets@
    }

    /// The number of packets after which the cache stops growing.
    pub closed spec fn spec_target(&self) -> nat {
        self.target as nat
    }

    /// The cache never holds more packets than its bound.
    pub open spec fn wf(&self) -> bool {
        self.view().len() <= self.spec_target()
    }

    /// An empty cache that will accept `target` packets.
    pub fn new(target: usize) -> (cache: PacketCache<T>)
        ensures
            cache.wf(),
            cache.view() == Seq::<T>::empty(),
            cache.spec_target() == target,
    {
        PacketCache { packets: Vec::new(), target }
    }

    /// Empties the cache and re-arms it for `target` packets.
    pub fn reset(&mut self, target: usize)
        ensures
            final(self).wf(),
            final(self).view() == Seq::<T>::empty(),
            final(self).spec_target() == target,
    {
        self.packets = Vec::new();
        self.target = target;
    }

    /// Appends a packet unless the bound is reached; says whether it was
    /// taken.
    pub fn push(&mut self, packet: T) -> (accepted: bool)
        requires
            old(self).wf(),
        ensures
            final(self).wf(),
            final(self).spec_target() == old(self).spec_target(),
            accepted <==> old(self).view().len() < old(self).spec_target(),
            accepted ==> final(self).view() == old(self).view().push(packet),
            !accepted ==> final(self).view() == old(self).view(),
    {
        if self.packets.len() < self.target {
            self.packets.push(packet);
            true
        } else {
            false
        }
    }

    /// How many packets have arrived.
    pub fn len(&self) -> (n: usize)
        ensures
            n == self.view().len(),
    {
        self.packets.len()
    }

    /// The configured bound.
    pub fn target(&self) -> (n: usize)
        ensures
            n == self.spec_target(),
    {
        self.target
    }

    /// Whether every expected packet has arrived; bulk readers poll this.
    pub fn is_complete(&self) -> (r: bool)
        ensures
            r <==> self.view().len() == self.spec_target(),
    {
        self.packets.len() == self.target
    }

    /// Whether the packet for `frame_index` has arrived; single-frame
    /// readers poll this.
    pub fn ready_for(&self, frame_index: usize) -> (r: bool)
        ensures
            r <==> frame_index < self.view().len(),
    {
        frame_index < self.packets.len()
    }

    /// The packet at `index`.
    pub fn get(&self, index: usize) -> (p: &T)
        requires
            index < self.view().len(),
        ensures
            *p == self.view()[index as int],
    {
        &self.packets[index]
    }

    /// Drops every packet, keeping the bound; decode resources are released
    /// once an intensity matrix has been extracted.
    pub fn clear(&mut self)
        ensures
            final(self).wf(),
            final(self).view() == Seq::<T>::empty(),
            final(self).spec_target() == old(self).spec_target(),
    {
        self.packets.clear();
    }
}

} // verus!
