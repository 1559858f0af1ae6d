use vstd::prelude::*;
use crate::error::LayoutError;
use crate::reshape::LongRecord;
use crate::slices::Ratio;

verus! {

/// Sub-units per data unit. Padded extents are kept exactly in sub-units:
/// the radius is 1/50 of the x-range times a percentage, and the margins are
/// 1/20 of an extent, so every quantity below is a whole number of them.
pub const SUB: i128 = 100000;

/// The raw bounding box of the points.
#[derive(Clone, Copy, Debug, PartialEq, Eq, Structural)]
pub struct Extent {
    pub x_min: i64,
    pub x_max: i64,
    pub y_min: i64,
    pub y_max: i64,
}

/// `m` is the least x (or y, with `on_x` false) of the records.
pub open spec fn is_min_of(recs: Seq<LongRecord>, m: i64, on_x: bool) -> bool {
    &&& exists|i: int| 0 <= i < recs.len() && #[trigger] coord(recs[i], on_x) == m
    &&& forall|i: int| 0 <= i < recs.len() ==> m <= #[trigger] coord(recs[i], on_x)
}

/// `m` is the greatest x (or y, with `on_x` false) of the records.
pub open spec fn is_max_of(recs: Seq<LongRecord>, m: i64, on_x: bool) -> bool {
    &&& exists|i: int| 0 <= i < recs.len() && #[trigger] coord(recs[i], on_x) == m
    &&& forall|i: int| 0 <= i < recs.len() ==> #[trigger] coord(recs[i], on_x) <= m
}

pub open spec fn coord(r: LongRecord, on_x: bool) -> i64 {
    if on_x { r.x } else { r.y }
}

/// The bounding box of the records; `DataError` for an empty table.
pub fn extent(recs: &Vec<LongRecord>) -> (r: Result<Extent, LayoutError>)
    ensures
        r is Err <==> recs@.len() == 0,
        r is Err ==> r->Err_0 == LayoutError::DataError,
        r is Ok ==> is_min_of(recs@, r->Ok_0.x_min, true) && is_max_of(recs@, r->Ok_0.x_max, true)
            && is_min_of(recs@, r->Ok_0.y_min, false) && is_max_of(recs@, r->Ok_0.y_max, false),
{
    if recs.len() == 0 {
        return Err(LayoutError::DataError);
    }
    let mut e = Extent { x_min: recs[0].x, x_max: recs[0].x, y_min: recs[0].y, y_max: recs[0].y };
    proof {
        let first = recs@.subrange(0, 1);
        assert(first[0] == recs@[0]);
        assert(coord(first[0], true) == e.x_min);
        assert(coord(first[0], false) == e.y_min);
    }
    let mut i: usize = 1;
    while i < recs.len()
        invariant
            1 <= i <= recs@.len(),
            is_min_of(recs@.subrange(0, i as int), e.x_min, true),
            is_max_of(recs@.subrange(0, i as int), e.x_max, true),
            is_min_of(recs@.subrange(0, i as int), e.y_min, false),
            is_max_of(recs@.subrange(0, i as int), e.y_max, false),
        decreases recs@.len() - i,
    {
        let r = recs[i];
        let ghost old_e = e;
        let ghost pre = recs@.subrange(0, i as int);
        let ghost next = recs@.subrange(0, i + 1);
        if r.x < e.x_min { e.x_min = r.x; }
        if r.x > e.x_max { e.x_max = r.x; }
        if r.y < e.y_min { e.y_min = r.y; }
        if r.y > e.y_max { e.y_max = r.y; }
        proof {
            assert(next[i as int] == r);
            assert forall|j: int| 0 <= j < i implies #[trigger] next[j] == pre[j] by {}
            assert(coord(next[i as int], true) == r.x);
            assert(coord(next[i as int], false) == r.y);
            if r.x >= old_e.x_min {
                let w = choose|j: int| 0 <= j < pre.len() && #[trigger] coord(pre[j], true) == old_e.x_min;
                assert(coord(next[w], true) == e.x_min);
            }
            if r.x <= old_e.x_max {
                let w = choose|j: int| 0 <= j < pre.len() && #[trigger] coord(pre[j], true) == old_e.x_max;
                assert(coord(next[w], true) == e.x_max);
            }
            if r.y >= old_e.y_min {
                let w = choose|j: int| 0 <= j < pre.len() && #[trigger] coord(pre[j], false) == old_e.y_min;
                assert(coord(next[w], false) == e.y_min);
            }
            if r.y <= old_e.y_max {
                let w = choose|j: int| 0 <= j < pre.len() && #[trigger] coord(pre[j], false) == old_e.y_max;
                assert(coord(next[w], false) == e.y_max);
            }
            assert forall|j: int| 0 <= j < next.len() implies e.x_min <= #[trigger] coord(next[j], true) by {
                if j < i { assert(coord(pre[j], true) >= old_e.x_min); }
            }
            assert forall|j: int| 0 <= j < next.len() implies #[trigger] coord(next[j], true) <= e.x_max by {
                if j < i { assert(coord(pre[j], true) <= old_e.x_max); }
            }
            assert forall|j: int| 0 <= j < next.len() implies e.y_min <= #[trigger] coord(next[j], false) by {
                if j < i { assert(coord(pre[j], false) >= old_e.y_min); }
            }
            assert forall|j: int| 0 <= j < next.len() implies #[trigger] coord(next[j], false) <= e.y_max by {
                if j < i { assert(coord(pre[j], false) <= old_e.y_max); }
            }
        }
        i = i + 1;
    }
    assert(recs@.subrange(0, i as int) =~= recs@);
    Ok(e)
}

} // verus!

verus! {

/// The shared geometry of a chart: padded extents in sub-units, the pie
/// radius in sub-units, and the canvas size in pixels. Scale is
/// `area_width / (x_end - x_start)` pixels per sub-unit, on both axes.
#[derive(Clone, Copy, Debug, PartialEq, Eq, Structural)]
pub struct Frame {
    pub extent: Extent,
    pub radius: i128,
    pub x_start: i128,
    pub x_end: i128,
    pub y_start: i128,
    pub y_end: i128,
    pub area_width: u32,
    pub area_height: i128,
}

/// The default radius in sub-units: 1/50 of the x-range, times `pct` percent.
pub open spec fn radius_of(e: Extent, pct: int) -> int {
    (e.x_max - e.x_min) * pct * 20
}

impl Frame {
    /// Padded width in sub-units.
    pub open spec fn width(&self) -> int {
        self.x_end - self.x_start
    }

    /// Padded height in sub-units.
    pub open spec fn height(&self) -> int {
        self.y_end - self.y_start
    }

    /// What `frame` computes from an extent, a pie scale in percent and a
    /// canvas width.
    pub open spec fn spec_of(&self, e: Extent, pct: int, aw: int) -> bool {
        let r = radius_of(e, pct);
        let x_lo = e.x_min * SUB - r;
        let x_hi = e.x_max * SUB + r;
        let y_lo = e.y_min * SUB - r;
        let y_hi = e.y_max * SUB + r;
        &&& self.extent == e
        &&& self.radius == r
        &&& 20 * (x_lo - self.x_start) == x_hi - x_lo
        &&& 20 * (self.x_end - x_hi) == x_hi - x_lo
        &&& 20 * (y_lo - self.y_start) == y_hi - y_lo
        &&& 20 * (self.y_end - y_hi) == y_hi - y_lo
        &&& self.area_width == aw
        &&& self.area_height == (2 * aw * self.height() + self.width()) / (2 * self.width())
    }

    /// A frame as `frame` makes it.
    pub open spec fn wf(&self) -> bool {
        &&& self.extent.x_min < self.extent.x_max
        &&& self.extent.y_min <= self.extent.y_max
        &&& exists|pct: u16| #[trigger] self.spec_of(self.extent, pct as int, self.area_width as int)
    }
}

/// The chart frame: the box expanded by one radius on every side, then by
/// a further 5% of that expanded extent on every side; `ConfigError` when
/// the x-range is empty, which leaves no scale.
pub fn frame(e: Extent, pie_scale_pct: u16, area_width: u32) -> (r: Result<Frame, LayoutError>)
    requires
        e.x_min <= e.x_max,
        e.y_min <= e.y_max,
    ensures
        r is Err <==> e.x_min == e.x_max,
        r is Err ==> r->Err_0 == LayoutError::ConfigError,
        r is Ok ==> r->Ok_0.spec_of(e, pie_scale_pct as int, area_width as int) && r->Ok_0.wf(),
{
    if e.x_min == e.x_max {
        return Err(LayoutError::ConfigError);
    }
    let dx: i128 = e.x_max as i128 - e.x_min as i128;
    let dy: i128 = e.y_max as i128 - e.y_min as i128;
    let pct: i128 = pie_scale_pct as i128;
    proof {
        assert(0 < dx < 0x1_0000_0000_0000_0000);
        assert(0 <= dy < 0x1_0000_0000_0000_0000);
        assert(0 <= dx * pct <= 0x1_0000_0000_0000_0000 * 0x1_0000) by (nonlinear_arith)
            requires 0 < dx < 0x1_0000_0000_0000_0000, 0 <= pct < 0x1_0000;
    }
    let dp: i128 = dx * pct;
    let radius: i128 = dp * 20;
    let x_lo: i128 = e.x_min as i128 * SUB - radius;
    let x_hi: i128 = e.x_max as i128 * SUB + radius;
    let y_lo: i128 = e.y_min as i128 * SUB - radius;
    let y_hi: i128 = e.y_max as i128 * SUB + radius;
    let pad_x: i128 = dx * 5000 + dp * 2;
    let pad_y: i128 = dy * 5000 + dp * 2;
    let x_start = x_lo - pad_x;
    let x_end = x_hi + pad_x;
    let y_start = y_lo - pad_y;
    let y_end = y_hi + pad_y;
    let w: i128 = x_end - x_start;
    let h: i128 = y_end - y_start;
    let aw: i128 = area_width as i128;
    proof {
        assert(0 < w < 0x100_0000_0000_0000_0000_0000);
        assert(0 <= h < 0x100_0000_0000_0000_0000_0000);
        assert(0 <= aw * h <= 0x1_0000_0000 * 0x100_0000_0000_0000_0000_0000) by (nonlinear_arith)
            requires 0 <= aw < 0x1_0000_0000, 0 <= h < 0x100_0000_0000_0000_0000_0000;
    }
    let ah: i128 = aw * h;
    let area_height: i128 = (2 * ah + w) / (2 * w);
    let f = Frame { extent: e, radius, x_start, x_end, y_start, y_end, area_width, area_height };
    proof {
        assert(dp == (e.x_max - e.x_min) * pie_scale_pct);
        assert(radius == radius_of(e, pie_scale_pct as int));
        assert(2 * aw * h == 2 * ah) by (nonlinear_arith)
            requires ah == aw * h;
        assert(f.width() == w && f.height() == h);
    }
    assert(f.spec_of(e, pie_scale_pct as int, area_width as int));
    Ok(f)
}

/// The pixel offset of a coordinate from the padded start of its axis:
/// `floor((v - start) * area_width / width)`.
pub open spec fn pixel_of(f: Frame, v: int, start: int) -> int {
    ((v * SUB - start) * f.area_width) / f.width()
}

/// The pie radius in pixels, as the fraction `num / den`.
pub open spec fn radius_px_num(f: Frame) -> int {
    f.radius * f.area_width
}

} // verus!

verus! {

/// What every frame made by `frame` satisfies: the raw box lies inside the
/// padded one, and the sizes are bounded.
pub proof fn lemma_frame_bounds(f: Frame)
    requires
        f.wf(),
    ensures
        f.x_start <= f.extent.x_min * SUB,
        f.extent.x_max * SUB <= f.x_end,
        f.y_start <= f.extent.y_min * SUB,
        f.extent.y_max * SUB <= f.y_end,
        0 < f.width() < 0x100_0000_0000_0000_0000_0000,
        0 <= f.height() < 0x100_0000_0000_0000_0000_0000,
        0 <= f.radius < 0x40_0000_0000_0000_0000_0000,
{
    let pct = choose|pct: u16| #[trigger] f.spec_of(f.extent, pct as int, f.area_width as int);
    let e = f.extent;
    assert(0 <= (e.x_max - e.x_min) * pct <= 0x1_0000_0000_0000_0000 * 0x1_0000) by (nonlinear_arith)
        requires 0 < e.x_max - e.x_min < 0x1_0000_0000_0000_0000, 0 <= pct < 0x1_0000;
}

/// The padded width maps onto exactly the canvas width, and the pie radius
/// in pixels is positive once the points spread along x and the pie scale
/// and canvas width are positive.
pub proof fn lemma_scale_spans_canvas(e: Extent, pct: int, aw: int, f: Frame)
    requires
        f.spec_of(e, pct, aw),
        e.x_min < e.x_max,
        e.y_min <= e.y_max,
        0 < pct,
        0 < aw,
    ensures
        f.width() > 0,
        (f.x_end - f.x_start) * f.area_width / f.width() == aw,
        radius_px_num(f) > 0,
{
    assert(f.radius > 0) by (nonlinear_arith)
        requires f.radius == (e.x_max - e.x_min) * pct * 20, e.x_min < e.x_max, 0 < pct;
    assert(f.width() > 0);
    assert(f.width() * aw / f.width() == aw) by (nonlinear_arith)
        requires f.width() > 0;
    assert(radius_px_num(f) > 0) by (nonlinear_arith)
        requires radius_px_num(f) == f.radius * f.area_width, f.radius > 0, f.area_width == aw, aw > 0;
}

/// The pie radius in pixels: `radius * area_width / width`.
pub fn radius_px(f: &Frame) -> (r: Ratio)
    requires
        f.wf(),
    ensures
        r.num == radius_px_num(*f),
        r.den == f.width(),
        r.num < 0x40_0000_0000_0000_0000_0000_0000_0000,
        0 < r.den < 0x1_0000_0000_0000_0000_0000_0000,
{
    proof {
        lemma_frame_bounds(*f);
        assert(0 <= f.radius * f.area_width < 0x40_0000_0000_0000_0000_0000 * 0x1_0000_0000) by (nonlinear_arith)
            requires 0 <= f.radius < 0x40_0000_0000_0000_0000_0000, f.area_width < 0x1_0000_0000;
    }
    Ratio { num: (f.radius * f.area_width as i128) as u128, den: (f.x_end - f.x_start) as u128 }
}

/// The pixel offset of `v` along x (or y, with `on_x` false).
pub fn pixel(f: &Frame, v: i64, on_x: bool) -> (p: i128)
    requires
        f.wf(),
        on_x ==> f.extent.x_min <= v <= f.extent.x_max,
        !on_x ==> f.extent.y_min <= v <= f.extent.y_max,
    ensures
        p == pixel_of(*f, v as int, if on_x { f.x_start as int } else { f.y_start as int }),
        0 <= p,
{
    proof {
        lemma_frame_bounds(*f);
    }
    let start = if on_x { f.x_start } else { f.y_start };
    let off: i128 = v as i128 * SUB - start;
    let w: i128 = f.x_end - f.x_start;
    let aw: i128 = f.area_width as i128;
    proof {
        assert(0 <= off < 0x100_0000_0000_0000_0000_0000);
        assert(0 <= off * aw <= 0x100_0000_0000_0000_0000_0000 * 0x1_0000_0000) by (nonlinear_arith)
            requires 0 <= off < 0x100_0000_0000_0000_0000_0000, 0 <= aw < 0x1_0000_0000;
    }
    (off * aw) / w
}

} // verus!
