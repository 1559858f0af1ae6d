use vstd::prelude::*;
use crate::error::LayoutError;
use crate::reshape::LongRecord;
use crate::extent::{Frame, extent, frame, is_min_of, is_max_of, coord, radius_px, radius_px_num};
use crate::layout::{PieSpec, layout, well_grouped, pie_ok, ids_of};
use crate::palette::{Color, colors, palette_color};
use crate::reshape::{reshape_wide, reshape_long, reshaped, long_records, all_known, all_present, all_selected_numeric};
use crate::slices::{Ratio, PieGeometry, SliceConfig, slice_geometry, slice_of, scaled, total, unit_ratio_ok};
use crate::table::{Table, has_column, column_numeric, column_numbers, column_of};

verus! {

/// Whether two records differ in x.
pub open spec fn x_spread(recs: Seq<LongRecord>) -> bool {
    exists|i: int, j: int| 0 <= i < recs.len() && 0 <= j < recs.len() && recs[i].x != recs[j].x
}

/// `f` and `pies` are the frame and the pies of the records: the frame is
/// made from the records' bounding box, and pie `g` from group `g`.
pub open spec fn elements_ok(recs: Seq<LongRecord>, k: int, pct: int, aw: int, f: Frame, pies: Seq<PieSpec>) -> bool {
    &&& is_min_of(recs, f.extent.x_min, true) && is_max_of(recs, f.extent.x_max, true)
    &&& is_min_of(recs, f.extent.y_min, false) && is_max_of(recs, f.extent.y_max, false)
    &&& f.spec_of(f.extent, pct, aw)
    &&& f.wf()
    &&& pies.len() == ids_of(recs, recs.len() as int).len()
    &&& forall|g: int| 0 <= g < pies.len() ==> pie_ok(f, recs, k, ids_of(recs, recs.len() as int)[g], #[trigger] pies[g])
}

/// The frame and the pies of a long table with `k` categories, for a pie
/// scale in percent and a canvas width in pixels. `DataError` for an empty
/// table or records that are not well grouped; `ConfigError` when all
/// points share one x, which leaves no scale.
pub fn chart_elements(recs: &Vec<LongRecord>, k: usize, pie_scale_pct: u16, area_width: u32)
    -> (r: Result<(Frame, Vec<PieSpec>), LayoutError>)
    requires
        k > 0,
    ensures
        recs@.len() == 0 ==> r == Err::<(Frame, Vec<PieSpec>), LayoutError>(LayoutError::DataError),
        recs@.len() > 0 ==> ((r == Err::<(Frame, Vec<PieSpec>), LayoutError>(LayoutError::ConfigError)) <==> !x_spread(recs@)),
        recs@.len() > 0 && x_spread(recs@) ==> ((r == Err::<(Frame, Vec<PieSpec>), LayoutError>(LayoutError::DataError))
            <==> !well_grouped(recs@, k as int)),
        r is Err ==> r->Err_0 == LayoutError::DataError || r->Err_0 == LayoutError::ConfigError,
        r is Ok ==> elements_ok(recs@, k as int, pie_scale_pct as int, area_width as int, r->Ok_0.0, r->Ok_0.1@),
{
    let e = match extent(recs) {
        Ok(e) => e,
        Err(err) => { return Err(err); },
    };
    proof {
        let wx = choose|i: int| 0 <= i < recs@.len() && #[trigger] coord(recs@[i], true) == e.x_min;
        let wy = choose|i: int| 0 <= i < recs@.len() && #[trigger] coord(recs@[i], false) == e.y_min;
        assert(coord(recs@[wx], true) <= e.x_max);
        assert(coord(recs@[wy], false) <= e.y_max);
        if e.x_min < e.x_max {
            let vx = choose|i: int| 0 <= i < recs@.len() && #[trigger] coord(recs@[i], true) == e.x_max;
            assert(recs@[wx].x != recs@[vx].x);
        } else {
            assert forall|i: int, j: int| 0 <= i < recs@.len() && 0 <= j < recs@.len() implies recs@[i].x == recs@[j].x by {
                assert(e.x_min <= coord(recs@[i], true) <= e.x_max);
                assert(e.x_min <= coord(recs@[j], true) <= e.x_max);
            }
        }
    }
    let f = match frame(e, pie_scale_pct, area_width) {
        Ok(f) => f,
        Err(err) => { return Err(err); },
    };
    proof {
        assert forall|i: int| 0 <= i < recs@.len() implies f.extent.x_min <= (#[trigger] recs@[i]).x <= f.extent.x_max
            && f.extent.y_min <= recs@[i].y <= f.extent.y_max by {
            assert(e.x_min <= coord(recs@[i], true) <= e.x_max);
            assert(e.y_min <= coord(recs@[i], false) <= e.y_max);
        }
    }
    let pies = match layout(recs, k, &f) {
        Ok(p) => p,
        Err(err) => { return Err(err); },
    };
    Ok((f, pies))
}

} // verus!

verus! {

/// A laid-out chart: its frame, the shared pie radius in pixels, one color
/// per category, and for each point its pie and the pie's slices.
#[derive(Clone, Debug)]
pub struct Chart {
    pub frame: Frame,
    pub radius: Ratio,
    pub colors: Vec<Color>,
    pub pies: Vec<PieSpec>,
    pub geometry: Vec<PieGeometry>,
    /// The order in which to draw the pies.
    pub order: Vec<usize>,
}

/// Whether a slice configuration can be used.
pub open spec fn config_ok(cfg: SliceConfig) -> bool {
    unit_ratio_ok(cfg.donut) && unit_ratio_ok(cfg.label_radius)
}

/// What reading the table gives: the long records, or the error that
/// stops the layout. A long table holds each row's group id in column `ID`,
/// names its category in column `variable` and holds its value in column
/// `value`.
pub open spec fn read_records(t: Table, x: Seq<char>, y: Seq<char>, vars: Seq<String>, long_format: bool)
    -> Result<Seq<LongRecord>, LayoutError>
{
    if !long_format {
        if !all_present(t, x, y, vars) {
            Err(LayoutError::SchemaError)
        } else if !all_selected_numeric(t, x, y, vars) {
            Err(LayoutError::TypeError)
        } else {
            Ok(reshaped(t, x, y, vars))
        }
    } else {
        let id_col = seq!['I', 'D'];
        let var_col = seq!['v', 'a', 'r', 'i', 'a', 'b', 'l', 'e'];
        let value_col = seq!['v', 'a', 'l', 'u', 'e'];
        if !(has_column(t, x) && has_column(t, y) && has_column(t, id_col) && has_column(t, var_col)
            && has_column(t, value_col)) {
            Err(LayoutError::SchemaError)
        } else if !(column_numeric(t, x) && column_numeric(t, y) && column_numeric(t, id_col)
            && column_numeric(t, value_col)) {
            Err(LayoutError::TypeError)
        } else if !all_known(column_numbers(t, id_col), t.columns@[column_of(t, var_col)].cells@, vars) {
            Err(LayoutError::DataError)
        } else {
            Ok(long_records(column_numbers(t, id_col), column_numbers(t, x), column_numbers(t, y),
                t.columns@[column_of(t, var_col)].cells@, column_numbers(t, value_col), vars))
        }
    }
}

/// Lays out a scatter-pie chart: colors for the categories, the long form
/// of the table, the frame, one pie per point, the slices of every pie and
/// the order in which to draw the pies. The pie scale is in percent; ratios
/// of the slice configuration are in thousandths.
pub fn scatterpie(t: &Table, x: &str, y: &str, vars: &Vec<String>, pie_scale_pct: u16,
    sorted_by_radius: bool, long_format: bool, cfg: SliceConfig, area_width: u32) -> (r: Result<Chart, LayoutError>)
    requires
        t.wf(),
        t.n_rows * vars@.len() <= usize::MAX,
    ensures
        vars@.len() == 0 || !config_ok(cfg) ==> r == Err::<Chart, LayoutError>(LayoutError::ConfigError),
        vars@.len() > 0 && config_ok(cfg) ==> match read_records(*t, x@, y@, vars@, long_format) {
            Err(e) => r == Err::<Chart, LayoutError>(e),
            Ok(recs) => {
                &&& recs.len() == 0 ==> r == Err::<Chart, LayoutError>(LayoutError::DataError)
                &&& recs.len() > 0 ==> ((r == Err::<Chart, LayoutError>(LayoutError::ConfigError)) <==> !x_spread(recs))
                &&& recs.len() > 0 && x_spread(recs) ==> ((r == Err::<Chart, LayoutError>(LayoutError::DataError))
                    <==> !well_grouped(recs, vars@.len() as int))
                &&& r is Err ==> r->Err_0 == LayoutError::DataError || r->Err_0 == LayoutError::ConfigError
                &&& recs.len() > 0 && x_spread(recs) && well_grouped(recs, vars@.len() as int) ==> r is Ok
            },
        },
        r is Ok ==> ({
            let c = r->Ok_0;
            let recs = read_records(*t, x@, y@, vars@, long_format)->Ok_0;
            &&& vars@.len() > 0 && config_ok(cfg)
            &&& read_records(*t, x@, y@, vars@, long_format) is Ok
            &&& c.colors@ == Seq::new(vars@.len(), |i: int| palette_color(vars@.len() as int, i))
            &&& elements_ok(recs, vars@.len() as int, pie_scale_pct as int, area_width as int, c.frame, c.pies@)
            &&& c.radius == Ratio { num: radius_px_num(c.frame) as u128, den: c.frame.width() as u128 }
            &&& c.geometry@.len() == c.pies@.len()
            &&& forall|i: int| 0 <= i < c.pies@.len() ==> geometry_of(#[trigger] c.geometry@[i], c.pies@[i].values@, cfg, c.radius)
            &&& draw_order_ok(sizes_of(c.pies@), sorted_by_radius, c.order@)
        }),
{
    let colors = match colors(vars) {
        Ok(c) => c,
        Err(e) => { return Err(e); },
    };
    if !(match cfg.donut { Some(d) => 0 < d && d < 1000, None => true })
        || !(match cfg.label_radius { Some(l) => 0 < l && l < 1000, None => true }) {
        return Err(LayoutError::ConfigError);
    }
    let read = if long_format {
        let id_col = "ID";
        let var_col = "variable";
        let value_col = "value";
        proof {
            reveal_strlit("ID");
            assert(id_col@ =~= seq!['I', 'D']);
            reveal_strlit("variable");
            reveal_strlit("value");
            assert(var_col@ =~= seq!['v', 'a', 'r', 'i', 'a', 'b', 'l', 'e']);
            assert(value_col@ =~= seq!['v', 'a', 'l', 'u', 'e']);
        }
        reshape_long(t, x, y, id_col, var_col, value_col, vars)
    } else {
        reshape_wide(t, x, y, vars)
    };
    let recs = match read {
        Ok(r) => r,
        Err(e) => { return Err(e); },
    };
    assert(read_records(*t, x@, y@, vars@, long_format) == Ok::<Seq<LongRecord>, LayoutError>(recs@));
    let (f, pies) = match chart_elements(&recs, vars.len(), pie_scale_pct, area_width) {
        Ok(p) => p,
        Err(e) => { return Err(e); },
    };
    let radius = radius_px(&f);
    let mut geometry: Vec<PieGeometry> = Vec::new();
    let mut i: usize = 0;
    while i < pies.len()
        invariant
            i <= pies@.len(),
            config_ok(cfg),
            radius.num < 0x40_0000_0000_0000_0000_0000_0000_0000,
            0 < radius.den < 0x1_0000_0000_0000_0000_0000_0000,
            geometry@.len() == i,
            forall|j: int| 0 <= j < i ==> geometry_of(#[trigger] geometry@[j], pies@[j].values@, cfg, radius),
        decreases pies@.len() - i,
    {
        let g = match slice_geometry(&pies[i].values, radius, cfg) {
            Ok(g) => g,
            Err(e) => { return Err(e); },
        };
        geometry.push(g);
        i = i + 1;
    }
    let order = draw_order(&pies, sorted_by_radius);
    Ok(Chart { frame: f, radius, colors, pies, geometry, order })
}

/// `g` is what `slice_geometry` makes of the values.
pub open spec fn geometry_of(g: PieGeometry, values: Seq<i64>, cfg: SliceConfig, radius: Ratio) -> bool {
    &&& g.turn == total(values)
    &&& g.slices@ == Seq::new(values.len(), |i: int| slice_of(values, cfg, radius, i))
    &&& g.inner_radius == match cfg.donut {
        Some(d) => Some(scaled(radius, d)),
        None => None::<Ratio>,
    }
}

} // verus!

verus! {

/// Pie `p` is drawn before pie `q` when it is larger, or as large and
/// earlier.
pub open spec fn drawn_before(g: Seq<int>, p: int, q: int) -> bool {
    g[p] > g[q] || (g[p] == g[q] && p < q)
}

/// `r` lists every pie once, in the order `draw_order` gives.
pub open spec fn draw_order_ok(g: Seq<int>, largest_first: bool, r: Seq<usize>) -> bool {
    &&& r.len() == g.len()
    &&& forall|a: int| 0 <= a < r.len() ==> #[trigger] r[a] < g.len()
    &&& forall|a: int, b: int| 0 <= a < r.len() && 0 <= b < r.len() && a != b ==> r[a] != r[b]
    &&& !largest_first ==> forall|a: int| 0 <= a < r.len() ==> #[trigger] r[a] == a
    &&& largest_first ==> forall|a: int, b: int| 0 <= a < b < r.len() ==> drawn_before(g, #[trigger] r[a] as int, #[trigger] r[b] as int)
}

/// Orders pie indices by size: as given, or with `largest_first` larger
/// sizes first, equal sizes in their order.
pub fn order_by_size(g: &Vec<i128>, largest_first: bool) -> (r: Vec<usize>)
    ensures
        draw_order_ok(g@.map_values(|v: i128| v as int), largest_first, r@),
{
    let n = g.len();
    let mut out: Vec<usize> = Vec::new();
    let mut i: usize = 0;
    while i < n
        invariant
            i <= n,
            n == g@.len(),
            out@.len() == i,
            forall|a: int| 0 <= a < out@.len() ==> #[trigger] out@[a] < i,
            forall|a: int, b: int| 0 <= a < out@.len() && 0 <= b < out@.len() && a != b ==> out@[a] != out@[b],
            !largest_first ==> forall|a: int| 0 <= a < out@.len() ==> #[trigger] out@[a] == a,
            largest_first ==> forall|a: int, b: int| 0 <= a < b < out@.len() ==> drawn_before(g@.map_values(|v: i128| v as int), #[trigger] out@[a] as int, #[trigger] out@[b] as int),
        decreases n - i,
    {
        if !largest_first {
            out.push(i);
        } else {
            let t = g[i];
            let mut p: usize = 0;
            while p < out.len() && g[out[p]] >= t
                invariant
                    p <= out@.len(),
                    i < n,
                    n == g@.len(),
                    t == g@[i as int],
                    forall|a: int| 0 <= a < out@.len() ==> #[trigger] out@[a] < i,
                    forall|q: int| 0 <= q < p ==> g@[#[trigger] out@[q] as int] >= t,
                decreases out@.len() - p,
            {
                p = p + 1;
            }
            let ghost old_out = out@;
            proof {
                if p < old_out.len() {
                    assert forall|q: int| p <= q < old_out.len() implies g@[#[trigger] old_out[q] as int] < t by {
                        if q > p {
                            assert(drawn_before(g@.map_values(|v: i128| v as int), old_out[p as int] as int, old_out[q] as int));
                        }
                    }
                }
            }
            out.insert(p, i);
            proof {
                assert forall|a: int| 0 <= a < out@.len() implies #[trigger] out@[a] < i + 1 by {
                    if a < p { assert(out@[a] == old_out[a]); }
                    else if a > p { assert(out@[a] == old_out[a - 1]); }
                }
                assert forall|a: int, b: int| 0 <= a < out@.len() && 0 <= b < out@.len() && a != b implies out@[a] != out@[b] by {
                    if a != p && b != p {
                        let a0 = if a < p { a } else { a - 1 };
                        let b0 = if b < p { b } else { b - 1 };
                        assert(out@[a] == old_out[a0]);
                        assert(out@[b] == old_out[b0]);
                    } else if a == p {
                        let b0 = if b < p { b } else { b - 1 };
                        assert(out@[b] == old_out[b0]);
                    } else {
                        let a0 = if a < p { a } else { a - 1 };
                        assert(out@[a] == old_out[a0]);
                    }
                }
                assert forall|a: int, b: int| 0 <= a < b < out@.len() implies drawn_before(g@.map_values(|v: i128| v as int), #[trigger] out@[a] as int, #[trigger] out@[b] as int) by {
                    let a0 = if a < p { a } else { a - 1 };
                    let b0 = if b < p { b } else { b - 1 };
                    if a != p && b != p {
                        assert(out@[a] == old_out[a0]);
                        assert(out@[b] == old_out[b0]);
                    } else if a == p {
                        assert(out@[b] == old_out[b0]);
                    } else {
                        assert(out@[a] == old_out[a0]);
                    }
                }
            }
        }
        i = i + 1;
    }
    out
}

} // verus!

verus! {

/// The sum of the values of a pie, negative ones included.
pub open spec fn value_sum(s: Seq<i64>, i: int) -> int
    decreases i,
{
    if i <= 0 { 0 } else { value_sum(s, i - 1) + s[i - 1] }
}

/// The size of each pie, by which `draw_order` ranks them: the sum of its
/// values.
pub open spec fn sizes_of(pies: Seq<PieSpec>) -> Seq<int> {
    Seq::new(pies.len(), |i: int| value_sum(pies[i].values@, pies[i].values@.len() as int))
}

/// The sum of the values.
fn sum_values(s: &Vec<i64>) -> (r: i128)
    ensures
        r == value_sum(s@, s@.len() as int),
{
    let mut acc: i128 = 0;
    let mut i: usize = 0;
    while i < s.len()
        invariant
            i <= s@.len(),
            acc == value_sum(s@, i as int),
            -(i as int) * 0x8000_0000_0000_0000 <= acc <= (i as int) * 0x8000_0000_0000_0000,
        decreases s@.len() - i,
    {
        proof {
            assert((i + 1) * 0x8000_0000_0000_0000 <= 0x1_0000_0000_0000_0000 * 0x8000_0000_0000_0000) by (nonlinear_arith)
                requires i + 1 <= 0x1_0000_0000_0000_0000;
        }
        acc = acc + s[i] as i128;
        i = i + 1;
    }
    acc
}

/// The order in which pies are drawn: as laid out, or with `largest_first`
/// larger pies (by the sum of their values) first, so that they do not hide
/// smaller ones; pies of equal size keep their order. Pies are not changed.
pub fn draw_order(pies: &Vec<PieSpec>, largest_first: bool) -> (r: Vec<usize>)
    ensures
        draw_order_ok(sizes_of(pies@), largest_first, r@),
{
    let mut sizes: Vec<i128> = Vec::new();
    let mut i: usize = 0;
    while i < pies.len()
        invariant
            i <= pies@.len(),
            sizes@.map_values(|v: i128| v as int) =~= sizes_of(pies@).subrange(0, i as int),
        decreases pies@.len() - i,
    {
        let v = sum_values(&pies[i].values);
        let ghost old_sizes = sizes@;
        sizes.push(v);
        proof {
            assert(sizes@.map_values(|v: i128| v as int) =~= old_sizes.map_values(|v: i128| v as int).push(v as int));
            assert(sizes_of(pies@).subrange(0, i + 1) =~= sizes_of(pies@).subrange(0, i as int).push(sizes_of(pies@)[i as int]));
        }
        i = i + 1;
    }
    assert(sizes_of(pies@).subrange(0, i as int) =~= sizes_of(pies@));
    order_by_size(&sizes, largest_first)
}

} // verus!
