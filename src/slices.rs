use vstd::prelude::*;
use crate::error::LayoutError;

verus! {

/// A non-negative fraction `num / den`.
#[derive(Clone, Copy, Debug, PartialEq, Eq, Structural)]
pub struct Ratio {
    pub num: u128,
    pub den: u128,
}

/// What a slice label shows: the slice's share of the pie, or its value.
#[derive(Clone, Copy, Debug, PartialEq, Eq, Structural)]
pub enum LabelText {
    Share(Ratio),
    Value(i64),
}

/// Where a label goes, in polar form around the pie's center: the angle of
/// the slice's bisector as a fraction of a turn, and the distance in pixels.
#[derive(Clone, Copy, Debug, PartialEq, Eq, Structural)]
pub struct Label {
    pub angle: Ratio,
    pub distance: Ratio,
    pub text: LabelText,
}

/// One slice: it spans `start / turn` to `end / turn` of a full turn,
/// clockwise from twelve o'clock.
#[derive(Clone, Copy, Debug, PartialEq, Eq, Structural)]
pub struct Slice {
    pub start: u128,
    pub end: u128,
    pub label: Option<Label>,
}

/// The slices of one pie, the denominator of their angles, and the hole of
/// a donut.
#[derive(Clone, Debug)]
pub struct PieGeometry {
    pub turn: u128,
    pub slices: Vec<Slice>,
    pub inner_radius: Option<Ratio>,
}

/// How slices are labelled and whether pies are donuts. Ratios are in
/// thousandths: `donut` and `label_radius` must lie strictly between 0
/// and 1000; a slice is labelled when its share is at least
/// `label_threshold` thousandths.
#[derive(Clone, Copy, Debug, PartialEq, Eq, Structural)]
pub struct SliceConfig {
    pub donut: Option<u16>,
    pub label_radius: Option<u16>,
    pub label_show_ratio: bool,
    pub label_threshold: u16,
}

/// The part of a value that counts towards its slice.
pub open spec fn weight(v: i64) -> int {
    if v > 0 { v as int } else { 0 }
}

/// The sum of the weights of the first `i` values.
pub open spec fn prefix(s: Seq<i64>, i: int) -> int
    decreases i,
{
    if i <= 0 { 0 } else { prefix(s, i - 1) + weight(s[i - 1]) }
}

pub open spec fn total(s: Seq<i64>) -> int {
    prefix(s, s.len() as int)
}

/// Whether a ratio in thousandths lies strictly between 0 and 1.
pub open spec fn unit_ratio_ok(r: Option<u16>) -> bool {
    match r {
        Some(p) => 0 < p < 1000,
        None => true,
    }
}

/// `r` thousandths of a length `len`.
pub open spec fn scaled(len: Ratio, r: u16) -> Ratio {
    Ratio { num: (len.num * r) as u128, den: (len.den * 1000) as u128 }
}

/// Whether slice `i` gets a label: labels are on, the slice is visible, and
/// its share reaches the threshold.
pub open spec fn labelled(s: Seq<i64>, cfg: SliceConfig, i: int) -> bool {
    &&& cfg.label_radius is Some
    &&& weight(s[i]) > 0
    &&& weight(s[i]) * 1000 >= cfg.label_threshold * total(s)
}

/// The label of slice `i`, when it has one.
pub open spec fn label_of(s: Seq<i64>, cfg: SliceConfig, radius: Ratio, i: int) -> Label {
    Label {
        angle: Ratio { num: (prefix(s, i) + prefix(s, i + 1)) as u128, den: (2 * total(s)) as u128 },
        distance: scaled(radius, cfg.label_radius->Some_0),
        text: if cfg.label_show_ratio {
            LabelText::Share(Ratio { num: weight(s[i]) as u128, den: total(s) as u128 })
        } else {
            LabelText::Value(s[i])
        },
    }
}

/// Slice `i` of the values, as `slice_geometry` computes it.
pub open spec fn slice_of(s: Seq<i64>, cfg: SliceConfig, radius: Ratio, i: int) -> Slice {
    Slice {
        start: prefix(s, i) as u128,
        end: prefix(s, i + 1) as u128,
        label: if labelled(s, cfg, i) { Some(label_of(s, cfg, radius, i)) } else { None },
    }
}

pub proof fn lemma_prefix_bounds(s: Seq<i64>, i: int)
    requires
        0 <= i <= s.len(),
    ensures
        0 <= prefix(s, i) <= i * 0x8000_0000_0000_0000,
        prefix(s, i) <= total(s),
    decreases s.len() - i,
{
    lemma_prefix_upper(s, i);
    if i < s.len() {
        lemma_prefix_bounds(s, i + 1);
    }
}

proof fn lemma_prefix_upper(s: Seq<i64>, i: int)
    requires
        0 <= i <= s.len(),
    ensures
        0 <= prefix(s, i) <= i * 0x8000_0000_0000_0000,
    decreases i,
{
    if i > 0 {
        lemma_prefix_upper(s, i - 1);
    }
}

} // verus!

verus! {

/// Whether slice `w` reaches the threshold: `w * 1000 >= t * total`.
fn reaches_threshold(w: u128, t: u16, tot: u128) -> (r: bool)
    requires
        w < 0x8000_0000_0000_0000,
    ensures
        r == (w * 1000 >= t * tot),
{
    match (t as u128).checked_mul(tot) {
        Some(rhs) => w * 1000 >= rhs,
        None => false,
    }
}

/// Computes the slices of a pie of the given radius (in pixels, as a
/// fraction): each slice spans its value's share of a full turn, slices
/// follow category order, a value that is not positive spans nothing and is
/// never labelled; `ConfigError` for a donut or label ratio outside (0, 1).
pub fn slice_geometry(values: &Vec<i64>, radius: Ratio, cfg: SliceConfig) -> (r: Result<PieGeometry, LayoutError>)
    requires
        radius.num < 0x40_0000_0000_0000_0000_0000_0000_0000,
        radius.den < 0x1_0000_0000_0000_0000_0000_0000,
    ensures
        r is Err <==> !(unit_ratio_ok(cfg.donut) && unit_ratio_ok(cfg.label_radius)),
        r is Err ==> r->Err_0 == LayoutError::ConfigError,
        r is Ok ==> r->Ok_0.turn == total(values@),
        r is Ok ==> r->Ok_0.slices@ == Seq::new(values@.len(), |i: int| slice_of(values@, cfg, radius, i)),
        r is Ok ==> r->Ok_0.inner_radius == match cfg.donut {
            Some(d) => Some(scaled(radius, d)),
            None => None::<Ratio>,
        },
{
    if !(match cfg.donut { Some(d) => 0 < d && d < 1000, None => true })
        || !(match cfg.label_radius { Some(l) => 0 < l && l < 1000, None => true }) {
        return Err(LayoutError::ConfigError);
    }
    let n = values.len();
    let mut tot: u128 = 0;
    let mut i: usize = 0;
    while i < n
        invariant
            i <= n,
            n == values@.len(),
            tot == prefix(values@, i as int),
        decreases n - i,
    {
        proof {
            lemma_prefix_bounds(values@, i + 1);
            assert((i + 1) * 0x8000_0000_0000_0000 <= 0x1_0000_0000_0000_0000 * 0x8000_0000_0000_0000) by (nonlinear_arith)
                requires i + 1 <= 0x1_0000_0000_0000_0000;
        }
        let v = values[i];
        if v > 0 {
            tot = tot + v as u128;
        }
        i = i + 1;
    }
    proof {
        lemma_prefix_bounds(values@, n as int);
        assert(n * 0x8000_0000_0000_0000 <= 0x1_0000_0000_0000_0000 * 0x8000_0000_0000_0000) by (nonlinear_arith)
            requires n <= 0x1_0000_0000_0000_0000;
    }
    let distance = match cfg.label_radius {
        Some(l) => {
            assert(radius.num * l <= 0x40_0000_0000_0000_0000_0000_0000_0000 * 1000) by (nonlinear_arith)
                requires radius.num < 0x40_0000_0000_0000_0000_0000_0000_0000, l < 1000;
            Ratio { num: radius.num * l as u128, den: radius.den * 1000 }
        },
        None => Ratio { num: 0, den: 1 },
    };
    let mut slices: Vec<Slice> = Vec::new();
    let mut acc: u128 = 0;
    let mut i: usize = 0;
    while i < n
        invariant
            i <= n,
            n == values@.len(),
            tot == total(values@),
            tot <= n * 0x8000_0000_0000_0000,
            n * 0x8000_0000_0000_0000 <= 0x1_0000_0000_0000_0000 * 0x8000_0000_0000_0000,
            acc == prefix(values@, i as int),
            unit_ratio_ok(cfg.label_radius),
            cfg.label_radius is Some ==> distance == scaled(radius, cfg.label_radius->Some_0),
            slices@ == Seq::new(i as nat, |j: int| slice_of(values@, cfg, radius, j)),
        decreases n - i,
    {
        proof {
            lemma_prefix_bounds(values@, i as int);
            lemma_prefix_bounds(values@, i + 1);
        }
        let v = values[i];
        let w: u128 = if v > 0 { v as u128 } else { 0 };
        let end: u128 = acc + w;
        let label = match cfg.label_radius {
            Some(_) => {
                if w > 0 && reaches_threshold(w, cfg.label_threshold, tot) {
                    let text = if cfg.label_show_ratio {
                        LabelText::Share(Ratio { num: w, den: tot })
                    } else {
                        LabelText::Value(v)
                    };
                    Some(Label { angle: Ratio { num: acc + end, den: 2 * tot }, distance, text })
                } else {
                    None
                }
            },
            None => None,
        };
        let s = Slice { start: acc, end, label };
        proof {
            assert(s == slice_of(values@, cfg, radius, i as int));
        }
        slices.push(s);
        proof {
            assert(slices@ =~= Seq::new((i + 1) as nat, |j: int| slice_of(values@, cfg, radius, j)));
        }
        acc = end;
        i = i + 1;
    }
    let inner_radius = match cfg.donut {
        Some(d) => {
            assert(radius.num * d <= 0x40_0000_0000_0000_0000_0000_0000_0000 * 1000) by (nonlinear_arith)
                requires radius.num < 0x40_0000_0000_0000_0000_0000_0000_0000, d < 1000;
            Some(Ratio { num: radius.num * d as u128, den: radius.den * 1000 })
        },
        None => None,
    };
    Ok(PieGeometry { turn: tot, slices, inner_radius })
}

} // verus!

verus! {

/// The sum of the spans of the first `i` slices.
pub open spec fn span_sum(s: Seq<i64>, i: int) -> int
    decreases i,
{
    if i <= 0 { 0 } else { span_sum(s, i - 1) + (prefix(s, i) - prefix(s, i - 1)) }
}

/// The spans of a pie's slices add up to one full turn (`turn` is the total
/// of the weights), and a slice whose value is zero spans nothing.
pub proof fn lemma_spans_fill_turn(s: Seq<i64>)
    ensures
        span_sum(s, s.len() as int) == total(s),
        forall|i: int| 0 <= i < s.len() && s[i] == 0 ==> prefix(s, i + 1) == #[trigger] prefix(s, i),
{
    lemma_span_sum_prefix(s, s.len() as int);
}

proof fn lemma_span_sum_prefix(s: Seq<i64>, i: int)
    requires
        0 <= i,
    ensures
        span_sum(s, i) == prefix(s, i),
    decreases i,
{
    if i > 0 {
        lemma_span_sum_prefix(s, i - 1);
    }
}

/// A donut's hole is the configured share of the radius, and strictly
/// smaller than the radius.
pub proof fn lemma_donut_hole_smaller(radius: Ratio, d: u16)
    requires
        0 < d < 1000,
        0 < radius.num < 0x40_0000_0000_0000_0000_0000_0000_0000,
        0 < radius.den < 0x1_0000_0000_0000_0000_0000_0000,
    ensures
        scaled(radius, d).num * 1000 * radius.den == d * radius.num * scaled(radius, d).den,
        scaled(radius, d).num * radius.den < radius.num * scaled(radius, d).den,
{
    assert(radius.num * d <= 0x40_0000_0000_0000_0000_0000_0000_0000 * 1000) by (nonlinear_arith)
        requires radius.num < 0x40_0000_0000_0000_0000_0000_0000_0000, d < 1000;
    let n = radius.num as int;
    let m = radius.den as int;
    let dd = d as int;
    assert((n * dd) * 1000 * m == dd * n * (m * 1000)) by (nonlinear_arith);
    assert((n * dd) * m < n * (m * 1000)) by (nonlinear_arith)
        requires 0 < n, 0 < m, dd < 1000;
}

} // verus!
