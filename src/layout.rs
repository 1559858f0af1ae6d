use vstd::prelude::*;
use crate::error::LayoutError;
use crate::reshape::LongRecord;
use crate::extent::{Frame, pixel, pixel_of};

verus! {

/// One pie: its center in pixels and its slice values in category order.
/// All pies of a chart share the frame's radius.
#[derive(Clone, Debug)]
pub struct PieSpec {
    pub cx: i128,
    pub cy: i128,
    pub values: Vec<i64>,
}

/// The distinct group ids of the first `n` records, in order of first
/// appearance.
pub open spec fn ids_of(recs: Seq<LongRecord>, n: int) -> Seq<usize>
    decreases n,
{
    if n <= 0 {
        Seq::empty()
    } else {
        let p = ids_of(recs, n - 1);
        if p.contains(recs[n - 1].group) { p } else { p.push(recs[n - 1].group) }
    }
}

/// The records of group `gid` describe one point with `k` categories: one
/// coordinate, and exactly one record for each category `0 .. k`.
pub open spec fn group_ok(recs: Seq<LongRecord>, k: int, gid: usize) -> bool {
    &&& forall|i: int| 0 <= i < recs.len() && (#[trigger] recs[i]).group == gid ==> recs[i].category < k
    &&& forall|i: int, j: int| 0 <= i < recs.len() && 0 <= j < recs.len()
        && (#[trigger] recs[i]).group == gid && (#[trigger] recs[j]).group == gid ==>
        recs[i].x == recs[j].x && recs[i].y == recs[j].y && (i != j ==> recs[i].category != recs[j].category)
    &&& forall|c: int| 0 <= c < k ==> #[trigger] has_category(recs, gid, c)
}

/// Some record of group `gid` holds category `c`.
pub open spec fn has_category(recs: Seq<LongRecord>, gid: usize, c: int) -> bool {
    exists|j: int| 0 <= j < recs.len() && (#[trigger] recs[j]).group == gid && recs[j].category == c
}

/// Every group of the records describes one point with `k` categories.
pub open spec fn well_grouped(recs: Seq<LongRecord>, k: int) -> bool {
    forall|i: int| 0 <= i < recs.len() ==> group_ok(recs, k, (#[trigger] recs[i]).group)
}

/// `p` is the pie of group `gid`: centered on the group's point, with the
/// value of each category in that category's place.
pub open spec fn pie_ok(f: Frame, recs: Seq<LongRecord>, k: int, gid: usize, p: PieSpec) -> bool {
    &&& p.values@.len() == k
    &&& forall|j: int| 0 <= j < recs.len() && (#[trigger] recs[j]).group == gid ==> {
        &&& p.cx == pixel_of(f, recs[j].x as int, f.x_start as int)
        &&& p.cy == pixel_of(f, recs[j].y as int, f.y_start as int)
        &&& p.values@[recs[j].category as int] == recs[j].value
    }
}

/// Every record lies inside the frame's raw box.
pub open spec fn inside(f: Frame, recs: Seq<LongRecord>) -> bool {
    forall|i: int| 0 <= i < recs.len() ==> f.extent.x_min <= (#[trigger] recs[i]).x <= f.extent.x_max
        && f.extent.y_min <= recs[i].y <= f.extent.y_max
}

/// Whether the id is among the first `n` of `ids`.
fn contains_id(ids: &Vec<usize>, gid: usize) -> (r: bool)
    ensures
        r == ids@.contains(gid),
{
    let mut i: usize = 0;
    while i < ids.len()
        invariant
            i <= ids@.len(),
            forall|j: int| 0 <= j < i ==> ids@[j] != gid,
        decreases ids@.len() - i,
    {
        if ids[i] == gid {
            return true;
        }
        i = i + 1;
    }
    false
}

/// The distinct group ids in order of first appearance, each with the index
/// of a record of that group.
pub fn group_ids(recs: &Vec<LongRecord>) -> (r: (Vec<usize>, Vec<usize>))
    ensures
        r.0@ == ids_of(recs@, recs@.len() as int),
        r.1@.len() == r.0@.len(),
        forall|g: int| 0 <= g < r.0@.len() ==> #[trigger] r.1@[g] < recs@.len() && recs@[r.1@[g] as int].group == r.0@[g],
        forall|i: int| 0 <= i < recs@.len() ==> r.0@.contains(#[trigger] recs@[i].group),
{
    let mut ids: Vec<usize> = Vec::new();
    let mut firsts: Vec<usize> = Vec::new();
    let mut i: usize = 0;
    while i < recs.len()
        invariant
            i <= recs@.len(),
            ids@ == ids_of(recs@, i as int),
            firsts@.len() == ids@.len(),
            forall|g: int| 0 <= g < ids@.len() ==> #[trigger] firsts@[g] < recs@.len() && recs@[firsts@[g] as int].group == ids@[g],
            forall|j: int| 0 <= j < i ==> ids@.contains(#[trigger] recs@[j].group),
        decreases recs@.len() - i,
    {
        let gid = recs[i].group;
        if !contains_id(&ids, gid) {
            let ghost old_ids = ids@;
            ids.push(gid);
            firsts.push(i);
            proof {
                assert forall|j: int| 0 <= j < i + 1 implies ids@.contains(#[trigger] recs@[j].group) by {
                    if j < i {
                        let w = choose|w: int| 0 <= w < old_ids.len() && old_ids[w] == recs@[j].group;
                        assert(ids@[w] == recs@[j].group);
                    } else {
                        assert(ids@[old_ids.len() as int] == gid);
                    }
                }
            }
        }
        i = i + 1;
    }
    (ids, firsts)
}

/// The pie of group `gid`, whose record `first` is one; `DataError` when the
/// group's records disagree on the point, name a category beyond `k`, or
/// miss or repeat one.
pub fn group_pie(recs: &Vec<LongRecord>, k: usize, gid: usize, first: usize, f: &Frame) -> (r: Result<PieSpec, LayoutError>)
    requires
        f.wf(),
        inside(*f, recs@),
        first < recs@.len(),
        recs@[first as int].group == gid,
    ensures
        r is Ok <==> group_ok(recs@, k as int, gid),
        r is Err ==> r->Err_0 == LayoutError::DataError,
        r is Ok ==> pie_ok(*f, recs@, k as int, gid, r->Ok_0),
{
    let n = recs.len();
    let x0 = recs[first].x;
    let y0 = recs[first].y;
    let mut slots: Vec<i64> = Vec::new();
    let mut filled: Vec<bool> = Vec::new();
    let mut c: usize = 0;
    while c < k
        invariant
            c <= k,
            slots@.len() == c,
            filled@.len() == c,
            forall|d: int| 0 <= d < c ==> !(#[trigger] filled@[d]),
        decreases k - c,
    {
        slots.push(0);
        filled.push(false);
        c = c + 1;
    }
    let mut j: usize = 0;
    while j < n
        invariant
            j <= n,
            n == recs@.len(),
            x0 == recs@[first as int].x,
            y0 == recs@[first as int].y,
            first < n,
            recs@[first as int].group == gid,
            slots@.len() == k,
            filled@.len() == k,
            forall|i: int| 0 <= i < j && (#[trigger] recs@[i]).group == gid ==>
                recs@[i].category < k && recs@[i].x == x0 && recs@[i].y == y0
                && filled@[recs@[i].category as int] && slots@[recs@[i].category as int] == recs@[i].value,
            forall|d: int| 0 <= d < k && #[trigger] filled@[d] ==> exists|i: int| 0 <= i < j
                && (#[trigger] recs@[i]).group == gid && recs@[i].category == d,
            forall|a: int, b: int| 0 <= a < j && 0 <= b < j && a != b
                && (#[trigger] recs@[a]).group == gid && (#[trigger] recs@[b]).group == gid ==>
                recs@[a].category != recs@[b].category,
        decreases n - j,
    {
        let rec = recs[j];
        if rec.group == gid {
            if rec.category >= k {
                return Err(LayoutError::DataError);
            }
            if rec.x != x0 || rec.y != y0 {
                proof {
                    assert(recs@[j as int].group == gid && recs@[first as int].group == gid);
                }
                return Err(LayoutError::DataError);
            }
            if filled[rec.category] {
                proof {
                    let d = rec.category as int;
                    let w = choose|i: int| 0 <= i < j && (#[trigger] recs@[i]).group == gid && recs@[i].category == d;
                    assert(recs@[w].group == gid && recs@[j as int].group == gid && w != j);
                }
                return Err(LayoutError::DataError);
            }
            let ghost old_filled = filled@;
            let ghost old_slots = slots@;
            filled.set(rec.category, true);
            slots.set(rec.category, rec.value);
            proof {
                assert forall|i: int| 0 <= i < j + 1 && (#[trigger] recs@[i]).group == gid implies
                    recs@[i].category < k && recs@[i].x == x0 && recs@[i].y == y0
                    && filled@[recs@[i].category as int] && slots@[recs@[i].category as int] == recs@[i].value by {
                    if i < j {
                        assert(old_filled[recs@[i].category as int]);
                        assert(recs@[i].category != rec.category);
                    }
                }
                assert forall|d: int| 0 <= d < k && #[trigger] filled@[d] implies exists|i: int| 0 <= i < j + 1
                    && (#[trigger] recs@[i]).group == gid && recs@[i].category == d by {
                    if d == rec.category as int {
                        assert(recs@[j as int].group == gid);
                    } else {
                        assert(old_filled[d]);
                        let w = choose|i: int| 0 <= i < j && (#[trigger] recs@[i]).group == gid && recs@[i].category == d;
                        assert(recs@[w].group == gid);
                    }
                }
                assert forall|a: int, b: int| 0 <= a < j + 1 && 0 <= b < j + 1 && a != b
                    && (#[trigger] recs@[a]).group == gid && (#[trigger] recs@[b]).group == gid implies
                    recs@[a].category != recs@[b].category by {
                    if a == j {
                        assert(old_filled[recs@[b].category as int]);
                    } else if b == j {
                        assert(old_filled[recs@[a].category as int]);
                    }
                }
            }
        }
        j = j + 1;
    }
    let mut c: usize = 0;
    while c < k
        invariant
            c <= k,
            n == recs@.len(),
            f.wf(),
            inside(*f, recs@),
            x0 == recs@[first as int].x,
            y0 == recs@[first as int].y,
            first < n,
            recs@[first as int].group == gid,
            slots@.len() == k,
            filled@.len() == k,
            forall|d: int| 0 <= d < c ==> #[trigger] filled@[d],
            forall|i: int| 0 <= i < n && (#[trigger] recs@[i]).group == gid ==>
                recs@[i].category < k && recs@[i].x == x0 && recs@[i].y == y0
                && filled@[recs@[i].category as int] && slots@[recs@[i].category as int] == recs@[i].value,
            forall|d: int| 0 <= d < k && #[trigger] filled@[d] ==> exists|i: int| 0 <= i < n
                && (#[trigger] recs@[i]).group == gid && recs@[i].category == d,
            forall|a: int, b: int| 0 <= a < n && 0 <= b < n && a != b
                && (#[trigger] recs@[a]).group == gid && (#[trigger] recs@[b]).group == gid ==>
                recs@[a].category != recs@[b].category,
        decreases k - c,
    {
        if !filled[c] {
            proof {
                assert forall|i: int| 0 <= i < n && (#[trigger] recs@[i]).group == gid implies recs@[i].category != c by {
                    assert(filled@[recs@[i].category as int]);
                }
                assert(!has_category(recs@, gid, c as int));
            }
            return Err(LayoutError::DataError);
        }
        c = c + 1;
    }
    proof {
        assert forall|d: int| 0 <= d < k implies #[trigger] has_category(recs@, gid, d) by {
            assert(filled@[d]);
        }
        assert(f.extent.x_min <= recs@[first as int].x <= f.extent.x_max);
    }
    let cx = pixel(f, x0, true);
    let cy = pixel(f, y0, false);
    Ok(PieSpec { cx, cy, values: slots })
}

/// Builds one pie per group, in order of first appearance; `DataError` when
/// some group does not describe one point with `k` categories.
pub fn layout(recs: &Vec<LongRecord>, k: usize, f: &Frame) -> (r: Result<Vec<PieSpec>, LayoutError>)
    requires
        f.wf(),
        inside(*f, recs@),
    ensures
        r is Ok <==> well_grouped(recs@, k as int),
        r is Err ==> r->Err_0 == LayoutError::DataError,
        r is Ok ==> r->Ok_0@.len() == ids_of(recs@, recs@.len() as int).len() && forall|g: int| 0 <= g < r->Ok_0@.len() ==>
            pie_ok(*f, recs@, k as int, ids_of(recs@, recs@.len() as int)[g], #[trigger] r->Ok_0@[g]),
{
    let (ids, firsts) = group_ids(recs);
    let mut pies: Vec<PieSpec> = Vec::new();
    let mut g: usize = 0;
    while g < ids.len()
        invariant
            g <= ids@.len(),
            ids@ == ids_of(recs@, recs@.len() as int),
            firsts@.len() == ids@.len(),
            forall|h: int| 0 <= h < ids@.len() ==> #[trigger] firsts@[h] < recs@.len() && recs@[firsts@[h] as int].group == ids@[h],
            forall|i: int| 0 <= i < recs@.len() ==> ids@.contains(#[trigger] recs@[i].group),
            f.wf(),
            inside(*f, recs@),
            pies@.len() == g,
            forall|h: int| 0 <= h < g ==> group_ok(recs@, k as int, #[trigger] ids@[h]),
            forall|h: int| 0 <= h < g ==> pie_ok(*f, recs@, k as int, ids@[h], #[trigger] pies@[h]),
        decreases ids@.len() - g,
    {
        assert(firsts@[g as int] < recs@.len());
        let p = match group_pie(recs, k, ids[g], firsts[g], f) {
            Ok(p) => p,
            Err(e) => {
                proof {
                    let i = firsts@[g as int] as int;
                    assert(!group_ok(recs@, k as int, recs@[i].group));
                }
                return Err(e);
            },
        };
        pies.push(p);
        g = g + 1;
    }
    proof {
        assert forall|i: int| 0 <= i < recs@.len() implies group_ok(recs@, k as int, (#[trigger] recs@[i]).group) by {
            assert(ids@.contains(recs@[i].group));
            let h = choose|h: int| 0 <= h < ids@.len() && ids@[h] == recs@[i].group;
            assert(group_ok(recs@, k as int, ids@[h]));
        }
    }
    Ok(pies)
}

} // verus!
