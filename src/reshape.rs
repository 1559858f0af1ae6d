use vstd::prelude::*;
use crate::error::LayoutError;
use crate::table::{Cell, names_equal, Table, find_column, numeric_column, has_column, column_numbers, column_numeric, column_of};

verus! {

/// One (point, category) pair of a long table.
#[derive(Clone, Copy, Debug, PartialEq, Eq, Structural)]
pub struct LongRecord {
    /// The row of the wide table that the record comes from.
    pub group: usize,
    pub x: i64,
    pub y: i64,
    /// The position of the category in the declared category list.
    pub category: usize,
    pub value: i64,
}

/// The long form of a wide table with coordinates `xs`, `ys` and one value
/// sequence per category: row-major, one record per (row, category).
pub open spec fn long_table(xs: Seq<i64>, ys: Seq<i64>, cols: Seq<Seq<i64>>) -> Seq<LongRecord> {
    let k = cols.len();
    Seq::new(xs.len() * k, |i: int| LongRecord {
        group: (i / k as int) as usize,
        x: xs[i / k as int],
        y: ys[i / k as int],
        category: (i % k as int) as usize,
        value: cols[i % k as int][i / k as int],
    })
}

/// Unpivots numeric columns: record `i * k + c` holds row `i` and category `c`.
pub fn unpivot(xs: &Vec<i64>, ys: &Vec<i64>, cols: &Vec<Vec<i64>>) -> (r: Vec<LongRecord>)
    requires
        ys@.len() == xs@.len(),
        forall|c: int| 0 <= c < cols@.len() ==> #[trigger] cols@[c]@.len() == xs@.len(),
        xs@.len() * cols@.len() <= usize::MAX,
    ensures
        r@ == long_table(xs@, ys@, cols@.map_values(|v: Vec<i64>| v@)),
{
    let n = xs.len();
    let k = cols.len();
    let ghost spec_cols = cols@.map_values(|v: Vec<i64>| v@);
    let mut out: Vec<LongRecord> = Vec::new();
    let mut i: usize = 0;
    while i < n
        invariant
            i <= n,
            n == xs@.len(),
            n == ys@.len(),
            k == cols@.len(),
            n * k <= usize::MAX,
            spec_cols == cols@.map_values(|v: Vec<i64>| v@),
            forall|c: int| 0 <= c < cols@.len() ==> #[trigger] cols@[c]@.len() == xs@.len(),
            out@ == long_table(xs@, ys@, spec_cols).subrange(0, i * k),
        decreases n - i,
    {
        proof {
            assert((i + 1) * k <= n * k) by (nonlinear_arith)
                requires i + 1 <= n;
            assert((i + 1) * k == i * k + k) by (nonlinear_arith);
        }
        let mut c: usize = 0;
        while c < k
            invariant
                i < n,
                c <= k,
                n == xs@.len(),
                n == ys@.len(),
                k == cols@.len(),
                (i + 1) * k <= n * k,
                (i + 1) * k == i * k + k,
                n * k <= usize::MAX,
                spec_cols == cols@.map_values(|v: Vec<i64>| v@),
                forall|c: int| 0 <= c < cols@.len() ==> #[trigger] cols@[c]@.len() == xs@.len(),
                out@ == long_table(xs@, ys@, spec_cols).subrange(0, i * k + c),
            decreases k - c,
        {
            let rec = LongRecord { group: i, x: xs[i], y: ys[i], category: c, value: cols[c][i] };
            proof {
                let j = i * k + c;
                assert(j / (k as int) == i && j % (k as int) == c) by (nonlinear_arith)
                    requires j == i * k + c, c < k;
                assert(j < n * k);
                assert(long_table(xs@, ys@, spec_cols)[j] == rec);
                assert(long_table(xs@, ys@, spec_cols).subrange(0, j + 1)
                    =~= long_table(xs@, ys@, spec_cols).subrange(0, j).push(rec));
            }
            out.push(rec);
            c = c + 1;
        }
        i = i + 1;
    }
    assert(long_table(xs@, ys@, spec_cols).subrange(0, n * k) =~= long_table(xs@, ys@, spec_cols));
    out
}

/// A long table has one record per (row, category), and each record's group
/// carries exactly the coordinates of the row it was made from.
pub proof fn lemma_long_table_shape(xs: Seq<i64>, ys: Seq<i64>, cols: Seq<Seq<i64>>, i: int)
    requires
        ys.len() == xs.len(),
        xs.len() <= usize::MAX,
        cols.len() > 0,
        0 <= i < long_table(xs, ys, cols).len(),
    ensures
        long_table(xs, ys, cols).len() == xs.len() * cols.len(),
        0 <= long_table(xs, ys, cols)[i].group < xs.len(),
        long_table(xs, ys, cols)[i].x == xs[long_table(xs, ys, cols)[i].group as int],
        long_table(xs, ys, cols)[i].y == ys[long_table(xs, ys, cols)[i].group as int],
{
    let k = cols.len() as int;
    assert(0 <= i / k < xs.len()) by (nonlinear_arith)
        requires 0 <= i < xs.len() * k, k > 0;
}

} // verus!

verus! {

/// Whether the table has the coordinate columns and every category column.
pub open spec fn all_present(t: Table, x: Seq<char>, y: Seq<char>, vars: Seq<String>) -> bool {
    &&& has_column(t, x)
    &&& has_column(t, y)
    &&& forall|v: int| 0 <= v < vars.len() ==> has_column(t, #[trigger] vars[v]@)
}

/// Whether the coordinate columns and every category column hold only numbers.
pub open spec fn all_selected_numeric(t: Table, x: Seq<char>, y: Seq<char>, vars: Seq<String>) -> bool {
    &&& column_numeric(t, x)
    &&& column_numeric(t, y)
    &&& forall|v: int| 0 <= v < vars.len() ==> column_numeric(t, #[trigger] vars[v]@)
}

/// The long table made from the named columns of a wide table.
pub open spec fn reshaped(t: Table, x: Seq<char>, y: Seq<char>, vars: Seq<String>) -> Seq<LongRecord> {
    long_table(column_numbers(t, x), column_numbers(t, y), vars.map_values(|v: String| column_numbers(t, v@)))
}

/// Turns a wide table (one row per point, one column per category) into a
/// long one, with group `i` for row `i`.
pub fn reshape_wide(t: &Table, x: &str, y: &str, vars: &Vec<String>) -> (r: Result<Vec<LongRecord>, LayoutError>)
    requires
        t.wf(),
        t.n_rows * vars@.len() <= usize::MAX,
    ensures
        (r == Err::<Vec<LongRecord>, LayoutError>(LayoutError::SchemaError)) <==> !all_present(*t, x@, y@, vars@),
        all_present(*t, x@, y@, vars@) ==> ((r == Err::<Vec<LongRecord>, LayoutError>(LayoutError::TypeError))
            <==> !all_selected_numeric(*t, x@, y@, vars@)),
        r is Ok ==> r->Ok_0@ == reshaped(*t, x@, y@, vars@),
        r is Err ==> r->Err_0 == LayoutError::SchemaError || r->Err_0 == LayoutError::TypeError,
{
    let cx = match find_column(t, x) {
        Ok(c) => c,
        Err(e) => { return Err(e); },
    };
    let cy = match find_column(t, y) {
        Ok(c) => c,
        Err(e) => { return Err(e); },
    };
    let mut idx: Vec<usize> = Vec::new();
    let mut v: usize = 0;
    while v < vars.len()
        invariant
            v <= vars@.len(),
            idx@.len() == v,
            forall|j: int| 0 <= j < v ==> #[trigger] idx@[j] == column_of(*t, vars@[j]@)
                && has_column(*t, vars@[j]@) && idx@[j] < t.columns@.len(),
        decreases vars@.len() - v,
    {
        let name: &str = vars[v].as_str();
        assert(name@ == vars@[v as int]@);
        let c = match find_column(t, name) {
            Ok(c) => c,
            Err(e) => {
                assert(!has_column(*t, vars@[v as int]@));
                assert(!all_present(*t, x@, y@, vars@));
                return Err(e);
            },
        };
        let ghost old_idx = idx@;
        idx.push(c);
        proof {
            assert(has_column(*t, vars@[v as int]@));
            assert forall|j: int| 0 <= j < v + 1 implies #[trigger] idx@[j] == column_of(*t, vars@[j]@)
                && has_column(*t, vars@[j]@) && idx@[j] < t.columns@.len() by {
                if j < v {
                    assert(idx@[j] == old_idx[j]);
                }
            }
        }
        v = v + 1;
    }
    assert forall|j: int| 0 <= j < vars@.len() implies has_column(*t, #[trigger] vars@[j]@) by {
        assert(idx@[j] == column_of(*t, vars@[j]@));
    }
    assert(all_present(*t, x@, y@, vars@));
    let xs = numeric_column(&t.columns[cx])?;
    let ys = numeric_column(&t.columns[cy])?;
    let mut cols: Vec<Vec<i64>> = Vec::new();
    let mut v: usize = 0;
    while v < vars.len()
        invariant
            v <= vars@.len(),
            t.wf(),
            all_present(*t, x@, y@, vars@),
            idx@.len() == vars@.len(),
            forall|j: int| 0 <= j < vars@.len() ==> #[trigger] idx@[j] == column_of(*t, vars@[j]@)
                && has_column(*t, vars@[j]@) && idx@[j] < t.columns@.len(),
            cols@.len() == v,
            forall|j: int| 0 <= j < v ==> column_numeric(*t, #[trigger] vars@[j]@),
            forall|j: int| 0 <= j < v ==> (#[trigger] cols@[j])@ == column_numbers(*t, vars@[j]@),
            forall|j: int| 0 <= j < v ==> (#[trigger] cols@[j])@.len() == t.n_rows,
        decreases vars@.len() - v,
    {
        let vals = numeric_column(&t.columns[idx[v]])?;
        cols.push(vals);
        v = v + 1;
    }
    assert(cols@.map_values(|w: Vec<i64>| w@) =~= vars@.map_values(|w: String| column_numbers(*t, w@)));
    Ok(unpivot(&xs, &ys, &cols))
}

} // verus!

verus! {

/// Category `c` is the first in the list with the given name.
pub open spec fn is_first_var(vars: Seq<String>, name: Seq<char>, c: int) -> bool {
    &&& 0 <= c < vars.len()
    &&& vars[c]@ == name
    &&& forall|k: int| 0 <= k < c ==> #[trigger] vars[k]@ != name
}

/// The category of a cell of a long table's category column, if the cell
/// names one of the categories.
pub open spec fn category_of(vars: Seq<String>, c: Cell) -> Option<int> {
    match c {
        Cell::Text(s) => if exists|k: int| is_first_var(vars, s@, k) {
            Some(choose|k: int| is_first_var(vars, s@, k))
        } else {
            None
        },
        Cell::Num(_) => None,
    }
}

/// The position of a category name in the list, if it is there.
fn find_var(vars: &Vec<String>, name: &str) -> (r: Option<usize>)
    ensures
        r is Some <==> exists|k: int| is_first_var(vars@, name@, k),
        r is Some ==> is_first_var(vars@, name@, r->Some_0 as int),
{
    let mut k: usize = 0;
    while k < vars.len()
        invariant
            k <= vars@.len(),
            forall|j: int| 0 <= j < k ==> #[trigger] vars@[j]@ != name@,
        decreases vars@.len() - k,
    {
        let v: &str = vars[k].as_str();
        assert(v@ == vars@[k as int]@);
        if names_equal(v, name) {
            assert(is_first_var(vars@, name@, k as int));
            return Some(k);
        }
        k = k + 1;
    }
    proof {
        assert forall|c: int| !is_first_var(vars@, name@, c) by {
            if 0 <= c < vars@.len() {
                assert(vars@[c]@ != name@);
            }
        }
    }
    None
}

/// The records of a long table: row `i` belongs to the group its id names,
/// with its coordinates, the category its category cell names, and its value.
pub open spec fn long_records(ids: Seq<i64>, xs: Seq<i64>, ys: Seq<i64>, cats: Seq<Cell>, vals: Seq<i64>,
    vars: Seq<String>) -> Seq<LongRecord>
{
    Seq::new(xs.len(), |i: int| LongRecord {
        group: ids[i] as usize,
        x: xs[i],
        y: ys[i],
        category: category_of(vars, cats[i])->Some_0 as usize,
        value: vals[i],
    })
}

/// Whether every row has a usable group id and a category cell that names
/// a category.
pub open spec fn all_known(ids: Seq<i64>, cats: Seq<Cell>, vars: Seq<String>) -> bool {
    &&& forall|i: int| 0 <= i < ids.len() ==> 0 <= #[trigger] ids[i] <= usize::MAX
    &&& forall|i: int| 0 <= i < cats.len() ==> #[trigger] category_of(vars, cats[i]) is Some
}

/// Reads a table that is already long: one row per (point, category), with
/// the point's group id in column `id_col`, the category's name in column
/// `var_col` and its value in `value_col`. `DataError` when an id is
/// negative or too large, or a category cell names no category.
pub fn reshape_long(t: &Table, x: &str, y: &str, id_col: &str, var_col: &str, value_col: &str, vars: &Vec<String>)
    -> (r: Result<Vec<LongRecord>, LayoutError>)
    requires
        t.wf(),
    ensures
        (r == Err::<Vec<LongRecord>, LayoutError>(LayoutError::SchemaError))
            <==> !(has_column(*t, x@) && has_column(*t, y@) && has_column(*t, id_col@) && has_column(*t, var_col@)
                && has_column(*t, value_col@)),
        r is Err ==> r->Err_0 == LayoutError::SchemaError || r->Err_0 == LayoutError::TypeError
            || r->Err_0 == LayoutError::DataError,
        has_column(*t, x@) && has_column(*t, y@) && has_column(*t, id_col@) && has_column(*t, var_col@)
            && has_column(*t, value_col@) ==> {
            &&& (r == Err::<Vec<LongRecord>, LayoutError>(LayoutError::TypeError))
                <==> !(column_numeric(*t, x@) && column_numeric(*t, y@) && column_numeric(*t, id_col@)
                    && column_numeric(*t, value_col@))
            &&& column_numeric(*t, x@) && column_numeric(*t, y@) && column_numeric(*t, id_col@)
                && column_numeric(*t, value_col@) ==> (
                (r == Err::<Vec<LongRecord>, LayoutError>(LayoutError::DataError))
                <==> !all_known(column_numbers(*t, id_col@), t.columns@[column_of(*t, var_col@)].cells@, vars@))
        },
        r is Ok ==> r->Ok_0@ == long_records(column_numbers(*t, id_col@), column_numbers(*t, x@), column_numbers(*t, y@),
            t.columns@[column_of(*t, var_col@)].cells@, column_numbers(*t, value_col@), vars@),
{
    let cx = match find_column(t, x) { Ok(c) => c, Err(e) => { return Err(e); } };
    let cy = match find_column(t, y) { Ok(c) => c, Err(e) => { return Err(e); } };
    let ci = match find_column(t, id_col) { Ok(c) => c, Err(e) => { return Err(e); } };
    let cc = match find_column(t, var_col) { Ok(c) => c, Err(e) => { return Err(e); } };
    let cv = match find_column(t, value_col) { Ok(c) => c, Err(e) => { return Err(e); } };
    let xs = match numeric_column(&t.columns[cx]) { Ok(v) => v, Err(e) => { return Err(e); } };
    let ys = match numeric_column(&t.columns[cy]) { Ok(v) => v, Err(e) => { return Err(e); } };
    let ids = match numeric_column(&t.columns[ci]) { Ok(v) => v, Err(e) => { return Err(e); } };
    let vals = match numeric_column(&t.columns[cv]) { Ok(v) => v, Err(e) => { return Err(e); } };
    let cats = &t.columns[cc].cells;
    let n = xs.len();
    let ghost spec_recs = long_records(ids@, xs@, ys@, cats@, vals@, vars@);
    let mut out: Vec<LongRecord> = Vec::new();
    let mut i: usize = 0;
    while i < n
        invariant
            i <= n,
            n == xs@.len(),
            n == ys@.len(),
            n == ids@.len(),
            n == vals@.len(),
            n == cats@.len(),
            spec_recs == long_records(ids@, xs@, ys@, cats@, vals@, vars@),
            has_column(*t, x@) && has_column(*t, y@) && has_column(*t, id_col@) && has_column(*t, var_col@)
                && has_column(*t, value_col@),
            column_numeric(*t, x@) && column_numeric(*t, y@) && column_numeric(*t, id_col@) && column_numeric(*t, value_col@),
            cats@ == t.columns@[column_of(*t, var_col@)].cells@,
            ids@ == column_numbers(*t, id_col@),
            forall|j: int| 0 <= j < i ==> #[trigger] category_of(vars@, cats@[j]) is Some,
            forall|j: int| 0 <= j < i ==> 0 <= #[trigger] ids@[j] <= usize::MAX,
            out@ == spec_recs.subrange(0, i as int),
        decreases n - i,
    {
        let id = ids[i];
        if id < 0 || id as u64 > usize::MAX as u64 {
            assert(!all_known(ids@, cats@, vars@));
            return Err(LayoutError::DataError);
        }
        let cat = match &cats[i] {
            Cell::Text(s) => find_var(vars, s.as_str()),
            Cell::Num(_) => None,
        };
        match cat {
            Some(c) => {
                proof {
                    if let Cell::Text(s) = cats@[i as int] {
                        let w = choose|j: int| is_first_var(vars@, s@, j);
                        if w < c { assert(vars@[w]@ != s@); }
                        if c < w { assert(vars@[c as int]@ != s@); }
                    }
                }
                let rec = LongRecord { group: id as usize, x: xs[i], y: ys[i], category: c, value: vals[i] };
                assert(spec_recs[i as int] == rec);
                out.push(rec);
                assert(out@ =~= spec_recs.subrange(0, i + 1));
            },
            None => {
                assert(category_of(vars@, cats@[i as int]) is None);
                assert(!all_known(ids@, cats@, vars@));
                return Err(LayoutError::DataError);
            },
        }
        i = i + 1;
    }
    assert(spec_recs.subrange(0, n as int) =~= spec_recs);
    Ok(out)
}

} // verus!
