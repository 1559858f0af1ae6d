use vstd::prelude::*;
use vstd::string::*;
use crate::error::LayoutError;

verus! {

/// One cell of an input table: a number, or text that is not one.
#[derive(Clone, Debug)]
pub enum Cell {
    Num(i64),
    Text(String),
}

/// A named column of cells.
#[derive(Clone, Debug)]
pub struct Column {
    pub name: String,
    pub cells: Vec<Cell>,
}

/// A table whose columns all hold `n_rows` cells.
#[derive(Clone, Debug)]
pub struct Table {
    pub columns: Vec<Column>,
    pub n_rows: usize,
}

impl Table {
    pub open spec fn wf(&self) -> bool {
        forall|c: int| 0 <= c < self.columns@.len() ==> #[trigger] self.columns@[c].cells@.len() == self.n_rows
    }

    /// Builds a table; fails with `DataError` when the columns differ in length.
    pub fn new(columns: Vec<Column>, n_rows: usize) -> (r: Result<Table, LayoutError>)
        ensures
            r is Ok <==> (forall|c: int| 0 <= c < columns@.len() ==> #[trigger] columns@[c].cells@.len() == n_rows),
            r is Ok ==> r->Ok_0.wf() && r->Ok_0.columns@ == columns@ && r->Ok_0.n_rows == n_rows,
            r is Err ==> r->Err_0 == LayoutError::DataError,
    {
        let mut c: usize = 0;
        while c < columns.len()
            invariant
                c <= columns@.len(),
                forall|k: int| 0 <= k < c ==> #[trigger] columns@[k].cells@.len() == n_rows,
            decreases columns@.len() - c,
        {
            if columns[c].cells.len() != n_rows {
                return Err(LayoutError::DataError);
            }
            c = c + 1;
        }
        Ok(Table { columns, n_rows })
    }
}

/// The number held by a cell, if it holds one.
pub open spec fn cell_value(c: Cell) -> Option<i64> {
    match c {
        Cell::Num(v) => Some(v),
        Cell::Text(_) => None,
    }
}

/// Whether every cell of the sequence holds a number.
pub open spec fn all_numeric(cells: Seq<Cell>) -> bool {
    forall|i: int| 0 <= i < cells.len() ==> #[trigger] cell_value(cells[i]) is Some
}

/// Whether some column of the table carries the name.
pub open spec fn has_column(t: Table, name: Seq<char>) -> bool {
    exists|c: int| 0 <= c < t.columns@.len() && #[trigger] t.columns@[c].name@ == name
}

/// Compares two strings character by character.
pub fn names_equal(a: &str, b: &str) -> (r: bool)
    ensures
        r == (a@ == b@),
{
    let n = a.unicode_len();
    if n != b.unicode_len() {
        return false;
    }
    let mut i: usize = 0;
    while i < n
        invariant
            i <= n,
            n == a@.len(),
            n == b@.len(),
            forall|k: int| 0 <= k < i ==> a@[k] == b@[k],
        decreases n - i,
    {
        if a.get_char(i) != b.get_char(i) {
            return false;
        }
        i = i + 1;
    }
    assert(a@ =~= b@);
    true
}

/// The index of the first column with the given name; `SchemaError` when
/// there is none.
pub fn find_column(t: &Table, name: &str) -> (r: Result<usize, LayoutError>)
    ensures
        r is Ok <==> has_column(*t, name@),
        r is Ok ==> is_first_named(*t, name@, r->Ok_0 as int) && r->Ok_0 == column_of(*t, name@),
        r is Err ==> r->Err_0 == LayoutError::SchemaError,
{
    let mut c: usize = 0;
    while c < t.columns.len()
        invariant
            c <= t.columns@.len(),
            forall|k: int| 0 <= k < c ==> #[trigger] t.columns@[k].name@ != name@,
        decreases t.columns@.len() - c,
    {
        if names_equal(t.columns[c].name.as_str(), name) {
            proof {
                lemma_first_named_unique(*t, name@, c as int);
            }
            return Ok(c);
        }
        c = c + 1;
    }
    Err(LayoutError::SchemaError)
}

/// The numbers of a column; `TypeError` when one of its cells is text.
pub fn numeric_column(col: &Column) -> (r: Result<Vec<i64>, LayoutError>)
    ensures
        r is Ok <==> all_numeric(col.cells@),
        r is Ok ==> r->Ok_0@ == col.cells@.map_values(|c: Cell| cell_value(c)->Some_0),
        r is Err ==> r->Err_0 == LayoutError::TypeError,
{
    let mut out: Vec<i64> = Vec::new();
    let mut i: usize = 0;
    while i < col.cells.len()
        invariant
            i <= col.cells@.len(),
            forall|k: int| 0 <= k < i ==> #[trigger] cell_value(col.cells@[k]) is Some,
            out@ == col.cells@.subrange(0, i as int).map_values(|c: Cell| cell_value(c)->Some_0),
        decreases col.cells@.len() - i,
    {
        match &col.cells[i] {
            Cell::Num(v) => {
                out.push(*v);
            },
            Cell::Text(_) => {
                return Err(LayoutError::TypeError);
            },
        }
        proof {
            assert(col.cells@.subrange(0, i + 1).map_values(|c: Cell| cell_value(c)->Some_0)
                =~= col.cells@.subrange(0, i as int).map_values(|c: Cell| cell_value(c)->Some_0).push(cell_value(col.cells@[i as int])->Some_0));
        }
        i = i + 1;
    }
    assert(col.cells@.subrange(0, i as int) =~= col.cells@);
    Ok(out)
}

} // verus!

verus! {

/// Column `c` is the first one that carries the name.
pub open spec fn is_first_named(t: Table, name: Seq<char>, c: int) -> bool {
    &&& 0 <= c < t.columns@.len()
    &&& t.columns@[c].name@ == name
    &&& forall|k: int| 0 <= k < c ==> #[trigger] t.columns@[k].name@ != name
}

/// The index of the first column that carries the name.
pub open spec fn column_of(t: Table, name: Seq<char>) -> int {
    choose|c: int| is_first_named(t, name, c)
}

/// The numbers of the first column that carries the name.
pub open spec fn column_numbers(t: Table, name: Seq<char>) -> Seq<i64> {
    t.columns@[column_of(t, name)].cells@.map_values(|c: Cell| cell_value(c)->Some_0)
}

/// Whether the first column that carries the name holds only numbers.
pub open spec fn column_numeric(t: Table, name: Seq<char>) -> bool {
    all_numeric(t.columns@[column_of(t, name)].cells@)
}

pub proof fn lemma_first_named_unique(t: Table, name: Seq<char>, c: int)
    requires
        is_first_named(t, name, c),
    ensures
        column_of(t, name) == c,
{
    let d = column_of(t, name);
    assert(is_first_named(t, name, d));
    if d < c {
        assert(t.columns@[d].name@ != name);
    } else if c < d {
        assert(t.columns@[c].name@ != name);
    }
}

} // verus!
