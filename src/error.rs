use vstd::prelude::*;

verus! {

/// Why a chart could not be laid out. Every failure aborts the whole layout.
#[derive(Clone, Copy, Debug, PartialEq, Eq, Structural)]
pub enum LayoutError {
    /// A requested column name is absent from the table.
    SchemaError,
    /// A column holds a value that cannot be read as a number.
    TypeError,
    /// The data cannot be laid out: an empty table, a missing value,
    /// a group whose records disagree.
    DataError,
    /// The configuration cannot be used: no categories, a ratio outside
    /// the open unit interval, an extent of zero width.
    ConfigError,
}

} // verus!
