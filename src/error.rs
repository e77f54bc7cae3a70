use vstd::prelude::*;

verus! {

/// A part of a statement that queries do not support.
#[derive(Clone, Copy, Debug, PartialEq, Eq, Structural)]
pub enum Unsupported {
    /// The text holds no statement, or more than one.
    StatementCount,
    /// The statement is not a query.
    NotAQuery,
    /// The query body is not a plain `SELECT`.
    NotASelect,
    Fetch,
    Limit,
    With,
    Offset,
    OrderBy,
    /// A `FROM` item that is not a plain section name.
    FromItem,
    /// A projection item that is not a bare column name.
    Projection,
}

/// Why a query failed.
#[derive(Clone, Debug, PartialEq, Eq)]
pub enum QueryError {
    /// The query text is not valid SQL; holds the parser's message.
    Parse(String),
    /// The statement uses a shape that queries do not support.
    Translation(Unsupported),
    /// The document has no section of this name.
    Lookup(String),
    /// Output row `row` has a field that no section filled.
    Assembly { row: usize },
}

} // verus!
