//! The column model: element kinds, physical encodings, rows and errors.

use vstd::prelude::*;

verus! {

/// Integer element kinds, by signedness and width.
#[derive(Clone, Copy, Debug, PartialEq, Eq, Structural)]
pub enum IntKind {
    Int8,
    Int16,
    Int32,
    Int64,
    UInt8,
    UInt16,
    UInt32,
    UInt64,
}

/// The scalar kind stored at each position of a row.
#[derive(Clone, Copy, Debug, PartialEq, Eq, Structural)]
pub enum ScalarKind {
    Int(IntKind),
    Float32,
    Float64,
}

/// The declared type of a column, before any data is read.
#[derive(Clone, Copy, Debug, PartialEq, Eq, Structural)]
pub enum ColumnType {
    /// Variable-length sequences of the given scalar kind.
    List(ScalarKind),
    /// Sequences of one declared width of the given scalar kind.
    Array(ScalarKind, usize),
    /// Anything that is not a sequence of scalars.
    Other,
}

/// The physical encoding of a sequence column.
#[derive(Clone, Copy, Debug, PartialEq, Eq, Structural)]
pub enum Encoding {
    Variable,
    Fixed(usize),
}

/// Why an aggregation was refused.
#[derive(Clone, Copy, Debug, PartialEq, Eq, Structural)]
pub enum AggError {
    /// The column is not a sequence-of-scalars column.
    TypeError(ColumnType),
    /// A present row's width differs from the width fixed by the first present row.
    LengthMismatch { expected: usize, actual: usize },
}

/// A floating-point mean held exactly: the sum of the scalars at a position
/// and how many there were. Its value is `sum / count`, which is not a number
/// when `count` is zero.
#[derive(Clone, Copy, Debug, PartialEq, Eq, Structural)]
pub struct MeanValue {
    pub sum: i128,
    pub count: usize,
}

/// A column of rows; a row is absent (`None`) or a sequence of scalars, each
/// of which may itself be missing.
pub struct SeqColumn<T> {
    pub kind: ScalarKind,
    pub encoding: Encoding,
    pub rows: Vec<Option<Vec<Option<T>>>>,
}

/// The mathematical value of one row.
pub open spec fn row_view<T>(r: Option<Vec<Option<T>>>) -> Option<Seq<Option<T>>> {
    match r {
        Some(v) => Some(v@),
        None => None,
    }
}

/// The rows of a column as nested sequences.
pub open spec fn grid<T>(rows: Seq<Option<Vec<Option<T>>>>) -> Seq<Option<Seq<Option<T>>>> {
    rows.map_values(|r: Option<Vec<Option<T>>>| row_view(r))
}

impl<T> View for SeqColumn<T> {
    type V = Seq<Option<Seq<Option<T>>>>;

    open spec fn view(&self) -> Seq<Option<Seq<Option<T>>>> {
        grid(self.rows@)
    }
}

/// A fixed-encoded column's declared width matches every present row.
pub open spec fn well_formed<T>(encoding: Encoding, g: Seq<Option<Seq<Option<T>>>>) -> bool {
    match encoding {
        Encoding::Fixed(w) => forall|i: int|
            0 <= i < g.len() && #[trigger] g[i] is Some ==> g[i]->0.len() == w,
        Encoding::Variable => true,
    }
}

impl<T> SeqColumn<T> {
    pub open spec fn wf(&self) -> bool {
        well_formed(self.encoding, self@)
    }
}

} // verus!
