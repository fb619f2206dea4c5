//! Conversion between the fixed-width and the variable-length encodings of a
//! sequence column. Both encodings hold their rows the same way here, so the
//! conversion relabels the column and, towards the fixed encoding, derives and
//! checks the width from the data.

use vstd::prelude::*;
use crate::consensus::{check_rows, validation};
use crate::types::{AggError, Encoding, SeqColumn};

verus! {

/// The encoding a column gets back after an operation: a variable column stays
/// variable; a fixed one takes the width of its rows, or keeps its declared
/// width when no row is present.
pub open spec fn refit(enc: Encoding, w: Option<nat>) -> Encoding {
    match enc {
        Encoding::Variable => Encoding::Variable,
        Encoding::Fixed(x) => match w {
            Some(n) => Encoding::Fixed(n as usize),
            None => Encoding::Fixed(x),
        },
    }
}

/// `col` with its encoding replaced by `enc`.
pub open spec fn relabeled<T>(col: SeqColumn<T>, enc: Encoding) -> SeqColumn<T> {
    SeqColumn { kind: col.kind, encoding: enc, rows: col.rows }
}

pub open spec fn to_variable_spec<T>(col: SeqColumn<T>) -> (SeqColumn<T>, Encoding) {
    (relabeled(col, Encoding::Variable), col.encoding)
}

pub open spec fn from_variable_spec<T>(col: SeqColumn<T>, enc: Encoding) -> Result<
    SeqColumn<T>,
    AggError,
> {
    match enc {
        Encoding::Variable => Ok(relabeled(col, Encoding::Variable)),
        Encoding::Fixed(_) => match validation(col@) {
            Err(e) => Err(e),
            Ok(w) => Ok(relabeled(col, refit(enc, w))),
        },
    }
}

/// Gives a column the variable encoding, and returns the encoding it had.
pub fn to_variable<T>(col: SeqColumn<T>) -> (r: (SeqColumn<T>, Encoding))
    ensures
        r == to_variable_spec(col),
{
    let enc = col.encoding;
    (SeqColumn { kind: col.kind, encoding: Encoding::Variable, rows: col.rows }, enc)
}

/// Gives a column the encoding `enc`. Towards the fixed encoding the width is
/// taken from the rows, which must agree on it.
pub fn from_variable<T>(col: SeqColumn<T>, enc: Encoding) -> (r: Result<SeqColumn<T>, AggError>)
    ensures
        r == from_variable_spec(col, enc),
{
    match enc {
        Encoding::Variable => Ok(SeqColumn { kind: col.kind, encoding: Encoding::Variable, rows: col.rows }),
        Encoding::Fixed(x) => {
            let width = match check_rows(&col.rows) {
                Err(e) => {
                    return Err(e);
                },
                Ok(Some(n)) => n,
                Ok(None) => x,
            };
            Ok(SeqColumn { kind: col.kind, encoding: Encoding::Fixed(width), rows: col.rows })
        },
    }
}

} // verus!
