//! Vertical aggregation over columns whose entries are fixed-width sequences
//! of scalars: sum, mean, minimum, maximum and row-to-row difference, computed
//! across rows position by position, with width validation, output types and
//! conversion between the variable and fixed-width encodings.

pub mod types;
pub mod consensus;
pub mod arith;
pub mod normalize;
pub mod schema;
pub mod reduce;
pub mod laws;

pub use types::{AggError, ColumnType, Encoding, IntKind, MeanValue, ScalarKind, SeqColumn};
