//! Output types: what each operation yields, from the input's declared type
//! alone, so that a caller can plan without running the reduction.

use vstd::prelude::*;
use crate::types::{AggError, ColumnType, ScalarKind};

verus! {

/// The variable-length form of a sequence type.
pub open spec fn list_form(t: ColumnType) -> Result<ColumnType, AggError> {
    match t {
        ColumnType::Array(k, _) => Ok(ColumnType::List(k)),
        ColumnType::List(k) => Ok(ColumnType::List(k)),
        ColumnType::Other => Err(AggError::TypeError(t)),
    }
}

/// The output type of an operation that keeps the element kind and the shape.
pub open spec fn kind_kept(t: ColumnType) -> Result<ColumnType, AggError> {
    match t {
        ColumnType::Other => Err(AggError::TypeError(t)),
        _ => Ok(t),
    }
}

/// The output type of the mean: the same shape with 64-bit floating-point elements.
pub open spec fn kind_float(t: ColumnType) -> Result<ColumnType, AggError> {
    match t {
        ColumnType::List(_) => Ok(ColumnType::List(ScalarKind::Float64)),
        ColumnType::Array(_, w) => Ok(ColumnType::Array(ScalarKind::Float64, w)),
        ColumnType::Other => Err(AggError::TypeError(t)),
    }
}

/// The element kind of a sequence type.
pub open spec fn element_kind(t: ColumnType) -> Option<ScalarKind> {
    match t {
        ColumnType::List(k) => Some(k),
        ColumnType::Array(k, _) => Some(k),
        ColumnType::Other => None,
    }
}

/// The variable-length type for a sequence type; other types are refused.
pub fn ensure_list_type(t: ColumnType) -> (r: Result<ColumnType, AggError>)
    ensures
        r == list_form(t),
{
    match t {
        ColumnType::Array(k, _) => Ok(ColumnType::List(k)),
        ColumnType::List(k) => Ok(ColumnType::List(k)),
        ColumnType::Other => Err(AggError::TypeError(t)),
    }
}

fn same_type_output(t: ColumnType) -> (r: Result<ColumnType, AggError>)
    ensures
        r == kind_kept(t),
{
    match t {
        ColumnType::Other => Err(AggError::TypeError(t)),
        _ => Ok(t),
    }
}

/// Output type of the vertical sum.
pub fn list_sum_output_type(t: ColumnType) -> (r: Result<ColumnType, AggError>)
    ensures
        r == kind_kept(t),
{
    same_type_output(t)
}

/// Output type of the vertical minimum.
pub fn list_min_output_type(t: ColumnType) -> (r: Result<ColumnType, AggError>)
    ensures
        r == kind_kept(t),
{
    same_type_output(t)
}

/// Output type of the vertical maximum.
pub fn list_max_output_type(t: ColumnType) -> (r: Result<ColumnType, AggError>)
    ensures
        r == kind_kept(t),
{
    same_type_output(t)
}

/// Output type of the row-to-row difference.
pub fn list_diff_output_type(t: ColumnType) -> (r: Result<ColumnType, AggError>)
    ensures
        r == kind_kept(t),
{
    same_type_output(t)
}

/// Output type of the vertical mean.
pub fn list_mean_output_type(t: ColumnType) -> (r: Result<ColumnType, AggError>)
    ensures
        r == kind_float(t),
{
    match t {
        ColumnType::List(_) => Ok(ColumnType::List(ScalarKind::Float64)),
        ColumnType::Array(_, w) => Ok(ColumnType::Array(ScalarKind::Float64, w)),
        ColumnType::Other => Err(AggError::TypeError(t)),
    }
}

} // verus!
