use vertical_lists::consensus::{check_rows, establish_consensus, validate, validate_pairs};
use vertical_lists::normalize::{from_variable, to_variable};
use vertical_lists::reduce::{list_diff, list_max, list_mean, list_min, list_sum};
use vertical_lists::schema::{
    ensure_list_type, list_diff_output_type, list_max_output_type, list_mean_output_type,
    list_min_output_type, list_sum_output_type,
};
use vertical_lists::{AggError, ColumnType, Encoding, IntKind, MeanValue, ScalarKind, SeqColumn};

type Rows = Vec<Option<Vec<Option<i128>>>>;

fn int_col(kind: IntKind, rows: Rows) -> SeqColumn<i128> {
    SeqColumn { kind: ScalarKind::Int(kind), encoding: Encoding::Variable, rows }
}

fn full(vals: &[i128]) -> Option<Vec<Option<i128>>> {
    Some(vals.iter().map(|v| Some(*v)).collect())
}

fn mismatch(expected: usize, actual: usize) -> AggError {
    AggError::LengthMismatch { expected, actual }
}

#[test]
fn sum_skips_absent_rows() {
    let col = int_col(IntKind::Int64, vec![full(&[1, 2]), full(&[3, 4]), None, full(&[5, 6])]);
    let out = list_sum(&col).unwrap();
    assert_eq!(out.rows, vec![full(&[9, 12])]);
    assert_eq!(out.kind, ScalarKind::Int(IntKind::Int64));
    assert_eq!(out.encoding, Encoding::Variable);
}

#[test]
fn sum_counts_missing_scalars_as_zero() {
    let col = int_col(IntKind::Int32, vec![Some(vec![Some(1), None]), Some(vec![None, Some(7)])]);
    assert_eq!(list_sum(&col).unwrap().rows, vec![full(&[1, 7])]);
}

#[test]
fn sum_wraps_in_element_kind() {
    let col = int_col(IntKind::Int8, vec![full(&[100, -100]), full(&[100, -100])]);
    assert_eq!(list_sum(&col).unwrap().rows, vec![full(&[-56, 56])]);
    let col = int_col(IntKind::UInt8, vec![full(&[200]), full(&[100])]);
    assert_eq!(list_sum(&col).unwrap().rows, vec![full(&[44])]);
}

#[test]
fn sum_keeps_fixed_encoding() {
    let mut col = int_col(IntKind::UInt16, vec![full(&[1, 2, 3]), full(&[4, 5, 6])]);
    col.encoding = Encoding::Fixed(3);
    let out = list_sum(&col).unwrap();
    assert_eq!(out.encoding, Encoding::Fixed(3));
    assert_eq!(out.rows, vec![full(&[5, 7, 9])]);
}

#[test]
fn mean_divides_each_position_by_its_own_count() {
    let col = int_col(IntKind::Int64, vec![Some(vec![Some(1), None]), full(&[3, 4])]);
    let out = list_mean(&col).unwrap();
    assert_eq!(out.kind, ScalarKind::Float64);
    assert_eq!(
        out.rows,
        vec![Some(vec![
            Some(MeanValue { sum: 4, count: 2 }),
            Some(MeanValue { sum: 4, count: 1 }),
        ])]
    );
    let row = out.rows[0].as_ref().unwrap();
    let values: Vec<f64> =
        row.iter().map(|m| m.unwrap()).map(|m| m.sum as f64 / m.count as f64).collect();
    assert_eq!(values, vec![2.0, 4.0]);
}

#[test]
fn mean_of_position_without_scalars_is_not_a_number() {
    let col = int_col(IntKind::Int32, vec![Some(vec![Some(1), None]), Some(vec![Some(2), None])]);
    let out = list_mean(&col).unwrap();
    let m = out.rows[0].as_ref().unwrap()[1].unwrap();
    assert_eq!(m, MeanValue { sum: 0, count: 0 });
    assert!((m.sum as f64 / m.count as f64).is_nan());
}

#[test]
fn mean_does_not_wrap() {
    let col = int_col(IntKind::UInt8, vec![full(&[250]), full(&[250])]);
    let out = list_mean(&col).unwrap();
    assert_eq!(out.rows, vec![Some(vec![Some(MeanValue { sum: 500, count: 2 })])]);
}

#[test]
fn min_max_skip_missing_scalars() {
    let col = int_col(
        IntKind::Int64,
        vec![full(&[5, 1]), Some(vec![None, Some(3)]), Some(vec![Some(2), None])],
    );
    assert_eq!(list_min(&col).unwrap().rows, vec![full(&[2, 1])]);
    assert_eq!(list_max(&col).unwrap().rows, vec![full(&[5, 3])]);
}

#[test]
fn min_max_position_missing_everywhere_is_missing() {
    let col = int_col(IntKind::Int16, vec![Some(vec![Some(-4), None]), None, Some(vec![Some(9), None])]);
    assert_eq!(list_min(&col).unwrap().rows, vec![Some(vec![Some(-4), None])]);
    assert_eq!(list_max(&col).unwrap().rows, vec![Some(vec![Some(9), None])]);
}

#[test]
fn diff_first_row_absent() {
    let col = int_col(IntKind::Int64, vec![full(&[1, 2]), full(&[4, 6]), full(&[4, 6])]);
    let out = list_diff(&col).unwrap();
    assert_eq!(out.rows, vec![None, full(&[3, 4]), full(&[0, 0])]);
    assert_eq!(out.kind, ScalarKind::Int(IntKind::Int64));
}

#[test]
fn diff_absent_neighbour_gives_absent_row() {
    let col = int_col(IntKind::Int32, vec![full(&[1]), None, full(&[5]), full(&[8])]);
    assert_eq!(list_diff(&col).unwrap().rows, vec![None, None, None, full(&[3])]);
}

#[test]
fn diff_missing_scalar_gives_missing_scalar() {
    let col = int_col(IntKind::Int32, vec![Some(vec![Some(1), None]), full(&[2, 3])]);
    assert_eq!(list_diff(&col).unwrap().rows, vec![None, Some(vec![Some(1), None])]);
}

#[test]
fn diff_wraps_in_element_kind() {
    let col = int_col(IntKind::UInt8, vec![full(&[5]), full(&[3])]);
    assert_eq!(list_diff(&col).unwrap().rows, vec![None, full(&[254])]);
    let col = int_col(IntKind::Int8, vec![full(&[-128]), full(&[127])]);
    assert_eq!(list_diff(&col).unwrap().rows, vec![None, full(&[-1])]);
}

#[test]
fn diff_compares_only_adjacent_present_rows() {
    let col = int_col(IntKind::Int64, vec![full(&[1, 2]), None, full(&[3, 4, 5]), None]);
    assert_eq!(list_diff(&col).unwrap().rows, vec![None, None, None, None]);
    assert_eq!(list_sum(&col).err(), Some(mismatch(2, 3)));
}

#[test]
fn length_mismatch_fails_every_reducer() {
    let col = int_col(IntKind::Int64, vec![full(&[1, 2]), full(&[3, 4, 5])]);
    assert_eq!(list_sum(&col).err(), Some(mismatch(2, 3)));
    assert_eq!(list_mean(&col).err(), Some(mismatch(2, 3)));
    assert_eq!(list_min(&col).err(), Some(mismatch(2, 3)));
    assert_eq!(list_max(&col).err(), Some(mismatch(2, 3)));
    assert_eq!(list_diff(&col).err(), Some(mismatch(2, 3)));
}

#[test]
fn length_mismatch_reports_first_offending_row() {
    let col = int_col(IntKind::Int64, vec![None, full(&[1]), full(&[1]), full(&[1, 2, 3, 4]), full(&[])]);
    assert_eq!(list_sum(&col).err(), Some(mismatch(1, 4)));
}

#[test]
fn all_absent_input() {
    let col = int_col(IntKind::Int64, vec![None, None, None]);
    assert_eq!(list_sum(&col).unwrap().rows, vec![None]);
    assert_eq!(list_min(&col).unwrap().rows, vec![None]);
    assert_eq!(list_max(&col).unwrap().rows, vec![None]);
    assert_eq!(list_mean(&col).unwrap().rows, vec![None]);
    assert_eq!(list_diff(&col).unwrap().rows, vec![None, None, None]);
}

#[test]
fn empty_input() {
    let col = int_col(IntKind::Int64, vec![]);
    assert_eq!(list_sum(&col).unwrap().rows, vec![None]);
    assert_eq!(list_mean(&col).unwrap().rows, vec![None]);
    assert_eq!(list_diff(&col).unwrap().rows, Vec::new());
}

#[test]
fn zero_width_rows() {
    let col = int_col(IntKind::Int64, vec![full(&[]), None, full(&[])]);
    assert_eq!(list_sum(&col).unwrap().rows, vec![full(&[])]);
    assert_eq!(list_diff(&col).unwrap().rows, vec![None, None, None]);
}

#[test]
fn all_absent_fixed_keeps_declared_width() {
    let mut col = int_col(IntKind::Int64, vec![None, None]);
    col.encoding = Encoding::Fixed(4);
    assert_eq!(list_max(&col).unwrap().encoding, Encoding::Fixed(4));
    assert_eq!(list_diff(&col).unwrap().encoding, Encoding::Fixed(4));
}

#[test]
fn integer_kinds_are_kept() {
    for kind in [IntKind::Int8, IntKind::UInt32, IntKind::UInt64] {
        let col = int_col(kind, vec![full(&[1]), full(&[2])]);
        assert_eq!(list_sum(&col).unwrap().kind, ScalarKind::Int(kind));
        assert_eq!(list_min(&col).unwrap().kind, ScalarKind::Int(kind));
        assert_eq!(list_max(&col).unwrap().kind, ScalarKind::Int(kind));
        assert_eq!(list_diff(&col).unwrap().kind, ScalarKind::Int(kind));
        assert_eq!(list_mean(&col).unwrap().kind, ScalarKind::Float64);
    }
}

#[test]
fn output_types() {
    let list = ColumnType::List(ScalarKind::Int(IntKind::Int32));
    let array = ColumnType::Array(ScalarKind::Int(IntKind::UInt8), 3);
    for f in [list_sum_output_type, list_min_output_type, list_max_output_type, list_diff_output_type] {
        assert_eq!(f(list), Ok(list));
        assert_eq!(f(array), Ok(array));
        assert_eq!(f(ColumnType::Other), Err(AggError::TypeError(ColumnType::Other)));
    }
    assert_eq!(list_mean_output_type(list), Ok(ColumnType::List(ScalarKind::Float64)));
    assert_eq!(list_mean_output_type(array), Ok(ColumnType::Array(ScalarKind::Float64, 3)));
    assert_eq!(
        list_mean_output_type(ColumnType::List(ScalarKind::Float32)),
        Ok(ColumnType::List(ScalarKind::Float64))
    );
    assert_eq!(list_mean_output_type(ColumnType::Other), Err(AggError::TypeError(ColumnType::Other)));
}

#[test]
fn list_type_of_array() {
    let k = ScalarKind::Float32;
    assert_eq!(ensure_list_type(ColumnType::Array(k, 2)), Ok(ColumnType::List(k)));
    assert_eq!(ensure_list_type(ColumnType::List(k)), Ok(ColumnType::List(k)));
    assert_eq!(ensure_list_type(ColumnType::Other), Err(AggError::TypeError(ColumnType::Other)));
}

#[test]
fn encoding_round_trip() {
    let mut col = int_col(IntKind::Int64, vec![full(&[1, 2]), None, Some(vec![None, Some(3)])]);
    col.encoding = Encoding::Fixed(2);
    let (var, enc) = to_variable(col);
    assert_eq!(var.encoding, Encoding::Variable);
    assert_eq!(enc, Encoding::Fixed(2));
    let back = from_variable(var, enc).unwrap();
    assert_eq!(back.encoding, Encoding::Fixed(2));
    assert_eq!(back.rows, vec![full(&[1, 2]), None, Some(vec![None, Some(3)])]);
}

#[test]
fn fixed_encoding_needs_one_width() {
    let col = int_col(IntKind::Int64, vec![full(&[1, 2]), full(&[3])]);
    assert_eq!(from_variable(col, Encoding::Fixed(2)).err(), Some(mismatch(2, 1)));
    let col = int_col(IntKind::Int64, vec![full(&[1, 2, 3])]);
    assert_eq!(from_variable(col, Encoding::Fixed(2)).unwrap().encoding, Encoding::Fixed(3));
}

#[test]
fn consensus_and_validation() {
    let rows: Rows = vec![None, full(&[1, 2]), full(&[3])];
    assert_eq!(establish_consensus(&rows), Some(2));
    assert_eq!(validate(&rows, 2), Err(mismatch(2, 1)));
    assert_eq!(validate(&rows, 1), Err(mismatch(1, 2)));
    assert_eq!(check_rows(&rows), Err(mismatch(2, 1)));
    assert_eq!(validate_pairs(&rows, 2), Err(mismatch(2, 1)));
    let none: Rows = vec![None, None];
    assert_eq!(establish_consensus(&none), None);
    assert_eq!(check_rows(&none), Ok(None));
    let ok: Rows = vec![full(&[1]), None, full(&[2])];
    assert_eq!(check_rows(&ok), Ok(Some(1)));
    assert_eq!(validate_pairs(&ok, 1), Ok(()));
}
