//! Properties that relate several operations, proved over their specifications.

use vstd::prelude::*;
use crate::consensus::{
    consensus_len, lemma_consensus_none, lemma_consensus_row, lemma_no_mismatch, pair_validation,
    validation,
};
use crate::normalize::{from_variable_spec, to_variable_spec};
use crate::reduce::{cell, column_extreme, diff_grid, extreme_grid, mean_grid, sum_grid};
use crate::schema::{element_kind, kind_float, kind_kept};
use crate::types::{AggError, ColumnType, Encoding, IntKind, ScalarKind, SeqColumn};

verus! {

/// Converting a well-formed column to the variable encoding and back to the
/// encoding it had gives the column back unchanged.
pub proof fn lemma_encoding_round_trip<T>(col: SeqColumn<T>)
    requires
        col.wf(),
    ensures
        from_variable_spec(to_variable_spec(col).0, to_variable_spec(col).1) == Ok::<
            SeqColumn<T>,
            AggError,
        >(col),
{
    let g = col@;
    if let Encoding::Fixed(w) = col.encoding {
        assert(to_variable_spec(col).0@ == g);
        if consensus_len(g) is Some {
            let i = lemma_consensus_row(g);
            assert(g[i] is Some);
            lemma_no_mismatch(g, w as nat);
        }
    }
}

/// The first row of a row-to-row difference is always absent.
pub proof fn lemma_diff_first_row_absent(k: IntKind, g: Seq<Option<Seq<Option<i128>>>>)
    requires
        g.len() > 0,
    ensures
        diff_grid(k, g)[0] is None,
{
}

/// When every row is absent, the validations succeed without a width, sum,
/// mean, minimum and maximum yield one absent row, and the difference yields
/// as many rows as the input, all absent.
pub proof fn lemma_all_absent_input(k: IntKind, g: Seq<Option<Seq<Option<i128>>>>)
    requires
        forall|i: int| 0 <= i < g.len() ==> #[trigger] g[i] is None,
    ensures
        validation(g) == Ok::<Option<nat>, AggError>(None),
        pair_validation(g) == Ok::<Option<nat>, AggError>(None),
        sum_grid(k, g) == seq![None::<Seq<Option<i128>>>],
        mean_grid(g) == seq![None::<Seq<Option<crate::types::MeanValue>>>],
        extreme_grid(false, g) == seq![None::<Seq<Option<i128>>>],
        extreme_grid(true, g) == seq![None::<Seq<Option<i128>>>],
        diff_grid(k, g).len() == g.len(),
        forall|i: int| 0 <= i < g.len() ==> #[trigger] diff_grid(k, g)[i] is None,
{
    lemma_consensus_none(g);
}

/// Sum, minimum, maximum and difference keep the element kind of a sequence
/// type, integer or not; the mean always yields 64-bit floating point.
pub proof fn lemma_output_kinds(t: ColumnType)
    requires
        t !is Other,
    ensures
        kind_kept(t) is Ok,
        element_kind(kind_kept(t)->Ok_0) == element_kind(t),
        kind_float(t) is Ok,
        element_kind(kind_float(t)->Ok_0) == Some(ScalarKind::Float64),
{
}

/// The vertical minimum (maximum) at a position is a scalar that some row
/// holds there and that no row's scalar there is below (above); it is missing
/// exactly when no row holds a scalar at that position.
pub proof fn lemma_extreme_bounds(max: bool, g: Seq<Option<Seq<Option<i128>>>>, j: int)
    ensures
        column_extreme(max, g, j) is None <==> forall|i: int|
            0 <= i < g.len() ==> #[trigger] cell(g[i], j) is None,
        column_extreme(max, g, j) is Some ==> {
            let m = column_extreme(max, g, j)->0;
            &&& exists|i: int| 0 <= i < g.len() && #[trigger] cell(g[i], j) == Some(m)
            &&& forall|i: int|
                0 <= i < g.len() && (#[trigger] cell(g[i], j)) is Some ==> if max {
                    cell(g[i], j)->0 <= m
                } else {
                    m <= cell(g[i], j)->0
                }
        },
    decreases g.len(),
{
    if g.len() > 0 {
        let d = g.drop_last();
        let last = g.len() - 1;
        lemma_extreme_bounds(max, d, j);
        assert forall|i: int| 0 <= i < d.len() implies #[trigger] d[i] == g[i] by {}
        assert(g.last() == g[last]);
        if column_extreme(max, d, j) is Some {
            let i0 = choose|i: int| 0 <= i < d.len() && #[trigger] cell(d[i], j) == Some(column_extreme(max, d, j)->0);
            assert(cell(g[i0], j) == cell(d[i0], j));
        }
        if column_extreme(max, g, j) is None {
            assert forall|i: int| 0 <= i < g.len() implies #[trigger] cell(g[i], j) is None by {
                if i < last {
                    assert(cell(d[i], j) is None);
                }
            }
        }
        if column_extreme(max, g, j) is Some {
            let m = column_extreme(max, g, j)->0;
            assert forall|i: int| 0 <= i < g.len() && (#[trigger] cell(g[i], j)) is Some implies (if max {
                cell(g[i], j)->0 <= m
            } else {
                m <= cell(g[i], j)->0
            }) by {
                if i < last {
                    assert(cell(d[i], j) is Some);
                }
            }
        }
    }
}

} // verus!
