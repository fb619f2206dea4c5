//! Row width consensus: the first present row fixes the width that every
//! other present row must have.

use vstd::prelude::*;
use crate::types::{grid, row_view, AggError};

verus! {

/// Width of a row, if it is present.
pub open spec fn row_len<T>(r: Option<Seq<Option<T>>>) -> Option<nat> {
    match r {
        Some(s) => Some(s.len()),
        None => None,
    }
}

/// Width of the first present row, if any row is present.
pub open spec fn consensus_len<T>(g: Seq<Option<Seq<Option<T>>>>) -> Option<nat>
    decreases g.len(),
{
    if g.len() == 0 {
        None
    } else {
        match consensus_len(g.drop_last()) {
            Some(w) => Some(w),
            None => row_len(g.last()),
        }
    }
}

/// Width of the first present row whose width is not `w`.
pub open spec fn first_mismatch<T>(g: Seq<Option<Seq<Option<T>>>>, w: nat) -> Option<nat>
    decreases g.len(),
{
    if g.len() == 0 {
        None
    } else {
        match first_mismatch(g.drop_last(), w) {
            Some(a) => Some(a),
            None => match g.last() {
                Some(r) => if r.len() != w {
                    Some(r.len())
                } else {
                    None
                },
                None => None,
            },
        }
    }
}

/// The error for a row of width `actual` where `expected` was agreed.
pub open spec fn mismatch_error(expected: nat, actual: nat) -> AggError {
    AggError::LengthMismatch { expected: expected as usize, actual: actual as usize }
}

/// The outcome of validating all rows: the agreed width (none when no row is
/// present), or the mismatch of the first present row that disagrees.
pub open spec fn validation<T>(g: Seq<Option<Seq<Option<T>>>>) -> Result<Option<nat>, AggError> {
    match consensus_len(g) {
        None => Ok(None),
        Some(w) => match first_mismatch(g, w) {
            Some(a) => Err(mismatch_error(w, a)),
            None => Ok(Some(w)),
        },
    }
}

pub proof fn lemma_consensus_prefix<T>(g: Seq<Option<Seq<Option<T>>>>, k: int)
    requires
        0 <= k <= g.len(),
        consensus_len(g.take(k)) is Some,
    ensures
        consensus_len(g) == consensus_len(g.take(k)),
    decreases g.len(),
{
    if k < g.len() {
        assert(g.drop_last().take(k) =~= g.take(k));
        lemma_consensus_prefix(g.drop_last(), k);
    } else {
        assert(g.take(k) =~= g);
    }
}

pub proof fn lemma_mismatch_prefix<T>(g: Seq<Option<Seq<Option<T>>>>, w: nat, k: int)
    requires
        0 <= k <= g.len(),
        first_mismatch(g.take(k), w) is Some,
    ensures
        first_mismatch(g, w) == first_mismatch(g.take(k), w),
    decreases g.len(),
{
    if k < g.len() {
        assert(g.drop_last().take(k) =~= g.take(k));
        lemma_mismatch_prefix(g.drop_last(), w, k);
    } else {
        assert(g.take(k) =~= g);
    }
}

/// A single row agrees with itself.
pub proof fn lemma_single_row<T>(r: Option<Seq<Option<T>>>)
    ensures
        consensus_len(seq![r]) == row_len(r),
        validation(seq![r]) == match r {
            Some(s) => Ok::<Option<nat>, AggError>(Some(s.len())),
            None => Ok::<Option<nat>, AggError>(None),
        },
{
    let g = seq![r];
    assert(g.len() == 1);
    assert(g.last() == r);
    assert(g.drop_last() =~= Seq::<Option<Seq<Option<T>>>>::empty());
    assert(consensus_len(g.drop_last()) is None);
    if let Some(s) = r {
        assert(first_mismatch(g.drop_last(), s.len()) is None);
        assert(first_mismatch(seq![r], s.len()) is None);
    }
}

/// Every present row has width `w` exactly when none mismatches `w`.
pub proof fn lemma_no_mismatch<T>(g: Seq<Option<Seq<Option<T>>>>, w: nat)
    ensures
        first_mismatch(g, w) is None <==> forall|i: int|
            0 <= i < g.len() && #[trigger] g[i] is Some ==> g[i]->0.len() == w,
    decreases g.len(),
{
    if g.len() > 0 {
        let d = g.drop_last();
        lemma_no_mismatch(d, w);
        if first_mismatch(g, w) is None {
            assert forall|i: int| 0 <= i < g.len() && #[trigger] g[i] is Some implies g[i]->0.len()
                == w by {
                if i < g.len() - 1 {
                    assert(d[i] == g[i]);
                }
            }
        }
        if forall|i: int| 0 <= i < g.len() && #[trigger] g[i] is Some ==> g[i]->0.len() == w {
            assert forall|i: int| 0 <= i < d.len() && #[trigger] d[i] is Some implies d[i]->0.len()
                == w by {
                assert(d[i] == g[i]);
            }
            assert(g.last() == g[g.len() - 1]);
        }
    }
}

/// The width of the first present row: the consensus every other row must meet.
pub fn establish_consensus<T>(rows: &Vec<Option<Vec<Option<T>>>>) -> (r: Option<usize>)
    ensures
        r is None <==> consensus_len(grid(rows@)) is None,
        r is Some ==> consensus_len(grid(rows@)) == Some(r->0 as nat),
{
    let ghost g = grid(rows@);
    let mut i: usize = 0;
    while i < rows.len()
        invariant
            i <= rows.len(),
            g == grid(rows@),
            consensus_len(g.take(i as int)) is None,
        decreases rows.len() - i,
    {
        assert(g.take(i + 1).drop_last() =~= g.take(i as int));
        match &rows[i] {
            Some(v) => {
                proof {
                    lemma_consensus_prefix(g, i + 1);
                }
                return Some(v.len());
            },
            None => {},
        }
        i = i + 1;
    }
    assert(g.take(i as int) =~= g);
    None
}

/// Checks that every present row has width `expected`; fails with the width
/// of the first present row that does not.
pub fn validate<T>(rows: &Vec<Option<Vec<Option<T>>>>, expected: usize) -> (r: Result<(), AggError>)
    ensures
        r is Ok <==> first_mismatch(grid(rows@), expected as nat) is None,
        r is Err ==> r->Err_0 == mismatch_error(
            expected as nat,
            first_mismatch(grid(rows@), expected as nat)->0,
        ),
{
    let ghost g = grid(rows@);
    let ghost w = expected as nat;
    let mut i: usize = 0;
    while i < rows.len()
        invariant
            i <= rows.len(),
            g == grid(rows@),
            w == expected as nat,
            first_mismatch(g.take(i as int), w) is None,
        decreases rows.len() - i,
    {
        assert(g.take(i + 1).drop_last() =~= g.take(i as int));
        assert(g[i as int] == row_view(rows@[i as int]));
        assert(g.take(i + 1).last() == g[i as int]);
        match &rows[i] {
            Some(v) => {
                if v.len() != expected {
                    assert(g.take(i + 1).last() == Some(v@));
                    proof {
                        lemma_mismatch_prefix(g, w, i + 1);
                    }
                    return Err(AggError::LengthMismatch { expected, actual: v.len() });
                }
            },
            None => {},
        }
        i = i + 1;
    }
    assert(g.take(i as int) =~= g);
    Ok(())
}

/// Establishes the consensus and validates every present row against it.
pub fn check_rows<T>(rows: &Vec<Option<Vec<Option<T>>>>) -> (r: Result<Option<usize>, AggError>)
    ensures
        match r {
            Ok(None) => validation(grid(rows@)) == Ok::<Option<nat>, AggError>(None),
            Ok(Some(w)) => validation(grid(rows@)) == Ok::<Option<nat>, AggError>(Some(w as nat)),
            Err(e) => validation(grid(rows@)) == Err::<Option<nat>, AggError>(e),
        },
{
    match establish_consensus(rows) {
        None => Ok(None),
        Some(w) => {
            validate(rows, w)?;
            Ok(Some(w))
        },
    }
}

/// The first present row has the consensus width.
pub proof fn lemma_consensus_row<T>(g: Seq<Option<Seq<Option<T>>>>) -> (i: int)
    requires
        consensus_len(g) is Some,
    ensures
        0 <= i < g.len(),
        g[i] is Some,
        g[i]->0.len() == consensus_len(g)->0,
    decreases g.len(),
{
    if consensus_len(g.drop_last()) is Some {
        let i = lemma_consensus_row(g.drop_last());
        assert(g.drop_last()[i] == g[i]);
        i
    } else {
        g.len() - 1
    }
}

/// Without a present row there is no consensus, and conversely.
pub proof fn lemma_consensus_none<T>(g: Seq<Option<Seq<Option<T>>>>)
    ensures
        consensus_len(g) is None <==> forall|i: int| 0 <= i < g.len() ==> #[trigger] g[i] is None,
    decreases g.len(),
{
    if g.len() > 0 {
        let d = g.drop_last();
        lemma_consensus_none(d);
        assert(g.last() == g[g.len() - 1]);
        if consensus_len(g) is None {
            assert forall|i: int| 0 <= i < g.len() implies #[trigger] g[i] is None by {
                if i < g.len() - 1 {
                    assert(d[i] == g[i]);
                }
            }
        }
        if forall|i: int| 0 <= i < g.len() ==> #[trigger] g[i] is None {
            assert forall|i: int| 0 <= i < d.len() implies #[trigger] d[i] is None by {
                assert(d[i] == g[i]);
            }
        }
    }
}

/// Rows that all have width `n` validate to their consensus.
pub proof fn lemma_uniform_validation<T>(g: Seq<Option<Seq<Option<T>>>>, n: nat)
    requires
        forall|i: int| 0 <= i < g.len() && #[trigger] g[i] is Some ==> g[i]->0.len() == n,
    ensures
        validation(g) == Ok::<Option<nat>, AggError>(consensus_len(g)),
{
    lemma_no_mismatch(g, n);
    if consensus_len(g) is Some {
        let i = lemma_consensus_row(g);
        assert(g[i] is Some);
    }
}

/// For an adjacent pair of rows that are both present, the width of the one
/// that is not `w`, the earlier row first.
pub open spec fn pair_mismatch_at<T>(p: Option<Seq<Option<T>>>, c: Option<Seq<Option<T>>>, w: nat) -> Option<nat> {
    match (p, c) {
        (Some(a), Some(b)) => if a.len() != w {
            Some(a.len())
        } else if b.len() != w {
            Some(b.len())
        } else {
            None
        },
        _ => None,
    }
}

/// The first mismatch over the adjacent pairs of present rows.
pub open spec fn pair_mismatch<T>(g: Seq<Option<Seq<Option<T>>>>, w: nat) -> Option<nat>
    decreases g.len(),
{
    if g.len() < 2 {
        None
    } else {
        match pair_mismatch(g.drop_last(), w) {
            Some(a) => Some(a),
            None => pair_mismatch_at(g[g.len() - 2], g.last(), w),
        }
    }
}

/// Validation for the row-to-row difference: only rows that have a present
/// neighbour are compared, pair by pair, with the consensus width.
pub open spec fn pair_validation<T>(g: Seq<Option<Seq<Option<T>>>>) -> Result<Option<nat>, AggError> {
    match consensus_len(g) {
        None => Ok(None),
        Some(w) => match pair_mismatch(g, w) {
            Some(a) => Err(mismatch_error(w, a)),
            None => Ok(Some(w)),
        },
    }
}

pub proof fn lemma_pair_prefix<T>(g: Seq<Option<Seq<Option<T>>>>, w: nat, k: int)
    requires
        0 <= k <= g.len(),
        pair_mismatch(g.take(k), w) is Some,
    ensures
        pair_mismatch(g, w) == pair_mismatch(g.take(k), w),
    decreases g.len(),
{
    if k < g.len() {
        assert(g.drop_last().take(k) =~= g.take(k));
        lemma_pair_prefix(g.drop_last(), w, k);
    } else {
        assert(g.take(k) =~= g);
    }
}

/// Without a pair mismatch, both rows of every present pair have width `w`.
pub proof fn lemma_pairs_ok<T>(g: Seq<Option<Seq<Option<T>>>>, w: nat)
    requires
        pair_mismatch(g, w) is None,
    ensures
        forall|i: int|
            1 <= i < g.len() && #[trigger] g[i] is Some && g[i - 1] is Some ==> g[i]->0.len() == w
                && g[i - 1]->0.len() == w,
    decreases g.len(),
{
    if g.len() >= 2 {
        let d = g.drop_last();
        lemma_pairs_ok(d, w);
        assert forall|i: int| 1 <= i < g.len() && #[trigger] g[i] is Some && g[i - 1] is Some implies g[i]->0.len() == w
            && g[i - 1]->0.len() == w by {
            if i < g.len() - 1 {
                assert(d[i] == g[i]);
                assert(d[i - 1] == g[i - 1]);
            }
        }
    }
}

/// Checks every adjacent pair of present rows against width `expected`.
pub fn validate_pairs<T>(rows: &Vec<Option<Vec<Option<T>>>>, expected: usize) -> (r: Result<(), AggError>)
    ensures
        r is Ok <==> pair_mismatch(grid(rows@), expected as nat) is None,
        r is Err ==> r->Err_0 == mismatch_error(
            expected as nat,
            pair_mismatch(grid(rows@), expected as nat)->0,
        ),
{
    let ghost g = grid(rows@);
    let ghost w = expected as nat;
    if rows.len() < 2 {
        return Ok(());
    }
    let mut i: usize = 1;
    assert(g.take(1).len() < 2);
    while i < rows.len()
        invariant
            1 <= i <= rows.len(),
            g == grid(rows@),
            w == expected as nat,
            pair_mismatch(g.take(i as int), w) is None,
        decreases rows.len() - i,
    {
        let ghost p = g.take(i + 1);
        assert(p.drop_last() =~= g.take(i as int));
        assert(g[i as int] == row_view(rows@[i as int]));
        assert(g[i - 1] == row_view(rows@[i - 1]));
        assert(p.last() == g[i as int]);
        assert(p[p.len() - 2] == g[i - 1]);
        match (&rows[i - 1], &rows[i]) {
            (Some(a), Some(b)) => {
                if a.len() != expected {
                    assert(pair_mismatch(p, w) == Some(a@.len()));
                    proof {
                        lemma_pair_prefix(g, w, i + 1);
                    }
                    return Err(AggError::LengthMismatch { expected, actual: a.len() });
                }
                if b.len() != expected {
                    assert(pair_mismatch(p, w) == Some(b@.len()));
                    proof {
                        lemma_pair_prefix(g, w, i + 1);
                    }
                    return Err(AggError::LengthMismatch { expected, actual: b.len() });
                }
            },
            _ => {},
        }
        i = i + 1;
    }
    assert(g.take(i as int) =~= g);
    Ok(())
}

} // verus!
