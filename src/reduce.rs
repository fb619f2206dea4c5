//! The vertical reducers over integer columns: sum, mean, minimum, maximum
//! and row-to-row difference, each position of the rows on its own.

use vstd::prelude::*;
use crate::arith::{lemma_wrap_add, wrapping_add, wrapping_sub};
use crate::consensus::{
    check_rows, consensus_len, establish_consensus, lemma_consensus_none, lemma_no_mismatch,
    lemma_pairs_ok, lemma_single_row, lemma_uniform_validation, pair_validation, validate_pairs,
    validation,
};
use crate::normalize::{from_variable, refit};
use crate::types::{row_view, AggError, Encoding, IntKind, MeanValue, ScalarKind, SeqColumn};

verus! {

/// The scalar at position `j` of a row, if the row is present and holds one there.
pub open spec fn cell(r: Option<Seq<Option<i128>>>, j: int) -> Option<i128> {
    match r {
        Some(s) => if 0 <= j < s.len() {
            s[j]
        } else {
            None
        },
        None => None,
    }
}

/// The scalar at position `j` of a row, a missing one counting as zero.
pub open spec fn cell_or_zero(r: Option<Seq<Option<i128>>>, j: int) -> int {
    match cell(r, j) {
        Some(v) => v as int,
        None => 0,
    }
}

/// The exact sum over all rows of the scalars at position `j`.
pub open spec fn column_total(g: Seq<Option<Seq<Option<i128>>>>, j: int) -> int
    decreases g.len(),
{
    if g.len() == 0 {
        0
    } else {
        column_total(g.drop_last(), j) + cell_or_zero(g.last(), j)
    }
}

/// Every scalar of the rows is a value of kind `k`.
pub open spec fn values_fit(k: IntKind, g: Seq<Option<Seq<Option<i128>>>>) -> bool {
    forall|i: int, j: int|
        0 <= i < g.len() && (#[trigger] cell(g[i], j)) is Some ==> k.fits(cell(g[i], j)->0 as int)
}

/// An integer column whose scalars are values of its kind.
pub open spec fn int_column(col: SeqColumn<i128>) -> bool {
    &&& col.kind is Int
    &&& values_fit(col.kind->Int_0, col@)
}

/// The vertical sum: one row holding, at each position, the wrapped sum of
/// that position over the present rows; one absent row if none is present.
pub open spec fn sum_grid(k: IntKind, g: Seq<Option<Seq<Option<i128>>>>) -> Seq<
    Option<Seq<Option<i128>>>,
> {
    match consensus_len(g) {
        None => seq![None],
        Some(n) => seq![Some(Seq::new(n, |j: int| Some(k.wrap(column_total(g, j)) as i128)))],
    }
}

/// A zeroed accumulator of width `n`.
fn zeros(n: usize) -> (r: Vec<i128>)
    ensures
        r@.len() == n,
        forall|j: int| 0 <= j < n ==> r@[j] == 0,
{
    let mut r: Vec<i128> = Vec::new();
    let mut j: usize = 0;
    while j < n
        invariant
            j <= n,
            r@.len() == j,
            forall|x: int| 0 <= x < j ==> r@[x] == 0,
        decreases n - j,
    {
        r.push(0);
        j = j + 1;
    }
    r
}

/// Vertical sum of an integer column. Absent rows are skipped and missing
/// scalars count as zero; the sum wraps in the element kind's range.
pub fn list_sum(col: &SeqColumn<i128>) -> (r: Result<SeqColumn<i128>, AggError>)
    requires
        int_column(*col),
    ensures
        match validation(col@) {
            Err(e) => r == Err::<SeqColumn<i128>, AggError>(e),
            Ok(_) => {
                &&& r is Ok
                &&& r->Ok_0.kind == col.kind
                &&& r->Ok_0@ == sum_grid(col.kind->Int_0, col@)
                &&& r->Ok_0.encoding == refit(col.encoding, consensus_len(col@))
            },
        },
{
    let k = match col.kind {
        ScalarKind::Int(k) => k,
        _ => IntKind::Int64,
    };
    let ghost g = col@;
    let n = match check_rows(&col.rows) {
        Err(e) => {
            return Err(e);
        },
        Ok(None) => {
            let out = SeqColumn { kind: col.kind, encoding: Encoding::Variable, rows: vec![None] };
            proof {
                assert(out@ =~= seq![None]);
                lemma_single_row::<i128>(None);
            }
            return from_variable(out, col.encoding);
        },
        Ok(Some(n)) => n,
    };
    proof {
        lemma_no_mismatch(g, n as nat);
    }
    let mut acc = zeros(n);
    let mut i: usize = 0;
    while i < col.rows.len()
        invariant
            i <= col.rows.len(),
            g == col@,
            values_fit(k, g),
            acc@.len() == n,
            forall|x: int| 0 <= x < g.len() && #[trigger] g[x] is Some ==> g[x]->0.len() == n,
            forall|j: int| 0 <= j < n ==> #[trigger] acc@[j] == k.wrap(column_total(g.take(i as int), j)),
        decreases col.rows.len() - i,
    {
        assert(g.take(i + 1).drop_last() =~= g.take(i as int));
        assert(g.take(i + 1).last() == g[i as int]);
        match &col.rows[i] {
            Some(row) => {
                assert(g[i as int] == Some(row@));
                let mut j: usize = 0;
                while j < n
                    invariant
                        i < col.rows.len(),
                        j <= n,
                        g == col@,
                        values_fit(k, g),
                        g[i as int] == Some(row@),
                        row@.len() == n,
                        acc@.len() == n,
                        forall|x: int| 0 <= x < j ==> #[trigger] acc@[x] == k.wrap(column_total(g.take(i + 1), x)),
                        forall|x: int| j <= x < n ==> #[trigger] acc@[x] == k.wrap(column_total(g.take(i as int), x)),
                        g.take(i + 1).drop_last() == g.take(i as int),
                        g.take(i + 1).last() == g[i as int],
                    decreases n - j,
                {
                    let v: i128 = match row[j] {
                        Some(v) => v,
                        None => 0,
                    };
                    proof {
                        assert(cell(g[i as int], j as int) == row@[j as int]);
                        assert(v == cell_or_zero(g[i as int], j as int));
                        assert(k.fits(v as int));
                        lemma_wrap_add(k, column_total(g.take(i as int), j as int), v as int);
                    }
                    let s = wrapping_add(k, acc[j], v);
                    acc[j] = s;
                    j = j + 1;
                }
            },
            None => {},
        }
        i = i + 1;
    }
    assert(g.take(i as int) =~= g);
    let mut sums: Vec<Option<i128>> = Vec::new();
    let mut j: usize = 0;
    while j < n
        invariant
            j <= n,
            acc@.len() == n,
            sums@.len() == j,
            forall|x: int| 0 <= x < j ==> #[trigger] sums@[x] == Some(acc@[x]),
        decreases n - j,
    {
        sums.push(Some(acc[j]));
        j = j + 1;
    }
    let out = SeqColumn { kind: col.kind, encoding: Encoding::Variable, rows: vec![Some(sums)] };
    proof {
        assert(sums@ =~= Seq::new(n as nat, |j: int| Some(k.wrap(column_total(g, j)) as i128)));
        assert(out@ =~= sum_grid(k, g));
        lemma_single_row(Some(sums@));
    }
    from_variable(out, col.encoding)
}

/// The smaller (`max` false) or larger (`max` true) of two optional scalars,
/// a missing one giving way to the other.
pub open spec fn pick(max: bool, a: Option<i128>, b: Option<i128>) -> Option<i128> {
    match (a, b) {
        (Some(x), Some(y)) => Some(
            if (max && y > x) || (!max && y < x) {
                y
            } else {
                x
            },
        ),
        (Some(x), None) => Some(x),
        (None, y) => y,
    }
}

/// The least (`max` false) or greatest (`max` true) scalar at position `j`
/// over all rows; none if every row is absent or missing there.
pub open spec fn column_extreme(max: bool, g: Seq<Option<Seq<Option<i128>>>>, j: int) -> Option<
    i128,
>
    decreases g.len(),
{
    if g.len() == 0 {
        None
    } else {
        pick(max, column_extreme(max, g.drop_last(), j), cell(g.last(), j))
    }
}

/// The vertical minimum or maximum: one row holding, at each position, the
/// extreme of the scalars there; one absent row if no row is present.
pub open spec fn extreme_grid(max: bool, g: Seq<Option<Seq<Option<i128>>>>) -> Seq<
    Option<Seq<Option<i128>>>,
> {
    match consensus_len(g) {
        None => seq![None],
        Some(n) => seq![Some(Seq::new(n, |j: int| column_extreme(max, g, j)))],
    }
}

fn pick_exec(max: bool, a: Option<i128>, b: Option<i128>) -> (r: Option<i128>)
    ensures
        r == pick(max, a, b),
{
    match (a, b) {
        (Some(x), Some(y)) => Some(
            if (max && y > x) || (!max && y < x) {
                y
            } else {
                x
            },
        ),
        (Some(x), None) => Some(x),
        (None, y) => y,
    }
}

fn vertical_extreme(col: &SeqColumn<i128>, max: bool) -> (r: Result<SeqColumn<i128>, AggError>)
    ensures
        match validation(col@) {
            Err(e) => r == Err::<SeqColumn<i128>, AggError>(e),
            Ok(_) => {
                &&& r is Ok
                &&& r->Ok_0.kind == col.kind
                &&& r->Ok_0@ == extreme_grid(max, col@)
                &&& r->Ok_0.encoding == refit(col.encoding, consensus_len(col@))
            },
        },
{
    let ghost g = col@;
    let n = match check_rows(&col.rows) {
        Err(e) => {
            return Err(e);
        },
        Ok(None) => {
            let out = SeqColumn { kind: col.kind, encoding: Encoding::Variable, rows: vec![None] };
            proof {
                assert(out@ =~= seq![None]);
                lemma_single_row::<i128>(None);
            }
            return from_variable(out, col.encoding);
        },
        Ok(Some(n)) => n,
    };
    proof {
        lemma_no_mismatch(g, n as nat);
    }
    let mut acc: Vec<Option<i128>> = Vec::new();
    let mut j: usize = 0;
    while j < n
        invariant
            j <= n,
            acc@.len() == j,
            forall|x: int| 0 <= x < j ==> acc@[x] is None,
        decreases n - j,
    {
        acc.push(None);
        j = j + 1;
    }
    let mut i: usize = 0;
    while i < col.rows.len()
        invariant
            i <= col.rows.len(),
            g == col@,
            acc@.len() == n,
            forall|x: int| 0 <= x < g.len() && #[trigger] g[x] is Some ==> g[x]->0.len() == n,
            forall|j: int| 0 <= j < n ==> #[trigger] acc@[j] == column_extreme(max, g.take(i as int), j),
        decreases col.rows.len() - i,
    {
        assert(g.take(i + 1).drop_last() =~= g.take(i as int));
        assert(g.take(i + 1).last() == g[i as int]);
        match &col.rows[i] {
            Some(row) => {
                assert(g[i as int] == Some(row@));
                let mut j: usize = 0;
                while j < n
                    invariant
                        i < col.rows.len(),
                        j <= n,
                        g == col@,
                        g[i as int] == Some(row@),
                        row@.len() == n,
                        acc@.len() == n,
                        forall|x: int| 0 <= x < j ==> #[trigger] acc@[x] == column_extreme(max, g.take(i + 1), x),
                        forall|x: int| j <= x < n ==> #[trigger] acc@[x] == column_extreme(max, g.take(i as int), x),
                        g.take(i + 1).drop_last() == g.take(i as int),
                        g.take(i + 1).last() == g[i as int],
                    decreases n - j,
                {
                    assert(cell(g[i as int], j as int) == row@[j as int]);
                    let e = pick_exec(max, acc[j], row[j]);
                    acc[j] = e;
                    j = j + 1;
                }
            },
            None => {},
        }
        i = i + 1;
    }
    assert(g.take(i as int) =~= g);
    let ghost acc_view = acc@;
    let out = SeqColumn { kind: col.kind, encoding: Encoding::Variable, rows: vec![Some(acc)] };
    proof {
        assert(acc_view =~= Seq::new(n as nat, |j: int| column_extreme(max, g, j)));
        assert(out@ =~= extreme_grid(max, g));
        lemma_single_row(Some(acc_view));
    }
    from_variable(out, col.encoding)
}

/// Vertical minimum of an integer column: at each position the least scalar
/// over the present rows, missing scalars ignored.
pub fn list_min(col: &SeqColumn<i128>) -> (r: Result<SeqColumn<i128>, AggError>)
    ensures
        match validation(col@) {
            Err(e) => r == Err::<SeqColumn<i128>, AggError>(e),
            Ok(_) => {
                &&& r is Ok
                &&& r->Ok_0.kind == col.kind
                &&& r->Ok_0@ == extreme_grid(false, col@)
                &&& r->Ok_0.encoding == refit(col.encoding, consensus_len(col@))
            },
        },
{
    vertical_extreme(col, false)
}

/// Vertical maximum of an integer column: at each position the greatest
/// scalar over the present rows, missing scalars ignored.
pub fn list_max(col: &SeqColumn<i128>) -> (r: Result<SeqColumn<i128>, AggError>)
    ensures
        match validation(col@) {
            Err(e) => r == Err::<SeqColumn<i128>, AggError>(e),
            Ok(_) => {
                &&& r is Ok
                &&& r->Ok_0.kind == col.kind
                &&& r->Ok_0@ == extreme_grid(true, col@)
                &&& r->Ok_0.encoding == refit(col.encoding, consensus_len(col@))
            },
        },
{
    vertical_extreme(col, true)
}

/// The number of rows holding a scalar at position `j`.
pub open spec fn present_count(g: Seq<Option<Seq<Option<i128>>>>, j: int) -> nat
    decreases g.len(),
{
    if g.len() == 0 {
        0
    } else {
        present_count(g.drop_last(), j) + if cell(g.last(), j) is Some {
            1nat
        } else {
            0nat
        }
    }
}

/// The vertical mean: one row holding, at each position, the exact sum of the
/// scalars there over the number of rows that hold one (missing scalars count
/// neither in the sum nor in the divisor); one absent row if no row is present.
pub open spec fn mean_grid(g: Seq<Option<Seq<Option<i128>>>>) -> Seq<Option<Seq<Option<MeanValue>>>> {
    match consensus_len(g) {
        None => seq![None],
        Some(n) => seq![
            Some(
                Seq::new(
                    n,
                    |j: int| Some(MeanValue { sum: column_total(g, j) as i128, count: present_count(g, j) as usize }),
                ),
            ),
        ],
    }
}

/// Sums and counts only grow by one row's scalars per row.
proof fn lemma_mean_bounds(g: Seq<Option<Seq<Option<i128>>>>, k: IntKind, j: int)
    requires
        values_fit(k, g),
    ensures
        -(g.len() * 0x1_0000_0000_0000_0000) <= column_total(g, j) <= g.len() * 0x1_0000_0000_0000_0000,
        present_count(g, j) <= g.len(),
    decreases g.len(),
{
    if g.len() > 0 {
        let d = g.drop_last();
        assert forall|i: int, x: int| 0 <= i < d.len() && (#[trigger] cell(d[i], x)) is Some implies k.fits(
            cell(d[i], x)->0 as int,
        ) by {
            assert(d[i] == g[i]);
        }
        lemma_mean_bounds(d, k, j);
        assert(g.last() == g[g.len() - 1]);
        assert(cell(g[g.len() - 1], j) is Some ==> k.fits(cell(g[g.len() - 1], j)->0 as int));
    }
}

/// Vertical mean of an integer column, each position divided by the number
/// of rows that hold a scalar there. The result's kind is 64-bit floating point.
/// The row bound is one no vector of rows can exceed; it keeps the exact sums
/// within 128 bits.
pub fn list_mean(col: &SeqColumn<i128>) -> (r: Result<SeqColumn<MeanValue>, AggError>)
    requires
        int_column(*col),
        col.rows@.len() <= isize::MAX,
    ensures
        match validation(col@) {
            Err(e) => r == Err::<SeqColumn<MeanValue>, AggError>(e),
            Ok(_) => {
                &&& r is Ok
                &&& r->Ok_0.kind == ScalarKind::Float64
                &&& r->Ok_0@ == mean_grid(col@)
                &&& r->Ok_0.encoding == refit(col.encoding, consensus_len(col@))
            },
        },
{
    let ghost k = col.kind->Int_0;
    let ghost g = col@;
    let n = match check_rows(&col.rows) {
        Err(e) => {
            return Err(e);
        },
        Ok(None) => {
            let out = SeqColumn { kind: ScalarKind::Float64, encoding: Encoding::Variable, rows: vec![None] };
            proof {
                assert(out@ =~= seq![None]);
                lemma_single_row::<MeanValue>(None);
            }
            return from_variable(out, col.encoding);
        },
        Ok(Some(n)) => n,
    };
    proof {
        lemma_no_mismatch(g, n as nat);
    }
    let mut sums = zeros(n);
    let mut counts: Vec<usize> = Vec::new();
    let mut j: usize = 0;
    while j < n
        invariant
            j <= n,
            counts@.len() == j,
            forall|x: int| 0 <= x < j ==> counts@[x] == 0,
        decreases n - j,
    {
        counts.push(0);
        j = j + 1;
    }
    let mut i: usize = 0;
    while i < col.rows.len()
        invariant
            i <= col.rows.len(),
            col.rows@.len() <= isize::MAX,
            g == col@,
            values_fit(k, g),
            sums@.len() == n,
            counts@.len() == n,
            forall|x: int| 0 <= x < g.len() && #[trigger] g[x] is Some ==> g[x]->0.len() == n,
            forall|j: int| 0 <= j < n ==> #[trigger] sums@[j] == column_total(g.take(i as int), j),
            forall|j: int| 0 <= j < n ==> #[trigger] counts@[j] == present_count(g.take(i as int), j),
        decreases col.rows.len() - i,
    {
        assert(g.take(i + 1).drop_last() =~= g.take(i as int));
        assert(g.take(i + 1).last() == g[i as int]);
        match &col.rows[i] {
            Some(row) => {
                assert(g[i as int] == Some(row@));
                let mut j: usize = 0;
                while j < n
                    invariant
                        i < col.rows.len(),
                        col.rows@.len() <= isize::MAX,
                        j <= n,
                        g == col@,
                        values_fit(k, g),
                        g[i as int] == Some(row@),
                        row@.len() == n,
                        sums@.len() == n,
                        counts@.len() == n,
                        forall|x: int| 0 <= x < j ==> #[trigger] sums@[x] == column_total(g.take(i + 1), x),
                        forall|x: int| j <= x < n ==> #[trigger] sums@[x] == column_total(g.take(i as int), x),
                        forall|x: int| 0 <= x < j ==> #[trigger] counts@[x] == present_count(g.take(i + 1), x),
                        forall|x: int| j <= x < n ==> #[trigger] counts@[x] == present_count(g.take(i as int), x),
                        g.take(i + 1).drop_last() == g.take(i as int),
                        g.take(i + 1).last() == g[i as int],
                    decreases n - j,
                {
                    assert(cell(g[i as int], j as int) == row@[j as int]);
                    proof {
                        let p = g.take(i + 1);
                        assert forall|a: int, x: int| 0 <= a < p.len() && (#[trigger] cell(p[a], x)) is Some implies k.fits(
                            cell(p[a], x)->0 as int,
                        ) by {
                            assert(p[a] == g[a]);
                        }
                        lemma_mean_bounds(p, k, j as int);
                    }
                    match row[j] {
                        Some(v) => {
                            let s = sums[j] + v;
                            sums[j] = s;
                            let c = counts[j] + 1;
                            counts[j] = c;
                        },
                        None => {},
                    }
                    j = j + 1;
                }
            },
            None => {},
        }
        i = i + 1;
    }
    assert(g.take(i as int) =~= g);
    let mut means: Vec<Option<MeanValue>> = Vec::new();
    let mut j: usize = 0;
    while j < n
        invariant
            j <= n,
            sums@.len() == n,
            counts@.len() == n,
            means@.len() == j,
            forall|x: int| 0 <= x < j ==> #[trigger] means@[x] == Some(MeanValue { sum: sums@[x], count: counts@[x] }),
        decreases n - j,
    {
        means.push(Some(MeanValue { sum: sums[j], count: counts[j] }));
        j = j + 1;
    }
    let out = SeqColumn { kind: ScalarKind::Float64, encoding: Encoding::Variable, rows: vec![Some(means)] };
    proof {
        assert(means@ =~= Seq::new(
            n as nat,
            |j: int| Some(MeanValue { sum: column_total(g, j) as i128, count: present_count(g, j) as usize }),
        ));
        assert(out@ =~= mean_grid(g));
        lemma_single_row(Some(means@));
    }
    from_variable(out, col.encoding)
}

/// The difference of two scalars, wrapping in the kind's range; missing if
/// either is.
pub open spec fn diff_cell(k: IntKind, prev: Option<i128>, cur: Option<i128>) -> Option<i128> {
    match (prev, cur) {
        (Some(p), Some(c)) => Some(k.wrap(c - p) as i128),
        _ => None,
    }
}

/// Row `i` of the difference: absent for the first row and wherever the row
/// or its predecessor is absent, else the position-wise differences.
pub open spec fn diff_row(k: IntKind, g: Seq<Option<Seq<Option<i128>>>>, n: nat, i: int) -> Option<
    Seq<Option<i128>>,
> {
    if i == 0 || g[i - 1] is None || g[i] is None {
        None
    } else {
        Some(Seq::new(n, |j: int| diff_cell(k, cell(g[i - 1], j), cell(g[i], j))))
    }
}

/// The row-to-row difference: as many rows as the input.
pub open spec fn diff_grid(k: IntKind, g: Seq<Option<Seq<Option<i128>>>>) -> Seq<
    Option<Seq<Option<i128>>>,
> {
    let n = match consensus_len(g) {
        Some(n) => n,
        None => 0,
    };
    Seq::new(g.len(), |i: int| diff_row(k, g, n, i))
}

/// Row-to-row difference of an integer column: output row `i` holds row `i`
/// minus row `i - 1`, position by position, wrapping in the element kind's
/// range. The first row, and any row next to an absent one, is absent.
pub fn list_diff(col: &SeqColumn<i128>) -> (r: Result<SeqColumn<i128>, AggError>)
    requires
        int_column(*col),
    ensures
        match pair_validation(col@) {
            Err(e) => r == Err::<SeqColumn<i128>, AggError>(e),
            Ok(_) => {
                &&& r is Ok
                &&& r->Ok_0.kind == col.kind
                &&& r->Ok_0@ == diff_grid(col.kind->Int_0, col@)
                &&& r->Ok_0.encoding == refit(col.encoding, consensus_len(r->Ok_0@))
            },
        },
{
    let k = match col.kind {
        ScalarKind::Int(k) => k,
        _ => IntKind::Int64,
    };
    let ghost g = col@;
    let n: usize = match establish_consensus(&col.rows) {
        None => {
            proof {
                lemma_consensus_none(g);
            }
            0
        },
        Some(n) => {
            validate_pairs(&col.rows, n)?;
            proof {
                lemma_pairs_ok(g, n as nat);
            }
            n
        },
    };
    let ghost dg = diff_grid(k, g);
    let mut out: Vec<Option<Vec<Option<i128>>>> = Vec::new();
    let mut i: usize = 0;
    while i < col.rows.len()
        invariant
            i <= col.rows.len(),
            g == col@,
            values_fit(k, g),
            dg == diff_grid(k, g),
            consensus_len(g) is None ==> forall|x: int| 0 <= x < g.len() ==> #[trigger] g[x] is None,
            consensus_len(g) is Some ==> consensus_len(g) == Some(n as nat),
            forall|x: int|
                1 <= x < g.len() && #[trigger] g[x] is Some && g[x - 1] is Some ==> g[x]->0.len() == n
                    && g[x - 1]->0.len() == n,
            out@.len() == i,
            forall|x: int| 0 <= x < i ==> #[trigger] row_view(out@[x]) == dg[x],
        decreases col.rows.len() - i,
    {
        if i == 0 {
            out.push(None);
        } else {
            assert(g[i as int] == row_view(col.rows@[i as int]));
            assert(g[i - 1] == row_view(col.rows@[i - 1]));
            match (&col.rows[i - 1], &col.rows[i]) {
                (Some(p), Some(c)) => {
                    let mut d: Vec<Option<i128>> = Vec::new();
                    let mut j: usize = 0;
                    while j < n
                        invariant
                            1 <= i < col.rows.len(),
                            j <= n,
                            g == col@,
                            values_fit(k, g),
                            g[i - 1] == Some(p@),
                            g[i as int] == Some(c@),
                            p@.len() == n,
                            c@.len() == n,
                            d@.len() == j,
                            forall|x: int| 0 <= x < j ==> #[trigger] d@[x] == diff_cell(k, cell(g[i - 1], x), cell(g[i as int], x)),
                        decreases n - j,
                    {
                        assert(cell(g[i - 1], j as int) == p@[j as int]);
                        assert(cell(g[i as int], j as int) == c@[j as int]);
                        let v = match (p[j], c[j]) {
                            (Some(a), Some(b)) => Some(wrapping_sub(k, b, a)),
                            _ => None,
                        };
                        d.push(v);
                        j = j + 1;
                    }
                    assert(d@ =~= Seq::new(n as nat, |x: int| diff_cell(k, cell(g[i - 1], x), cell(g[i as int], x))));
                    out.push(Some(d));
                },
                _ => {
                    out.push(None);
                },
            }
        }
        i = i + 1;
    }
    let result = SeqColumn { kind: col.kind, encoding: Encoding::Variable, rows: out };
    proof {
        assert(result@ =~= dg);
        assert forall|x: int| 0 <= x < dg.len() && #[trigger] dg[x] is Some implies dg[x]->0.len() == n by {}
        lemma_uniform_validation(dg, n as nat);
    }
    from_variable(result, col.encoding)
}

} // verus!
