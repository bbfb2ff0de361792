//! The reductions of a window to one scalar.

use vstd::prelude::*;
use crate::matrix::SliceView;
use crate::util::error::UtahError;
use crate::util::types::{ImputeStrategy, EMPTY};

verus! {

/// The reductions that an aggregation can apply to a window.
#[derive(Clone, Copy, Debug, PartialEq, Eq, Structural)]
pub enum Reduction {
    /// The total of the cells.
    Sum,
    /// The total divided by the number of cells.
    Mean,
    /// The greatest cell.
    Max,
    /// The least cell.
    Min,
    /// The standard deviation of the cells.
    Stdev,
}

/// The arithmetic total of the cells. A missing cell counts with the value
/// that stands for it.
pub open spec fn total(cells: Seq<i64>) -> int
    decreases cells.len(),
{
    if cells.len() == 0 {
        0
    } else {
        total(cells.drop_last()) + cells.last()
    }
}

/// The quotient of `a` by a positive `b`, rounded towards zero.
pub open spec fn quotient(a: int, b: int) -> int {
    if a >= 0 {
        a / b
    } else {
        -((-a) / b)
    }
}

/// `m` is a cell of `cells`, and no cell is greater.
pub open spec fn is_max(cells: Seq<i64>, m: i64) -> bool {
    cells.contains(m) && forall|k: int| 0 <= k < cells.len() ==> cells[k] <= m
}

/// `m` is a cell of `cells`, and no cell is less.
pub open spec fn is_min(cells: Seq<i64>, m: i64) -> bool {
    cells.contains(m) && forall|k: int| 0 <= k < cells.len() ==> cells[k] >= m
}

/// The sum of a window: its total, or `Overflow` where that is no `i64`.
pub open spec fn sum_of(cells: Seq<i64>) -> Result<i64, UtahError> {
    if i64::MIN <= total(cells) <= i64::MAX {
        Ok(total(cells) as i64)
    } else {
        Err(UtahError::Overflow)
    }
}

/// The mean of a window: its total divided by the number of its cells and
/// rounded towards zero, or `EmptyReduction` where it has no cell. A missing
/// cell counts as in the total; impute first to leave it out.
pub open spec fn mean_of(cells: Seq<i64>) -> Result<i64, UtahError> {
    if cells.len() == 0 {
        Err(UtahError::EmptyReduction)
    } else {
        Ok(quotient(total(cells), cells.len() as int) as i64)
    }
}

/// The greatest cell of a window, or `EmptyReduction` where it has no cell.
/// The cells are compared as numbers, so a missing cell counts as the least
/// `i64`, which stands for it.
pub open spec fn max_of(cells: Seq<i64>) -> Result<i64, UtahError> {
    if cells.len() == 0 {
        Err(UtahError::EmptyReduction)
    } else {
        Ok(choose|m: i64| is_max(cells, m))
    }
}

/// The least cell of a window, or `EmptyReduction` where it has no cell.
/// The cells are compared as numbers, so a missing cell counts as the least
/// `i64`, which stands for it, and is the least cell of its window.
pub open spec fn min_of(cells: Seq<i64>) -> Result<i64, UtahError> {
    if cells.len() == 0 {
        Err(UtahError::EmptyReduction)
    } else {
        Ok(choose|m: i64| is_min(cells, m))
    }
}

/// The squares of `n * x - t`, added up over the first `upto` cells `x`.
pub open spec fn squared_deviations(cells: Seq<i64>, n: int, t: int, upto: int) -> int
    decreases upto,
{
    if upto <= 0 {
        0
    } else {
        squared_deviations(cells, n, t, upto - 1) + (n * cells[upto - 1] - t) * (n * cells[upto
            - 1] - t)
    }
}

/// The spread of a window of `n` cells: the squared distances of the cells
/// from their mean, added up and scaled by `n * n` so as to stay whole.
pub open spec fn spread(cells: Seq<i64>) -> int {
    squared_deviations(cells, cells.len() as int, total(cells), cells.len() as int)
}

/// `r` is the square root of `v`, rounded down.
pub open spec fn is_root(v: int, r: int) -> bool {
    0 <= r && r * r <= v < (r + 1) * (r + 1)
}

/// The population variance of a window that is not empty, rounded down: the
/// mean of the squared distances of its cells from their mean.
pub open spec fn variance(cells: Seq<i64>) -> int {
    let n = cells.len() as int;
    spread(cells) / (n * n * n)
}

/// The standard deviation of a window: the square root of its population
/// variance, rounded down. `EmptyReduction` where the window has no cell,
/// `Overflow` where the spread is more than a `u128` holds or the root is
/// no `i64`.
pub open spec fn stdev_of(cells: Seq<i64>) -> Result<i64, UtahError> {
    if cells.len() == 0 {
        Err(UtahError::EmptyReduction)
    } else if spread(cells) > u128::MAX {
        Err(UtahError::Overflow)
    } else {
        let r = choose|r: int| is_root(variance(cells), r);
        if r <= i64::MAX {
            Ok(r as i64)
        } else {
            Err(UtahError::Overflow)
        }
    }
}

/// What a reduction makes of a window.
pub open spec fn reduce(kind: Reduction, cells: Seq<i64>) -> Result<i64, UtahError> {
    match kind {
        Reduction::Sum => sum_of(cells),
        Reduction::Mean => mean_of(cells),
        Reduction::Max => max_of(cells),
        Reduction::Min => min_of(cells),
        Reduction::Stdev => stdev_of(cells),
    }
}

/// The cells of a window that are not missing, in their order.
pub open spec fn present(cells: Seq<i64>) -> Seq<i64> {
    cells.filter(|x: i64| x != EMPTY)
}

/// The window with `value` in place of each missing cell.
pub open spec fn filled_with(cells: Seq<i64>, value: i64) -> Seq<i64> {
    cells.map_values(
        |x: i64|
            if x == EMPTY {
                value
            } else {
                x
            },
    )
}

/// What imputation makes of a window. With `Mean`: each missing cell becomes
/// the mean of the cells that are not missing, and the others stay; a window
/// without any cell that is not missing has no mean, which is
/// `EmptyReduction`.
pub open spec fn imputed(strategy: ImputeStrategy, cells: Seq<i64>) -> Result<Seq<i64>, UtahError> {
    match strategy {
        ImputeStrategy::Mean => match mean_of(present(cells)) {
            Ok(m) => Ok(filled_with(cells, m)),
            Err(e) => Err(e),
        },
    }
}

/// The total of one more cell.
pub proof fn lemma_total_push(cells: Seq<i64>, x: i64)
    ensures
        total(cells.push(x)) == total(cells) + x,
{
    assert(cells.push(x).drop_last() =~= cells);
}

/// The total of `n` cells lies between `n` times the least and `n` times the
/// greatest `i64`.
pub proof fn lemma_total_bounds(cells: Seq<i64>)
    ensures
        cells.len() * i64::MIN <= total(cells) <= cells.len() * i64::MAX,
    decreases cells.len(),
{
    if cells.len() > 0 {
        lemma_total_bounds(cells.drop_last());
        let n = cells.len() as int;
        assert((n - 1) * i64::MIN + i64::MIN == n * i64::MIN) by (nonlinear_arith);
        assert((n - 1) * i64::MAX + i64::MAX == n * i64::MAX) by (nonlinear_arith);
    }
}

/// A total within `n` times the range of `i64`, divided by `n`, is an `i64`.
pub proof fn lemma_quotient_bounds(t: int, n: int)
    requires
        n > 0,
        n * i64::MIN <= t <= n * i64::MAX,
    ensures
        i64::MIN <= quotient(t, n) <= i64::MAX,
{
    if t >= 0 {
        assert(0 <= t / n <= i64::MAX) by (nonlinear_arith)
            requires
                n > 0,
                0 <= t <= n * i64::MAX,
        ;
    } else {
        let u = -t;
        assert(0 <= u / n <= -i64::MIN) by (nonlinear_arith)
            requires
                n > 0,
                0 <= u <= n * (-i64::MIN),
        ;
    }
}

/// A window has at most one greatest cell.
pub proof fn lemma_max_unique(cells: Seq<i64>, m: i64)
    requires
        is_max(cells, m),
    ensures
        cells.len() > 0,
        max_of(cells) == Ok::<i64, UtahError>(m),
{
    let c = choose|c: i64| is_max(cells, c);
    assert(is_max(cells, c));
    let i = choose|i: int| 0 <= i < cells.len() && cells[i] == m;
    let j = choose|j: int| 0 <= j < cells.len() && cells[j] == c;
    assert(cells[i] <= c && cells[j] <= m);
}

/// A window has at most one least cell.
pub proof fn lemma_min_unique(cells: Seq<i64>, m: i64)
    requires
        is_min(cells, m),
    ensures
        cells.len() > 0,
        min_of(cells) == Ok::<i64, UtahError>(m),
{
    let c = choose|c: i64| is_min(cells, c);
    assert(is_min(cells, c));
    let i = choose|i: int| 0 <= i < cells.len() && cells[i] == m;
    let j = choose|j: int| 0 <= j < cells.len() && cells[j] == c;
    assert(cells[i] >= c && cells[j] >= m);
}

/// The total of the cells of a view.
fn total_of(cells: &SliceView<'_>) -> (t: i128)
    ensures
        t == total(cells@),
{
    let n = cells.len();
    let mut t: i128 = 0;
    let mut i: usize = 0;
    assert(cells@.take(0) =~= Seq::<i64>::empty());
    while i < n
        invariant
            i <= n,
            n == cells@.len(),
            t == total(cells@.take(i as int)),
            i * i64::MIN <= t <= i * i64::MAX,
        decreases n - i,
    {
        let x = cells.get(i);
        proof {
            assert(cells@.take(i + 1) =~= cells@.take(i as int).push(x));
            lemma_total_push(cells@.take(i as int), x);
            assert((i + 1) * i64::MIN == i * i64::MIN + i64::MIN) by (nonlinear_arith);
            assert((i + 1) * i64::MAX == i * i64::MAX + i64::MAX) by (nonlinear_arith);
            assert(i * i64::MIN >= usize::MAX * i64::MIN) by (nonlinear_arith)
                requires
                    i <= usize::MAX,
            ;
            assert(i * i64::MAX <= usize::MAX * i64::MAX) by (nonlinear_arith)
                requires
                    i <= usize::MAX,
            ;
        }
        t = t + x as i128;
        i = i + 1;
    }
    assert(cells@.take(n as int) =~= cells@);
    t
}

/// The quotient of `t` by `n`, rounded towards zero.
fn quotient_of(t: i128, n: usize) -> (q: i64)
    requires
        n > 0,
        n * i64::MIN <= t <= n * i64::MAX,
    ensures
        q == quotient(t as int, n as int),
{
    proof {
        lemma_quotient_bounds(t as int, n as int);
    }
    if t >= 0 {
        let q = (t as u128) / (n as u128);
        q as i64
    } else {
        let u = (-t) as u128;
        let q = u / (n as u128);
        if q == 0x8000_0000_0000_0000u128 {
            i64::MIN
        } else {
            -(q as i64)
        }
    }
}

/// The sum of the cells of a view.
pub fn sum_cells(cells: &SliceView<'_>) -> (r: Result<i64, UtahError>)
    ensures
        r == sum_of(cells@),
{
    let t = total_of(cells);
    if t < i64::MIN as i128 || t > i64::MAX as i128 {
        Err(UtahError::Overflow)
    } else {
        Ok(t as i64)
    }
}

/// The mean of the cells of a view.
pub fn mean_cells(cells: &SliceView<'_>) -> (r: Result<i64, UtahError>)
    ensures
        r == mean_of(cells@),
{
    let n = cells.len();
    if n == 0 {
        return Err(UtahError::EmptyReduction);
    }
    let t = total_of(cells);
    proof {
        lemma_total_bounds(cells@);
    }
    Ok(quotient_of(t, n))
}

/// The greatest cell of a view.
pub fn max_cells(cells: &SliceView<'_>) -> (r: Result<i64, UtahError>)
    ensures
        r == max_of(cells@),
{
    let n = cells.len();
    if n == 0 {
        return Err(UtahError::EmptyReduction);
    }
    let mut m = cells.get(0);
    let mut i: usize = 1;
    while i < n
        invariant
            1 <= i <= n,
            n == cells@.len(),
            exists|k: int| 0 <= k < i && cells@[k] == m,
            forall|k: int| 0 <= k < i ==> cells@[k] <= m,
        decreases n - i,
    {
        let x = cells.get(i);
        if x > m {
            m = x;
        }
        i = i + 1;
    }
    proof {
        lemma_max_unique(cells@, m);
    }
    Ok(m)
}

/// The least cell of a view.
pub fn min_cells(cells: &SliceView<'_>) -> (r: Result<i64, UtahError>)
    ensures
        r == min_of(cells@),
{
    let n = cells.len();
    if n == 0 {
        return Err(UtahError::EmptyReduction);
    }
    let mut m = cells.get(0);
    let mut i: usize = 1;
    while i < n
        invariant
            1 <= i <= n,
            n == cells@.len(),
            exists|k: int| 0 <= k < i && cells@[k] == m,
            forall|k: int| 0 <= k < i ==> cells@[k] >= m,
        decreases n - i,
    {
        let x = cells.get(i);
        if x < m {
            m = x;
        }
        i = i + 1;
    }
    proof {
        lemma_min_unique(cells@, m);
    }
    Ok(m)
}

/// Squared deviations are not negative, and more cells add no less.
pub proof fn lemma_squared_deviations_grow(cells: Seq<i64>, n: int, t: int, k: int, upto: int)
    requires
        0 <= k <= upto,
    ensures
        0 <= squared_deviations(cells, n, t, k) <= squared_deviations(cells, n, t, upto),
    decreases upto,
{
    if k < upto {
        lemma_squared_deviations_grow(cells, n, t, k, upto - 1);
        let d = n * cells[upto - 1] - t;
        assert(d * d >= 0) by (nonlinear_arith);
    } else if upto > 0 {
        lemma_squared_deviations_grow(cells, n, t, k - 1, upto - 1);
        let d = n * cells[upto - 1] - t;
        assert(d * d >= 0) by (nonlinear_arith);
    }
}

/// A number has at most one square root rounded down.
pub proof fn lemma_root_unique(v: int, a: int, b: int)
    requires
        is_root(v, a),
        is_root(v, b),
    ensures
        a == b,
{
    if a < b {
        assert((a + 1) * (a + 1) <= b * b) by (nonlinear_arith)
            requires
                0 <= a,
                a + 1 <= b,
        ;
    } else if b < a {
        assert((b + 1) * (b + 1) <= a * a) by (nonlinear_arith)
            requires
                0 <= b,
                b + 1 <= a,
        ;
    }
}

/// The square root of `v`, rounded down.
fn root_of(v: u128) -> (r: u128)
    ensures
        is_root(v as int, r as int),
        r < 0x1_0000_0000_0000_0000,
{
    let mut lo: u128 = 0;
    let mut hi: u128 = 0x1_0000_0000_0000_0000;
    assert(0x1_0000_0000_0000_0000int * 0x1_0000_0000_0000_0000int > u128::MAX) by (nonlinear_arith);
    while hi - lo > 1
        invariant
            lo < hi <= 0x1_0000_0000_0000_0000,
            lo * lo <= v,
            v < hi * hi,
        decreases hi - lo,
    {
        let mid = lo + (hi - lo) / 2;
        assert(mid * mid < 0x1_0000_0000_0000_0000int * 0x1_0000_0000_0000_0000int)
            by (nonlinear_arith)
            requires
                0 <= mid < 0x1_0000_0000_0000_0000,
        ;
        match mid.checked_mul(mid) {
            Some(sq) => {
                if sq <= v {
                    lo = mid;
                } else {
                    hi = mid;
                }
            },
            None => {
                hi = mid;
            },
        }
    }
    lo
}

/// The spread of the cells of a view, or `None` where it is more than a
/// `u128` holds.
fn spread_of(cells: &SliceView<'_>, t: i128) -> (r: Option<u128>)
    requires
        t == total(cells@),
    ensures
        match r {
            Some(s) => s == spread(cells@),
            None => spread(cells@) > u128::MAX,
        },
{
    let n = cells.len();
    let mut acc: u128 = 0;
    let mut k: usize = 0;
    while k < n
        invariant
            k <= n,
            n == cells@.len(),
            t == total(cells@),
            acc == squared_deviations(cells@, n as int, t as int, k as int),
        decreases n - k,
    {
        let x = cells.get(k);
        proof {
            lemma_squared_deviations_grow(cells@, n as int, t as int, k + 1, n as int);
        }
        assert(i128::MIN <= n * x <= i128::MAX) by (nonlinear_arith)
            requires
                0 <= n <= u64::MAX,
                i64::MIN <= x <= i64::MAX,
        ;
        let p = (n as i128) * (x as i128);
        let ghost d = p - t;
        let m: u128 = match p.checked_sub(t) {
            Some(d) => {
                if d >= 0 {
                    d as u128
                } else if d == i128::MIN {
                    0x8000_0000_0000_0000_0000_0000_0000_0000u128
                } else {
                    (-d) as u128
                }
            },
            None => {
                proof {
                    assert(d * d > u128::MAX) by (nonlinear_arith)
                        requires
                            d > i128::MAX || d < i128::MIN,
                    ;
                }
                return None;
            },
        };
        proof {
            assert(m * m == d * d) by (nonlinear_arith)
                requires
                    m == d || m == -d,
            ;
        }
        let sq = match m.checked_mul(m) {
            Some(sq) => sq,
            None => {
                return None;
            },
        };
        acc = match acc.checked_add(sq) {
            Some(sum) => sum,
            None => {
                return None;
            },
        };
        k = k + 1;
    }
    Some(acc)
}

/// The standard deviation of the cells of a view.
pub fn stdev_cells(cells: &SliceView<'_>) -> (r: Result<i64, UtahError>)
    ensures
        r == stdev_of(cells@),
{
    let n = cells.len();
    if n == 0 {
        return Err(UtahError::EmptyReduction);
    }
    let t = total_of(cells);
    let s = match spread_of(cells, t) {
        Some(s) => s,
        None => {
            return Err(UtahError::Overflow);
        },
    };
    let v = ((s / (n as u128)) / (n as u128)) / (n as u128);
    let root = root_of(v);
    proof {
        let m = n as int;
        vstd::arithmetic::div_mod::lemma_div_denominator(s as int, m, m);
        assert(m * m > 0) by (nonlinear_arith)
            requires
                m > 0,
        ;
        vstd::arithmetic::div_mod::lemma_div_denominator(s as int, m * m, m);
        assert(v == variance(cells@));
        let chosen = choose|r: int| is_root(variance(cells@), r);
        lemma_root_unique(v as int, root as int, chosen);
    }
    if root > i64::MAX as u128 {
        Err(UtahError::Overflow)
    } else {
        Ok(root as i64)
    }
}

/// The window with its missing cells imputed.
pub fn impute_cells(strategy: ImputeStrategy, cells: &Vec<i64>) -> (r: Result<Vec<i64>, UtahError>)
    ensures
        match r {
            Ok(out) => imputed(strategy, cells@) == Ok::<Seq<i64>, UtahError>(out@),
            Err(e) => imputed(strategy, cells@) == Err::<Seq<i64>, UtahError>(e),
        },
{
    let n = cells.len();
    let ghost keep = |x: i64| x != EMPTY;
    let mut t: i128 = 0;
    let mut count: usize = 0;
    let mut i: usize = 0;
    assert(cells@.take(0) =~= Seq::<i64>::empty());
    proof {
        cells@.take(0).lemma_filter_len(keep);
    }
    while i < n
        invariant
            i <= n,
            n == cells@.len(),
            keep == |x: i64| x != EMPTY,
            count == cells@.take(i as int).filter(keep).len(),
            count <= i,
            t == total(cells@.take(i as int).filter(keep)),
            count * i64::MIN <= t <= count * i64::MAX,
        decreases n - i,
    {
        let x = cells[i];
        proof {
            let seen = cells@.take(i as int);
            assert(cells@.take(i + 1) =~= seen.push(x));
            seen.lemma_filter_push(x, keep);
            if x != EMPTY {
                lemma_total_push(seen.filter(keep), x);
                assert((count + 1) * i64::MIN == count * i64::MIN + i64::MIN) by (nonlinear_arith);
                assert((count + 1) * i64::MAX == count * i64::MAX + i64::MAX) by (nonlinear_arith);
                assert(count * i64::MIN >= usize::MAX * i64::MIN) by (nonlinear_arith)
                    requires
                        count <= usize::MAX,
                ;
                assert(count * i64::MAX <= usize::MAX * i64::MAX) by (nonlinear_arith)
                    requires
                        count <= usize::MAX,
                ;
            }
        }
        if x != EMPTY {
            t = t + x as i128;
            count = count + 1;
        }
        i = i + 1;
    }
    assert(cells@.take(n as int) =~= cells@);
    if count == 0 {
        return Err(UtahError::EmptyReduction);
    }
    let m = quotient_of(t, count);
    let mut out: Vec<i64> = Vec::new();
    let mut j: usize = 0;
    while j < n
        invariant
            j <= n,
            n == cells@.len(),
            out.len() == j,
            forall|k: int|
                0 <= k < j ==> #[trigger] out@[k] == (if cells@[k] == EMPTY {
                    m
                } else {
                    cells@[k]
                }),
        decreases n - j,
    {
        let x = cells[j];
        if x == EMPTY {
            out.push(m);
        } else {
            out.push(x);
        }
        j = j + 1;
    }
    assert(out@ =~= filled_with(cells@, m));
    Ok(out)
}

/// Applies a reduction to the cells of a view.
pub fn reduce_cells(kind: Reduction, cells: &SliceView<'_>) -> (r: Result<i64, UtahError>)
    ensures
        r == reduce(kind, cells@),
{
    match kind {
        Reduction::Sum => sum_cells(cells),
        Reduction::Mean => mean_cells(cells),
        Reduction::Max => max_cells(cells),
        Reduction::Min => min_cells(cells),
        Reduction::Stdev => stdev_cells(cells),
    }
}

} // verus!
