//! LU decomposition with partial pivoting.
use vstd::prelude::*;
use crate::algebra::{self, dot_prefix, grid, is_grid, sum};
use crate::matrix::{fits_i64, Matrix};

verus! {

pub open spec fn abs(x: int) -> int {
    if x < 0 {
        -x
    } else {
        x
    }
}

/// Among rows `k .. e` of `u`, the first whose entry in column `k` has the
/// largest absolute value.
pub open spec fn pivot_upto(u: Seq<Seq<int>>, k: int, e: int) -> int
    decreases e - k,
{
    if e <= k + 1 {
        k
    } else {
        let b = pivot_upto(u, k, e - 1);
        if abs(u[e - 1][k]) > abs(u[b][k]) {
            e - 1
        } else {
            b
        }
    }
}

pub open spec fn swap_rows(g: Seq<Seq<int>>, a: int, b: int) -> Seq<Seq<int>> {
    g.update(a, g[b]).update(b, g[a])
}

pub open spec fn swap_entries(s: Seq<int>, a: int, b: int) -> Seq<int> {
    s.update(a, s[b]).update(b, s[a])
}

/// `l` with the entries left of column `k` exchanged between rows `k` and `r`.
pub open spec fn swap_lower(l: Seq<Seq<int>>, n: int, k: int, r: int) -> Seq<Seq<int>> {
    grid(
        n,
        n,
        |i: int, j: int|
            if j < k && i == k {
                l[r][j]
            } else if j < k && i == r {
                l[k][j]
            } else {
                l[i][j]
            },
    )
}

/// The multiple of row `k` that clears column `k` of row `i`; zero when the pivot is zero.
pub open spec fn factor(u: Seq<Seq<int>>, k: int, i: int) -> int {
    if u[k][k] == 0 {
        0
    } else {
        u[i][k] / u[k][k]
    }
}

/// `u` with the multiple `factor(u, k, i)` of row `k` taken from every row `i` below `k`.
pub open spec fn eliminate(u: Seq<Seq<int>>, n: int, k: int) -> Seq<Seq<int>> {
    grid(
        n,
        n,
        |i: int, j: int|
            if i > k && j >= k {
                u[i][j] - factor(u, k, i) * u[k][j]
            } else {
                u[i][j]
            },
    )
}

/// `l` with the factors of column `k` stored below its diagonal.
pub open spec fn record_factors(l: Seq<Seq<int>>, u: Seq<Seq<int>>, n: int, k: int) -> Seq<Seq<int>> {
    grid(n, n, |i: int, j: int| if i > k && j == k { factor(u, k, i) } else { l[i][j] })
}

/// Clearing column `k` below row `k` of row `i` divides exactly and stays within `i64`.
pub open spec fn row_step_fits(u: Seq<Seq<int>>, n: int, k: int, i: int) -> bool {
    &&& u[k][k] != 0 ==> u[i][k] % u[k][k] == 0 && fits_i64(u[i][k] / u[k][k])
    &&& forall|j: int|
        k <= j < n ==> fits_i64(factor(u, k, i) * #[trigger] u[k][j]) && fits_i64(
            u[i][j] - factor(u, k, i) * u[k][j],
        )
}

pub open spec fn step_fits(u: Seq<Seq<int>>, n: int, k: int) -> bool {
    forall|i: int| k < i < n ==> #[trigger] row_step_fits(u, n, k, i)
}

/// One pivoting and elimination step on column `k`: the row order, `L` and `U`
/// after it, or `None` when it cannot be carried out exactly in `i64`.
pub open spec fn lu_step(
    perm: Seq<int>,
    l: Seq<Seq<int>>,
    u: Seq<Seq<int>>,
    n: int,
    k: int,
) -> Option<(Seq<int>, Seq<Seq<int>>, Seq<Seq<int>>)> {
    let r = pivot_upto(u, k, n);
    let u2 = swap_rows(u, k, r);
    if step_fits(u2, n, k) {
        Some(
            (
                swap_entries(perm, k, r),
                record_factors(swap_lower(l, n, k, r), u2, n, k),
                eliminate(u2, n, k),
            ),
        )
    } else {
        None
    }
}

/// The state after the steps on the first `k` columns of the `n` by `n` grid `a`.
pub open spec fn lu_upto(a: Seq<Seq<int>>, n: int, k: nat) -> Option<
    (Seq<int>, Seq<Seq<int>>, Seq<Seq<int>>),
>
    decreases k,
{
    if k == 0 {
        Some((Seq::new(n as nat, |i: int| i), algebra::identity(n), a))
    } else {
        match lu_upto(a, n, (k - 1) as nat) {
            Some(s) => lu_step(s.0, s.1, s.2, n, k - 1),
            None => None,
        }
    }
}

/// The row order, `L` and `U` of the decomposition of `a`, when every step is exact in `i64`.
pub open spec fn lu_of(a: Seq<Seq<int>>, n: int) -> Option<(Seq<int>, Seq<Seq<int>>, Seq<Seq<int>>)> {
    lu_upto(a, n, n as nat)
}

/// `perm` lists each of `0 .. n` exactly once.
pub open spec fn is_permutation(perm: Seq<int>, n: int) -> bool {
    &&& perm.len() == n
    &&& forall|i: int| 0 <= i < n ==> 0 <= #[trigger] perm[i] < n
    &&& forall|i: int, j: int| 0 <= i < n && 0 <= j < n && i != j ==> perm[i] != perm[j]
}

/// The matrix that moves row `perm[i]` to row `i`.
pub open spec fn permutation_matrix(perm: Seq<int>, n: int) -> Seq<Seq<int>> {
    grid(n, n, |i: int, j: int| if j == perm[i] { 1int } else { 0int })
}

/// Ones on the diagonal and zeros above it.
pub open spec fn is_unit_lower(l: Seq<Seq<int>>, n: int) -> bool {
    forall|i: int, j: int| 0 <= i < n && 0 <= j < n && i <= j ==> #[trigger] l[i][j] == if i == j { 1int } else { 0int }
}

/// No entry exceeds one in absolute value: what choosing the largest pivot ensures.
pub open spec fn is_bounded_by_one(l: Seq<Seq<int>>, n: int) -> bool {
    forall|i: int, j: int| 0 <= i < n && 0 <= j < n ==> abs(#[trigger] l[i][j]) <= 1
}

/// Zeros below the diagonal.
pub open spec fn is_upper(u: Seq<Seq<int>>, n: int) -> bool {
    forall|i: int, j: int| 0 <= j < i < n ==> #[trigger] u[i][j] == 0
}

pub open spec fn min(a: int, b: int) -> int {
    if a < b {
        a
    } else {
        b
    }
}

/// What holds of the state after the steps on the first `k` columns of `a`:
/// row `i` of `a` taken in the order `perm` is row `i` of `U` plus the
/// multiples of the rows above it that `L` records.
pub open spec fn lu_invariant(
    a: Seq<Seq<int>>,
    n: int,
    k: int,
    perm: Seq<int>,
    l: Seq<Seq<int>>,
    u: Seq<Seq<int>>,
) -> bool {
    &&& 0 <= k <= n
    &&& is_grid(a, n, n)
    &&& is_grid(l, n, n)
    &&& is_grid(u, n, n)
    &&& is_permutation(perm, n)
    &&& is_unit_lower(l, n)
    &&& is_bounded_by_one(l, n)
    &&& forall|i: int, j: int| 0 <= i < n && k <= j < i ==> #[trigger] l[i][j] == 0
    &&& forall|i: int, j: int| 0 <= i < n && 0 <= j < k && j < i ==> #[trigger] u[i][j] == 0
    &&& forall|i: int, j: int|
        0 <= i < n && 0 <= j < n ==> #[trigger] a[perm[i]][j] == dot_prefix(l, u, i, j, min(i, k))
            + u[i][j]
}

pub proof fn lemma_pivot(u: Seq<Seq<int>>, k: int, e: int)
    requires
        k < e,
    ensures
        k <= pivot_upto(u, k, e) < e,
        forall|i: int| k <= i < e ==> abs(#[trigger] u[i][k]) <= abs(u[pivot_upto(u, k, e)][k]),
    decreases e - k,
{
    if e > k + 1 {
        lemma_pivot(u, k, e - 1);
    }
}

proof fn lemma_lu_invariant_init(a: Seq<Seq<int>>, n: int)
    requires
        0 <= n,
        is_grid(a, n, n),
    ensures
        lu_invariant(a, n, 0, Seq::new(n as nat, |i: int| i), algebra::identity(n), a),
{
}

proof fn lemma_lu_invariant_swap(
    a: Seq<Seq<int>>,
    n: int,
    k: int,
    r: int,
    perm: Seq<int>,
    l: Seq<Seq<int>>,
    u: Seq<Seq<int>>,
)
    requires
        lu_invariant(a, n, k, perm, l, u),
        k <= r < n,
    ensures
        lu_invariant(a, n, k, swap_entries(perm, k, r), swap_lower(l, n, k, r), swap_rows(u, k, r)),
{
    let perm2 = swap_entries(perm, k, r);
    let l2 = swap_lower(l, n, k, r);
    let u2 = swap_rows(u, k, r);
    assert forall|i: int, j: int| 0 <= i < n && 0 <= j < n implies #[trigger] a[perm2[i]][j]
        == dot_prefix(l2, u2, i, j, min(i, k)) + u2[i][j] by {
        let c = min(i, k);
        if i == k {
            lemma_sum_ext_rows(l2, u2, l, u, i, r, j, c);
            assert(a[perm[r]][j] == dot_prefix(l, u, r, j, min(r, k)) + u[r][j]);
        } else if i == r {
            lemma_sum_ext_rows(l2, u2, l, u, i, k, j, c);
            assert(a[perm[k]][j] == dot_prefix(l, u, k, j, min(k, k)) + u[k][j]);
        } else {
            lemma_sum_ext_rows(l2, u2, l, u, i, i, j, c);
            assert(a[perm[i]][j] == dot_prefix(l, u, i, j, min(i, k)) + u[i][j]);
        }
    }
}

/// Partial row sums agree when the rows of `l2` and `l` and the columns of
/// `u2` and `u` agree on the positions summed.
proof fn lemma_sum_ext_rows(
    l2: Seq<Seq<int>>,
    u2: Seq<Seq<int>>,
    l: Seq<Seq<int>>,
    u: Seq<Seq<int>>,
    i2: int,
    i: int,
    j: int,
    c: int,
)
    requires
        forall|t: int| 0 <= t < c ==> #[trigger] l2[i2][t] == l[i][t] && u2[t][j] == u[t][j],
    ensures
        dot_prefix(l2, u2, i2, j, c) == dot_prefix(l, u, i, j, c),
{
    algebra::lemma_sum_ext(c, |t: int| l2[i2][t] * u2[t][j], |t: int| l[i][t] * u[t][j]);
}

proof fn lemma_lu_invariant_eliminate(
    a: Seq<Seq<int>>,
    n: int,
    k: int,
    perm: Seq<int>,
    l: Seq<Seq<int>>,
    u: Seq<Seq<int>>,
)
    requires
        lu_invariant(a, n, k, perm, l, u),
        k < n,
        forall|i: int| k < i < n ==> abs(#[trigger] u[i][k]) <= abs(u[k][k]),
        step_fits(u, n, k),
    ensures
        lu_invariant(a, n, k + 1, perm, record_factors(l, u, n, k), eliminate(u, n, k)),
{
    let l3 = record_factors(l, u, n, k);
    let u3 = eliminate(u, n, k);
    assert forall|i: int, j: int| 0 <= i < n && 0 <= j < n implies abs(#[trigger] l3[i][j]) <= 1 by {
        if i > k && j == k && u[k][k] != 0 {
            assert(row_step_fits(u, n, k, i));
            let x = u[i][k];
            let d = u[k][k];
            let q = x / d;
            vstd::arithmetic::div_mod::lemma_fundamental_div_mod(x, d);
            assert(abs(x) <= abs(d));
            assert(abs(q) <= 1) by (nonlinear_arith)
                requires
                    d != 0,
                    x == d * q,
                    abs(x) <= abs(d),
                    abs(x) == if x < 0 { -x } else { x },
                    abs(d) == if d < 0 { -d } else { d },
                    abs(q) == if q < 0 { -q } else { q },
            ;
        }
    }
    assert forall|i: int, j: int| 0 <= i < n && 0 <= j < k + 1 && j < i implies #[trigger] u3[i][j]
        == 0 by {
        if i > k && j == k {
            assert(row_step_fits(u, n, k, i));
            if u[k][k] != 0 {
                vstd::arithmetic::div_mod::lemma_fundamental_div_mod(u[i][k], u[k][k]);
                assert(u[k][k] * (u[i][k] / u[k][k]) == factor(u, k, i) * u[k][k]) by (nonlinear_arith)
                    requires u[k][k] != 0, factor(u, k, i) == u[i][k] / u[k][k];
            } else {
                assert(abs(u[i][k]) <= 0);
            }
        }
    }
    assert forall|i: int, j: int| 0 <= i < n && 0 <= j < n implies #[trigger] a[perm[i]][j]
        == dot_prefix(l3, u3, i, j, min(i, k + 1)) + u3[i][j] by {
        assert(a[perm[i]][j] == dot_prefix(l, u, i, j, min(i, k)) + u[i][j]);
        if i <= k {
            lemma_sum_ext_rows(l3, u3, l, u, i, i, j, i);
        } else {
            lemma_sum_ext_rows(l3, u3, l, u, i, i, j, k);
            let f = |t: int| l3[i][t] * u3[t][j];
            assert(dot_prefix(l3, u3, i, j, k + 1) == dot_prefix(l3, u3, i, j, k) + f(k));
            if j < k {
                assert(u[k][j] == 0);
                assert(factor(u, k, i) * u[k][j] == 0);
            }
        }
    }
}

proof fn lemma_lu_invariant_step(
    a: Seq<Seq<int>>,
    n: int,
    k: int,
    perm: Seq<int>,
    l: Seq<Seq<int>>,
    u: Seq<Seq<int>>,
)
    requires
        lu_invariant(a, n, k, perm, l, u),
        k < n,
        lu_step(perm, l, u, n, k) is Some,
    ensures
        ({
            let s = lu_step(perm, l, u, n, k)->0;
            lu_invariant(a, n, k + 1, s.0, s.1, s.2)
        }),
{
    let r = pivot_upto(u, k, n);
    lemma_pivot(u, k, n);
    lemma_lu_invariant_swap(a, n, k, r, perm, l, u);
    let u2 = swap_rows(u, k, r);
    assert forall|i: int| k < i < n implies abs(#[trigger] u2[i][k]) <= abs(u2[k][k]) by {
        if i == r {
            assert(abs(u[k][k]) <= abs(u[r][k]));
        } else {
            assert(abs(u[i][k]) <= abs(u[r][k]));
        }
    }
    lemma_lu_invariant_eliminate(a, n, k, swap_entries(perm, k, r), swap_lower(l, n, k, r), u2);
}

proof fn lemma_lu_upto(a: Seq<Seq<int>>, n: int, k: nat)
    requires
        0 <= n,
        k <= n,
        is_grid(a, n, n),
        lu_upto(a, n, k) is Some,
    ensures
        ({
            let s = lu_upto(a, n, k)->0;
            lu_invariant(a, n, k as int, s.0, s.1, s.2)
        }),
    decreases k,
{
    if k == 0 {
        lemma_lu_invariant_init(a, n);
    } else {
        let km = (k - 1) as nat;
        lemma_lu_upto(a, n, km);
        let s = lu_upto(a, n, km)->0;
        lemma_lu_invariant_step(a, n, km as int, s.0, s.1, s.2);
    }
}

/// Reconstruction: whenever the decomposition of a square matrix `a` exists,
/// `L` is unit lower triangular with no entry above one in absolute value,
/// `U` is upper triangular, the row order is a
/// permutation, and `L * U` equals `a` with its rows in that order, that is
/// `P * a` for the permutation matrix `P`.
pub proof fn law_lu_reconstruction<const N: usize>(a: Matrix<i64, N, N>)
    requires
        lu_of(a@, N as int) is Some,
    ensures
        ({
            let (perm, l, u) = lu_of(a@, N as int)->0;
            &&& is_permutation(perm, N as int)
            &&& is_unit_lower(l, N as int)
            &&& is_bounded_by_one(l, N as int)
            &&& is_upper(u, N as int)
            &&& is_grid(l, N as int, N as int)
            &&& is_grid(u, N as int, N as int)
            &&& algebra::mat_mul(l, u, N as int, N as int, N as int) == grid(
                N as int,
                N as int,
                |i: int, j: int| a@[perm[i]][j],
            )
            &&& algebra::mat_mul(permutation_matrix(perm, N as int), a@, N as int, N as int, N as int)
                == algebra::mat_mul(l, u, N as int, N as int, N as int)
        }),
{
    let n = N as int;
    a.lemma_view_is_grid();
    lemma_lu_upto(a@, n, N as nat);
    let (perm, l, u) = lu_of(a@, n)->0;
    let lu = algebra::mat_mul(l, u, n, n, n);
    let target = grid(n, n, |i: int, j: int| a@[perm[i]][j]);
    assert forall|i: int, j: int| 0 <= i < n && 0 <= j < n implies #[trigger] lu[i][j] == target[i][j] by {
        let f = |t: int| l[i][t] * u[t][j];
        assert forall|t: int| i + 1 <= t < n implies #[trigger] f(t) == 0 by {
            assert(l[i][t] == 0);
        }
        algebra::lemma_sum_tail_zero(n, i + 1, f);
        assert(l[i][i] == 1);
        assert(f(i) == u[i][j]);
        assert(sum(i + 1, f) == sum(i, f) + f(i));
        assert(lu[i][j] == dot_prefix(l, u, i, j, n));
        assert(a@[perm[i]][j] == dot_prefix(l, u, i, j, min(i, n)) + u[i][j]);
        assert(lu[i][j] == target[i][j]);
    }
    assert(lu =~~= target);
    lemma_permutation_product(perm, a@, n);
}

/// Multiplying by the permutation matrix of `perm` puts row `perm[i]` of `a` in row `i`.
proof fn lemma_permutation_product(perm: Seq<int>, a: Seq<Seq<int>>, n: int)
    requires
        is_permutation(perm, n),
    ensures
        algebra::mat_mul(permutation_matrix(perm, n), a, n, n, n) == grid(
            n,
            n,
            |i: int, j: int| a[perm[i]][j],
        ),
{
    let pa = algebra::mat_mul(permutation_matrix(perm, n), a, n, n, n);
    let target = grid(n, n, |i: int, j: int| a[perm[i]][j]);
    assert forall|i: int, j: int| 0 <= i < n && 0 <= j < n implies #[trigger] pa[i][j] == target[i][j] by {
        let g = |t: int| permutation_matrix(perm, n)[i][t] * a[t][j];
        assert(0 <= perm[i] < n);
        algebra::lemma_sum_single(n, g, perm[i]);
    }
    assert(pa =~~= target);
}

/// Once a step cannot be carried out, neither can the decomposition.
proof fn lemma_lu_upto_none(a: Seq<Seq<int>>, n: int, k: nat, e: nat)
    requires
        k <= e,
        lu_upto(a, n, k) is None,
    ensures
        lu_upto(a, n, e) is None,
    decreases e - k,
{
    if k < e {
        lemma_lu_upto_none(a, n, k, (e - 1) as nat);
    }
}

/// The factors `L` and `U`, and the permutation matrix `P`, with `P * A == L * U`.
#[derive(Clone, Copy, Debug, PartialEq, Eq)]
pub struct PartialPivLu<T, const N: usize> {
    pub l: Matrix<T, N, N>,
    pub u: Matrix<T, N, N>,
    pub p: Matrix<T, N, N>,
}

/// Whether `|x| > |y|`.
fn abs_greater(x: i64, y: i64) -> (r: bool)
    ensures
        r == (abs(x as int) > abs(y as int)),
{
    let ax: i128 = if x < 0 { -(x as i128) } else { x as i128 };
    let ay: i128 = if y < 0 { -(y as i128) } else { y as i128 };
    ax > ay
}

impl<const N: usize> Matrix<i64, N, N> {
    /// The first row from `k` down whose entry in column `k` is largest in absolute value.
    fn pivot_index(&self, k: usize) -> (r: usize)
        requires
            k < N,
        ensures
            r == pivot_upto(self@, k as int, N as int),
    {
        let mut r = k;
        let mut i = k + 1;
        while i < N
            invariant
                k < i <= N,
                r == pivot_upto(self@, k as int, i as int),
                k <= r < i,
            decreases N - i,
        {
            if abs_greater(self.elements[i][k], self.elements[r][k]) {
                r = i;
            }
            i += 1;
        }
        r
    }

    fn swap_rows_at(&mut self, a: usize, b: usize)
        requires
            a < N,
            b < N,
        ensures
            final(self)@ == swap_rows(old(self)@, a as int, b as int),
    {
        let ra = self.elements[a];
        let rb = self.elements[b];
        self.elements[a] = rb;
        self.elements[b] = ra;
        assert(final(self)@ =~~= swap_rows(old(self)@, a as int, b as int));
    }

    /// Exchanges the entries left of column `k` between rows `k` and `r`.
    fn swap_lower_at(&mut self, k: usize, r: usize)
        requires
            k < N,
            r < N,
            k != r,
        ensures
            final(self)@ == swap_lower(old(self)@, N as int, k as int, r as int),
    {
        let mut rk = self.elements[k];
        let mut rr = self.elements[r];
        let mut j: usize = 0;
        while j < k
            invariant
                k < N,
                r < N,
                j <= k,
                forall|t: int| 0 <= t < N ==> #[trigger] rk[t] == if t < j { self.elements[r as int][t] } else { self.elements[k as int][t] },
                forall|t: int| 0 <= t < N ==> #[trigger] rr[t] == if t < j { self.elements[k as int][t] } else { self.elements[r as int][t] },
            decreases k - j,
        {
            let x = rk[j];
            rk[j] = rr[j];
            rr[j] = x;
            j += 1;
        }
        self.elements[k] = rk;
        self.elements[r] = rr;
        assert(final(self)@ =~~= swap_lower(old(self)@, N as int, k as int, r as int));
    }
}

/// The row order held in `perm`, as a sequence of integers.
pub open spec fn order_of<const N: usize>(perm: [usize; N]) -> Seq<int> {
    Seq::new(N as nat, |i: int| perm[i] as int)
}

/// Takes from row `i` the multiple of row `k` that clears its entry in column
/// `k`, and records that multiple in `l`; `false`, with nothing promised of
/// `u` and `l`, when that cannot be done exactly in `i64`.
fn eliminate_row<const N: usize>(u: &mut Matrix<i64, N, N>, l: &mut Matrix<i64, N, N>, k: usize, i: usize) -> (ok: bool)
    requires
        k < i < N,
        old(u)@[k as int][k as int] != 0,
    ensures
        ok == row_step_fits(old(u)@, N as int, k as int, i as int),
        ok ==> final(u)@ == old(u)@.update(i as int, eliminate(old(u)@, N as int, k as int)[i as int]),
        ok ==> final(l)@ == old(l)@.update(
            i as int,
            record_factors(old(l)@, old(u)@, N as int, k as int)[i as int],
        ),
{
    let ghost g = u@;
    let pivot = u.elements[k][k];
    let x = u.elements[i][k];
    assert(g[k as int][k as int] == pivot && g[i as int][k as int] == x);
    match x.checked_rem_euclid(pivot) {
        None => {
            return false;
        },
        Some(rem) => {
            if rem != 0 {
                return false;
            }
        },
    }
    let f = match x.checked_div_euclid(pivot) {
        None => {
            return false;
        },
        Some(f) => f,
    };
    assert(f == factor(g, k as int, i as int));
    let rowk = u.elements[k];
    let mut row = u.elements[i];
    let mut j = k;
    while j < N
        invariant
            k < i < N,
            k <= j <= N,
            g == u@,
            rowk == u.elements[k as int],
            f == factor(g, k as int, i as int),
            forall|t: int| 0 <= t < N ==> #[trigger] row[t] == if k <= t < j {
                eliminate(g, N as int, k as int)[i as int][t]
            } else {
                g[i as int][t]
            },
            forall|t: int| k <= t < j ==> fits_i64(factor(g, k as int, i as int) * #[trigger] g[k as int][t])
                && fits_i64(g[i as int][t] - factor(g, k as int, i as int) * g[k as int][t]),
        decreases N - j,
    {
        assert(g[k as int][j as int] == rowk[j as int]);
        assert(g[i as int][j as int] == row[j as int]);
        match f.checked_mul(rowk[j]) {
            None => {
                return false;
            },
            Some(p) => match row[j].checked_sub(p) {
                None => {
                    return false;
                },
                Some(d) => {
                    row[j] = d;
                },
            },
        }
        j += 1;
    }
    u.elements[i] = row;
    let mut lrow = l.elements[i];
    lrow[k] = f;
    l.elements[i] = lrow;
    assert(final(u)@ =~~= old(u)@.update(i as int, eliminate(g, N as int, k as int)[i as int]));
    assert(final(l)@ =~~= old(l)@.update(
        i as int,
        record_factors(old(l)@, g, N as int, k as int)[i as int],
    ));
    true
}

impl<const N: usize> Matrix<i64, N, N> {
    /// LU decomposition with partial pivoting: `P * self == L * U` with `L` unit
    /// lower triangular, `U` upper triangular and `P` a permutation matrix.
    /// A column whose pivot is zero has nothing left to clear below it and is
    /// passed over. `None` when some step would divide inexactly or leave the
    /// range of `i64`.
    pub fn lu_decomposition(&self) -> (r: Option<PartialPivLu<i64, N>>)
        ensures
            match r {
                Some(d) => {
                    &&& match lu_of(self@, N as int) {
                        Some(s) => {
                            &&& d.p@ == permutation_matrix(s.0, N as int)
                            &&& d.l@ == s.1
                            &&& d.u@ == s.2
                        },
                        None => false,
                    }
                    &&& algebra::mat_mul(d.p@, self@, N as int, N as int, N as int)
                        == algebra::mat_mul(d.l@, d.u@, N as int, N as int, N as int)
                    &&& is_unit_lower(d.l@, N as int)
                    &&& is_bounded_by_one(d.l@, N as int)
                    &&& is_upper(d.u@, N as int)
                },
                None => lu_of(self@, N as int) is None,
            },
    {
        let ghost n = N as int;
        let mut l = Self::identity();
        let mut u = *self;
        let mut perm: [usize; N] = [0usize; N];
        let mut i: usize = 0;
        while i < N
            invariant
                i <= N,
                forall|t: int| 0 <= t < i ==> #[trigger] perm[t] == t,
            decreases N - i,
        {
            perm[i] = i;
            i += 1;
        }
        proof {
            self.lemma_view_is_grid();
            assert(l@ =~~= algebra::identity(n));
            assert(order_of(perm) =~= Seq::new(n as nat, |t: int| t));
        }
        let mut k: usize = 0;
        while k < N
            invariant
                k <= N,
                n == N as int,
                is_grid(self@, n, n),
                lu_upto(self@, n, k as nat) == Some((order_of(perm), l@, u@)),
            decreases N - k,
        {
            proof {
                lemma_lu_upto(self@, n, k as nat);
                lemma_pivot(u@, k as int, n);
            }
            let ghost u0 = u@;
            let ghost l0 = l@;
            let ghost perm0 = order_of(perm);
            assert(lu_upto(self@, n, k as nat) == Some((perm0, l0, u0)));
            let r = u.pivot_index(k);
            assert(r == pivot_upto(u0, k as int, n));
            if r != k {
                u.swap_rows_at(k, r);
                l.swap_lower_at(k, r);
                let x = perm[k];
                perm[k] = perm[r];
                perm[r] = x;
                assert(order_of(perm) =~= swap_entries(perm0, k as int, r as int));
            } else {
                assert(u@ =~~= swap_rows(u0, k as int, r as int));
                assert(l@ =~~= swap_lower(l0, n, k as int, r as int));
                assert(order_of(perm) =~= swap_entries(perm0, k as int, r as int));
            }
            let ghost u2 = u@;
            let ghost l2 = l@;
            proof {
                lemma_lu_invariant_swap(self@, n, k as int, r as int, perm0, l0, u0);
            }
            assert(u2 == swap_rows(u0, k as int, r as int));
            assert(lu_upto(self@, n, (k + 1) as nat) == lu_step(perm0, l0, u0, n, k as int));
            if u.elements[k][k] != 0 {
                let mut i = k + 1;
                assert(u@ =~~= grid(n, n, |a: int, b: int| if k < a < i { eliminate(u2, n, k as int)[a][b] } else { u2[a][b] }));
                assert(l@ =~~= grid(n, n, |a: int, b: int| if k < a < i { record_factors(l2, u2, n, k as int)[a][b] } else { l2[a][b] }));
                while i < N
                    invariant
                        k < i <= N,
                        n == N as int,
                        u2[k as int][k as int] != 0,
                        u@ == grid(n, n, |a: int, b: int| if k < a < i { eliminate(u2, n, k as int)[a][b] } else { u2[a][b] }),
                        l@ == grid(n, n, |a: int, b: int| if k < a < i { record_factors(l2, u2, n, k as int)[a][b] } else { l2[a][b] }),
                        forall|a: int| k < a < i ==> #[trigger] row_step_fits(u2, n, k as int, a),
                        is_grid(u2, n, n),
                        is_grid(l2, n, n),
                        u2 == swap_rows(u0, k as int, r as int),
                        r == pivot_upto(u0, k as int, n),
                        lu_upto(self@, n, (k + 1) as nat) == lu_step(perm0, l0, u0, n, k as int),
                    decreases N - i,
                {
                    let ghost uc = u@;
                    let ghost lc = l@;
                    assert(uc[k as int] == u2[k as int] && uc[i as int] == u2[i as int]);
                    let ok = eliminate_row(&mut u, &mut l, k, i);
                    if !ok {
                        proof {
                            assert(row_step_fits(uc, n, k as int, i as int) == row_step_fits(u2, n, k as int, i as int));
                            assert(!step_fits(u2, n, k as int));
                            assert(lu_step(perm0, l0, u0, n, k as int) is None);
                            assert(lu_upto(self@, n, (k + 1) as nat) is None);
                            lemma_lu_upto_none(self@, n, (k + 1) as nat, N as nat);
                        }
                        return None;
                    }
                    assert(eliminate(uc, n, k as int)[i as int] =~= eliminate(u2, n, k as int)[i as int]);
                    assert(record_factors(lc, uc, n, k as int)[i as int] =~= record_factors(l2, u2, n, k as int)[i as int]);
                    assert(u@ =~~= grid(n, n, |a: int, b: int| if k < a < i + 1 { eliminate(u2, n, k as int)[a][b] } else { u2[a][b] }));
                    assert(l@ =~~= grid(n, n, |a: int, b: int| if k < a < i + 1 { record_factors(l2, u2, n, k as int)[a][b] } else { l2[a][b] }));
                    i += 1;
                }
                assert(u@ =~~= eliminate(u2, n, k as int));
                assert(l@ =~~= record_factors(l2, u2, n, k as int));
            } else {
                assert(u@ =~~= eliminate(u2, n, k as int));
                assert(l@ =~~= record_factors(l2, u2, n, k as int));
            }
            k += 1;
        }
        proof {
            lemma_lu_upto(self@, n, N as nat);
        }
        let mut p = Self::filled(0);
        let mut i: usize = 0;
        while i < N
            invariant
                i <= N,
                n == N as int,
                is_permutation(order_of(perm), n),
                forall|a: int, b: int| 0 <= a < N && 0 <= b < N ==> #[trigger] p.elements[a][b] == if a < i && b == perm[a] { 1i64 } else { 0i64 },
            decreases N - i,
        {
            assert(order_of(perm)[i as int] == perm[i as int]);
            let mut row = p.elements[i];
            row[perm[i]] = 1;
            p.elements[i] = row;
            i += 1;
        }
        assert(p@ =~~= permutation_matrix(order_of(perm), n));
        proof {
            law_lu_reconstruction(*self);
        }
        Some(PartialPivLu { l, u, p })
    }
}

} // verus!
