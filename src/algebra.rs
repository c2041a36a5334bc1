//! Mathematical model of matrices: grids of unbounded integers, with the
//! operations and laws that the executable types are specified against.
use vstd::prelude::*;

verus! {

/// Sum of `f(0) + ... + f(n - 1)`.
pub open spec fn sum(n: int, f: spec_fn(int) -> int) -> int
    decreases n,
{
    if n <= 0 {
        0
    } else {
        sum(n - 1, f) + f(n - 1)
    }
}

/// `a` has `m` rows of `n` entries each.
pub open spec fn is_grid(a: Seq<Seq<int>>, m: int, n: int) -> bool {
    &&& a.len() == m
    &&& forall|i: int| 0 <= i < m ==> #[trigger] a[i].len() == n
}

/// The `m` by `n` grid whose entry `(i, j)` is `f(i, j)`.
pub open spec fn grid(m: int, n: int, f: spec_fn(int, int) -> int) -> Seq<Seq<int>> {
    Seq::new(m as nat, |i: int| Seq::new(n as nat, |j: int| f(i, j)))
}

pub open spec fn zeros(m: int, n: int) -> Seq<Seq<int>> {
    grid(m, n, |i: int, j: int| 0int)
}

pub open spec fn identity(n: int) -> Seq<Seq<int>> {
    grid(n, n, |i: int, j: int| if i == j { 1int } else { 0int })
}

pub open spec fn mat_add(a: Seq<Seq<int>>, b: Seq<Seq<int>>, m: int, n: int) -> Seq<Seq<int>> {
    grid(m, n, |i: int, j: int| a[i][j] + b[i][j])
}

pub open spec fn mat_sub(a: Seq<Seq<int>>, b: Seq<Seq<int>>, m: int, n: int) -> Seq<Seq<int>> {
    grid(m, n, |i: int, j: int| a[i][j] - b[i][j])
}

pub open spec fn mat_scale(a: Seq<Seq<int>>, c: int, m: int, n: int) -> Seq<Seq<int>> {
    grid(m, n, |i: int, j: int| a[i][j] * c)
}

pub open spec fn mat_transpose(a: Seq<Seq<int>>, m: int, n: int) -> Seq<Seq<int>> {
    grid(n, m, |i: int, j: int| a[j][i])
}

/// Sum of the first `k` products of row `i` of `a` with column `j` of `b`.
pub open spec fn dot_prefix(a: Seq<Seq<int>>, b: Seq<Seq<int>>, i: int, j: int, k: int) -> int {
    sum(k, |t: int| a[i][t] * b[t][j])
}

/// Product of an `m` by `n` grid with an `n` by `p` grid.
pub open spec fn mat_mul(a: Seq<Seq<int>>, b: Seq<Seq<int>>, m: int, n: int, p: int) -> Seq<Seq<int>> {
    grid(m, p, |i: int, j: int| dot_prefix(a, b, i, j, n))
}

/// `a` multiplied by itself `e` times, starting from the identity.
pub open spec fn mat_pow(a: Seq<Seq<int>>, n: int, e: nat) -> Seq<Seq<int>>
    decreases e,
{
    if e == 0 {
        identity(n)
    } else {
        mat_mul(a, mat_pow(a, n, (e - 1) as nat), n, n, n)
    }
}

pub proof fn lemma_sum_ext(n: int, f: spec_fn(int) -> int, g: spec_fn(int) -> int)
    requires
        forall|k: int| 0 <= k < n ==> #[trigger] f(k) == g(k),
    ensures
        sum(n, f) == sum(n, g),
    decreases n,
{
    if n > 0 {
        lemma_sum_ext(n - 1, f, g);
    }
}

pub proof fn lemma_sum_zero(n: int, f: spec_fn(int) -> int)
    requires
        forall|k: int| 0 <= k < n ==> #[trigger] f(k) == 0,
    ensures
        sum(n, f) == 0,
    decreases n,
{
    if n > 0 {
        lemma_sum_zero(n - 1, f);
    }
}

/// Terms from position `m` on that vanish add nothing to a sum.
pub proof fn lemma_sum_tail_zero(n: int, m: int, f: spec_fn(int) -> int)
    requires
        0 <= m <= n,
        forall|k: int| m <= k < n ==> #[trigger] f(k) == 0,
    ensures
        sum(n, f) == sum(m, f),
    decreases n - m,
{
    if n > m {
        lemma_sum_tail_zero(n - 1, m, f);
    }
}

/// A sum whose terms vanish but at position `t` equals its term there.
pub proof fn lemma_sum_single(n: int, f: spec_fn(int) -> int, t: int)
    requires
        0 <= t < n,
        forall|k: int| 0 <= k < n && k != t ==> #[trigger] f(k) == 0,
    ensures
        sum(n, f) == f(t),
    decreases n,
{
    if n - 1 == t {
        lemma_sum_zero(n - 1, f);
    } else {
        lemma_sum_single(n - 1, f, t);
    }
}

pub proof fn lemma_sum_add(n: int, f: spec_fn(int) -> int, g: spec_fn(int) -> int)
    ensures
        sum(n, |k: int| f(k) + g(k)) == sum(n, f) + sum(n, g),
    decreases n,
{
    if n > 0 {
        lemma_sum_add(n - 1, f, g);
    }
}

pub proof fn lemma_sum_scale_left(n: int, c: int, f: spec_fn(int) -> int)
    ensures
        sum(n, |k: int| c * f(k)) == c * sum(n, f),
    decreases n,
{
    if n > 0 {
        lemma_sum_scale_left(n - 1, c, f);
        assert(c * (sum(n - 1, f) + f(n - 1)) == c * sum(n - 1, f) + c * f(n - 1))
            by (nonlinear_arith);
    }
}

pub proof fn lemma_sum_scale_right(n: int, c: int, f: spec_fn(int) -> int)
    ensures
        sum(n, |k: int| f(k) * c) == sum(n, f) * c,
    decreases n,
{
    if n > 0 {
        lemma_sum_scale_right(n - 1, c, f);
        assert((sum(n - 1, f) + f(n - 1)) * c == sum(n - 1, f) * c + f(n - 1) * c)
            by (nonlinear_arith);
    }
}

/// The order of a double sum can be exchanged.
pub proof fn lemma_sum_swap(n: int, m: int, f: spec_fn(int, int) -> int)
    requires
        0 <= m,
    ensures
        sum(n, |i: int| sum(m, |j: int| f(i, j))) == sum(m, |j: int| sum(n, |i: int| f(i, j))),
    decreases n,
{
    let outer = |i: int| sum(m, |j: int| f(i, j));
    let whole = |j: int| sum(n, |i: int| f(i, j));
    if n > 0 {
        lemma_sum_swap(n - 1, m, f);
        let g = |j: int| sum(n - 1, |i: int| f(i, j));
        let h = |j: int| f(n - 1, j);
        let parts = |k: int| g(k) + h(k);
        lemma_sum_add(m, g, h);
        assert forall|j: int| 0 <= j < m implies #[trigger] whole(j) == parts(j) by {}
        lemma_sum_ext(m, whole, parts);
        assert(outer(n - 1) == sum(m, h)) by {
            lemma_sum_ext(m, |j: int| f(n - 1, j), h);
        }
        assert(sum(n, outer) == sum(n - 1, outer) + outer(n - 1));
    } else {
        assert forall|j: int| 0 <= j < m implies #[trigger] whole(j) == 0 by {}
        lemma_sum_zero(m, whole);
    }
}

proof fn lemma_mul_assoc_entry(
    a: Seq<Seq<int>>,
    b: Seq<Seq<int>>,
    c: Seq<Seq<int>>,
    n: int,
    p: int,
    i: int,
    j: int,
)
    requires
        0 <= n,
        0 <= p,
    ensures
        sum(p, |t: int| dot_prefix(a, b, i, t, n) * c[t][j]) == sum(
            n,
            |s: int| a[i][s] * dot_prefix(b, c, s, j, p),
        ),
{
    let f = |t: int, s: int| (a[i][s] * b[s][t]) * c[t][j];
    let left = |t: int| dot_prefix(a, b, i, t, n) * c[t][j];
    let left2 = |t: int| sum(n, |s: int| f(t, s));
    assert forall|t: int| 0 <= t < p implies #[trigger] left(t) == left2(t) by {
        lemma_sum_scale_right(n, c[t][j], |s: int| a[i][s] * b[s][t]);
        lemma_sum_ext(
            n,
            |s: int| (|s: int| a[i][s] * b[s][t])(s) * c[t][j],
            |s: int| f(t, s),
        );
    }
    lemma_sum_ext(p, left, left2);
    lemma_sum_swap(p, n, f);
    let right = |s: int| a[i][s] * dot_prefix(b, c, s, j, p);
    let right2 = |s: int| sum(p, |t: int| f(t, s));
    assert forall|s: int| 0 <= s < n implies #[trigger] right(s) == right2(s) by {
        lemma_sum_scale_left(p, a[i][s], |t: int| b[s][t] * c[t][j]);
        assert forall|t: int| 0 <= t < p implies a[i][s] * (#[trigger] b[s][t] * c[t][j]) == f(
            t,
            s,
        ) by {
            assert(a[i][s] * (b[s][t] * c[t][j]) == (a[i][s] * b[s][t]) * c[t][j])
                by (nonlinear_arith);
        }
        lemma_sum_ext(
            p,
            |t: int| a[i][s] * (|t: int| b[s][t] * c[t][j])(t),
            |t: int| f(t, s),
        );
    }
    lemma_sum_ext(n, right, right2);
}

/// Matrix multiplication is associative.
pub proof fn lemma_mul_assoc(
    a: Seq<Seq<int>>,
    b: Seq<Seq<int>>,
    c: Seq<Seq<int>>,
    m: int,
    n: int,
    p: int,
    q: int,
)
    requires
        0 <= m,
        0 <= n,
        0 <= p,
        0 <= q,
    ensures
        mat_mul(mat_mul(a, b, m, n, p), c, m, p, q) == mat_mul(a, mat_mul(b, c, n, p, q), m, n, q),
{
    let ab = mat_mul(a, b, m, n, p);
    let bc = mat_mul(b, c, n, p, q);
    let lhs = mat_mul(ab, c, m, p, q);
    let rhs = mat_mul(a, bc, m, n, q);
    assert forall|i: int, j: int| 0 <= i < m && 0 <= j < q implies #[trigger] lhs[i][j]
        == rhs[i][j] by {
        lemma_mul_assoc_entry(a, b, c, n, p, i, j);
        lemma_sum_ext(
            p,
            |t: int| ab[i][t] * c[t][j],
            |t: int| dot_prefix(a, b, i, t, n) * c[t][j],
        );
        lemma_sum_ext(
            n,
            |s: int| a[i][s] * bc[s][j],
            |s: int| a[i][s] * dot_prefix(b, c, s, j, p),
        );
    }
    assert(lhs =~~= rhs);
}

/// The identity is neutral on the left of a product.
pub proof fn lemma_mul_identity_left(a: Seq<Seq<int>>, m: int, n: int)
    requires
        0 <= m,
        0 <= n,
        is_grid(a, m, n),
    ensures
        mat_mul(identity(m), a, m, m, n) == a,
{
    let r = mat_mul(identity(m), a, m, m, n);
    assert forall|i: int, j: int| 0 <= i < m && 0 <= j < n implies #[trigger] r[i][j]
        == a[i][j] by {
        let f = |t: int| identity(m)[i][t] * a[t][j];
        lemma_sum_single(m, f, i);
    }
    assert(r =~~= a);
}

/// The identity is neutral on the right of a product.
pub proof fn lemma_mul_identity_right(a: Seq<Seq<int>>, m: int, n: int)
    requires
        0 <= m,
        0 <= n,
        is_grid(a, m, n),
    ensures
        mat_mul(a, identity(n), m, n, n) == a,
{
    let r = mat_mul(a, identity(n), m, n, n);
    assert forall|i: int, j: int| 0 <= i < m && 0 <= j < n implies #[trigger] r[i][j]
        == a[i][j] by {
        let f = |t: int| a[i][t] * identity(n)[t][j];
        lemma_sum_single(n, f, j);
    }
    assert(r =~~= a);
}

pub proof fn lemma_pow_is_grid(a: Seq<Seq<int>>, n: int, e: nat)
    requires
        0 <= n,
    ensures
        is_grid(mat_pow(a, n, e), n, n),
    decreases e,
{
    if e > 0 {
        lemma_pow_is_grid(a, n, (e - 1) as nat);
    }
}

/// Raising the square of `a` to the power `k` gives `a` to the power `2 k`.
pub proof fn lemma_pow_of_square(a: Seq<Seq<int>>, n: int, k: nat)
    requires
        0 <= n,
    ensures
        mat_pow(mat_mul(a, a, n, n, n), n, k) == mat_pow(a, n, 2 * k),
    decreases k,
{
    if k > 0 {
        let km = (k - 1) as nat;
        lemma_pow_of_square(a, n, km);
        let p = mat_pow(a, n, 2 * km);
        lemma_mul_assoc(a, a, p, n, n, n, n);
        assert(mat_pow(a, n, (2 * km + 1) as nat) == mat_mul(a, p, n, n, n));
        assert(mat_pow(a, n, 2 * k) == mat_mul(a, mat_pow(a, n, (2 * km + 1) as nat), n, n, n));
    }
}

/// `a` to the power `e + 1` is also `a` to the power `e`, multiplied by `a` on the right.
pub proof fn lemma_pow_succ_right(a: Seq<Seq<int>>, n: int, e: nat)
    requires
        0 <= n,
        is_grid(a, n, n),
    ensures
        mat_pow(a, n, e + 1) == mat_mul(mat_pow(a, n, e), a, n, n, n),
    decreases e,
{
    if e == 0 {
        lemma_mul_identity_right(a, n, n);
        lemma_mul_identity_left(a, n, n);
    } else {
        let em = (e - 1) as nat;
        lemma_pow_succ_right(a, n, em);
        lemma_mul_assoc(a, mat_pow(a, n, em), a, n, n, n, n);
    }
}

/// Adding the zero matrix changes nothing.
pub proof fn lemma_add_zeros(a: Seq<Seq<int>>, m: int, n: int)
    requires
        0 <= m,
        0 <= n,
        is_grid(a, m, n),
    ensures
        mat_add(a, zeros(m, n), m, n) == a,
{
    assert(mat_add(a, zeros(m, n), m, n) =~~= a);
}

/// Transposing twice gives the matrix back.
pub proof fn lemma_transpose_transpose(a: Seq<Seq<int>>, m: int, n: int)
    requires
        0 <= m,
        0 <= n,
        is_grid(a, m, n),
    ensures
        mat_transpose(mat_transpose(a, m, n), n, m) == a,
{
    assert(mat_transpose(mat_transpose(a, m, n), n, m) =~~= a);
}

} // verus!
