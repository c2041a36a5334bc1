//! Laws that relate the operations of `Matrix` to one another.
use vstd::prelude::*;
use vstd::std_specs::ops::{AddSpec, BitXorSpec, MulSpec};
use crate::algebra;
use crate::matrix::Matrix;

verus! {

/// Adding the zero matrix to any matrix gives that matrix back; the sum never overflows.
pub proof fn law_add_zeros<const M: usize, const N: usize>(a: Matrix<i64, M, N>, z: Matrix<i64, M, N>)
    requires
        z@ == algebra::zeros(M as int, N as int),
    ensures
        a.add_req(z),
        a.add_spec(z) == a,
{
    a.lemma_view_is_grid();
    algebra::lemma_add_zeros(a@, M as int, N as int);
    assert(algebra::mat_add(a@, z@, M as int, N as int) == a@);
    a.lemma_from_grid();
}

/// Transposing a matrix, then transposing the result, gives the matrix back.
pub proof fn law_transpose_transpose<const M: usize, const N: usize>(
    a: Matrix<i64, M, N>,
    t: Matrix<i64, N, M>,
    tt: Matrix<i64, M, N>,
)
    requires
        t@ == algebra::mat_transpose(a@, M as int, N as int),
        tt@ == algebra::mat_transpose(t@, N as int, M as int),
    ensures
        tt == a,
{
    a.lemma_view_is_grid();
    algebra::lemma_transpose_transpose(a@, M as int, N as int);
    tt.lemma_view_injective(a);
}

/// Matrix multiplication is associative: `(a * b) * c == a * (b * c)` whenever
/// neither side overflows.
pub proof fn law_mul_assoc<const M: usize, const N: usize, const P: usize, const Q: usize>(
    a: Matrix<i64, M, N>,
    b: Matrix<i64, N, P>,
    c: Matrix<i64, P, Q>,
)
    requires
        a.mul_req(b),
        a.mul_spec(b).mul_req(c),
        b.mul_req(c),
        a.mul_req(b.mul_spec(c)),
    ensures
        a.mul_spec(b).mul_spec(c) == a.mul_spec(b.mul_spec(c)),
{
    let (m, n, p, q) = (M as int, N as int, P as int, Q as int);
    let ab = algebra::mat_mul(a@, b@, m, n, p);
    let bc = algebra::mat_mul(b@, c@, n, p, q);
    assert(Matrix::<i64, M, P>::in_range(ab)) by {
        assert forall|i: int, j: int| 0 <= i < m && 0 <= j < p implies crate::matrix::fits_i64(
            #[trigger] ab[i][j],
        ) by {
            if n > 0 {
                assert(crate::matrix::fits_i64(algebra::dot_prefix(a@, b@, i, j, n)));
            }
        }
    }
    assert(Matrix::<i64, N, Q>::in_range(bc)) by {
        assert forall|i: int, j: int| 0 <= i < n && 0 <= j < q implies crate::matrix::fits_i64(
            #[trigger] bc[i][j],
        ) by {
            if p > 0 {
                assert(crate::matrix::fits_i64(algebra::dot_prefix(b@, c@, i, j, p)));
            }
        }
    }
    Matrix::<i64, M, P>::lemma_from_grid_view(ab);
    Matrix::<i64, N, Q>::lemma_from_grid_view(bc);
    algebra::lemma_mul_assoc(a@, b@, c@, m, n, p, q);
}

/// Raising to the power zero gives the identity.
pub proof fn law_power_zero<const N: usize>(a: Matrix<i64, N, N>, id: Matrix<i64, N, N>)
    requires
        id@ == algebra::identity(N as int),
    ensures
        a.bitxor_req(0),
        a.bitxor_spec(0) == id,
{
    id.lemma_from_grid();
}

/// Raising to the power `e + 1` is raising to the power `e`, then multiplying
/// by the matrix once more.
pub proof fn law_power_succ<const N: usize>(a: Matrix<i64, N, N>, e: u32)
    requires
        e < u32::MAX,
        a.bitxor_req(e),
    ensures
        a.bitxor_spec((e + 1) as u32) == a.bitxor_spec(e).mul_spec(a),
{
    let n = N as int;
    let id = algebra::identity(n);
    let pe = algebra::mat_pow(a@, n, e as nat);
    assert(Matrix::<i64, N, N>::in_range(id));
    crate::matrix::lemma_power_in_range::<N>(id, a@, e as nat);
    algebra::lemma_pow_is_grid(a@, n, e as nat);
    algebra::lemma_mul_identity_left(pe, n, n);
    Matrix::<i64, N, N>::lemma_from_grid_view(pe);
    a.lemma_view_is_grid();
    algebra::lemma_pow_succ_right(a@, n, e as nat);
}

} // verus!
