//! Row and column vectors: one-row and one-column matrices whose orientation
//! decides what multiplying them means.
use vstd::prelude::*;
use crate::algebra;
use crate::matrix::{product_fits, Matrix};

verus! {

/// A `1` by `N` matrix, read as a row.
#[derive(Clone, Copy, Debug, PartialEq, Eq)]
pub struct RowVector<T, const N: usize>(pub Matrix<T, 1, N>);

/// An `N` by `1` matrix, read as a column.
#[derive(Clone, Copy, Debug, PartialEq, Eq)]
pub struct ColumnVector<T, const N: usize>(pub Matrix<T, N, 1>);

impl<T: Copy, const N: usize> RowVector<T, N> {
    pub fn new(matrix: Matrix<T, 1, N>) -> (r: Self)
        ensures
            r.0 == matrix,
    {
        RowVector(matrix)
    }
}

impl<T: Copy, const N: usize> ColumnVector<T, N> {
    pub fn new(matrix: Matrix<T, N, 1>) -> (r: Self)
        ensures
            r.0 == matrix,
    {
        ColumnVector(matrix)
    }
}

impl<const N: usize> std::ops::Add for RowVector<i64, N> {
    type Output = Self;

    fn add(self, other: Self) -> (r: Self) {
        let m = self.0.sum_with(other.0);
        proof {
            m.lemma_from_grid();
        }
        RowVector(m)
    }
}

impl<const N: usize> vstd::std_specs::ops::AddSpecImpl for RowVector<i64, N> {
    open spec fn obeys_add_spec() -> bool {
        true
    }

    open spec fn add_req(self, other: Self) -> bool {
        Matrix::<i64, 1, N>::in_range(algebra::mat_add(self.0@, other.0@, 1, N as int))
    }

    open spec fn add_spec(self, other: Self) -> Self {
        RowVector(Matrix::<i64, 1, N>::from_grid(algebra::mat_add(self.0@, other.0@, 1, N as int)))
    }
}

impl<const N: usize> std::ops::Sub for RowVector<i64, N> {
    type Output = Self;

    fn sub(self, other: Self) -> (r: Self) {
        let m = self.0.difference_with(other.0);
        proof {
            m.lemma_from_grid();
        }
        RowVector(m)
    }
}

impl<const N: usize> vstd::std_specs::ops::SubSpecImpl for RowVector<i64, N> {
    open spec fn obeys_sub_spec() -> bool {
        true
    }

    open spec fn sub_req(self, other: Self) -> bool {
        Matrix::<i64, 1, N>::in_range(algebra::mat_sub(self.0@, other.0@, 1, N as int))
    }

    open spec fn sub_spec(self, other: Self) -> Self {
        RowVector(Matrix::<i64, 1, N>::from_grid(algebra::mat_sub(self.0@, other.0@, 1, N as int)))
    }
}

impl<const N: usize> std::ops::Mul<i64> for RowVector<i64, N> {
    type Output = Self;

    fn mul(self, c: i64) -> (r: Self) {
        let m = self.0.scaled_by(c);
        proof {
            m.lemma_from_grid();
        }
        RowVector(m)
    }
}

impl<const N: usize> vstd::std_specs::ops::MulSpecImpl<i64> for RowVector<i64, N> {
    open spec fn obeys_mul_spec() -> bool {
        true
    }

    open spec fn mul_req(self, c: i64) -> bool {
        Matrix::<i64, 1, N>::in_range(algebra::mat_scale(self.0@, c as int, 1, N as int))
    }

    open spec fn mul_spec(self, c: i64) -> Self {
        RowVector(Matrix::<i64, 1, N>::from_grid(algebra::mat_scale(self.0@, c as int, 1, N as int)))
    }
}

impl<const N: usize> std::ops::Add for ColumnVector<i64, N> {
    type Output = Self;

    fn add(self, other: Self) -> (r: Self) {
        let m = self.0.sum_with(other.0);
        proof {
            m.lemma_from_grid();
        }
        ColumnVector(m)
    }
}

impl<const N: usize> vstd::std_specs::ops::AddSpecImpl for ColumnVector<i64, N> {
    open spec fn obeys_add_spec() -> bool {
        true
    }

    open spec fn add_req(self, other: Self) -> bool {
        Matrix::<i64, N, 1>::in_range(algebra::mat_add(self.0@, other.0@, N as int, 1))
    }

    open spec fn add_spec(self, other: Self) -> Self {
        ColumnVector(Matrix::<i64, N, 1>::from_grid(algebra::mat_add(self.0@, other.0@, N as int, 1)))
    }
}

impl<const N: usize> std::ops::Sub for ColumnVector<i64, N> {
    type Output = Self;

    fn sub(self, other: Self) -> (r: Self) {
        let m = self.0.difference_with(other.0);
        proof {
            m.lemma_from_grid();
        }
        ColumnVector(m)
    }
}

impl<const N: usize> vstd::std_specs::ops::SubSpecImpl for ColumnVector<i64, N> {
    open spec fn obeys_sub_spec() -> bool {
        true
    }

    open spec fn sub_req(self, other: Self) -> bool {
        Matrix::<i64, N, 1>::in_range(algebra::mat_sub(self.0@, other.0@, N as int, 1))
    }

    open spec fn sub_spec(self, other: Self) -> Self {
        ColumnVector(Matrix::<i64, N, 1>::from_grid(algebra::mat_sub(self.0@, other.0@, N as int, 1)))
    }
}

impl<const N: usize> std::ops::Mul<i64> for ColumnVector<i64, N> {
    type Output = Self;

    fn mul(self, c: i64) -> (r: Self) {
        let m = self.0.scaled_by(c);
        proof {
            m.lemma_from_grid();
        }
        ColumnVector(m)
    }
}

impl<const N: usize> vstd::std_specs::ops::MulSpecImpl<i64> for ColumnVector<i64, N> {
    open spec fn obeys_mul_spec() -> bool {
        true
    }

    open spec fn mul_req(self, c: i64) -> bool {
        Matrix::<i64, N, 1>::in_range(algebra::mat_scale(self.0@, c as int, N as int, 1))
    }

    open spec fn mul_spec(self, c: i64) -> Self {
        ColumnVector(Matrix::<i64, N, 1>::from_grid(algebra::mat_scale(self.0@, c as int, N as int, 1)))
    }
}

/// A matrix times a column gives a column.
impl<const M: usize, const N: usize> std::ops::Mul<ColumnVector<i64, N>> for Matrix<i64, M, N> {
    type Output = ColumnVector<i64, M>;

    fn mul(self, v: ColumnVector<i64, N>) -> (r: ColumnVector<i64, M>) {
        let m = self.product_with(&v.0);
        proof {
            m.lemma_from_grid();
        }
        ColumnVector(m)
    }
}

impl<const M: usize, const N: usize> vstd::std_specs::ops::MulSpecImpl<ColumnVector<i64, N>> for Matrix<i64, M, N> {
    open spec fn obeys_mul_spec() -> bool {
        true
    }

    open spec fn mul_req(self, v: ColumnVector<i64, N>) -> bool {
        product_fits(self@, v.0@, M as int, N as int, 1)
    }

    open spec fn mul_spec(self, v: ColumnVector<i64, N>) -> ColumnVector<i64, M> {
        ColumnVector(Matrix::<i64, M, 1>::from_grid(algebra::mat_mul(self@, v.0@, M as int, N as int, 1)))
    }
}

/// A row times a matrix gives a row.
impl<const M: usize, const N: usize> std::ops::Mul<Matrix<i64, M, N>> for RowVector<i64, M> {
    type Output = RowVector<i64, N>;

    fn mul(self, m: Matrix<i64, M, N>) -> (r: RowVector<i64, N>) {
        let p = self.0.product_with(&m);
        proof {
            p.lemma_from_grid();
        }
        RowVector(p)
    }
}

impl<const M: usize, const N: usize> vstd::std_specs::ops::MulSpecImpl<Matrix<i64, M, N>> for RowVector<i64, M> {
    open spec fn obeys_mul_spec() -> bool {
        true
    }

    open spec fn mul_req(self, m: Matrix<i64, M, N>) -> bool {
        product_fits(self.0@, m@, 1, M as int, N as int)
    }

    open spec fn mul_spec(self, m: Matrix<i64, M, N>) -> RowVector<i64, N> {
        RowVector(Matrix::<i64, 1, N>::from_grid(algebra::mat_mul(self.0@, m@, 1, M as int, N as int)))
    }
}

/// A row times a column of the same length gives their inner product, in the element type.
impl<const N: usize> std::ops::Mul<ColumnVector<i64, N>> for RowVector<i64, N> {
    type Output = i64;

    fn mul(self, v: ColumnVector<i64, N>) -> (r: i64) {
        self.0.row_times_column(&v.0, 0, 0)
    }
}

impl<const N: usize> vstd::std_specs::ops::MulSpecImpl<ColumnVector<i64, N>> for RowVector<i64, N> {
    open spec fn obeys_mul_spec() -> bool {
        true
    }

    open spec fn mul_req(self, v: ColumnVector<i64, N>) -> bool {
        product_fits(self.0@, v.0@, 1, N as int, 1)
    }

    /// The sum of the products of corresponding entries.
    open spec fn mul_spec(self, v: ColumnVector<i64, N>) -> i64 {
        algebra::dot_prefix(self.0@, v.0@, 0, 0, N as int) as i64
    }
}

/// A column times a row gives their outer product: entry `(i, j)` is
/// `column[i] * row[j]`.
impl<const N: usize, const M: usize> std::ops::Mul<RowVector<i64, M>> for ColumnVector<i64, N> {
    type Output = Matrix<i64, N, M>;

    fn mul(self, v: RowVector<i64, M>) -> (r: Matrix<i64, N, M>) {
        let p = self.0.product_with(&v.0);
        proof {
            p.lemma_from_grid();
            let outer = algebra::grid(N as int, M as int, |i: int, j: int| self.0@[i][0] * v.0@[0][j]);
            assert forall|i: int, j: int| 0 <= i < N && 0 <= j < M implies #[trigger] p@[i][j] == outer[i][j] by {
                assert(algebra::dot_prefix(self.0@, v.0@, i, j, 1) == algebra::dot_prefix(self.0@, v.0@, i, j, 0) + self.0@[i][0] * v.0@[0][j]);
            }
            assert(p@ =~~= outer);
        }
        p
    }
}

impl<const N: usize, const M: usize> vstd::std_specs::ops::MulSpecImpl<RowVector<i64, M>> for ColumnVector<i64, N> {
    open spec fn obeys_mul_spec() -> bool {
        true
    }

    /// Every product `column[i] * row[j]` fits in `i64`.
    open spec fn mul_req(self, v: RowVector<i64, M>) -> bool {
        product_fits(self.0@, v.0@, N as int, 1, M as int)
    }

    open spec fn mul_spec(self, v: RowVector<i64, M>) -> Matrix<i64, N, M> {
        Matrix::<i64, N, M>::from_grid(
            algebra::grid(N as int, M as int, |i: int, j: int| self.0@[i][0] * v.0@[0][j]),
        )
    }
}

} // verus!
