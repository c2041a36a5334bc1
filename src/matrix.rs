//! Dense matrices whose dimensions are part of their type.
use vstd::prelude::*;
use crate::algebra::{self, is_grid};

verus! {

/// An `M` by `N` grid of elements, stored as `M` rows of `N` entries.
#[derive(Clone, Copy, Debug, PartialEq, Eq)]
pub struct Matrix<T, const M: usize, const N: usize> {
    pub elements: [[T; N]; M],
}

impl<const M: usize, const N: usize> View for Matrix<i64, M, N> {
    type V = Seq<Seq<int>>;

    open spec fn view(&self) -> Seq<Seq<int>> {
        algebra::grid(M as int, N as int, |i: int, j: int| self.elements[i][j] as int)
    }
}

/// `x` can be held in an `i64`.
pub open spec fn fits_i64(x: int) -> bool {
    i64::MIN <= x <= i64::MAX
}

impl<const M: usize, const N: usize> Matrix<i64, M, N> {
    /// Every entry of the `M` by `N` grid `g` lies in the range of `i64`.
    pub open spec fn in_range(g: Seq<Seq<int>>) -> bool {
        forall|i: int, j: int|
            0 <= i < M && 0 <= j < N ==> fits_i64(#[trigger] g[i][j])
    }

    /// The matrix whose entry `(i, j)` is `g[i][j]`, for a grid of `M` by `N`
    /// entries that fit in `i64`.
    pub open spec fn from_grid(g: Seq<Seq<int>>) -> Self {
        Matrix { elements: rows_of::<M, N>(g, M as nat) }
    }

    /// The view has `M` rows of `N` entries, each in the range of `i64`.
    pub proof fn lemma_view_is_grid(self)
        ensures
            is_grid(self@, M as int, N as int),
            Self::in_range(self@),
    {
    }

    /// Two matrices with the same view are the same matrix.
    pub proof fn lemma_view_injective(self, other: Self)
        requires
            self@ == other@,
        ensures
            self == other,
    {
        assert forall|i: int| 0 <= i < M implies #[trigger] self.elements[i] == other.elements[i] by {
            assert forall|j: int| 0 <= j < N implies #[trigger] self.elements[i][j]
                == other.elements[i][j] by {
                assert(self@[i][j] == self.elements[i][j] as int);
                assert(other@[i][j] == other.elements[i][j] as int);
            }
            assert(self.elements[i] =~= other.elements[i]);
        }
        assert(self.elements =~= other.elements);
    }

    /// `from_grid` gives back a matrix from its own view.
    pub proof fn lemma_from_grid(self)
        ensures
            Self::from_grid(self@) == self,
    {
        self.lemma_view_is_grid();
        Self::lemma_from_grid_view(self@);
        Self::from_grid(self@).lemma_view_injective(self);
    }

    /// The view of `from_grid(g)` is `g`.
    pub proof fn lemma_from_grid_view(g: Seq<Seq<int>>)
        requires
            is_grid(g, M as int, N as int),
            Self::in_range(g),
        ensures
            Self::from_grid(g)@ == g,
    {
        lemma_rows_of::<M, N>(g, M as nat);
        assert forall|i: int| 0 <= i < M implies #[trigger] Self::from_grid(g)@[i] == g[i] by {
            lemma_row_of::<N>(g[i], N as nat);
            assert forall|j: int| 0 <= j < N implies g[i][j] == #[trigger] (g[i][j] as i64) as int by {
                assert(fits_i64(g[i][j]));
            }
            assert(Self::from_grid(g)@[i] =~= g[i]);
        }
        assert(Self::from_grid(g)@ =~= g);
    }
}

/// The row whose first `k` entries are those of `r`, cast to `i64`, and whose other entries are zero.
pub open spec fn row_of<const N: usize>(r: Seq<int>, k: nat) -> [i64; N]
    decreases k,
{
    if k == 0 {
        vstd::array::spec_array_fill_for_copy_type::<i64, N>(0)
    } else {
        vstd::array::spec_array_update(row_of::<N>(r, (k - 1) as nat), k - 1, r[k - 1] as i64)
    }
}

/// The rows whose first `k` are built from those of `g` by `row_of`, the others zero.
pub open spec fn rows_of<const M: usize, const N: usize>(g: Seq<Seq<int>>, k: nat) -> [[i64; N]; M]
    decreases k,
{
    if k == 0 {
        vstd::array::spec_array_fill_for_copy_type::<[i64; N], M>(row_of::<N>(g[0], 0))
    } else {
        vstd::array::spec_array_update(
            rows_of::<M, N>(g, (k - 1) as nat),
            k - 1,
            row_of::<N>(g[k - 1], N as nat),
        )
    }
}

pub proof fn lemma_row_of<const N: usize>(r: Seq<int>, k: nat)
    requires
        k <= N,
    ensures
        forall|j: int| 0 <= j < N ==> #[trigger] row_of::<N>(r, k)[j] == if j < k { r[j] as i64 } else { 0i64 },
    decreases k,
{
    if k > 0 {
        lemma_row_of::<N>(r, (k - 1) as nat);
        let prev = row_of::<N>(r, (k - 1) as nat);
        assert(row_of::<N>(r, k)@ == prev@.update(k - 1, r[k - 1] as i64));
    } else {
        assert(row_of::<N>(r, 0)@ == vstd::array::spec_array_fill_for_copy_type::<i64, N>(0)@);
    }
}

pub proof fn lemma_rows_of<const M: usize, const N: usize>(g: Seq<Seq<int>>, k: nat)
    requires
        k <= M,
    ensures
        forall|i: int| 0 <= i < k ==> #[trigger] rows_of::<M, N>(g, k)[i] == row_of::<N>(g[i], N as nat),
    decreases k,
{
    if k > 0 {
        lemma_rows_of::<M, N>(g, (k - 1) as nat);
        let prev = rows_of::<M, N>(g, (k - 1) as nat);
        assert(rows_of::<M, N>(g, k)@ == prev@.update(k - 1, row_of::<N>(g[k - 1], N as nat)));
    }
}

impl<T: Copy, const M: usize, const N: usize> Matrix<T, M, N> {
    pub fn new(elements: [[T; N]; M]) -> (r: Self)
        ensures
            r.elements == elements,
    {
        Matrix { elements }
    }

    /// The matrix with every entry equal to `value`.
    pub fn filled(value: T) -> (r: Self)
        ensures
            forall|i: int, j: int| 0 <= i < M && 0 <= j < N ==> #[trigger] r.elements[i][j] == value,
    {
        let row: [T; N] = [value; N];
        Matrix { elements: [row; M] }
    }

    /// The number of entries, `M * N`.
    pub fn len(&self) -> (r: usize)
        requires
            M * N <= usize::MAX,
        ensures
            r == M * N,
    {
        M * N
    }
}

impl<const M: usize, const N: usize> Matrix<i64, M, N> {
    pub fn zeros() -> (r: Self)
        ensures
            r@ == algebra::zeros(M as int, N as int),
    {
        let r = Self::filled(0);
        assert(r@ =~~= algebra::zeros(M as int, N as int));
        r
    }

    pub fn ones() -> (r: Self)
        ensures
            r@ == algebra::grid(M as int, N as int, |i: int, j: int| 1int),
    {
        let r = Self::filled(1);
        assert(r@ =~~= algebra::grid(M as int, N as int, |i: int, j: int| 1int));
        r
    }

    /// Ones on the diagonal, zeros elsewhere; for a square matrix this is the identity.
    pub fn identity() -> (r: Self)
        ensures
            r@ == algebra::grid(M as int, N as int, |i: int, j: int| if i == j { 1int } else { 0int }),
    {
        let mut elements = Self::filled(0).elements;
        let mut i: usize = 0;
        while i < M
            invariant
                0 <= i <= M,
                forall|a: int, b: int| 0 <= a < M && 0 <= b < N ==> #[trigger] elements[a][b]
                    == if a == b && a < i { 1i64 } else { 0i64 },
            decreases M - i,
        {
            if i < N {
                let mut row = elements[i];
                row[i] = 1;
                elements[i] = row;
            }
            i += 1;
        }
        let r = Matrix { elements };
        assert(r@ =~~= algebra::grid(M as int, N as int, |i: int, j: int| if i == j { 1int } else { 0int }));
        r
    }

    /// The `N` by `M` matrix with rows and columns exchanged.
    pub fn transpose(self) -> (r: Matrix<i64, N, M>)
        ensures
            r@ == algebra::mat_transpose(self@, M as int, N as int),
    {
        let mut elements = Matrix::<i64, N, M>::filled(0).elements;
        let mut i: usize = 0;
        while i < M
            invariant
                0 <= i <= M,
                forall|a: int, b: int| 0 <= a < N && 0 <= b < M ==> #[trigger] elements[a][b]
                    == if b < i { self.elements[b][a] } else { 0i64 },
            decreases M - i,
        {
            let mut j: usize = 0;
            while j < N
                invariant
                    0 <= i < M,
                    0 <= j <= N,
                    forall|a: int, b: int| 0 <= a < N && 0 <= b < M ==> #[trigger] elements[a][b]
                        == if b < i || (b == i && a < j) { self.elements[b][a] } else { 0i64 },
                decreases N - j,
            {
                let mut row = elements[j];
                row[i] = self.elements[i][j];
                elements[j] = row;
                j += 1;
            }
            i += 1;
        }
        let r = Matrix { elements };
        assert(r@ =~~= algebra::mat_transpose(self@, M as int, N as int));
        r
    }
}

impl<const M: usize, const N: usize> Matrix<i64, M, N> {
    /// Entrywise sum, for operands whose sums all fit in `i64`.
    pub(crate) fn sum_with(self, other: Self) -> (r: Self)
        requires
            Self::in_range(algebra::mat_add(self@, other@, M as int, N as int)),
        ensures
            r@ == algebra::mat_add(self@, other@, M as int, N as int),
    {
        let ghost g = algebra::mat_add(self@, other@, M as int, N as int);
        let mut elements = self.elements;
        let mut i: usize = 0;
        while i < M
            invariant
                0 <= i <= M,
                g == algebra::mat_add(self@, other@, M as int, N as int),
                Self::in_range(g),
                forall|a: int, b: int| 0 <= a < M && 0 <= b < N ==> #[trigger] elements[a][b]
                    == if a < i { g[a][b] } else { self.elements[a][b] as int },
            decreases M - i,
        {
            let mut row = elements[i];
            let mut j: usize = 0;
            while j < N
                invariant
                    0 <= i < M,
                    0 <= j <= N,
                    g == algebra::mat_add(self@, other@, M as int, N as int),
                    Self::in_range(g),
                    forall|b: int| 0 <= b < N ==> #[trigger] row[b]
                        == if b < j { g[i as int][b] } else { self.elements[i as int][b] as int },
                decreases N - j,
            {
                assert(fits_i64(g[i as int][j as int]));
                row[j] = row[j] + other.elements[i][j];
                j += 1;
            }
            elements[i] = row;
            i += 1;
        }
        let r = Matrix { elements };
        assert(r@ =~~= g);
        r
    }

    /// Entrywise difference, for operands whose differences all fit in `i64`.
    pub(crate) fn difference_with(self, other: Self) -> (r: Self)
        requires
            Self::in_range(algebra::mat_sub(self@, other@, M as int, N as int)),
        ensures
            r@ == algebra::mat_sub(self@, other@, M as int, N as int),
    {
        let ghost g = algebra::mat_sub(self@, other@, M as int, N as int);
        let mut elements = self.elements;
        let mut i: usize = 0;
        while i < M
            invariant
                0 <= i <= M,
                g == algebra::mat_sub(self@, other@, M as int, N as int),
                Self::in_range(g),
                forall|a: int, b: int| 0 <= a < M && 0 <= b < N ==> #[trigger] elements[a][b]
                    == if a < i { g[a][b] } else { self.elements[a][b] as int },
            decreases M - i,
        {
            let mut row = elements[i];
            let mut j: usize = 0;
            while j < N
                invariant
                    0 <= i < M,
                    0 <= j <= N,
                    g == algebra::mat_sub(self@, other@, M as int, N as int),
                    Self::in_range(g),
                    forall|b: int| 0 <= b < N ==> #[trigger] row[b]
                        == if b < j { g[i as int][b] } else { self.elements[i as int][b] as int },
                decreases N - j,
            {
                assert(fits_i64(g[i as int][j as int]));
                row[j] = row[j] - other.elements[i][j];
                j += 1;
            }
            elements[i] = row;
            i += 1;
        }
        let r = Matrix { elements };
        assert(r@ =~~= g);
        r
    }

    /// Every entry multiplied by `c`, where all those products fit in `i64`.
    pub(crate) fn scaled_by(self, c: i64) -> (r: Self)
        requires
            Self::in_range(algebra::mat_scale(self@, c as int, M as int, N as int)),
        ensures
            r@ == algebra::mat_scale(self@, c as int, M as int, N as int),
    {
        let ghost g = algebra::mat_scale(self@, c as int, M as int, N as int);
        let mut elements = self.elements;
        let mut i: usize = 0;
        while i < M
            invariant
                0 <= i <= M,
                g == algebra::mat_scale(self@, c as int, M as int, N as int),
                Self::in_range(g),
                forall|a: int, b: int| 0 <= a < M && 0 <= b < N ==> #[trigger] elements[a][b]
                    == if a < i { g[a][b] } else { self.elements[a][b] as int },
            decreases M - i,
        {
            let mut row = elements[i];
            let mut j: usize = 0;
            while j < N
                invariant
                    0 <= i < M,
                    0 <= j <= N,
                    g == algebra::mat_scale(self@, c as int, M as int, N as int),
                    Self::in_range(g),
                    forall|b: int| 0 <= b < N ==> #[trigger] row[b]
                        == if b < j { g[i as int][b] } else { self.elements[i as int][b] as int },
                decreases N - j,
            {
                assert(fits_i64(g[i as int][j as int]));
                row[j] = row[j] * c;
                j += 1;
            }
            elements[i] = row;
            i += 1;
        }
        let r = Matrix { elements };
        assert(r@ =~~= g);
        r
    }
}

impl<const M: usize, const N: usize> std::ops::Add for Matrix<i64, M, N> {
    type Output = Self;

    fn add(self, other: Self) -> (r: Self) {
        let r = self.sum_with(other);
        proof {
            r.lemma_from_grid();
        }
        r
    }
}

impl<const M: usize, const N: usize> vstd::std_specs::ops::AddSpecImpl for Matrix<i64, M, N> {
    open spec fn obeys_add_spec() -> bool {
        true
    }

    /// Every entrywise sum fits in `i64`.
    open spec fn add_req(self, other: Self) -> bool {
        Self::in_range(algebra::mat_add(self@, other@, M as int, N as int))
    }

    open spec fn add_spec(self, other: Self) -> Self {
        Self::from_grid(algebra::mat_add(self@, other@, M as int, N as int))
    }
}

impl<const M: usize, const N: usize> std::ops::Sub for Matrix<i64, M, N> {
    type Output = Self;

    fn sub(self, other: Self) -> (r: Self) {
        let r = self.difference_with(other);
        proof {
            r.lemma_from_grid();
        }
        r
    }
}

impl<const M: usize, const N: usize> vstd::std_specs::ops::SubSpecImpl for Matrix<i64, M, N> {
    open spec fn obeys_sub_spec() -> bool {
        true
    }

    /// Every entrywise difference fits in `i64`.
    open spec fn sub_req(self, other: Self) -> bool {
        Self::in_range(algebra::mat_sub(self@, other@, M as int, N as int))
    }

    open spec fn sub_spec(self, other: Self) -> Self {
        Self::from_grid(algebra::mat_sub(self@, other@, M as int, N as int))
    }
}

impl<const M: usize, const N: usize> std::ops::Mul<i64> for Matrix<i64, M, N> {
    type Output = Self;

    fn mul(self, c: i64) -> (r: Self) {
        let r = self.scaled_by(c);
        proof {
            r.lemma_from_grid();
        }
        r
    }
}

impl<const M: usize, const N: usize> vstd::std_specs::ops::MulSpecImpl<i64> for Matrix<i64, M, N> {
    open spec fn obeys_mul_spec() -> bool {
        true
    }

    /// Every entry times `c` fits in `i64`.
    open spec fn mul_req(self, c: i64) -> bool {
        Self::in_range(algebra::mat_scale(self@, c as int, M as int, N as int))
    }

    open spec fn mul_spec(self, c: i64) -> Self {
        Self::from_grid(algebra::mat_scale(self@, c as int, M as int, N as int))
    }
}

/// Every product and every running sum met while multiplying the `m` by `n`
/// grid `a` with the `n` by `p` grid `b` fits in `i64`.
pub open spec fn product_fits(a: Seq<Seq<int>>, b: Seq<Seq<int>>, m: int, n: int, p: int) -> bool {
    forall|i: int, j: int, k: int|
        0 <= i < m && 0 <= j < p && 0 < k <= n ==> fits_i64(a[i][k - 1] * b[k - 1][j]) && fits_i64(
            #[trigger] algebra::dot_prefix(a, b, i, j, k),
        )
}

/// Every product met while raising the `n` by `n` grid `b` to the power `e` by
/// repeated squaring, with `r` as the running result, fits in `i64`.
pub open spec fn power_fits(r: Seq<Seq<int>>, b: Seq<Seq<int>>, n: int, e: nat) -> bool
    decreases e,
{
    e == 0 || {
        &&& (e % 2 == 1 ==> product_fits(r, b, n, n, n))
        &&& product_fits(b, b, n, n, n)
        &&& power_fits(
            if e % 2 == 1 {
                algebra::mat_mul(r, b, n, n, n)
            } else {
                r
            },
            algebra::mat_mul(b, b, n, n, n),
            n,
            e / 2,
        )
    }
}

impl<const M: usize, const N: usize> Matrix<i64, M, N> {
    /// Row `i` of `self` times column `j` of `other`.
    pub(crate) fn row_times_column<const P: usize>(&self, other: &Matrix<i64, N, P>, i: usize, j: usize) -> (r: i64)
        requires
            i < M,
            j < P,
            product_fits(self@, other@, M as int, N as int, P as int),
        ensures
            r == algebra::dot_prefix(self@, other@, i as int, j as int, N as int),
    {
        let mut acc: i64 = 0;
        let mut k: usize = 0;
        while k < N
            invariant
                i < M,
                j < P,
                0 <= k <= N,
                product_fits(self@, other@, M as int, N as int, P as int),
                acc == algebra::dot_prefix(self@, other@, i as int, j as int, k as int),
            decreases N - k,
        {
            assert(fits_i64(algebra::dot_prefix(self@, other@, i as int, j as int, k + 1)));
            assert(self@[i as int][k as int] == self.elements[i as int][k as int]);
            assert(other@[k as int][j as int] == other.elements[k as int][j as int]);
            acc = acc + self.elements[i][k] * other.elements[k][j];
            k += 1;
        }
        acc
    }

    /// The product of `self` with `other`, entry by entry.
    pub(crate) fn product_with<const P: usize>(&self, other: &Matrix<i64, N, P>) -> (r: Matrix<i64, M, P>)
        requires
            product_fits(self@, other@, M as int, N as int, P as int),
        ensures
            r@ == algebra::mat_mul(self@, other@, M as int, N as int, P as int),
    {
        let ghost g = algebra::mat_mul(self@, other@, M as int, N as int, P as int);
        let mut elements = Matrix::<i64, M, P>::filled(0).elements;
        let mut i: usize = 0;
        while i < M
            invariant
                0 <= i <= M,
                g == algebra::mat_mul(self@, other@, M as int, N as int, P as int),
                product_fits(self@, other@, M as int, N as int, P as int),
                forall|a: int, b: int| 0 <= a < i && 0 <= b < P ==> #[trigger] elements[a][b] == g[a][b],
            decreases M - i,
        {
            let mut row = elements[i];
            let mut j: usize = 0;
            while j < P
                invariant
                    0 <= i < M,
                    0 <= j <= P,
                    g == algebra::mat_mul(self@, other@, M as int, N as int, P as int),
                    product_fits(self@, other@, M as int, N as int, P as int),
                    forall|a: int, b: int| 0 <= a < i && 0 <= b < P ==> #[trigger] elements[a][b] == g[a][b],
                    forall|b: int| 0 <= b < j ==> #[trigger] row[b] == g[i as int][b],
                decreases P - j,
            {
                row[j] = self.row_times_column(other, i, j);
                j += 1;
            }
            elements[i] = row;
            i += 1;
        }
        let r = Matrix { elements };
        assert(r@ =~~= g);
        r
    }
}

impl<const M: usize, const N: usize, const P: usize> std::ops::Mul<Matrix<i64, N, P>> for Matrix<i64, M, N> {
    type Output = Matrix<i64, M, P>;

    fn mul(self, other: Matrix<i64, N, P>) -> (r: Matrix<i64, M, P>) {
        let r = self.product_with(&other);
        proof {
            r.lemma_from_grid();
        }
        r
    }
}

impl<const M: usize, const N: usize, const P: usize> vstd::std_specs::ops::MulSpecImpl<Matrix<i64, N, P>> for Matrix<i64, M, N> {
    open spec fn obeys_mul_spec() -> bool {
        true
    }

    /// Every product and running sum of the product fits in `i64`.
    open spec fn mul_req(self, other: Matrix<i64, N, P>) -> bool {
        product_fits(self@, other@, M as int, N as int, P as int)
    }

    open spec fn mul_spec(self, other: Matrix<i64, N, P>) -> Matrix<i64, M, P> {
        Matrix::<i64, M, P>::from_grid(algebra::mat_mul(self@, other@, M as int, N as int, P as int))
    }
}

impl<const N: usize> Matrix<i64, N, N> {
    /// `self` raised to the power `e` by repeated squaring.
    fn power(self, e: u32) -> (r: Self)
        requires
            power_fits(algebra::identity(N as int), self@, N as int, e as nat),
        ensures
            r@ == algebra::mat_pow(self@, N as int, e as nat),
    {
        let ghost n = N as int;
        if e == 0 {
            let r = Self::identity();
            assert(r@ =~~= algebra::identity(n));
            return r;
        }
        let mut result = Self::identity();
        assert(result@ =~~= algebra::identity(n));
        let mut base = self;
        let mut exp = e;
        proof {
            algebra::lemma_pow_is_grid(self@, n, e as nat);
            algebra::lemma_mul_identity_left(algebra::mat_pow(self@, n, e as nat), n, n);
        }
        while exp > 0
            invariant
                power_fits(result@, base@, n, exp as nat),
                algebra::mat_mul(result@, algebra::mat_pow(base@, n, exp as nat), n, n, n)
                    == algebra::mat_pow(self@, n, e as nat),
                n == N as int,
            decreases exp,
        {
            let ghost q = (exp / 2) as nat;
            let ghost r0 = result@;
            let ghost b0 = base@;
            proof {
                algebra::lemma_pow_of_square(b0, n, q);
            }
            if exp % 2 == 1 {
                result = result.product_with(&base);
                proof {
                    algebra::lemma_mul_assoc(r0, b0, algebra::mat_pow(b0, n, 2 * q), n, n, n, n);
                    assert(algebra::mat_pow(b0, n, exp as nat) == algebra::mat_mul(b0, algebra::mat_pow(b0, n, 2 * q), n, n, n));
                }
            }
            base = base.product_with(&base);
            exp = exp / 2;
        }
        proof {
            result.lemma_view_is_grid();
            algebra::lemma_mul_identity_right(result@, n, n);
        }
        result
    }
}

/// A product whose running sums fit also has all its entries in range.
pub proof fn lemma_product_in_range<const M: usize, const N: usize, const P: usize>(
    a: Seq<Seq<int>>,
    b: Seq<Seq<int>>,
)
    requires
        product_fits(a, b, M as int, N as int, P as int),
    ensures
        Matrix::<i64, M, P>::in_range(algebra::mat_mul(a, b, M as int, N as int, P as int)),
{
    let g = algebra::mat_mul(a, b, M as int, N as int, P as int);
    assert forall|i: int, j: int| 0 <= i < M && 0 <= j < P implies fits_i64(#[trigger] g[i][j]) by {
        if N > 0 {
            assert(fits_i64(algebra::dot_prefix(a, b, i, j, N as int)));
        }
    }
}

/// When repeated squaring stays in range, so does the power that it computes.
pub proof fn lemma_power_in_range<const N: usize>(r: Seq<Seq<int>>, b: Seq<Seq<int>>, e: nat)
    requires
        is_grid(r, N as int, N as int),
        Matrix::<i64, N, N>::in_range(r),
        power_fits(r, b, N as int, e),
    ensures
        Matrix::<i64, N, N>::in_range(algebra::mat_mul(r, algebra::mat_pow(b, N as int, e), N as int, N as int, N as int)),
    decreases e,
{
    let n = N as int;
    if e == 0 {
        algebra::lemma_mul_identity_right(r, n, n);
    } else {
        let q = e / 2;
        let bb = algebra::mat_mul(b, b, n, n, n);
        algebra::lemma_pow_of_square(b, n, q);
        lemma_product_in_range::<N, N, N>(b, b);
        if e % 2 == 1 {
            let rb = algebra::mat_mul(r, b, n, n, n);
            lemma_product_in_range::<N, N, N>(r, b);
            lemma_power_in_range::<N>(rb, bb, q);
            algebra::lemma_mul_assoc(r, b, algebra::mat_pow(b, n, 2 * q), n, n, n, n);
            assert(algebra::mat_pow(b, n, e) == algebra::mat_mul(b, algebra::mat_pow(b, n, 2 * q), n, n, n));
        } else {
            lemma_power_in_range::<N>(r, bb, q);
            assert(e == 2 * q);
        }
    }
}

impl<const N: usize> std::ops::BitXor<u32> for Matrix<i64, N, N> {
    type Output = Self;

    fn bitxor(self, e: u32) -> (r: Self) {
        let r = self.power(e);
        proof {
            r.lemma_from_grid();
        }
        r
    }
}

impl<const N: usize> vstd::std_specs::ops::BitXorSpecImpl<u32> for Matrix<i64, N, N> {
    open spec fn obeys_bitxor_spec() -> bool {
        true
    }

    /// Every product met by repeated squaring fits in `i64`.
    open spec fn bitxor_req(self, e: u32) -> bool {
        power_fits(algebra::identity(N as int), self@, N as int, e as nat)
    }

    /// `self` multiplied by itself `e` times; the identity for `e == 0`.
    open spec fn bitxor_spec(self, e: u32) -> Self {
        Self::from_grid(algebra::mat_pow(self@, N as int, e as nat))
    }
}

impl Matrix<i64, 2, 2> {
    /// `ad - bc` for the matrix `[[a, b], [c, d]]`, when both products and
    /// their difference fit in `i64`.
    pub fn determinant_2x2(&self) -> (r: i64)
        requires
            fits_i64(self@[0][0] * self@[1][1]),
            fits_i64(self@[0][1] * self@[1][0]),
            fits_i64(self@[0][0] * self@[1][1] - self@[0][1] * self@[1][0]),
        ensures
            r == self@[0][0] * self@[1][1] - self@[0][1] * self@[1][0],
    {
        self.elements[0][0] * self.elements[1][1] - self.elements[0][1] * self.elements[1][0]
    }
}

/// Every intermediate value of the cofactor expansion along the first row of
/// `[[a, b, c], [d, e, f], [g, h, i]]` fits in `i64`.
pub open spec fn determinant_3x3_fits(m: Seq<Seq<int>>) -> bool {
    let (a, b, c) = (m[0][0], m[0][1], m[0][2]);
    let (d, e, f) = (m[1][0], m[1][1], m[1][2]);
    let (g, h, i) = (m[2][0], m[2][1], m[2][2]);
    &&& fits_i64(e * i) && fits_i64(f * h) && fits_i64(e * i - f * h)
    &&& fits_i64(d * i) && fits_i64(f * g) && fits_i64(d * i - f * g)
    &&& fits_i64(d * h) && fits_i64(e * g) && fits_i64(d * h - e * g)
    &&& fits_i64(a * (e * i - f * h)) && fits_i64(b * (d * i - f * g)) && fits_i64(c * (d * h - e * g))
    &&& fits_i64(a * (e * i - f * h) - b * (d * i - f * g))
    &&& fits_i64(a * (e * i - f * h) - b * (d * i - f * g) + c * (d * h - e * g))
}

/// The determinant of `[[a, b, c], [d, e, f], [g, h, i]]`.
pub open spec fn determinant_3x3_of(m: Seq<Seq<int>>) -> int {
    let (a, b, c) = (m[0][0], m[0][1], m[0][2]);
    let (d, e, f) = (m[1][0], m[1][1], m[1][2]);
    let (g, h, i) = (m[2][0], m[2][1], m[2][2]);
    a * (e * i - f * h) - b * (d * i - f * g) + c * (d * h - e * g)
}

impl Matrix<i64, 3, 3> {
    /// The determinant, by cofactor expansion along the first row.
    pub fn determinant_3x3(&self) -> (r: i64)
        requires
            determinant_3x3_fits(self@),
        ensures
            r == determinant_3x3_of(self@),
    {
        let a = self.elements[0][0];
        let b = self.elements[0][1];
        let c = self.elements[0][2];
        let d = self.elements[1][0];
        let e = self.elements[1][1];
        let f = self.elements[1][2];
        let g = self.elements[2][0];
        let h = self.elements[2][1];
        let i = self.elements[2][2];
        a * (e * i - f * h) - b * (d * i - f * g) + c * (d * h - e * g)
    }
}

} // verus!
