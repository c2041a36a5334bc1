//! Plain fixed-length vectors, and a scalar that can multiply one from the left.
use vstd::prelude::*;
use crate::matrix::fits_i64;

verus! {

#[derive(Clone, Copy, Debug, PartialEq, Eq)]
pub struct Vector<T, const N: usize> {
    pub elements: [T; N],
}

/// A value meant to multiply a vector from the left.
#[derive(Clone, Copy, Debug, PartialEq, Eq)]
pub struct Scalar<U>(pub U);

impl<U> From<U> for Scalar<U> {
    fn from(value: U) -> (r: Self) {
        Scalar(value)
    }
}

impl<U> vstd::std_specs::convert::FromSpecImpl<U> for Scalar<U> {
    open spec fn obeys_from_spec() -> bool {
        true
    }

    open spec fn from_spec(value: U) -> Self {
        Scalar(value)
    }
}

impl<const N: usize> View for Vector<i64, N> {
    type V = Seq<int>;

    open spec fn view(&self) -> Seq<int> {
        Seq::new(N as nat, |i: int| self.elements[i] as int)
    }
}

impl<T: Copy, const N: usize> Vector<T, N> {
    pub fn new(elements: [T; N]) -> (r: Self)
        ensures
            r.elements == elements,
    {
        Vector { elements }
    }

    /// The vector with every entry equal to `value`.
    pub fn filled(value: T) -> (r: Self)
        ensures
            forall|i: int| 0 <= i < N ==> #[trigger] r.elements[i] == value,
    {
        Vector { elements: [value; N] }
    }

    /// The number of entries, `N`.
    pub fn len(&self) -> (r: usize)
        ensures
            r == N,
    {
        N
    }
}

/// The vector whose entries are those of `s`, for a sequence of `N` values that fit in `i64`.
pub open spec fn vector_from<const N: usize>(s: Seq<int>) -> Vector<i64, N> {
    Vector { elements: crate::matrix::row_of::<N>(s, N as nat) }
}

/// Entries of `s` all fit in `i64`.
pub open spec fn all_fit(s: Seq<int>) -> bool {
    forall|i: int| 0 <= i < s.len() ==> fits_i64(#[trigger] s[i])
}

impl<const N: usize> Vector<i64, N> {
    pub fn zeros() -> (r: Self)
        ensures
            r@ == Seq::new(N as nat, |i: int| 0int),
    {
        let r = Self::filled(0);
        assert(r@ =~= Seq::new(N as nat, |i: int| 0int));
        r
    }

    pub fn ones() -> (r: Self)
        ensures
            r@ == Seq::new(N as nat, |i: int| 1int),
    {
        let r = Self::filled(1);
        assert(r@ =~= Seq::new(N as nat, |i: int| 1int));
        r
    }

    /// `vector_from` gives back a vector from its own view.
    pub proof fn lemma_vector_from(self)
        ensures
            vector_from::<N>(self@) == self,
    {
        crate::matrix::lemma_row_of::<N>(self@, N as nat);
        let v = vector_from::<N>(self@);
        assert forall|i: int| 0 <= i < N implies #[trigger] v.elements[i] == self.elements[i] by {}
        assert(v.elements =~= self.elements);
    }

    fn entrywise_sum(self, other: Self) -> (r: Self)
        requires
            all_fit(Seq::new(N as nat, |i: int| self@[i] + other@[i])),
        ensures
            r@ == Seq::new(N as nat, |i: int| self@[i] + other@[i]),
    {
        let ghost g = Seq::new(N as nat, |i: int| self@[i] + other@[i]);
        let mut elements = self.elements;
        let mut i: usize = 0;
        while i < N
            invariant
                i <= N,
                g == Seq::new(N as nat, |i: int| self@[i] + other@[i]),
                all_fit(g),
                forall|t: int| 0 <= t < N ==> #[trigger] elements[t] == if t < i { g[t] } else { self@[t] },
            decreases N - i,
        {
            assert(fits_i64(g[i as int]));
            elements[i] = elements[i] + other.elements[i];
            i += 1;
        }
        let r = Vector { elements };
        assert(r@ =~= g);
        r
    }

    fn entrywise_difference(self, other: Self) -> (r: Self)
        requires
            all_fit(Seq::new(N as nat, |i: int| self@[i] - other@[i])),
        ensures
            r@ == Seq::new(N as nat, |i: int| self@[i] - other@[i]),
    {
        let ghost g = Seq::new(N as nat, |i: int| self@[i] - other@[i]);
        let mut elements = self.elements;
        let mut i: usize = 0;
        while i < N
            invariant
                i <= N,
                g == Seq::new(N as nat, |i: int| self@[i] - other@[i]),
                all_fit(g),
                forall|t: int| 0 <= t < N ==> #[trigger] elements[t] == if t < i { g[t] } else { self@[t] },
            decreases N - i,
        {
            assert(fits_i64(g[i as int]));
            elements[i] = elements[i] - other.elements[i];
            i += 1;
        }
        let r = Vector { elements };
        assert(r@ =~= g);
        r
    }

    fn scaled_by(self, c: i64) -> (r: Self)
        requires
            all_fit(Seq::new(N as nat, |i: int| c * self@[i])),
        ensures
            r@ == Seq::new(N as nat, |i: int| c * self@[i]),
    {
        let ghost g = Seq::new(N as nat, |i: int| c * self@[i]);
        let mut elements = self.elements;
        let mut i: usize = 0;
        while i < N
            invariant
                i <= N,
                g == Seq::new(N as nat, |i: int| c * self@[i]),
                all_fit(g),
                forall|t: int| 0 <= t < N ==> #[trigger] elements[t] == if t < i { g[t] } else { self@[t] },
            decreases N - i,
        {
            assert(fits_i64(g[i as int]));
            elements[i] = c * elements[i];
            i += 1;
        }
        let r = Vector { elements };
        assert(r@ =~= g);
        r
    }
}

impl<const N: usize> std::ops::Add for Vector<i64, N> {
    type Output = Self;

    fn add(self, other: Self) -> (r: Self) {
        let r = self.entrywise_sum(other);
        proof {
            r.lemma_vector_from();
        }
        r
    }
}

impl<const N: usize> vstd::std_specs::ops::AddSpecImpl for Vector<i64, N> {
    open spec fn obeys_add_spec() -> bool {
        true
    }

    open spec fn add_req(self, other: Self) -> bool {
        all_fit(Seq::new(N as nat, |i: int| self@[i] + other@[i]))
    }

    open spec fn add_spec(self, other: Self) -> Self {
        vector_from::<N>(Seq::new(N as nat, |i: int| self@[i] + other@[i]))
    }
}

impl<const N: usize> std::ops::Sub for Vector<i64, N> {
    type Output = Self;

    fn sub(self, other: Self) -> (r: Self) {
        let r = self.entrywise_difference(other);
        proof {
            r.lemma_vector_from();
        }
        r
    }
}

impl<const N: usize> vstd::std_specs::ops::SubSpecImpl for Vector<i64, N> {
    open spec fn obeys_sub_spec() -> bool {
        true
    }

    open spec fn sub_req(self, other: Self) -> bool {
        all_fit(Seq::new(N as nat, |i: int| self@[i] - other@[i]))
    }

    open spec fn sub_spec(self, other: Self) -> Self {
        vector_from::<N>(Seq::new(N as nat, |i: int| self@[i] - other@[i]))
    }
}

impl<const N: usize> std::ops::Mul<i64> for Vector<i64, N> {
    type Output = Self;

    fn mul(self, c: i64) -> (r: Self) {
        let r = self.scaled_by(c);
        proof {
            r.lemma_vector_from();
        }
        r
    }
}

impl<const N: usize> vstd::std_specs::ops::MulSpecImpl<i64> for Vector<i64, N> {
    open spec fn obeys_mul_spec() -> bool {
        true
    }

    open spec fn mul_req(self, c: i64) -> bool {
        all_fit(Seq::new(N as nat, |i: int| c * self@[i]))
    }

    open spec fn mul_spec(self, c: i64) -> Self {
        vector_from::<N>(Seq::new(N as nat, |i: int| c * self@[i]))
    }
}

/// A scalar times a vector multiplies every entry by it.
impl<const N: usize> std::ops::Mul<Vector<i64, N>> for Scalar<i64> {
    type Output = Vector<i64, N>;

    fn mul(self, v: Vector<i64, N>) -> (r: Vector<i64, N>) {
        let r = v.scaled_by(self.0);
        proof {
            r.lemma_vector_from();
        }
        r
    }
}

impl<const N: usize> vstd::std_specs::ops::MulSpecImpl<Vector<i64, N>> for Scalar<i64> {
    open spec fn obeys_mul_spec() -> bool {
        true
    }

    open spec fn mul_req(self, v: Vector<i64, N>) -> bool {
        all_fit(Seq::new(N as nat, |i: int| self.0 * v@[i]))
    }

    open spec fn mul_spec(self, v: Vector<i64, N>) -> Vector<i64, N> {
        vector_from::<N>(Seq::new(N as nat, |i: int| self.0 * v@[i]))
    }
}

} // verus!
