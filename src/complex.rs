//! A minimal complex number with integer parts.
use vstd::prelude::*;
use crate::matrix::fits_i64;

verus! {

#[derive(Clone, Copy, Debug, PartialEq, Eq)]
pub struct Complex<T> {
    pub re: T,
    pub im: T,
}

impl View for Complex<i64> {
    type V = (int, int);

    open spec fn view(&self) -> (int, int) {
        (self.re as int, self.im as int)
    }
}

/// The product of `a` and `b`, as pairs of real and imaginary parts.
pub open spec fn complex_mul(a: (int, int), b: (int, int)) -> (int, int) {
    (a.0 * b.0 - a.1 * b.1, a.0 * b.1 + a.1 * b.0)
}

/// Every product, difference and sum met while multiplying `a` by `b` fits in `i64`.
pub open spec fn complex_mul_fits(a: (int, int), b: (int, int)) -> bool {
    &&& fits_i64(a.0 * b.0) && fits_i64(a.1 * b.1) && fits_i64(a.0 * b.0 - a.1 * b.1)
    &&& fits_i64(a.0 * b.1) && fits_i64(a.1 * b.0) && fits_i64(a.0 * b.1 + a.1 * b.0)
}

/// `z` multiplied by itself until `k` factors are used; `z` itself for `k <= 1`.
pub open spec fn complex_pow(z: (int, int), k: int) -> (int, int)
    decreases k,
{
    if k <= 1 {
        z
    } else {
        complex_mul(complex_pow(z, k - 1), z)
    }
}

/// Division of integers that rounds toward zero.
pub open spec fn div_toward_zero(x: int, d: int) -> int {
    if x >= 0 {
        x / d
    } else {
        -((-x) / d)
    }
}

impl<T> Complex<T> {
    pub fn new(re: T, im: T) -> (r: Self)
        ensures
            r.re == re,
            r.im == im,
    {
        Self { re, im }
    }
}

impl Complex<i64> {
    /// The same real part with the imaginary part negated.
    pub fn conjugate(&self) -> (r: Self)
        requires
            self.im != i64::MIN,
        ensures
            r@ == (self@.0, -self@.1),
    {
        Self::new(self.re, -self.im)
    }

    fn product(self, other: Self) -> (r: Self)
        requires
            complex_mul_fits(self@, other@),
        ensures
            r@ == complex_mul(self@, other@),
    {
        Self::new(self.re * other.re - self.im * other.im, self.re * other.im + self.im * other.re)
    }
}

impl std::ops::Add for Complex<i64> {
    type Output = Self;

    fn add(self, other: Self) -> (r: Self) {
        Self::new(self.re + other.re, self.im + other.im)
    }
}

impl vstd::std_specs::ops::AddSpecImpl for Complex<i64> {
    open spec fn obeys_add_spec() -> bool {
        true
    }

    open spec fn add_req(self, other: Self) -> bool {
        fits_i64(self.re + other.re) && fits_i64(self.im + other.im)
    }

    open spec fn add_spec(self, other: Self) -> Self {
        Complex { re: (self.re + other.re) as i64, im: (self.im + other.im) as i64 }
    }
}

impl std::ops::Sub for Complex<i64> {
    type Output = Self;

    fn sub(self, other: Self) -> (r: Self) {
        Self::new(self.re - other.re, self.im - other.im)
    }
}

impl vstd::std_specs::ops::SubSpecImpl for Complex<i64> {
    open spec fn obeys_sub_spec() -> bool {
        true
    }

    open spec fn sub_req(self, other: Self) -> bool {
        fits_i64(self.re - other.re) && fits_i64(self.im - other.im)
    }

    open spec fn sub_spec(self, other: Self) -> Self {
        Complex { re: (self.re - other.re) as i64, im: (self.im - other.im) as i64 }
    }
}

impl std::ops::Mul for Complex<i64> {
    type Output = Self;

    fn mul(self, other: Self) -> (r: Self) {
        self.product(other)
    }
}

impl vstd::std_specs::ops::MulSpecImpl for Complex<i64> {
    open spec fn obeys_mul_spec() -> bool {
        true
    }

    open spec fn mul_req(self, other: Self) -> bool {
        complex_mul_fits(self@, other@)
    }

    open spec fn mul_spec(self, other: Self) -> Self {
        Complex { re: complex_mul(self@, other@).0 as i64, im: complex_mul(self@, other@).1 as i64 }
    }
}

impl std::ops::Mul<i64> for Complex<i64> {
    type Output = Self;

    fn mul(self, c: i64) -> (r: Self) {
        Self::new(self.re * c, self.im * c)
    }
}

impl vstd::std_specs::ops::MulSpecImpl<i64> for Complex<i64> {
    open spec fn obeys_mul_spec() -> bool {
        true
    }

    open spec fn mul_req(self, c: i64) -> bool {
        fits_i64(self.re * c) && fits_i64(self.im * c)
    }

    open spec fn mul_spec(self, c: i64) -> Self {
        Complex { re: (self.re * c) as i64, im: (self.im * c) as i64 }
    }
}

/// Every intermediate value of dividing `a` by `b` fits in `i64`, and the divisor is not zero.
pub open spec fn complex_div_fits(a: (int, int), b: (int, int)) -> bool {
    let d = b.0 * b.0 + b.1 * b.1;
    &&& fits_i64(b.0 * b.0) && fits_i64(b.1 * b.1) && fits_i64(d) && d != 0
    &&& fits_i64(a.0 * b.0) && fits_i64(a.1 * b.1) && fits_i64(a.0 * b.0 + a.1 * b.1)
    &&& fits_i64(a.1 * b.0) && fits_i64(a.0 * b.1) && fits_i64(a.1 * b.0 - a.0 * b.1)
}

/// `a / b`: `a` times the conjugate of `b`, each part divided by `|b|^2`
/// with rounding toward zero.
pub open spec fn complex_div(a: (int, int), b: (int, int)) -> (int, int) {
    let d = b.0 * b.0 + b.1 * b.1;
    (div_toward_zero(a.0 * b.0 + a.1 * b.1, d), div_toward_zero(a.1 * b.0 - a.0 * b.1, d))
}

impl std::ops::Div for Complex<i64> {
    type Output = Self;

    fn div(self, other: Self) -> (r: Self) {
        let denominator = other.re * other.re + other.im * other.im;
        let re = self.re * other.re + self.im * other.im;
        let im = self.im * other.re - self.re * other.im;
        proof {
            assert(denominator > 0) by (nonlinear_arith)
                requires
                    denominator == other.re * other.re + other.im * other.im,
                    denominator != 0,
            ;
        }
        Self::new(re / denominator, im / denominator)
    }
}

impl vstd::std_specs::ops::DivSpecImpl for Complex<i64> {
    open spec fn obeys_div_spec() -> bool {
        true
    }

    open spec fn div_req(self, other: Self) -> bool {
        complex_div_fits(self@, other@)
    }

    open spec fn div_spec(self, other: Self) -> Self {
        Complex { re: complex_div(self@, other@).0 as i64, im: complex_div(self@, other@).1 as i64 }
    }
}

/// Every multiplication of the naive power loop fits in `i64`.
pub open spec fn complex_pow_fits(z: (int, int), power: int) -> bool {
    forall|k: int| 1 <= k < power ==> complex_mul_fits(#[trigger] complex_pow(z, k), z)
}

impl std::ops::BitXor<i32> for Complex<i64> {
    type Output = Self;

    /// `self` multiplied by itself `power` times, one factor at a time;
    /// `self` itself when `power <= 1`.
    fn bitxor(self, power: i32) -> (r: Self) {
        let mut result = self;
        let mut k: i32 = 1;
        while k < power
            invariant
                1 <= k,
                k <= power || k == 1,
                complex_pow_fits(self@, power as int),
                result@ == complex_pow(self@, k as int),
            decreases power - k,
        {
            result = result.product(self);
            k += 1;
        }
        result
    }
}

impl vstd::std_specs::ops::BitXorSpecImpl<i32> for Complex<i64> {
    open spec fn obeys_bitxor_spec() -> bool {
        true
    }

    open spec fn bitxor_req(self, power: i32) -> bool {
        complex_pow_fits(self@, power as int)
    }

    open spec fn bitxor_spec(self, power: i32) -> Self {
        Complex {
            re: complex_pow(self@, power as int).0 as i64,
            im: complex_pow(self@, power as int).1 as i64,
        }
    }
}

} // verus!
