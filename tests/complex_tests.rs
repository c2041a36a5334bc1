use numbrs::Complex;

#[test]
fn test_complex_macro() {
    let c = Complex::new(1, 2);
    assert_eq!(c, Complex { re: 1, im: 2 });

    let c = Complex::new(2, -4);
    assert_eq!(c, Complex { re: 2, im: -4 });

    let c = Complex::new(2, 3);
    assert_eq!(c, Complex { re: 2, im: 3 });

    let c = Complex::new(1, -1);
    assert_eq!(c, Complex { re: 1, im: -1 });

    let c = Complex::new(12, 0);
    assert_eq!(c, Complex { re: 12, im: 0 });

    let c = Complex::new(0, 12);
    assert_eq!(c, Complex { re: 0, im: 12 });

    let c = Complex::new(0, -12);
    assert_eq!(c, Complex { re: 0, im: -12 });
}

#[test]
fn test_complex_addition() {
    let c = Complex::<i64>::new(1, 2);
    let d = Complex::<i64>::new(3, -5);
    let result = c + d;
    assert_eq!(result, Complex::new(4, -3));
}

#[test]
fn test_complex_subtraction() {
    let c = Complex::<i64>::new(1, 2);
    let d = Complex::<i64>::new(3, -5);
    let result = c - d;
    assert_eq!(result, Complex::new(-2, 7));
}

#[test]
fn test_complex_multiplication() {
    let c = Complex::<i64>::new(2, 3);
    let d = Complex::<i64>::new(4, 1);
    let result = c * d;
    assert_eq!(result, Complex::new(5, 14));

    let result = c * 10;
    assert_eq!(result, Complex::new(20, 30));
}

#[test]
fn test_complex_division() {
    let c = Complex::<i64>::new(3, 2);
    let d = Complex::<i64>::new(2, -3);
    let result = c / d;
    assert_eq!(result, Complex::new(0, 1));
}

#[test]
fn test_complex_operator() {
    let operation = (Complex::<i64>::new(5, -1) - Complex::new(3, -2))
        * (Complex::new(-2, 1) - Complex::new(3, -1) * Complex::new(3, 1));
    assert_eq!(operation, Complex::new(-25, -10));
}

#[test]
fn complex_conjugate_negates_imaginary_part() {
    let c = Complex::<i64>::new(3, -7);
    assert_eq!(c.conjugate(), Complex::new(3, 7));
}

#[test]
fn complex_power_multiplies_repeatedly() {
    let c = Complex::<i64>::new(1, 1);
    assert_eq!(c ^ 2, Complex::new(0, 2));
    assert_eq!(c ^ 4, Complex::new(-4, 0));
    assert_eq!(c ^ 1, c);
    assert_eq!(c ^ 0, c);
}

#[test]
fn complex_division_rounds_toward_zero() {
    let c = Complex::<i64>::new(-7, 3);
    let d = Complex::<i64>::new(2, 0);
    assert_eq!(c / d, Complex::new(-3, 1));
}
