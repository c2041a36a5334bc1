use numbrs::{ColumnVector, Matrix};

#[test]
fn test_matrix_macro() {
    let float = Matrix::new([[1.0, 2.0, 3.0], [4.0, 5.0, 6.0], [7.0, 8.0, 9.0]]);
    assert_eq!(float, Matrix::new([[1.0, 2.0, 3.0], [4.0, 5.0, 6.0], [7.0, 8.0, 9.0]]));

    let empty = Matrix::<i32, 0, 0>::new([]);
    assert_eq!(empty, Matrix::new([]));

    let int = Matrix::new([[1, 2, 3], [4, 5, 6]]);
    assert_eq!(int, Matrix::new([[1, 2, 3], [4, 5, 6]]));

    let zeros = Matrix::<i64, 4, 4>::zeros();
    assert_eq!(zeros, Matrix::new([[0, 0, 0, 0], [0, 0, 0, 0], [0, 0, 0, 0], [0, 0, 0, 0]]));

    let zeros_float = Matrix::<f64, 4, 4>::filled(0.0);
    assert_eq!(
        zeros_float,
        Matrix::new([
            [0.0, 0.0, 0.0, 0.0],
            [0.0, 0.0, 0.0, 0.0],
            [0.0, 0.0, 0.0, 0.0],
            [0.0, 0.0, 0.0, 0.0],
        ])
    );

    let ones = Matrix::<i64, 3, 3>::ones();
    assert_eq!(ones, Matrix::new([[1, 1, 1], [1, 1, 1], [1, 1, 1]]));

    let ones_float = Matrix::<f64, 3, 3>::filled(1.0);
    assert_eq!(ones_float, Matrix::new([[1.0, 1.0, 1.0], [1.0, 1.0, 1.0], [1.0, 1.0, 1.0]]));

    let filled = Matrix::<f64, 2, 2>::filled(5.0);
    assert_eq!(filled, Matrix::new([[5.0, 5.0], [5.0, 5.0]]));
}

#[test]
fn test_matrix_add() {
    let a = Matrix::<i64, 2, 2>::new([[1, 3], [2, -1]]);
    let b = Matrix::<i64, 2, 2>::new([[2, 1], [0, 1]]);
    let res = a + b;
    assert_eq!(res, Matrix::new([[3, 4], [2, 0]]));
}

#[test]
fn test_matrix_mul() {
    let a = Matrix::<i64, 2, 2>::new([[1, 3], [2, -1]]);
    let res = a * 2;
    assert_eq!(res, Matrix::new([[2, 6], [4, -2]]));

    let b = Matrix::<i64, 2, 2>::new([[2, 1], [0, 1]]);
    let res = b * 3;
    assert_eq!(res, Matrix::new([[6, 3], [0, 3]]));

    let a = Matrix::<i64, 2, 2>::new([[1, 2], [3, 4]]);
    let b = Matrix::<i64, 2, 3>::new([[5, 6, 7], [8, 9, 10]]);
    let c = Matrix::<i64, 3, 2>::new([[1, 0], [0, -1], [2, -1]]);

    let res = a * b;
    assert_eq!(res, Matrix::new([[21, 24, 27], [47, 54, 61]]));

    let res = b * c;
    assert_eq!(res, Matrix::new([[19, -13], [28, -19]]));
}

#[test]
fn test_matrix_identity() {
    let i3 = Matrix::<i64, 3, 3>::identity();
    assert_eq!(i3, Matrix::new([[1, 0, 0], [0, 1, 0], [0, 0, 1]]));

    let i4 = Matrix::<i64, 4, 4>::identity();
    assert_eq!(i4, Matrix::new([[1, 0, 0, 0], [0, 1, 0, 0], [0, 0, 1, 0], [0, 0, 0, 1]]));
}

#[test]
fn test_matrix_power() {
    let a = Matrix::<i64, 2, 2>::new([[2, 1], [-1, 3]]);
    let res = a ^ 2;
    assert_eq!(res, Matrix::new([[3, 5], [-5, 8]]));

    let res = a ^ 4;
    assert_eq!(res, Matrix::new([[-16, 55], [-55, 39]]));

    let i = Matrix::<i64, 2, 2>::identity();
    let res = i ^ 3;
    assert_eq!(res, Matrix::new([[1, 0], [0, 1]]));
}

#[test]
fn test_matrix_transpose() {
    let a = Matrix::<i64, 2, 2>::new([[1, 2], [3, 4]]);
    let b = Matrix::<i64, 2, 3>::new([[-1, 1, 1], [0, 1, 0]]);
    let res = a.transpose();
    assert_eq!(res, Matrix::new([[1, 3], [2, 4]]));

    let res = b.transpose();
    assert_eq!(res, Matrix::new([[-1, 0], [1, 1], [1, 0]]));

    let res = (a * b).transpose();
    assert_eq!(res, Matrix::new([[-1, -3], [3, 7], [1, 3]]));

    let res = b.transpose() * a.transpose();
    assert_eq!(res, Matrix::new([[-1, -3], [3, 7], [1, 3]]));
}

#[test]
fn test_matrix_operators() {
    let a = Matrix::<i64, 2, 2>::new([[1, 3], [2, -1]]);
    let b = Matrix::<i64, 2, 2>::new([[2, 1], [0, 1]]);

    let res = a * 2 - b * 3;
    assert_eq!(res, Matrix::new([[-4, 3], [4, -5]]));

    let a = Matrix::<i64, 2, 2>::new([[1, 2], [3, 4]]);
    let v = ColumnVector::new(Matrix::<i64, 2, 1>::new([[2], [-1]]));
    let res = a * v;
    assert_eq!(res, ColumnVector::new(Matrix::new([[0], [2]])));

    let a = Matrix::<i64, 2, 2>::new([[2, -1], [0, 3]]);
    let b = Matrix::<i64, 2, 2>::new([[-1, 1], [-2, 0]]);

    let res = a + b;
    assert_eq!(res, Matrix::new([[1, 0], [-2, 3]]));

    let res = b * 2 - a * 3;
    assert_eq!(res, Matrix::new([[-8, 5], [-4, -9]]));

    let res = a - b;
    assert_eq!(res, Matrix::new([[3, -2], [2, 3]]));

    let res = (a + b) * 2 - a;
    assert_eq!(res, Matrix::new([[0, 1], [-4, 3]]));

    let c = Matrix::<i64, 2, 3>::new([[1, 2, -1], [1, 0, 1]]);
    let d = Matrix::<i64, 2, 3>::new([[0, -2, 1], [2, 2, 0]]);

    let res = a * b;
    assert_eq!(res, Matrix::new([[0, 2], [-6, 0]]));

    let res = c * d.transpose();
    assert_eq!(res, Matrix::new([[-5, 6], [1, 2]]));

    let res = a * c;
    assert_eq!(res, Matrix::new([[1, 4, -3], [3, 0, 3]]));

    let res = c.transpose() * d;
    assert_eq!(res, Matrix::new([[2, 0, 1], [0, -4, 2], [2, 4, -1]]));

    let res = a ^ 2;
    assert_eq!(res, Matrix::new([[4, -5], [0, 9]]));

    let res = (c.transpose() * d) ^ 2;
    assert_eq!(res, Matrix::new([[6, 4, 1], [4, 24, -10], [2, -20, 11]]));

    let res = b * d;
    assert_eq!(res, Matrix::new([[2, 4, -1], [0, 4, -2]]));

    let res = (c - d).transpose() * (a - b.transpose());
    assert_eq!(res, Matrix::new([[4, -2], [14, -2], [-7, 1]]));

    let res = (a + b) * (c + d);
    assert_eq!(res, Matrix::new([[1, 0, 0], [7, 6, 3]]));

    let res = d.transpose() * (a.transpose() + b).transpose() * c;
    assert_eq!(res, Matrix::new([[8, 4, 4], [12, 0, 12], [-2, 2, -4]]));

    let a = Matrix::<i64, 2, 2>::new([[0, 1], [-1, 0]]);
    let res = a ^ 1000;
    assert_eq!(res, Matrix::new([[1, 0], [0, 1]]));

    let a = Matrix::<i64, 2, 4>::new([[1, 0, 1, 0], [0, 1, 0, 1]]);
    let b = Matrix::<i64, 4, 4>::new([[1, 2, 2, 1], [2, 1, 1, 2], [2, 1, 1, 2], [1, 2, 2, 1]]);
    let res = a * b;
    assert_eq!(res, Matrix::new([[3, 3, 3, 3], [3, 3, 3, 3]]));

    let a = Matrix::<i64, 3, 3>::new([[1, 2, 0], [3, 1, 0], [0, 0, 2]]);
    let b = Matrix::<i64, 3, 4>::new([[-1, 1, 0, 0], [2, 2, 0, 0], [0, 0, 1, 1]]);
    let res = a * b;
    assert_eq!(res, Matrix::new([[3, 5, 0, 0], [-1, 5, 0, 0], [0, 0, 2, 2]]));

    let a = Matrix::<i64, 4, 4>::new([[1, 0, 0, 1], [0, 1, 0, 1], [0, 0, 1, 1], [0, 0, 0, 2]]);
    let b = Matrix::<i64, 4, 3>::new([[1, 2, 3], [2, 3, 4], [3, 4, 5], [1, 2, 3]]);
    let res = a * b;
    assert_eq!(res, Matrix::new([[2, 4, 6], [3, 5, 7], [4, 6, 8], [2, 4, 6]]));

    let a = Matrix::<i64, 7, 7>::new([
        [1, 0, 0, 0, 1, 1, 1],
        [0, 1, 0, 0, 1, 1, 1],
        [0, 0, 1, 0, 1, 1, 1],
        [0, 0, 0, 1, 1, 1, 1],
        [1, 1, 1, 1, 0, 0, 0],
        [1, 1, 1, 1, 0, 0, 0],
        [1, 1, 1, 1, 0, 0, 0],
    ]);
    let res = a ^ 2;
    assert_eq!(
        res,
        Matrix::new([
            [4, 3, 3, 3, 1, 1, 1],
            [3, 4, 3, 3, 1, 1, 1],
            [3, 3, 4, 3, 1, 1, 1],
            [3, 3, 3, 4, 1, 1, 1],
            [1, 1, 1, 1, 4, 4, 4],
            [1, 1, 1, 1, 4, 4, 4],
            [1, 1, 1, 1, 4, 4, 4],
        ])
    );

    let a = Matrix::<i64, 3, 3>::new([[0, 1, 0], [1, 0, 0], [0, 0, 1]]);
    let b = Matrix::<i64, 3, 4>::new([[0, 2, 4, 0], [1, 1, 0, -1], [3, 4, 2, 1]]);
    let res = a * b;
    assert_eq!(res, Matrix::new([[1, 1, 0, -1], [0, 2, 4, 0], [3, 4, 2, 1]]));
}
