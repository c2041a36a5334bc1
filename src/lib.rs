//! Dense matrices and vectors whose dimensions are fixed in their types, with
//! integer entries: arithmetic, products whose meaning follows the operands'
//! orientation, powers by repeated squaring, and LU decomposition with partial
//! pivoting, each specified against an exact model over unbounded integers.

pub mod algebra;
pub mod complex;
pub mod decomposition;
pub mod geometry;
pub mod laws;
pub mod matrix;
pub mod oriented;
pub mod vector;

pub use complex::Complex;
pub use decomposition::PartialPivLu;
pub use geometry::Axis;
pub use matrix::Matrix;
pub use oriented::{ColumnVector, RowVector};
pub use vector::{Scalar, Vector};
