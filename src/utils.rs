//! Free-function forms of the matrix operations, taking their operands by value.
use vstd::prelude::*;

use crate::error::NetworkError;
use crate::matrix::{
    entries_addable, entries_multipliable, entries_subtractable, is_difference,
    is_entrywise_product, is_product, is_sum, product_defined, Matrix,
};

verus! {

/// The matrix whose rows are `arr`; see `Matrix::from`.
pub fn from<T: Copy>(arr: Vec<Vec<T>>) -> (r: Result<Matrix<T>, NetworkError>)
    ensures
        match r {
            Ok(m) => {
                &&& arr@.len() > 0
                &&& m.wf()
                &&& m.data@ == arr@
                &&& m.rows == arr@.len()
                &&& m.cols == arr@[0]@.len()
            },
            Err(e) => {
                &&& e == NetworkError::ShapeMismatch
                &&& (arr@.len() == 0 || exists|i: int|
                    0 <= i < arr@.len() && (#[trigger] arr@[i])@.len() != arr@[0]@.len())
            },
        },
{
    Matrix::from(arr)
}

/// The matrix product `a * b`; `ShapeMismatch` unless `a.cols == b.rows`.
pub fn multiply<T: Copy>(a: Matrix<T>, b: &Matrix<T>) -> (r: Result<Matrix<T>, NetworkError>) where
    T: Default + std::ops::Add<Output = T> + std::ops::Mul<Output = T>,
    requires
        a.wf(),
        b.wf(),
        a.cols == b.rows ==> product_defined(a@, b@),
    ensures
        match r {
            Ok(m) => a.cols == b.rows && is_product(a@, b@, m@),
            Err(e) => e == NetworkError::ShapeMismatch && a.cols != b.rows,
        },
{
    a.multiply(b)
}

/// The entrywise sum of `a` and `b`; `ShapeMismatch` when their shapes differ.
pub fn add<T: Copy>(a: Matrix<T>, b: Matrix<T>) -> (r: Result<Matrix<T>, NetworkError>) where
    T: std::ops::Add<Output = T>,
    requires
        a.wf(),
        b.wf(),
        a@.same_shape(b@) ==> entries_addable(a@, b@),
    ensures
        match r {
            Ok(m) => a@.same_shape(b@) && is_sum(a@, b@, m@),
            Err(e) => e == NetworkError::ShapeMismatch && !a@.same_shape(b@),
        },
{
    a.add(&b)
}

/// The entrywise product of `a` and `b`; `ShapeMismatch` when their shapes differ.
pub fn dot_multiply<T: Copy>(a: Matrix<T>, b: Matrix<T>) -> (r: Result<Matrix<T>, NetworkError>) where
    T: std::ops::Mul<Output = T>,
    requires
        a.wf(),
        b.wf(),
        a@.same_shape(b@) ==> entries_multipliable(a@, b@),
    ensures
        match r {
            Ok(m) => a@.same_shape(b@) && is_entrywise_product(a@, b@, m@),
            Err(e) => e == NetworkError::ShapeMismatch && !a@.same_shape(b@),
        },
{
    a.dot_multiply(&b)
}

/// The entrywise difference `a - b`; `ShapeMismatch` when their shapes differ.
pub fn subtract<T: Copy>(a: Matrix<T>, b: Matrix<T>) -> (r: Result<Matrix<T>, NetworkError>) where
    T: std::ops::Sub<Output = T>,
    requires
        a.wf(),
        b.wf(),
        a@.same_shape(b@) ==> entries_subtractable(a@, b@),
    ensures
        match r {
            Ok(m) => a@.same_shape(b@) && is_difference(a@, b@, m@),
            Err(e) => e == NetworkError::ShapeMismatch && !a@.same_shape(b@),
        },
{
    a.subtract(&b)
}

} // verus!
