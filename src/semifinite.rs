//! Functions from a finite set into an arbitrary type.
use crate::array::VecArray;
use vstd::prelude::*;

verus! {

/// A function from `{0..n}` to values of type `T`, stored as its table.
#[derive(PartialEq, Eq, Clone, Debug)]
pub struct SemifiniteFunction<T>(pub VecArray<T>);

} // verus!
