//! Geometric vocabulary shared with the transformation builders.
use vstd::prelude::*;

verus! {

/// A coordinate axis of three-dimensional space.
#[derive(Clone, Copy, Debug, PartialEq, Eq)]
pub enum Axis {
    X,
    Y,
    Z,
}

} // verus!
