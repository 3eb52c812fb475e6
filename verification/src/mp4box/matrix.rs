//! The transformation matrix of the movie and track headers.

use vstd::prelude::*;

verus! {

/// A 3 by 3 transformation matrix, row by row, each number in fixed point
/// as it stands in the file.
#[derive(Debug, Clone, Copy, PartialEq, Eq, Default, Structural)]
pub struct Matrix {
    pub a: i32,
    pub b: i32,
    pub u: i32,
    pub c: i32,
    pub d: i32,
    pub v: i32,
    pub x: i32,
    pub y: i32,
    pub w: i32,
}

} // verus!
