#![allow(unused_imports)]
use vstd::prelude::*;

pub mod context;
pub mod geometry;
pub mod images;
pub mod seqs;
pub mod style;
pub mod wrap;

verus! {

/// A length in document units: fixed-point millimeters, stored as an
/// integer count of thousandths of a millimeter.
///
/// The layout engine works entirely in this integer domain so that the
/// line breaker's cost comparisons are exact and free of rounding drift.
#[derive(Clone, Copy, PartialEq, Eq, Structural, Debug)]
pub struct Mm {
    pub thousandths: i64,
}

impl Mm {
    pub fn new(thousandths: i64) -> (r: Mm)
        ensures
            r.thousandths == thousandths,
    {
        Mm { thousandths }
    }
}

/// Converts a length to the non-negative layout-unit domain used by the
/// line breaker; a negative length clamps to zero.
pub fn get_width(width: Mm) -> (r: u64)
    ensures
        width.thousandths >= 0 ==> r == width.thousandths,
        width.thousandths < 0 ==> r == 0,
{
    if width.thousandths >= 0 {
        width.thousandths as u64
    } else {
        0
    }
}

} // verus!
