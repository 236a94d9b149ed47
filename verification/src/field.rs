//! The scalar field as the extraction sees it: one sign per grid point.

use crate::edge::GIndex;
use crate::grid::Point;
use vstd::prelude::*;

verus! {

/// How a sample of the field compares with zero.
///
/// `Unordered` stands for a sample that is neither below, at, nor above zero
/// (a value that is not a number).
#[derive(Clone, Copy, PartialEq, Eq, Structural, Debug)]
pub enum Sign {
    Negative,
    Zero,
    Positive,
    Unordered,
}

impl Sign {
    /// The sample is strictly below zero.
    pub open spec fn below_zero(self) -> bool {
        self == Sign::Negative
    }

    /// The sample is zero or above.
    pub open spec fn at_least_zero(self) -> bool {
        self == Sign::Zero || self == Sign::Positive
    }

    /// The sample compares with zero at all.
    pub open spec fn ordered(self) -> bool {
        self != Sign::Unordered
    }

    pub fn is_below_zero(self) -> (b: bool)
        ensures
            b == self.below_zero(),
    {
        self == Sign::Negative
    }

    pub fn is_at_least_zero(self) -> (b: bool)
        ensures
            b == self.at_least_zero(),
    {
        self == Sign::Zero || self == Sign::Positive
    }
}

/// A source of one field sample per grid point index.
pub trait PointValues {
    /// The indices for which this source holds a sample.
    spec fn has_value(&self, i: GIndex) -> bool;

    /// The sign of the sample at index `i`.
    spec fn sign_at(&self, i: GIndex) -> Sign;

    /// Reads the sample at index `i`.
    fn value(&self, i: GIndex) -> (s: Sign)
        requires
            self.has_value(i),
        ensures
            s == self.sign_at(i),
    ;
}

/// The signs that a source of samples gives, as a function of the index.
pub open spec fn signs_of<PV: PointValues>(point_values: &PV) -> spec_fn(GIndex) -> Sign {
    |i: GIndex| point_values.sign_at(i)
}

/// Samples computed ahead of time, one per grid point.
impl PointValues for Vec<Sign> {
    open spec fn has_value(&self, i: GIndex) -> bool {
        0 <= i < self@.len()
    }

    open spec fn sign_at(&self, i: GIndex) -> Sign {
        self@[i as int]
    }

    fn value(&self, i: GIndex) -> (s: Sign) {
        self[i as usize]
    }
}

/// Samples computed on every call by a function of the grid point.
pub struct OnTheFlyPointValues<'a, F> {
    pub points: &'a Vec<Point>,
    pub function: &'a F,
}

impl<'a, F: Fn(Point) -> Sign> OnTheFlyPointValues<'a, F> {
    /// The function accepts the point `p` and has one answer for it.
    pub open spec fn decides(&self, p: Point) -> bool {
        &&& call_requires(*self.function, (p,))
        &&& forall|s1: Sign, s2: Sign|
            call_ensures(*self.function, (p,), s1) && call_ensures(*self.function, (p,), s2)
                ==> s1 == s2
    }
}

impl<'a, F: Fn(Point) -> Sign> PointValues for OnTheFlyPointValues<'a, F> {
    open spec fn has_value(&self, i: GIndex) -> bool {
        0 <= i < self.points@.len() && self.decides(self.points@[i as int])
    }

    open spec fn sign_at(&self, i: GIndex) -> Sign {
        choose|s: Sign| call_ensures(*self.function, (self.points@[i as int],), s)
    }

    /// Calls the function on the point with index `i`; the sign that comes
    /// back is an answer of the function for that point.
    fn value(&self, i: GIndex) -> (s: Sign)
        ensures
            call_ensures(*self.function, (self.points@[i as int],), s),
    {
        let p: Point = self.points[i as usize];
        let s = (self.function)(p);
        assert(call_ensures(*self.function, (p,), s));
        s
    }
}

} // verus!
