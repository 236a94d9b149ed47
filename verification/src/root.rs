//! The decisions of the bisection that locates a crossing on a segment.
//!
//! The search itself runs on coordinates and samples: it evaluates the field
//! at the two ends of the segment, and then keeps halving a bracket whose
//! ends have samples on opposite sides of zero. What it does next depends
//! only on the signs of the samples and on two comparisons; those decisions
//! are made here.

use crate::field::Sign;
use vstd::prelude::*;

verus! {

/// What the search does once the samples at the two ends are known.
#[derive(Clone, Copy, PartialEq, Eq, Structural, Debug)]
pub enum Opening {
    /// The sample at the first end is zero: the first end is the result.
    First,
    /// The sample at the second end is zero: the second end is the result.
    Second,
    /// Both samples lie on the same side of zero. The segment brackets no
    /// crossing; this is reported, and the midpoint of the segment stands in
    /// for the result.
    SameSide,
    /// The samples lie on opposite sides. The bracket starts as the whole
    /// segment, and its end below zero is the first end or the second.
    Bracket { negative_first: bool },
}

/// What the search does once the sample at the midpoint of the bracket is known.
#[derive(Clone, Copy, PartialEq, Eq, Structural, Debug)]
pub enum Step {
    /// The sample is zero: the midpoint is the result.
    Found,
    /// The midpoint replaces the end of the bracket that lies below zero.
    MoveNegative,
    /// The midpoint replaces the other end of the bracket.
    MovePositive,
}

/// The opening for the signs of the samples at the first and the second end.
pub open spec fn opening(first: Sign, second: Sign) -> Opening {
    if first == Sign::Zero {
        Opening::First
    } else if second == Sign::Zero {
        Opening::Second
    } else if first == second {
        Opening::SameSide
    } else {
        Opening::Bracket { negative_first: first == Sign::Negative }
    }
}

/// The step for the sign of the sample at the midpoint. A sample that is
/// neither below nor at zero moves the end that is not below zero.
pub open spec fn step(mid: Sign) -> Step {
    match mid {
        Sign::Zero => Step::Found,
        Sign::Negative => Step::MoveNegative,
        _ => Step::MovePositive,
    }
}

/// The bracket is halved no further: it is no longer than the precision
/// asked for (`narrow`), or the samples at its ends are so close to each
/// other that halving it again cannot tell them apart (`flat`).
pub open spec fn finished(narrow: bool, flat: bool) -> bool {
    narrow || flat
}

/// Decides how the search starts. A zero at an end ends it at once, whatever
/// the other sample is; otherwise both samples must compare with zero.
pub fn open_bracket(first: Sign, second: Sign) -> (o: Opening)
    requires
        first == Sign::Zero || second == Sign::Zero || (first.ordered() && second.ordered()),
    ensures
        o == opening(first, second),
{
    if first == Sign::Zero {
        Opening::First
    } else if second == Sign::Zero {
        Opening::Second
    } else if first == second {
        Opening::SameSide
    } else {
        Opening::Bracket { negative_first: first == Sign::Negative }
    }
}

/// Decides whether the bracket is final, so that its midpoint is the result.
pub fn bracket_is_final(narrow: bool, flat: bool) -> (done: bool)
    ensures
        done == finished(narrow, flat),
{
    narrow || flat
}

/// Decides what the sample at the midpoint of the bracket does to the bracket.
pub fn bisect(mid: Sign) -> (s: Step)
    ensures
        s == step(mid),
{
    match mid {
        Sign::Zero => Step::Found,
        Sign::Negative => Step::MoveNegative,
        _ => Step::MovePositive,
    }
}

/// The end of the bracket that a step moves had a sample on the same side of
/// zero as the midpoint: a bracket with a sample below zero at one end and
/// above zero at the other keeps that shape, as long as every midpoint
/// compares with zero.
pub proof fn lemma_bracket_keeps_its_signs(low: Sign, high: Sign, mid: Sign)
    requires
        low == Sign::Negative,
        high == Sign::Positive,
        mid.ordered(),
    ensures
        step(mid) == Step::MoveNegative ==> mid == low,
        step(mid) == Step::MovePositive ==> mid == high,
        step(mid) == Step::Found <==> mid == Sign::Zero,
{
}

/// An opening that brackets a crossing has one end below zero and the other
/// above it, and which is which is as the opening says.
pub proof fn lemma_opening_brackets(first: Sign, second: Sign)
    requires
        first.ordered(),
        second.ordered(),
    ensures
        opening(first, second) == (Opening::Bracket { negative_first: true }) <==> first
            == Sign::Negative && second == Sign::Positive,
        opening(first, second) == (Opening::Bracket { negative_first: false }) <==> first
            == Sign::Positive && second == Sign::Negative,
        opening(first, second) == Opening::SameSide <==> first == second && first != Sign::Zero,
{
}

} // verus!
