use vstd::prelude::*;
use std::ops::RangeInclusive;

verus! {

/// Rounding a value down to a multiple of a step.
pub trait Floorable: Sized {
    /// Whether `step` may be used as a step (it may not be zero).
    spec fn valid_step(step: Self) -> bool;

    /// The largest multiple of `step` that is not above `self`.
    spec fn floored(self, step: Self) -> Self;

    fn floor_to_the_nearest(&mut self, step: Self)
        requires
            Self::valid_step(step),
        ensures
            *final(self) == (*old(self)).floored(step),
    ;

    fn floored_to_the_nearest(self, step: Self) -> (result: Self)
        requires
            Self::valid_step(step),
        ensures
            result == self.floored(step),
    ;
}

impl Floorable for usize {
    open spec fn valid_step(step: usize) -> bool {
        step > 0
    }

    open spec fn floored(self, step: usize) -> usize {
        (self - self % step) as usize
    }

    fn floor_to_the_nearest(&mut self, step: usize) {
        let value = *self;
        assert(value % step <= value) by (nonlinear_arith)
            requires
                step > 0,
        ;
        *self = value - value % step;
    }

    fn floored_to_the_nearest(self, step: usize) -> (result: usize) {
        assert(self % step <= self) by (nonlinear_arith)
            requires
                step > 0,
        ;
        self - (self % step)
    }
}

/// Subtraction that stops at the lowest value instead of wrapping.
pub trait SaturatingSubtract: Sized {
    /// The difference, or the lowest value where it would go below it.
    spec fn saturating_difference(self, other: Self) -> Self;

    fn saturating_subtract(&mut self, other: Self)
        ensures
            *final(self) == (*old(self)).saturating_difference(other),
    ;
}

impl SaturatingSubtract for usize {
    open spec fn saturating_difference(self, other: usize) -> usize {
        if self >= other {
            (self - other) as usize
        } else {
            0
        }
    }

    fn saturating_subtract(&mut self, other: usize) {
        *self = self.saturating_sub(other);
    }
}

/// Whether one range reaches into another.
pub trait IsOverlapping {
    /// Whether an end of `other` lies inside `self`.
    spec fn overlaps(&self, other: &Self) -> bool;

    fn is_overlapping(&self, other: &Self) -> (overlapping: bool)
        ensures
            overlapping == self.overlaps(other),
    ;
}

/// Whether `offset` lies in the inclusive range with view `range`.
pub open spec fn inclusive_range_contains(range: RangeInclusive<usize>, offset: usize) -> bool {
    range@.start <= offset && if range@.exhausted {
        offset < range@.end
    } else {
        offset <= range@.end
    }
}

impl IsOverlapping for RangeInclusive<usize> {
    /// An end of `other` is inside `self`. A range that strictly contains
    /// `self` does not count: only the two ends of `other` are tested.
    open spec fn overlaps(&self, other: &Self) -> bool {
        inclusive_range_contains(*self, other@.start) || inclusive_range_contains(*self, other@.end)
    }

    fn is_overlapping(&self, other: &Self) -> (overlapping: bool) {
        self.contains(range_start(other)) || self.contains(range_end(other))
    }
}

/// `RangeInclusive::start` of std: the lower bound the range was made with.
#[verifier::external_body]
fn range_start(range: &RangeInclusive<usize>) -> (start: &usize)
    ensures
        *start == range@.start,
{
    range.start()
}

/// `RangeInclusive::end` of std: the upper bound the range was made with.
#[verifier::external_body]
fn range_end(range: &RangeInclusive<usize>) -> (end: &usize)
    ensures
        *end == range@.end,
{
    range.end()
}

} // verus!
