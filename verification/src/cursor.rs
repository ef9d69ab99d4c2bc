use vstd::prelude::*;
use std::ops::RangeInclusive;

verus! {

/// A selection: the bytes between `tail` and `head`, both included.
/// `head` is the end that moves; `tail` is the anchor.
#[derive(Clone, Copy, PartialEq, Eq, Structural, Debug)]
pub struct Cursor {
    pub head: usize,
    pub tail: usize,
}

impl Cursor {
    /// The first selected offset.
    pub open spec fn lower(self) -> usize {
        if self.head <= self.tail { self.head } else { self.tail }
    }

    /// The last selected offset.
    pub open spec fn upper(self) -> usize {
        if self.head <= self.tail { self.tail } else { self.head }
    }

    /// Whether `offset` is selected.
    pub open spec fn covers(self, offset: int) -> bool {
        self.lower() <= offset <= self.upper()
    }

    /// Whether the head is at the upper end.
    pub open spec fn is_forward(self) -> bool {
        self.head >= self.tail
    }

    /// A selection of the single byte at `offset`.
    pub open spec fn at_spec(offset: usize) -> Cursor {
        Cursor { head: offset, tail: offset }
    }

    /// A selection of the single byte at `offset`.
    pub fn at(offset: usize) -> (cursor: Cursor)
        ensures
            cursor == Cursor::at_spec(offset),
    {
        Cursor { head: offset, tail: offset }
    }

    pub fn lower_bound(&self) -> (bound: usize)
        ensures
            bound == self.lower(),
    {
        if self.head <= self.tail { self.head } else { self.tail }
    }

    pub fn upper_bound(&self) -> (bound: usize)
        ensures
            bound == self.upper(),
    {
        if self.head <= self.tail { self.tail } else { self.head }
    }

    /// The number of selected bytes.
    pub fn len(&self) -> (length: usize)
        requires
            self.upper() - self.lower() + 1 <= usize::MAX,
        ensures
            length == self.upper() - self.lower() + 1,
    {
        self.upper_bound() - self.lower_bound() + 1
    }

    /// Whether the selection's ends both lie in `0..=max`.
    pub open spec fn within(self, max: usize) -> bool {
        self.head <= max && self.tail <= max
    }

    /// The selected offsets as an inclusive range.
    pub fn range(&self) -> (range: RangeInclusive<usize>)
        ensures
            range@.start == self.lower(),
            range@.end == self.upper(),
            range@.exhausted == false,
    {
        RangeInclusive::new(self.lower_bound(), self.upper_bound())
    }

    /// Shrinks the selection to its head.
    pub fn collapse(&mut self)
        ensures
            final(self).head == old(self).head,
            final(self).tail == old(self).head,
    {
        self.tail = self.head;
    }

    /// Swaps head and tail.
    pub fn flip(&mut self)
        ensures
            final(self).head == old(self).tail,
            final(self).tail == old(self).head,
    {
        let head = self.head;
        self.head = self.tail;
        self.tail = head;
    }

    /// Clamps both ends into `min..=max`.
    pub fn clamp(&mut self, min: usize, max: usize)
        requires
            min <= max,
        ensures
            final(self).head == clamp_to(old(self).head, min, max),
            final(self).tail == clamp_to(old(self).tail, min, max),
    {
        self.head = clamp_value(self.head, min, max);
        self.tail = clamp_value(self.tail, min, max);
    }

    /// Grows the selection to cover `other` too, keeping its direction: the
    /// result spans from the lowest to the highest offset of the two.
    pub fn combine_with(&mut self, other: Cursor)
        ensures
            final(self).lower() == min_of(old(self).lower(), other.lower()),
            final(self).upper() == max_of(old(self).upper(), other.upper()),
            final(self).is_forward() == old(self).is_forward(),
            old(self).is_forward() ==> final(self).head == final(self).upper(),
            !old(self).is_forward() ==> final(self).head == final(self).lower(),
            *final(self) == combined(*old(self), other),
    {
        let lower = if self.lower_bound() <= other.lower_bound() {
            self.lower_bound()
        } else {
            other.lower_bound()
        };
        let upper = if self.upper_bound() >= other.upper_bound() {
            self.upper_bound()
        } else {
            other.upper_bound()
        };
        if self.head >= self.tail {
            self.head = upper;
            self.tail = lower;
        } else {
            self.head = lower;
            self.tail = upper;
        }
    }
}

/// Whether an end of `b` lies inside `a` (the test that decides whether two
/// selections are merged).
pub open spec fn ranges_overlap(a: Cursor, b: Cursor) -> bool {
    (a.lower() <= b.lower() && b.lower() <= a.upper()) || (a.lower() <= b.upper() && b.upper()
        <= a.upper())
}

/// `a` grown to cover `b` as well, keeping the direction of `a`.
pub open spec fn combined(a: Cursor, b: Cursor) -> Cursor {
    let lower = min_of(a.lower(), b.lower());
    let upper = max_of(a.upper(), b.upper());
    if a.is_forward() {
        Cursor { head: upper, tail: lower }
    } else {
        Cursor { head: lower, tail: upper }
    }
}

/// Two overlapping selections together cover exactly what their combination
/// covers.
pub proof fn lemma_combined_covers_union(a: Cursor, b: Cursor, offset: int)
    requires
        ranges_overlap(a, b),
    ensures
        combined(a, b).covers(offset) <==> (a.covers(offset) || b.covers(offset)),
{
}

/// Combining two selections that lie in `0..=max` gives one that does too.
pub proof fn lemma_combined_within(a: Cursor, b: Cursor, max: usize)
    requires
        a.within(max),
        b.within(max),
    ensures
        combined(a, b).within(max),
{
}

pub open spec fn min_of(a: usize, b: usize) -> usize {
    if a <= b { a } else { b }
}

pub open spec fn max_of(a: usize, b: usize) -> usize {
    if a >= b { a } else { b }
}

/// `value` moved into `min..=max`.
pub open spec fn clamp_to(value: usize, min: usize, max: usize) -> usize {
    if value < min { min } else if value > max { max } else { value }
}

/// `value` moved into `min..=max`.
pub fn clamp_value(value: usize, min: usize, max: usize) -> (clamped: usize)
    requires
        min <= max,
    ensures
        clamped == clamp_to(value, min, max),
{
    if value < min { min } else if value > max { max } else { value }
}

} // verus!
