//! The bounds of ranges of bytes, and the facts about std's range types that
//! the rest of the crate reads.

use core::ops::{Bound, RangeBounds, RangeFrom, RangeFull, RangeInclusive, RangeTo, RangeToInclusive};
use vstd::prelude::*;
use vstd::std_specs::range::RangeInclusiveView;

verus! {

#[verifier::external_type_specification]
#[verifier::reject_recursive_types(T)]
pub struct ExBound<T>(Bound<T>);

#[verifier::external_type_specification]
pub struct ExRangeFull(RangeFull);

#[verifier::external_type_specification]
#[verifier::reject_recursive_types(T)]
pub struct ExRangeFrom<T>(RangeFrom<T>);

#[verifier::external_type_specification]
#[verifier::reject_recursive_types(T)]
pub struct ExRangeTo<T>(RangeTo<T>);

#[verifier::external_type_specification]
#[verifier::reject_recursive_types(T)]
pub struct ExRangeToInclusive<T>(RangeToInclusive<T>);

/// The start bound of an inclusive range.
///
/// Calls `RangeBounds::start_bound` of `RangeInclusive`, whose source returns
/// `Included` of the range's start. The contract claims that.
#[verifier::external_body]
pub(crate) fn inclusive_start_bound(r: &RangeInclusive<u8>) -> (b: Bound<&u8>)
    ensures
        b == Bound::Included(&r@.start),
{
    r.start_bound()
}

/// The end bound of an inclusive range.
///
/// Calls `RangeBounds::end_bound` of `RangeInclusive`, whose source returns
/// `Excluded` of the range's end once iteration has exhausted the range, and
/// `Included` of it before. The contract claims that.
#[verifier::external_body]
pub(crate) fn inclusive_end_bound(r: &RangeInclusive<u8>) -> (b: Bound<&u8>)
    ensures
        b == (if r@.exhausted { Bound::Excluded(&r@.end) } else { Bound::Included(&r@.end) }),
{
    r.end_bound()
}

/// The start bound that `RangeBounds::start_bound` gives for an inclusive
/// range of references.
pub uninterp spec fn ref_inclusive_start(r: RangeInclusiveView<&u8>) -> Bound<&u8>;

/// The end bound that `RangeBounds::end_bound` gives for an inclusive range
/// of references.
pub uninterp spec fn ref_inclusive_end(r: RangeInclusiveView<&u8>) -> Bound<&u8>;

/// The start bound of an inclusive range of references.
///
/// Calls `RangeBounds::start_bound` of `RangeInclusive<&u8>`. Its result
/// depends on the range alone, and is named `ref_inclusive_start`; as the
/// documentation shows, it is `Included` of the range's start for a range
/// that iteration has not exhausted. The contract claims both.
#[verifier::external_body]
pub(crate) fn inclusive_ref_start_bound<'a>(r: &'a RangeInclusive<&'a u8>) -> (b: Bound<&'a u8>)
    ensures
        b == ref_inclusive_start(r@),
        !r@.exhausted ==> b == Bound::Included(r@.start),
{
    r.start_bound()
}

/// The end bound of an inclusive range of references.
///
/// Calls `RangeBounds::end_bound` of `RangeInclusive<&u8>`. Its result
/// depends on the range alone, and is named `ref_inclusive_end`; as the
/// documentation shows, it is `Included` of the range's end for a range that
/// iteration has not exhausted. The contract claims both.
#[verifier::external_body]
pub(crate) fn inclusive_ref_end_bound<'a>(r: &'a RangeInclusive<&'a u8>) -> (b: Bound<&'a u8>)
    ensures
        b == ref_inclusive_end(r@),
        !r@.exhausted ==> b == Bound::Included(r@.end),
{
    r.end_bound()
}

/// The bytes that an inclusive range of references stands for.
pub open spec fn ref_inclusive_set(r: RangeInclusive<&u8>) -> Set<u8> {
    bounded_set(copied_bound(ref_inclusive_start(r@)), copied_bound(ref_inclusive_end(r@)))
}

/// The end bound of an inclusive range, by value.
pub open spec fn inclusive_end(r: RangeInclusive<u8>) -> Bound<u8> {
    if r@.exhausted {
        Bound::Excluded(r@.end)
    } else {
        Bound::Included(r@.end)
    }
}

/// The bound that a bound of a reference stands for.
pub open spec fn copied_bound(b: Bound<&u8>) -> Bound<u8> {
    match b {
        Bound::Included(n) => Bound::Included(*n),
        Bound::Excluded(n) => Bound::Excluded(*n),
        Bound::Unbounded => Bound::Unbounded,
    }
}

/// The bytes that lie within both bounds.
pub open spec fn bounded_set(start: Bound<u8>, end: Bound<u8>) -> Set<u8> {
    Set::new(|x: u8| above_start(start, x) && below_end(end, x))
}

/// Whether `x` lies at or after the start bound.
pub open spec fn above_start(start: Bound<u8>, x: u8) -> bool {
    match start {
        Bound::Included(n) => n <= x,
        Bound::Excluded(n) => n < x,
        Bound::Unbounded => true,
    }
}

/// Whether `x` lies at or before the end bound.
pub open spec fn below_end(end: Bound<u8>, x: u8) -> bool {
    match end {
        Bound::Included(n) => x <= n,
        Bound::Excluded(n) => x < n,
        Bound::Unbounded => true,
    }
}

/// The bound by value that a bound of a reference stands for.
pub(crate) fn copy_bound(bound: Bound<&u8>) -> (r: Bound<u8>)
    ensures
        r == copied_bound(bound),
{
    match bound {
        Bound::Included(n) => Bound::Included(*n),
        Bound::Excluded(n) => Bound::Excluded(*n),
        Bound::Unbounded => Bound::Unbounded,
    }
}

} // verus!
