//! [`ByteTable`].

use core::array::TryFromSliceError;
use core::ops::{
    Bound, Deref, DerefMut, Index, IndexMut, Range, RangeFrom, RangeFull, RangeInclusive, RangeTo,
    RangeToInclusive,
};
use vstd::prelude::*;
use vstd::slice::slice_subrange;
use vstd::std_specs::iter::IteratorSpec;
use vstd::std_specs::cmp::PartialEqSpec;
use crate::bounds::{inclusive_end_bound, inclusive_start_bound};

pub use core::slice::{Iter, IterMut};

verus! {

/// A lookup table where every `u8` (`0..=255`) is associated with a value.
/// It is backed by a `[T; 256]`, so an index of type `u8` is always in bounds.
#[derive(Copy, Clone, Debug, PartialEq, Eq, PartialOrd, Ord, Hash)]
pub struct ByteTable<T> {
    table: [T; 256],
}

impl<T> View for ByteTable<T> {
    type V = Seq<T>;

    closed spec fn view(&self) -> Seq<T> {
        self.table@
    }
}

/// A table holds exactly 256 values.
pub broadcast proof fn lemma_table_len<T>(t: ByteTable<T>)
    ensures
        #[trigger] t@.len() == 256,
{
}

/// Once a table of mutable references is resolved (for instance when it is
/// dropped), so is each of its references: what each one holds in the end is
/// what it holds now.
pub proof fn lemma_resolved_entries<T>(t: ByteTable<&mut T>)
    requires
        has_resolved(t),
    ensures
        forall|i: int| 0 <= i < 256 ==> has_resolved(#[trigger] t@[i]),
{
    assert(has_resolved(t.table));
    assert forall|i: int| 0 <= i < 256 implies has_resolved(#[trigger] t@[i]) by {
        vstd::array::axiom_array_has_resolved(t.table, i);
    }
}

/// Builds an array of 256 values by calling `f` on each index in ascending
/// order.
///
/// Calls `core::array::from_fn`, which, as its documentation says, returns
/// the array whose element `i` is what `f` returned for `i`, calling `f` once
/// for each index in order. The contract claims that every element is a
/// value `f` may return on its index.
#[verifier::external_body]
fn array_from_fn<T, F: Fn(usize) -> T>(f: F) -> (r: [T; 256])
    requires
        forall|i: usize| i < 256 ==> call_requires(f, (i,)),
    ensures
        forall|i: usize| i < 256 ==> call_ensures(f, (i,), #[trigger] r@[i as int]),
{
    core::array::from_fn(f)
}

/// Applies `f` to every element of an array of 256 values, in order.
///
/// Calls `<[T; 256]>::map`, which, as its documentation says, returns the
/// array whose element `i` is `f` applied to element `i` of `a`. The contract
/// claims that every element of the result is a value `f` may return on the
/// element of `a` at the same index.
#[verifier::external_body]
fn array_map<T, U, F: FnMut(T) -> U>(a: [T; 256], f: F) -> (r: [U; 256])
    requires
        forall|i: int| 0 <= i < 256 ==> call_requires(f, (a@[i],)),
    ensures
        forall|i: int| 0 <= i < 256 ==> call_ensures(f, (a@[i],), #[trigger] r@[i]),
{
    a.map(f)
}

/// The iterator that moves the values out of an array of 256 values.
#[verifier::external_type_specification]
#[verifier::external_body]
#[verifier::reject_recursive_types(T)]
pub struct ExArrayIntoIter<T, const N: usize>(core::array::IntoIter<T, N>);

/// The iterator over mutable references to the values of a slice.
#[verifier::external_type_specification]
#[verifier::external_body]
#[verifier::reject_recursive_types(T)]
pub struct ExIterMut<'a, T: 'a>(IterMut<'a, T>);

/// An iterator that moves the values out of a table, in index order.
pub type IntoIter<T> = core::array::IntoIter<T, 256>;

/// Turns an array of 256 values into the iterator that moves them out.
///
/// Calls `<[T; 256] as IntoIterator>::into_iter`, which, as its documentation
/// says, yields the array's values by value, in index order, and then ends.
/// The contract claims that: the iterator keeps to the laws of iteration, and
/// what it will yield is the array's values in order.
#[verifier::external_body]
fn array_into_iter<T>(a: [T; 256]) -> (r: IntoIter<T>)
    ensures
        r.obeys_prophetic_iter_laws(),
        r.will_return_none(),
        r.remaining() == a@,
{
    a.into_iter()
}

/// The iterator over mutable references to the values of a slice.
///
/// Calls `<[T]>::iter_mut`, which, as its documentation says, yields a
/// mutable reference to each value of the slice, in index order, and then
/// ends. The contract claims that: the iterator keeps to the laws of
/// iteration; reference `k` starts out holding value `k`; and what value `k`
/// holds in the end is what reference `k` holds in the end.
#[verifier::external_body]
fn slice_iter_mut<T>(s: &mut [T]) -> (r: IterMut<'_, T>)
    ensures
        r.obeys_prophetic_iter_laws(),
        r.will_return_none(),
        r.remaining().len() == old(s)@.len(),
        forall|k: int| 0 <= k < old(s)@.len() ==> *#[trigger] r.remaining()[k] == old(s)@[k],
        final(s)@.len() == old(s)@.len(),
        forall|k: int| 0 <= k < old(s)@.len() ==> final(s)@[k] == *final(#[trigger] r.remaining()[k]),
{
    s.iter_mut()
}

/// The error std returns when a slice does not have the length of the array
/// it is converted to.
#[verifier::external_type_specification]
#[verifier::external_body]
pub struct ExTryFromSliceError(TryFromSliceError);

/// Copies a slice of exactly 256 values into an array.
///
/// Calls `<[T; 256] as TryFrom<&[T]>>::try_from`, which, as its documentation
/// says, copies the slice into a new array when its length is 256 and fails
/// otherwise. The contract claims exactly that; it says nothing of the error
/// value.
#[verifier::external_body]
fn array_from_slice<T: Copy>(s: &[T]) -> (r: Result<[T; 256], TryFromSliceError>)
    ensures
        r is Ok <==> s@.len() == 256,
        r matches Ok(a) ==> a@ == s@,
{
    <[T; 256]>::try_from(s)
}

/// Borrows every element of an array of 256 values.
///
/// Calls `<[T; 256]>::each_ref`, which, as its documentation says, returns
/// the array of references to the elements of `a`, in order. The contract
/// claims that reference `i` points to element `i`.
#[verifier::external_body]
fn array_each_ref<T>(a: &[T; 256]) -> (r: [&T; 256])
    ensures
        forall|i: int| 0 <= i < 256 ==> *#[trigger] r@[i] == a@[i],
{
    a.each_ref()
}

/// Borrows every element of an array of 256 values mutably.
///
/// Calls `<[T; 256]>::each_mut`, which, as its documentation says, returns
/// the array of mutable references to the elements of `a`, in order. The
/// contract claims that reference `i` points to element `i`: it starts out
/// holding that element, and what it holds in the end is what element `i`
/// holds in the end.
#[verifier::external_body]
fn array_each_mut<T>(a: &mut [T; 256]) -> (r: [&mut T; 256])
    ensures
        forall|i: int| 0 <= i < 256 ==> *#[trigger] r@[i] == old(a)@[i],
        forall|i: int| 0 <= i < 256 ==> final(a)@[i] == *final(#[trigger] r@[i]),
{
    a.each_mut()
}

/// The byte that an index below 256 stands for.
spec fn low_byte(i: usize) -> u8 {
    i as u8
}

/// The first array index that an inclusive range of bytes covers.
pub open spec fn inclusive_start_index(range: RangeInclusive<u8>) -> int {
    if range@.exhausted {
        range@.end + 1
    } else {
        range@.start as int
    }
}

/// The first array index within a start bound.
pub open spec fn bound_start_index(b: Bound<u8>) -> int {
    match b {
        Bound::Included(n) => n as int,
        Bound::Excluded(n) => n + 1,
        Bound::Unbounded => 0,
    }
}

/// One past the last array index within an end bound.
pub open spec fn bound_end_index(b: Bound<u8>) -> int {
    match b {
        Bound::Included(n) => n + 1,
        Bound::Excluded(n) => n as int,
        Bound::Unbounded => 256,
    }
}

/// The array indices of a range of bytes.
fn convert_range(range: Range<u8>) -> (r: Range<usize>)
    ensures
        r.start == range.start,
        r.end == range.end,
{
    (range.start as usize)..(range.end as usize)
}

/// The array indices of a range of bytes with no upper bound.
fn convert_range_from(range: RangeFrom<u8>) -> (r: Range<usize>)
    ensures
        r.start == range.start,
        r.end == 256,
{
    (range.start as usize)..256
}

/// The array indices of a range of bytes with no lower bound.
fn convert_range_to(range: RangeTo<u8>) -> (r: Range<usize>)
    ensures
        r.start == 0,
        r.end == range.end,
{
    0..(range.end as usize)
}

/// The array indices of an inclusive range of bytes with no lower bound.
fn convert_range_to_inclusive(range: RangeToInclusive<u8>) -> (r: Range<usize>)
    ensures
        r.start == 0,
        r.end == range.end + 1,
{
    0..(range.end as usize + 1)
}

/// The array indices of an inclusive range of bytes; the empty range just
/// past its end once iteration has exhausted it.
fn convert_range_inclusive(range: RangeInclusive<u8>) -> (r: Range<usize>)
    ensures
        r.start == inclusive_start_index(range),
        r.end == range@.end + 1,
{
    let start = match inclusive_start_bound(&range) {
        Bound::Included(n) => *n,
        Bound::Excluded(n) => *n,
        Bound::Unbounded => 0,
    };
    let (end, exhausted) = match inclusive_end_bound(&range) {
        Bound::Included(n) => (*n, false),
        Bound::Excluded(n) => (*n, true),
        Bound::Unbounded => (255, false),
    };
    let exclusive_end = end as usize + 1;
    let start = if exhausted { exclusive_end } else { start as usize };
    start..exclusive_end
}

/// The array indices of the bytes within a pair of bounds.
fn convert_bounds(bounds: (Bound<u8>, Bound<u8>)) -> (r: Range<usize>)
    ensures
        r.start == bound_start_index(bounds.0),
        r.end == bound_end_index(bounds.1),
{
    let start = match bounds.0 {
        Bound::Included(n) => n as usize,
        Bound::Excluded(n) => n as usize + 1,
        Bound::Unbounded => 0,
    };
    let end = match bounds.1 {
        Bound::Included(n) => n as usize + 1,
        Bound::Excluded(n) => n as usize,
        Bound::Unbounded => 256,
    };
    start..end
}

/// The table whose contents are `a`.
pub closed spec fn table_of<T>(a: [T; 256]) -> ByteTable<T> {
    ByteTable { table: a }
}

/// The array that holds the table.
pub closed spec fn array_of<T>(t: ByteTable<T>) -> [T; 256] {
    t.table
}

impl<T> ByteTable<T> {
    /// Creates a `ByteTable` with the given array as its contents.
    pub fn new(table: [T; 256]) -> (r: Self)
        ensures
            r@ == table@,
    {
        ByteTable { table }
    }

    /// Deconstructs the `ByteTable` into its array.
    pub fn into_array(self) -> (r: [T; 256])
        ensures
            r@ == self@,
    {
        self.table
    }

    /// Creates a `ByteTable` whose value for every `u8` is what `generator`
    /// returns for it; `generator` is called for `0`, `1`, ... `255` in turn.
    pub fn generate<F: Fn(u8) -> T>(generator: F) -> (r: Self)
        requires
            forall|i: u8| call_requires(generator, (i,)),
        ensures
            r@.len() == 256,
            forall|i: u8| call_ensures(generator, (i,), #[trigger] r@[i as int]),
    {
        let g = &generator;
        let at_index = move |i: usize| -> (t: T)
            requires
                i < 256,
            ensures
                call_ensures(*g, (low_byte(i),), t),
            {
                let b = i as u8;
                g(b)
            };
        let table = array_from_fn(at_index);
        let r = ByteTable { table };
        proof {
            assert forall|i: u8| call_ensures(generator, (i,), #[trigger] r@[i as int]) by {
                assert(r@[i as int] == table@[(i as usize) as int]);
            }
        }
        r
    }

    /// Like [`ByteTable::generate`], but places the table on the heap.
    pub fn generate_boxed<F: Fn(u8) -> T>(generator: F) -> (r: Box<Self>)
        requires
            forall|i: u8| call_requires(generator, (i,)),
        ensures
            r@.len() == 256,
            forall|i: u8| call_ensures(generator, (i,), #[trigger] r@[i as int]),
    {
        Box::new(Self::generate(generator))
    }

    /// Returns a reference to the value for `i`.
    pub fn get(&self, i: u8) -> (r: &T)
        ensures
            *r == self@[i as int],
    {
        &self.table[i as usize]
    }

    /// Returns a mutable reference to the value for `i`.
    pub fn get_mut(&mut self, i: u8) -> (r: &mut T)
        ensures
            *r == old(self)@[i as int],
            final(self)@ == old(self)@.update(i as int, *final(r)),
    {
        &mut self.table[i as usize]
    }

    /// Returns the table with `f` applied to each value, in order.
    pub fn map<U, F: FnMut(T) -> U>(self, f: F) -> (r: ByteTable<U>)
        requires
            forall|i: int| 0 <= i < 256 ==> call_requires(f, (self@[i],)),
        ensures
            r@.len() == 256,
            forall|i: int| 0 <= i < 256 ==> call_ensures(f, (self@[i],), #[trigger] r@[i]),
    {
        proof {
            assert forall|i: int| 0 <= i < 256 implies call_requires(f, (self.table@[i],)) by {
                assert(self@[i] == self.table@[i]);
            }
        }
        let r = ByteTable { table: array_map(self.table, f) };
        proof {
            assert forall|i: int| 0 <= i < 256 implies call_ensures(f, (self@[i],), #[trigger] r@[i]) by {
                assert(r@[i] == r.table@[i]);
            }
        }
        r
    }

    /// Borrows each value and returns a table of the references.
    pub fn each_ref(&self) -> (r: ByteTable<&T>)
        ensures
            r@.len() == 256,
            forall|i: int| 0 <= i < 256 ==> *#[trigger] r@[i] == self@[i],
    {
        ByteTable { table: array_each_ref(&self.table) }
    }

    /// Borrows each value mutably and returns a table of the references.
    pub fn each_mut(&mut self) -> (r: ByteTable<&mut T>)
        ensures
            r@.len() == 256,
            forall|i: int| 0 <= i < 256 ==> *#[trigger] r@[i] == old(self)@[i],
            forall|i: int| 0 <= i < 256 ==> final(self)@[i] == *final(#[trigger] r@[i]),
    {
        ByteTable { table: array_each_mut(&mut self.table) }
    }

    /// Returns a slice holding the entire table.
    pub fn as_slice(&self) -> (r: &[T])
        ensures
            r@ == self@,
    {
        self.table.as_slice()
    }

    /// Returns a mutable slice holding the entire table.
    pub fn as_mut_slice(&mut self) -> (r: &mut [T])
        ensures
            r@ == old(self)@,
            final(r)@ == final(self)@,
    {
        &mut self.table
    }

    /// The values for the indices `r.start .. r.end`.
    fn slice_range(&self, r: Range<usize>) -> (out: &[T])
        requires
            r.start <= r.end <= 256,
        ensures
            out@ == self@.subrange(r.start as int, r.end as int),
    {
        slice_subrange(self.table.as_slice(), r.start, r.end)
    }

    /// The values for the indices `r.start .. r.end`, mutably.
    fn slice_range_mut(&mut self, r: Range<usize>) -> (out: &mut [T])
        requires
            r.start <= r.end <= 256,
        ensures
            out@ == old(self)@.subrange(r.start as int, r.end as int),
            final(self)@ == old(self)@.subrange(0, r.start as int) + final(out)@
                + old(self)@.subrange(r.end as int, 256),
    {
        let all: &mut [T] = &mut self.table;
        let (low, _high) = all.split_at_mut(r.end);
        let (_below, mid) = low.split_at_mut(r.start);
        proof {
            assert(old(self)@.subrange(0, r.end as int).subrange(r.start as int, r.end as int)
                =~= old(self)@.subrange(r.start as int, r.end as int));
        }
        mid
    }

    /// Returns a reference to the array that holds the table.
    pub fn as_array(&self) -> (r: &[T; 256])
        ensures
            r@ == self@,
    {
        &self.table
    }

    /// Returns a mutable reference to the array that holds the table.
    pub fn as_array_mut(&mut self) -> (r: &mut [T; 256])
        ensures
            r@ == old(self)@,
            final(r)@ == final(self)@,
    {
        &mut self.table
    }
}

impl<T> Index<u8> for ByteTable<T> {
    type Output = T;

    /// The value for `index`.
    fn index(&self, index: u8) -> (r: &T)
        ensures
            *r == self@[index as int],
    {
        self.get(index)
    }
}

impl<T> vstd::std_specs::core::IndexSpecImpl<u8> for ByteTable<T> {
    open spec fn index_req(&self, index: &u8) -> bool {
        true
    }
}

impl<T> IndexMut<u8> for ByteTable<T> {
    /// The value for `index`, mutably.
    fn index_mut(&mut self, index: u8) -> (r: &mut T)
        ensures
            *r == old(self)@[index as int],
            final(self)@ == old(self)@.update(index as int, *final(r)),
    {
        self.get_mut(index)
    }
}

impl<T> Index<RangeFull> for ByteTable<T> {
    type Output = [T];

    /// A slice of the whole table.
    fn index(&self, index: RangeFull) -> (r: &[T])
        ensures
            r@ == self@,
    {
        self.as_slice()
    }
}

impl<T> vstd::std_specs::core::IndexSpecImpl<RangeFull> for ByteTable<T> {
    open spec fn index_req(&self, index: &RangeFull) -> bool {
        true
    }
}

impl<T> IndexMut<RangeFull> for ByteTable<T> {
    /// A mutable slice of the whole table.
    fn index_mut(&mut self, index: RangeFull) -> (r: &mut [T])
        ensures
            r@ == old(self)@,
            final(self)@ == final(r)@,
    {
        self.as_mut_slice()
    }
}

impl<T> Index<Range<u8>> for ByteTable<T> {
    type Output = [T];

    /// A slice of the values for `index.start .. index.end`.
    fn index(&self, index: Range<u8>) -> (r: &[T])
        ensures
            r@ == self@.subrange(index.start as int, index.end as int),
    {
        self.slice_range(convert_range(index))
    }
}

impl<T> vstd::std_specs::core::IndexSpecImpl<Range<u8>> for ByteTable<T> {
    open spec fn index_req(&self, index: &Range<u8>) -> bool {
        (*index).start <= (*index).end
    }
}

impl<T> IndexMut<Range<u8>> for ByteTable<T> {
    /// A mutable slice of the values for `index.start .. index.end`.
    fn index_mut(&mut self, index: Range<u8>) -> (r: &mut [T])
        requires
            index.start <= index.end,
        ensures
            r@ == old(self)@.subrange(index.start as int, index.end as int),
            final(self)@ == old(self)@.subrange(0, index.start as int) + final(r)@ + old(self)@.subrange(index.end as int, 256),
    {
        self.slice_range_mut(convert_range(index))
    }
}

impl<T> Index<RangeFrom<u8>> for ByteTable<T> {
    type Output = [T];

    /// A slice of the values from `index.start` on.
    fn index(&self, index: RangeFrom<u8>) -> (r: &[T])
        ensures
            r@ == self@.subrange(index.start as int, 256),
    {
        self.slice_range(convert_range_from(index))
    }
}

impl<T> vstd::std_specs::core::IndexSpecImpl<RangeFrom<u8>> for ByteTable<T> {
    open spec fn index_req(&self, index: &RangeFrom<u8>) -> bool {
        true
    }
}

impl<T> IndexMut<RangeFrom<u8>> for ByteTable<T> {
    /// A mutable slice of the values from `index.start` on.
    fn index_mut(&mut self, index: RangeFrom<u8>) -> (r: &mut [T])
        ensures
            r@ == old(self)@.subrange(index.start as int, 256),
            final(self)@ == old(self)@.subrange(0, index.start as int) + final(r)@ + old(self)@.subrange(256, 256),
    {
        self.slice_range_mut(convert_range_from(index))
    }
}

impl<T> Index<RangeTo<u8>> for ByteTable<T> {
    type Output = [T];

    /// A slice of the values below `index.end`.
    fn index(&self, index: RangeTo<u8>) -> (r: &[T])
        ensures
            r@ == self@.subrange(0, index.end as int),
    {
        self.slice_range(convert_range_to(index))
    }
}

impl<T> vstd::std_specs::core::IndexSpecImpl<RangeTo<u8>> for ByteTable<T> {
    open spec fn index_req(&self, index: &RangeTo<u8>) -> bool {
        true
    }
}

impl<T> IndexMut<RangeTo<u8>> for ByteTable<T> {
    /// A mutable slice of the values below `index.end`.
    fn index_mut(&mut self, index: RangeTo<u8>) -> (r: &mut [T])
        ensures
            r@ == old(self)@.subrange(0, index.end as int),
            final(self)@ == old(self)@.subrange(0, 0) + final(r)@ + old(self)@.subrange(index.end as int, 256),
    {
        self.slice_range_mut(convert_range_to(index))
    }
}

impl<T> Index<RangeToInclusive<u8>> for ByteTable<T> {
    type Output = [T];

    /// A slice of the values up to `index.end` inclusive.
    fn index(&self, index: RangeToInclusive<u8>) -> (r: &[T])
        ensures
            r@ == self@.subrange(0, index.end + 1),
    {
        self.slice_range(convert_range_to_inclusive(index))
    }
}

impl<T> vstd::std_specs::core::IndexSpecImpl<RangeToInclusive<u8>> for ByteTable<T> {
    open spec fn index_req(&self, index: &RangeToInclusive<u8>) -> bool {
        true
    }
}

impl<T> IndexMut<RangeToInclusive<u8>> for ByteTable<T> {
    /// A mutable slice of the values up to `index.end` inclusive.
    fn index_mut(&mut self, index: RangeToInclusive<u8>) -> (r: &mut [T])
        ensures
            r@ == old(self)@.subrange(0, index.end + 1),
            final(self)@ == old(self)@.subrange(0, 0) + final(r)@ + old(self)@.subrange(index.end + 1, 256),
    {
        self.slice_range_mut(convert_range_to_inclusive(index))
    }
}

impl<T> Index<RangeInclusive<u8>> for ByteTable<T> {
    type Output = [T];

    /// A slice of the values the inclusive range covers.
    fn index(&self, index: RangeInclusive<u8>) -> (r: &[T])
        ensures
            r@ == self@.subrange(inclusive_start_index(index), index@.end + 1),
    {
        self.slice_range(convert_range_inclusive(index))
    }
}

impl<T> vstd::std_specs::core::IndexSpecImpl<RangeInclusive<u8>> for ByteTable<T> {
    open spec fn index_req(&self, index: &RangeInclusive<u8>) -> bool {
        (*index)@.exhausted || (*index)@.start <= (*index)@.end + 1
    }
}

impl<T> IndexMut<RangeInclusive<u8>> for ByteTable<T> {
    /// A mutable slice of the values the inclusive range covers.
    fn index_mut(&mut self, index: RangeInclusive<u8>) -> (r: &mut [T])
        requires
            index@.exhausted || index@.start <= index@.end + 1,
        ensures
            r@ == old(self)@.subrange(inclusive_start_index(index), index@.end + 1),
            final(self)@ == old(self)@.subrange(0, inclusive_start_index(index)) + final(r)@ + old(self)@.subrange(index@.end + 1, 256),
    {
        self.slice_range_mut(convert_range_inclusive(index))
    }
}

impl<T> Index<(Bound<u8>, Bound<u8>)> for ByteTable<T> {
    type Output = [T];

    /// A slice of the values within the bounds.
    fn index(&self, index: (Bound<u8>, Bound<u8>)) -> (r: &[T])
        ensures
            r@ == self@.subrange(bound_start_index(index.0), bound_end_index(index.1)),
    {
        self.slice_range(convert_bounds(index))
    }
}

impl<T> vstd::std_specs::core::IndexSpecImpl<(Bound<u8>, Bound<u8>)> for ByteTable<T> {
    open spec fn index_req(&self, index: &(Bound<u8>, Bound<u8>)) -> bool {
        bound_start_index((*index).0) <= bound_end_index((*index).1)
    }
}

impl<T> IndexMut<(Bound<u8>, Bound<u8>)> for ByteTable<T> {
    /// A mutable slice of the values within the bounds.
    fn index_mut(&mut self, index: (Bound<u8>, Bound<u8>)) -> (r: &mut [T])
        requires
            bound_start_index(index.0) <= bound_end_index(index.1),
        ensures
            r@ == old(self)@.subrange(bound_start_index(index.0), bound_end_index(index.1)),
            final(self)@ == old(self)@.subrange(0, bound_start_index(index.0)) + final(r)@ + old(self)@.subrange(bound_end_index(index.1), 256),
    {
        self.slice_range_mut(convert_bounds(index))
    }
}

impl<T> Deref for ByteTable<T> {
    type Target = [T];

    /// The whole table as a slice.
    fn deref(&self) -> (r: &[T])
        ensures
            r@ == self@,
    {
        self.as_slice()
    }
}

impl<T> DerefMut for ByteTable<T> {
    /// The whole table as a mutable slice.
    fn deref_mut(&mut self) -> (r: &mut [T])
        ensures
            r@ == old(self)@,
            final(self)@ == final(r)@,
    {
        self.as_mut_slice()
    }
}

impl<T> AsRef<[T]> for ByteTable<T> {
    /// The whole table as a slice.
    fn as_ref(&self) -> (r: &[T])
        ensures
            r@ == self@,
    {
        self.as_slice()
    }
}

impl<T> AsMut<[T]> for ByteTable<T> {
    /// The whole table as a mutable slice.
    fn as_mut(&mut self) -> (r: &mut [T])
        ensures
            r@ == old(self)@,
            final(self)@ == final(r)@,
    {
        self.as_mut_slice()
    }
}

impl<T> core::borrow::Borrow<[T]> for ByteTable<T> {
    /// The whole table as a slice.
    fn borrow(&self) -> (r: &[T])
        ensures
            <[T] as View>::view(r) == self@,
    {
        self.as_slice()
    }
}

impl<T> core::borrow::BorrowMut<[T]> for ByteTable<T> {
    /// The whole table as a mutable slice.
    fn borrow_mut(&mut self) -> (r: &mut [T])
        ensures
            <[T] as View>::view(&*r) == old(self)@,
            <[T] as View>::view(&*final(r)) == final(self)@,
    {
        self.as_mut_slice()
    }
}

impl<T> From<[T; 256]> for ByteTable<T> {
    /// The table with the given array as its contents.
    fn from(value: [T; 256]) -> (r: ByteTable<T>)
        ensures
            r@ == value@,
    {
        ByteTable { table: value }
    }
}

impl<T> vstd::std_specs::convert::FromSpecImpl<[T; 256]> for ByteTable<T> {
    open spec fn obeys_from_spec() -> bool {
        true
    }

    open spec fn from_spec(v: [T; 256]) -> ByteTable<T> {
        table_of(v)
    }
}

impl<T> From<ByteTable<T>> for [T; 256] {
    /// The array that holds the table.
    fn from(value: ByteTable<T>) -> (r: [T; 256])
        ensures
            r@ == value@,
    {
        value.table
    }
}

impl<T> vstd::std_specs::convert::FromSpecImpl<ByteTable<T>> for [T; 256] {
    open spec fn obeys_from_spec() -> bool {
        true
    }

    open spec fn from_spec(v: ByteTable<T>) -> [T; 256] {
        array_of(v)
    }
}

impl<T: Copy> TryFrom<&[T]> for ByteTable<T> {
    type Error = TryFromSliceError;

    /// A table holding a copy of the slice; an error unless the slice has
    /// exactly 256 values.
    fn try_from(value: &[T]) -> (r: Result<ByteTable<T>, TryFromSliceError>)
        ensures
            r is Ok <==> value@.len() == 256,
            r matches Ok(t) ==> t@ == value@,
    {
        match array_from_slice(value) {
            Ok(a) => Ok(ByteTable { table: a }),
            Err(e) => Err(e),
        }
    }
}

impl<T: Copy> vstd::std_specs::convert::TryFromSpecImpl<&[T]> for ByteTable<T> {
    open spec fn obeys_try_from_spec() -> bool {
        false
    }

    open spec fn try_from_spec(v: &[T]) -> Result<ByteTable<T>, TryFromSliceError> {
        arbitrary()
    }
}

impl<T: Copy> TryFrom<&mut [T]> for ByteTable<T> {
    type Error = TryFromSliceError;

    /// A table holding a copy of the slice; an error unless the slice has
    /// exactly 256 values.
    fn try_from(value: &mut [T]) -> (r: Result<ByteTable<T>, TryFromSliceError>)
        ensures
            r is Ok <==> old(value)@.len() == 256,
            r matches Ok(t) ==> t@ == old(value)@,
            final(value)@ == old(value)@,
    {
        match array_from_slice(value) {
            Ok(a) => Ok(ByteTable { table: a }),
            Err(e) => Err(e),
        }
    }
}

impl<T: Copy> vstd::std_specs::convert::TryFromSpecImpl<&mut [T]> for ByteTable<T> {
    open spec fn obeys_try_from_spec() -> bool {
        false
    }

    open spec fn try_from_spec(v: &mut [T]) -> Result<ByteTable<T>, TryFromSliceError> {
        arbitrary()
    }
}

impl<T: Default> Default for ByteTable<T> {
    /// The table whose every value is `T::default()`.
    fn default() -> (r: Self)
        ensures
            r@.len() == 256,
            forall|i: int| 0 <= i < 256 ==> call_ensures(T::default, (), #[trigger] r@[i]),
    {
        let make = |_i: u8| -> (t: T)
            ensures
                call_ensures(T::default, (), t),
            { T::default() };
        let r = Self::generate(make);
        proof {
            assert forall|i: int| 0 <= i < 256 implies call_ensures(T::default, (), #[trigger] r@[i]) by {
                let b = i as u8;
                assert(call_ensures(make, (b,), r@[b as int]));
            }
        }
        r
    }
}

impl<'a, T> IntoIterator for &'a ByteTable<T> {
    type Item = &'a T;

    type IntoIter = core::slice::Iter<'a, T>;

    /// An iterator over references to the values, in index order.
    fn into_iter(self) -> (r: core::slice::Iter<'a, T>)
        ensures
            vstd::std_specs::iter::IteratorSpec::remaining(&r) == self@.as_ref(),
    {
        broadcast use vstd::std_specs::slice::axiom_spec_slice_iter;
        self.as_slice().iter()
    }
}

/// Whether two sequences have the same length and equal values at every index.
pub open spec fn seqs_eq<A: PartialEq<B>, B>(a: Seq<A>, b: Seq<B>) -> bool {
    a.len() == b.len() && forall|i: int| 0 <= i < a.len() ==> #[trigger] a[i].eq_spec(&b[i])
}

/// Compares two slices value by value.
fn slices_eq<A: PartialEq<B>, B>(a: &[A], b: &[B]) -> (r: bool)
    ensures
        <A as PartialEqSpec<B>>::obeys_eq_spec() ==> r == seqs_eq(a@, b@),
{
    if a.len() != b.len() {
        return false;
    }
    let mut i: usize = 0;
    while i < a.len()
        invariant
            i <= a@.len(),
            a@.len() == b@.len(),
            <A as PartialEqSpec<B>>::obeys_eq_spec() ==> forall|j: int| 0 <= j < i ==> #[trigger] a@[j].eq_spec(&b@[j]),
        decreases a@.len() - i,
    {
        if !(a[i] == b[i]) {
            return false;
        }
        i += 1;
    }
    true
}

impl<U, T: PartialEq<U>> PartialEq<[U; 256]> for ByteTable<T> {
    fn eq(&self, other: &[U; 256]) -> (r: bool) {
        slices_eq(self.as_slice(), other.as_slice())
    }
}

impl<U, T: PartialEq<U>> vstd::std_specs::cmp::PartialEqSpecImpl<[U; 256]> for ByteTable<T> {
    open spec fn obeys_eq_spec() -> bool {
        <T as PartialEqSpec<U>>::obeys_eq_spec()
    }

    open spec fn eq_spec(&self, other: &[U; 256]) -> bool {
        seqs_eq(self@, other@)
    }
}

impl<T, U: PartialEq<T>> PartialEq<ByteTable<T>> for [U; 256] {
    fn eq(&self, other: &ByteTable<T>) -> (r: bool) {
        slices_eq(self.as_slice(), other.as_slice())
    }
}

impl<T, U: PartialEq<T>> vstd::std_specs::cmp::PartialEqSpecImpl<ByteTable<T>> for [U; 256] {
    open spec fn obeys_eq_spec() -> bool {
        <U as PartialEqSpec<T>>::obeys_eq_spec()
    }

    open spec fn eq_spec(&self, other: &ByteTable<T>) -> bool {
        seqs_eq(self@, other@)
    }
}

impl<U, T: PartialEq<U>> PartialEq<[U]> for ByteTable<T> {
    fn eq(&self, other: &[U]) -> (r: bool) {
        slices_eq(self.as_slice(), other)
    }
}

impl<U, T: PartialEq<U>> vstd::std_specs::cmp::PartialEqSpecImpl<[U]> for ByteTable<T> {
    open spec fn obeys_eq_spec() -> bool {
        <T as PartialEqSpec<U>>::obeys_eq_spec()
    }

    open spec fn eq_spec(&self, other: &[U]) -> bool {
        seqs_eq(self@, other@)
    }
}

impl<T, U: PartialEq<T>> PartialEq<ByteTable<T>> for [U] {
    fn eq(&self, other: &ByteTable<T>) -> (r: bool) {
        slices_eq(self, other.as_slice())
    }
}

impl<T, U: PartialEq<T>> vstd::std_specs::cmp::PartialEqSpecImpl<ByteTable<T>> for [U] {
    open spec fn obeys_eq_spec() -> bool {
        <U as PartialEqSpec<T>>::obeys_eq_spec()
    }

    open spec fn eq_spec(&self, other: &ByteTable<T>) -> bool {
        seqs_eq(self@, other@)
    }
}

impl<U, T: PartialEq<U>> PartialEq<&[U]> for ByteTable<T> {
    fn eq(&self, other: &&[U]) -> (r: bool) {
        slices_eq(self.as_slice(), *other)
    }
}

impl<U, T: PartialEq<U>> vstd::std_specs::cmp::PartialEqSpecImpl<&[U]> for ByteTable<T> {
    open spec fn obeys_eq_spec() -> bool {
        <T as PartialEqSpec<U>>::obeys_eq_spec()
    }

    open spec fn eq_spec(&self, other: &&[U]) -> bool {
        seqs_eq(self@, (*other)@)
    }
}

impl<T, U: PartialEq<T>> PartialEq<ByteTable<T>> for &[U] {
    fn eq(&self, other: &ByteTable<T>) -> (r: bool) {
        slices_eq(*self, other.as_slice())
    }
}

impl<T, U: PartialEq<T>> vstd::std_specs::cmp::PartialEqSpecImpl<ByteTable<T>> for &[U] {
    open spec fn obeys_eq_spec() -> bool {
        <U as PartialEqSpec<T>>::obeys_eq_spec()
    }

    open spec fn eq_spec(&self, other: &ByteTable<T>) -> bool {
        seqs_eq((*self)@, other@)
    }
}

impl<U, T: PartialEq<U>> PartialEq<&[U; 256]> for ByteTable<T> {
    fn eq(&self, other: &&[U; 256]) -> (r: bool) {
        slices_eq(self.as_slice(), (*other).as_slice())
    }
}

impl<U, T: PartialEq<U>> vstd::std_specs::cmp::PartialEqSpecImpl<&[U; 256]> for ByteTable<T> {
    open spec fn obeys_eq_spec() -> bool {
        <T as PartialEqSpec<U>>::obeys_eq_spec()
    }

    open spec fn eq_spec(&self, other: &&[U; 256]) -> bool {
        seqs_eq(self@, (*other)@)
    }
}

impl<T, U: PartialEq<T>> PartialEq<ByteTable<T>> for &[U; 256] {
    fn eq(&self, other: &ByteTable<T>) -> (r: bool) {
        slices_eq((*self).as_slice(), other.as_slice())
    }
}

impl<T, U: PartialEq<T>> vstd::std_specs::cmp::PartialEqSpecImpl<ByteTable<T>> for &[U; 256] {
    open spec fn obeys_eq_spec() -> bool {
        <U as PartialEqSpec<T>>::obeys_eq_spec()
    }

    open spec fn eq_spec(&self, other: &ByteTable<T>) -> bool {
        seqs_eq((*self)@, other@)
    }
}

impl<U, T: PartialEq<U>> PartialEq<&mut [U]> for ByteTable<T> {
    fn eq(&self, other: &&mut [U]) -> (r: bool) {
        slices_eq(self.as_slice(), &**other)
    }
}

impl<U, T: PartialEq<U>> vstd::std_specs::cmp::PartialEqSpecImpl<&mut [U]> for ByteTable<T> {
    open spec fn obeys_eq_spec() -> bool {
        <T as PartialEqSpec<U>>::obeys_eq_spec()
    }

    open spec fn eq_spec(&self, other: &&mut [U]) -> bool {
        seqs_eq(self@, (**other)@)
    }
}

impl<T, U: PartialEq<T>> PartialEq<ByteTable<T>> for &mut [U] {
    fn eq(&self, other: &ByteTable<T>) -> (r: bool) {
        slices_eq(&**self, other.as_slice())
    }
}

impl<T, U: PartialEq<T>> vstd::std_specs::cmp::PartialEqSpecImpl<ByteTable<T>> for &mut [U] {
    open spec fn obeys_eq_spec() -> bool {
        <U as PartialEqSpec<T>>::obeys_eq_spec()
    }

    open spec fn eq_spec(&self, other: &ByteTable<T>) -> bool {
        seqs_eq((**self)@, other@)
    }
}

impl<U, T: PartialEq<U>> PartialEq<&mut [U; 256]> for ByteTable<T> {
    fn eq(&self, other: &&mut [U; 256]) -> (r: bool) {
        slices_eq(self.as_slice(), (**other).as_slice())
    }
}

impl<U, T: PartialEq<U>> vstd::std_specs::cmp::PartialEqSpecImpl<&mut [U; 256]> for ByteTable<T> {
    open spec fn obeys_eq_spec() -> bool {
        <T as PartialEqSpec<U>>::obeys_eq_spec()
    }

    open spec fn eq_spec(&self, other: &&mut [U; 256]) -> bool {
        seqs_eq(self@, (**other)@)
    }
}

impl<T, U: PartialEq<T>> PartialEq<ByteTable<T>> for &mut [U; 256] {
    fn eq(&self, other: &ByteTable<T>) -> (r: bool) {
        slices_eq((**self).as_slice(), other.as_slice())
    }
}

impl<T, U: PartialEq<T>> vstd::std_specs::cmp::PartialEqSpecImpl<ByteTable<T>> for &mut [U; 256] {
    open spec fn obeys_eq_spec() -> bool {
        <U as PartialEqSpec<T>>::obeys_eq_spec()
    }

    open spec fn eq_spec(&self, other: &ByteTable<T>) -> bool {
        seqs_eq((**self)@, other@)
    }
}

/// Iterating a table by value yields its values in index order. Let `its[i]`
/// be the iterator `into_iter` gave, after `i` calls of `next`, each of which
/// yielded `ys[i]`, as the laws of iteration state. Then the `k`-th value
/// yielded is the table's value for `k`, and what is left to yield is the
/// rest of the table.
pub proof fn lemma_into_iter_in_order<T>(t: ByteTable<T>, its: Seq<IntoIter<T>>, ys: Seq<T>)
    requires
        its.len() == ys.len() + 1,
        its[0].remaining() == t@,
        forall|i: int|
            0 <= i < ys.len() ==> #[trigger] its[i].remaining().len() > 0 && ys[i] == its[i].remaining()[0]
                && its[i + 1].remaining() == its[i].remaining().drop_first(),
    ensures
        ys.len() <= 256,
        forall|k: int| 0 <= k < ys.len() ==> #[trigger] ys[k] == t@[k],
        its[ys.len() as int].remaining() == t@.skip(ys.len() as int),
    decreases ys.len(),
{
    if ys.len() > 0 {
        let n = ys.len() - 1;
        lemma_into_iter_in_order(t, its.take(n + 1), ys.take(n));
        assert(its.take(n + 1)[n] == its[n]);
        assert(t@.skip(n).drop_first() =~= t@.skip(n + 1));
        assert forall|k: int| 0 <= k < ys.len() implies #[trigger] ys[k] == t@[k] by {
            if k < n {
                assert(ys.take(n)[k] == ys[k]);
            } else {
                assert(its[n].remaining()[0] == t@.skip(n)[0]);
            }
        }
    } else {
        assert(t@.skip(0) =~= t@);
    }
}

/// Iterating a table mutably yields a reference to each value in index
/// order. Let `its[i]` be the iterator that `into_iter` gave for `&mut t`,
/// after `i` calls of `next`, each of which yielded `ys[i]`, as the laws of
/// iteration state, and let `start` be the iterator it gave first. Then the
/// `k`-th reference starts out holding the table's value for `k`, and what
/// the table holds for `k` in the end is what that reference holds in the end.
pub proof fn lemma_iter_mut_in_order<'a, T>(
    old_t: ByteTable<T>,
    final_t: ByteTable<T>,
    its: Seq<IterMut<'a, T>>,
    ys: Seq<&'a mut T>,
)
    requires
        its.len() == ys.len() + 1,
        its[0].remaining().len() == 256,
        forall|k: int| 0 <= k < 256 ==> *#[trigger] its[0].remaining()[k] == old_t@[k],
        forall|k: int| 0 <= k < 256 ==> final_t@[k] == *final(#[trigger] its[0].remaining()[k]),
        forall|i: int|
            0 <= i < ys.len() ==> #[trigger] its[i].remaining().len() > 0 && ys[i] == its[i].remaining()[0]
                && its[i + 1].remaining() == its[i].remaining().drop_first(),
    ensures
        ys.len() <= 256,
        forall|k: int| 0 <= k < ys.len() ==> *#[trigger] ys[k] == old_t@[k],
        forall|k: int| 0 <= k < ys.len() ==> final_t@[k] == *final(#[trigger] ys[k]),
{
    lemma_remaining_steps(its, ys);
}

/// Along a run of `next` calls, each call yields the first value left and
/// leaves the rest: the `k`-th value yielded is value `k` of what there was
/// to yield at first.
proof fn lemma_remaining_steps<'a, T>(its: Seq<IterMut<'a, T>>, ys: Seq<&'a mut T>)
    requires
        its.len() == ys.len() + 1,
        forall|i: int|
            0 <= i < ys.len() ==> #[trigger] its[i].remaining().len() > 0 && ys[i] == its[i].remaining()[0]
                && its[i + 1].remaining() == its[i].remaining().drop_first(),
    ensures
        ys.len() <= its[0].remaining().len(),
        forall|k: int| 0 <= k < ys.len() ==> #[trigger] ys[k] == its[0].remaining()[k],
        its[ys.len() as int].remaining() == its[0].remaining().skip(ys.len() as int),
    decreases ys.len(),
{
    if ys.len() > 0 {
        let n = ys.len() - 1;
        lemma_remaining_steps(its.take(n + 1), ys.take(n));
        assert(its.take(n + 1)[n] == its[n]);
        assert(its.take(n + 1)[0] == its[0]);
        assert(its[0].remaining().skip(n).drop_first() =~= its[0].remaining().skip(n + 1));
        assert forall|k: int| 0 <= k < ys.len() implies #[trigger] ys[k] == its[0].remaining()[k] by {
            if k < n {
                assert(ys.take(n)[k] == ys[k]);
            } else {
                assert(its[n].remaining()[0] == its[0].remaining().skip(n)[0]);
            }
        }
    } else {
        assert(its[0].remaining().skip(0) =~= its[0].remaining());
    }
}

impl<T> IntoIterator for ByteTable<T> {
    type Item = T;

    type IntoIter = IntoIter<T>;

    /// An iterator that moves the values out of the table, in index order.
    fn into_iter(self) -> (r: IntoIter<T>)
        ensures
            r.obeys_prophetic_iter_laws(),
            r.will_return_none(),
            r.remaining() == self@,
    {
        array_into_iter(self.table)
    }
}

impl<'a, T> IntoIterator for &'a mut ByteTable<T> {
    type Item = &'a mut T;

    type IntoIter = IterMut<'a, T>;

    /// An iterator over mutable references to the values, in index order.
    fn into_iter(self) -> (r: IterMut<'a, T>)
        ensures
            r.obeys_prophetic_iter_laws(),
            r.will_return_none(),
            r.remaining().len() == 256,
            forall|k: int| 0 <= k < 256 ==> *#[trigger] r.remaining()[k] == old(self)@[k],
            forall|k: int| 0 <= k < 256 ==> final(self)@[k] == *final(#[trigger] r.remaining()[k]),
    {
        slice_iter_mut(self.as_mut_slice())
    }
}

} // verus!
