//! [`ByteSet`] and the iterators over it.

use core::ops::{
    BitAnd, BitAndAssign, BitOr, BitOrAssign, BitXor, BitXorAssign, Bound, Index, Not, Range,
    RangeFrom, RangeFull, RangeInclusive, RangeTo, RangeToInclusive,
};
use vstd::prelude::*;
use vstd::std_specs::bits::{axiom_u64_leading_zeros, axiom_u64_trailing_zeros};
use crate::bounds::{
    above_start, below_end, bounded_set, copied_bound, copy_bound, inclusive_end,
    inclusive_end_bound, inclusive_ref_end_bound, inclusive_ref_start_bound, inclusive_start_bound,
    ref_inclusive_set,
};
use crate::bits::{
    bit, count_bits, count_ones, lemma_bit_ops, lemma_bits_equal, lemma_count_bits_bound,
    lemma_count_bits_max, lemma_low_mask, lemma_nonzero_has_bit, lemma_single_bit,
};

verus! {

/// A set of `u8`s, stored as a 256-bit array: bit `i % 64` of word `i / 64`
/// is set exactly when `i` is in the set.
#[derive(Copy, Clone, Debug)]
pub struct ByteSet {
    bytes: [u64; 4],
}

/// The byte that bit `j` of word `k` stands for.
pub open spec fn byte_at(k: int, j: u64) -> u8 {
    (64 * k + j) as u8
}

proof fn lemma_byte_at(k: int, j: u64)
    requires
        0 <= k < 4,
        j < 64,
    ensures
        byte_at(k, j) / 64 == k,
        byte_at(k, j) % 64 == j,
        byte_at(k, j) as int == 64 * k + j,
{
}

/// Whether bit `x % 64` of word `x / 64` of `w` is set.
pub open spec fn word_has(w: [u64; 4], x: u8) -> bool {
    bit(w[(x / 64) as int], (x % 64) as u64)
}

/// What `toggle` makes of the values `s` of a set.
pub open spec fn toggled(s: Set<u8>, i: u8) -> Set<u8> {
    if s.contains(i) {
        s.remove(i)
    } else {
        s.insert(i)
    }
}

/// The members of `s` below `n`, in ascending order.
pub open spec fn members_below(s: Set<u8>, n: nat) -> Seq<u8>
    decreases n,
{
    if n == 0 {
        Seq::empty()
    } else {
        let before = members_below(s, (n - 1) as nat);
        if s.contains((n - 1) as u8) {
            before.push((n - 1) as u8)
        } else {
            before
        }
    }
}

/// The members of `s` in ascending order.
pub open spec fn members(s: Set<u8>) -> Seq<u8> {
    members_below(s, 256)
}

/// The text that `format!("{:?}", v)` gives for a vector of bytes: its values
/// in order, between square brackets, separated by commas.
pub uninterp spec fn debug_list(v: Seq<u8>) -> Seq<char>;

/// The debug text of a vector of bytes.
///
/// Calls `format!("{:?}", v)`, whose result depends on the values of `v`
/// alone and is named `debug_list`. The contract claims that.
#[verifier::external_body]
fn format_list(v: &Vec<u8>) -> (r: String)
    ensures
        r@ == debug_list(v@),
{
    format!("{:?}", v)
}

/// The `ByteSet` that holds exactly the values of `s`.
pub closed spec fn from_set(s: Set<u8>) -> ByteSet {
    choose|b: ByteSet| b@ == s
}

impl ByteSet {
    /// Whether the bit that stands for `i` is set.
    pub closed spec fn has(self, i: u8) -> bool {
        bit(self.bytes[(i / 64) as int], (i % 64) as u64)
    }

    proof fn lemma_view(self)
        ensures
            forall|i: u8| #[trigger] self@.contains(i) == self.has(i),
    {
    }

    /// Two sets whose views agree have the same words.
    proof fn lemma_view_eq_words(self, other: Self)
        requires
            self@ == other@,
        ensures
            self.bytes == other.bytes,
    {
        self.lemma_view();
        other.lemma_view();
        assert forall|k: int| 0 <= k < 4 implies self.bytes[k] == other.bytes[k] by {
            assert forall|j: u64| j < 64 implies bit(self.bytes[k], j) == bit(other.bytes[k], j) by {
                lemma_byte_at(k, j);
                let x = byte_at(k, j);
                assert(self@.contains(x) == self.has(x));
                assert(other@.contains(x) == other.has(x));
                assert(self.has(x) == other.has(x));
            }
            lemma_bits_equal(self.bytes[k], other.bytes[k]);
        }
        assert(self.bytes@ =~= other.bytes@);
    }

    /// A `ByteSet` is the one `from_set` gives for its own view.
    proof fn lemma_from_set(self)
        ensures
            from_set(self@) == self,
    {
        let c = from_set(self@);
        assert(exists|b: ByteSet| b@ == self@);
        c.lemma_view_eq_words(self);
    }

    /// Creates an empty `ByteSet`.
    pub fn new() -> (r: Self)
        ensures
            r@ == Set::<u8>::empty(),
    {
        let r = ByteSet { bytes: [0u64; 4] };
        proof {
            lemma_bit_ops();
            assert(r@ =~= Set::<u8>::empty());
        }
        r
    }

    /// Creates a `ByteSet` containing every byte (`0..=255`).
    pub fn full() -> (r: Self)
        ensures
            r@ == Set::<u8>::full(),
    {
        let r = ByteSet { bytes: [u64::MAX; 4] };
        proof {
            lemma_bit_ops();
            assert(r@ =~= Set::<u8>::full());
        }
        r
    }

    /// Creates a `ByteSet` containing the bytes of `slice`.
    pub fn from_bytes(slice: &[u8]) -> (r: Self)
        ensures
            r@ == slice@.to_set(),
    {
        let mut set = Self::new();
        let mut i: usize = 0;
        while i < slice.len()
            invariant
                i <= slice@.len(),
                forall|x: u8| #[trigger] set@.contains(x) <==> exists|j: int| 0 <= j < i && slice@[j] == x,
            decreases slice@.len() - i,
        {
            set.insert(slice[i]);
            proof {
                assert forall|x: u8| #[trigger] set@.contains(x) implies exists|j: int| 0 <= j < i + 1 && slice@[j] == x by {
                    if x != slice@[i as int] {
                        let j = choose|j: int| 0 <= j < i && slice@[j] == x;
                        assert(0 <= j < i + 1 && slice@[j] == x);
                    } else {
                        assert(slice@[i as int] == x);
                    }
                }
            }
            i += 1;
        }
        proof {
            assert forall|x: u8| set@.contains(x) <==> slice@.to_set().contains(x) by {
                if set@.contains(x) {
                    let j = choose|j: int| 0 <= j < i && slice@[j] == x;
                    assert(slice@.contains(x));
                }
                if slice@.contains(x) {
                    let j = choose|j: int| 0 <= j < slice@.len() && slice@[j] == x;
                    assert(exists|j: int| 0 <= j < i && slice@[j] == x);
                }
            }
            assert(set@ =~= slice@.to_set());
        }
        set
    }

    /// Constructs the set of the values that lie within the given bounds.
    pub fn from_bounds(start: Bound<u8>, end: Bound<u8>) -> (r: Self)
        ensures
            r@ == bounded_set(start, end),
    {
        let s = match start {
            Bound::Unbounded => [0u64; 4],
            Bound::Included(n) => Self::mask_less_than(n),
            Bound::Excluded(n) => match n.checked_add(1) {
                Some(n) => Self::mask_less_than(n),
                None => [u64::MAX; 4],
            },
        };
        let e = match end {
            Bound::Unbounded => [u64::MAX; 4],
            Bound::Excluded(n) => Self::mask_less_than(n),
            Bound::Included(n) => match n.checked_add(1) {
                Some(n) => Self::mask_less_than(n),
                None => [u64::MAX; 4],
            },
        };
        let r = ByteSet { bytes: [!s[0] & e[0], !s[1] & e[1], !s[2] & e[2], !s[3] & e[3]] };
        proof {
            lemma_bit_ops();
            r.lemma_view();
            assert(forall|k: int| 0 <= k < 4 ==> r.bytes[k] == !s[k] & e[k]);
            assert forall|x: u8| #[trigger] r@.contains(x) <==> above_start(start, x) && below_end(end, x) by {
                assert(r.has(x) == (!word_has(s, x) && word_has(e, x)));
            }
            assert(r@ =~= bounded_set(start, end));
        }
        r
    }

    /// [`ByteSet::from_bounds`] with bounds that hold references.
    fn from_ref_bounds(start: Bound<&u8>, end: Bound<&u8>) -> (r: Self)
        ensures
            r@ == bounded_set(copied_bound(start), copied_bound(end)),
    {
        Self::from_bounds(copy_bound(start), copy_bound(end))
    }

    /// The words of the set of bytes below `i`.
    fn mask_less_than(i: u8) -> (r: [u64; 4])
        ensures
            forall|x: u8| #[trigger] word_has(r, x) <==> x < i,
    {
        let (high, low) = Self::indices(i);
        proof {
            lemma_low_mask((i % 64) as u64);
        }
        let mask = low - 1;
        let r = if high == 0 {
            [mask, 0, 0, 0]
        } else if high == 1 {
            [u64::MAX, mask, 0, 0]
        } else if high == 2 {
            [u64::MAX, u64::MAX, mask, 0]
        } else {
            [u64::MAX, u64::MAX, u64::MAX, mask]
        };
        proof {
            lemma_bit_ops();
            assert forall|x: u8| #[trigger] word_has(r, x) <==> x < i by {
                let xk = (x / 64) as int;
                let xj = (x % 64) as u64;
                if xk < high {
                    assert(r[xk] == u64::MAX);
                } else if xk > high {
                    assert(r[xk] == 0);
                } else {
                    assert(r[xk] == mask);
                }
            }
        }
        r
    }

    /// The array index (`0..4`) of the word that holds `i`, and the mask of
    /// its bit within that word.
    fn indices(i: u8) -> (r: (usize, u64))
        ensures
            r.0 == i / 64,
            r.0 < 4,
            r.1 == 1u64 << ((i % 64) as u64),
    {
        proof {
            assert(i >> 6u8 == i / 64) by (bit_vector);
            assert(i & 63u8 == i % 64) by (bit_vector);
        }
        let high = (i >> 6u8) as usize;
        let sh = (i & 63u8) as u64;
        let low = 1u64 << sh;
        (high, low)
    }

    /// The members of the set below `n`.
    spec fn prefix(self, n: int) -> Set<u8> {
        Set::new(|x: u8| (x as int) < n && self.has(x))
    }

    /// How many members of the set are below `n`.
    spec fn count_below(self, n: nat) -> nat
        decreases n,
    {
        if n == 0 {
            0
        } else {
            self.count_below((n - 1) as nat) + if self.has((n - 1) as u8) { 1nat } else { 0nat }
        }
    }

    /// The number of set bits in the words before word `k`.
    spec fn words_count(self, k: nat) -> nat
        decreases k,
    {
        if k == 0 {
            0
        } else {
            self.words_count((k - 1) as nat) + count_bits(self.bytes[k - 1], 64)
        }
    }

    proof fn lemma_prefix_len(self, n: nat)
        requires
            n <= 256,
        ensures
            self.prefix(n as int).finite(),
            self.prefix(n as int).len() == self.count_below(n),
        decreases n,
    {
        if n == 0 {
            assert(self.prefix(0) =~= Set::<u8>::empty());
        } else {
            self.lemma_prefix_len((n - 1) as nat);
            let y = (n - 1) as u8;
            if self.has(y) {
                assert(self.prefix(n as int) =~= self.prefix(n - 1).insert(y));
                assert(!self.prefix(n - 1).contains(y));
            } else {
                assert(self.prefix(n as int) =~= self.prefix(n - 1));
            }
        }
    }

    proof fn lemma_count_words(self, k: nat, j: nat)
        requires
            k < 4,
            j <= 64,
        ensures
            self.count_below(64 * k + j) == self.words_count(k) + count_bits(self.bytes[k as int], j),
        decreases k, j,
    {
        if j == 0 {
            if k > 0 {
                self.lemma_count_words((k - 1) as nat, 64);
                assert(64 * k + j == 64 * (k - 1) + 64);
            }
        } else {
            self.lemma_count_words(k, (j - 1) as nat);
            let x = (64 * k + j - 1) as u8;
            assert(x / 64 == k && x % 64 == j - 1);
            assert((64 * k + j - 1) as nat == (64 * k + j - 1));
        }
    }

    /// The view of a set is a finite set of at most 256 bytes, whose size is
    /// the number of set bits.
    proof fn lemma_len(self)
        ensures
            self@.finite(),
            self@.len() == self.words_count(4),
            self@.len() <= 256,
    {
        self.lemma_prefix_len(256);
        assert(self@ =~= self.prefix(256));
        self.lemma_count_words(3, 64);
        assert(64 * 3nat + 64nat == 256nat);
        lemma_count_bits_bound(self.bytes[0], 64);
        lemma_count_bits_bound(self.bytes[1], 64);
        lemma_count_bits_bound(self.bytes[2], 64);
        lemma_count_bits_bound(self.bytes[3], 64);
        reveal_with_fuel(ByteSet::words_count, 5);
    }

    /// Returns the number of elements in the set.
    pub fn len(&self) -> (r: usize)
        ensures
            r == self@.len(),
            r <= 256,
    {
        let a = self.bytes;
        proof {
            self.lemma_len();
            reveal_with_fuel(ByteSet::words_count, 5);
            lemma_count_bits_bound(a[0], 64);
            lemma_count_bits_bound(a[1], 64);
            lemma_count_bits_bound(a[2], 64);
            lemma_count_bits_bound(a[3], 64);
        }
        (count_ones(a[0]) + count_ones(a[1]) + count_ones(a[2]) + count_ones(a[3])) as usize
    }

    /// Returns `true` if the set contains no elements.
    pub fn is_empty(&self) -> (r: bool)
        ensures
            r == (self@ == Set::<u8>::empty()),
    {
        let a = self.bytes;
        let r = a[0] == 0 && a[1] == 0 && a[2] == 0 && a[3] == 0;
        proof {
            lemma_bit_ops();
            self.lemma_view();
            if r {
                assert(forall|k: int| 0 <= k < 4 ==> a[k] == 0);
                assert(self@ =~= Set::<u8>::empty());
            } else {
                let k: int = if a[0] != 0 { 0 } else if a[1] != 0 { 1 } else if a[2] != 0 { 2 } else { 3 };
                let j = lemma_nonzero_has_bit(a[k]);
                lemma_byte_at(k, j);
                assert(self@.contains(byte_at(k, j)));
            }
        }
        r
    }

    /// Returns `true` if the set contains `i`.
    pub fn contains(&self, i: u8) -> (r: bool)
        ensures
            r == self@.contains(i),
    {
        let (high, low) = Self::indices(i);
        proof {
            lemma_single_bit((i % 64) as u64);
        }
        self.bytes[high] & low != 0
    }

    /// Returns the smallest value of the set, or `None` if the set is empty.
    pub fn min(&self) -> (r: Option<u8>)
        ensures
            r is None <==> self@ == Set::<u8>::empty(),
            r matches Some(m) ==> self@.contains(m) && forall|x: u8| #[trigger] self@.contains(x) ==> m <= x,
    {
        let a = self.bytes;
        let k: usize = if a[0] != 0 {
            0
        } else if a[1] != 0 {
            1
        } else if a[2] != 0 {
            2
        } else if a[3] != 0 {
            3
        } else {
            proof {
                lemma_bit_ops();
                self.lemma_view();
                assert(forall|k: int| 0 <= k < 4 ==> a[k] == 0);
                assert(self@ =~= Set::<u8>::empty());
            }
            return None;
        };
        let w = a[k];
        let tz = w.trailing_zeros();
        proof {
            axiom_u64_trailing_zeros(w);
            assert(forall|kk: int| 0 <= kk < k ==> a[kk] == 0);
        }
        let m = (64 * k as u32 + tz) as u8;
        proof {
            lemma_bit_ops();
            self.lemma_view();
            let j = tz as u64;
            lemma_byte_at(k as int, j);
            assert(bit(w, j));
            assert(m == byte_at(k as int, j));
            assert(self.has(m));
            assert(self@.contains(m));
            assert(self@ != Set::<u8>::empty());
            assert forall|x: u8| #[trigger] self@.contains(x) implies m <= x by {
                assert(self.has(x));
                if x < m {
                    let xk = (x / 64) as int;
                    let xj = (x % 64) as u64;
                    if xk < k {
                        assert(a[xk] == 0);
                    } else {
                        assert(xk == k);
                        assert(xj < j);
                        assert((w >> xj) & 1u64 == 0u64);
                    }
                }
            }
        }
        Some(m)
    }

    /// Returns the largest value of the set, or `None` if the set is empty.
    pub fn max(&self) -> (r: Option<u8>)
        ensures
            r is None <==> self@ == Set::<u8>::empty(),
            r matches Some(m) ==> self@.contains(m) && forall|x: u8| #[trigger] self@.contains(x) ==> x <= m,
    {
        let a = self.bytes;
        let k: usize = if a[3] != 0 {
            3
        } else if a[2] != 0 {
            2
        } else if a[1] != 0 {
            1
        } else if a[0] != 0 {
            0
        } else {
            proof {
                lemma_bit_ops();
                self.lemma_view();
                assert(forall|k: int| 0 <= k < 4 ==> a[k] == 0);
                assert(self@ =~= Set::<u8>::empty());
            }
            return None;
        };
        let w = a[k];
        let lz = w.leading_zeros();
        proof {
            axiom_u64_leading_zeros(w);
            assert(forall|kk: int| k < kk < 4 ==> a[kk] == 0);
        }
        let m = (64 * k as u32 + 63 - lz) as u8;
        proof {
            lemma_bit_ops();
            self.lemma_view();
            let j = (63 - lz) as u64;
            lemma_byte_at(k as int, j);
            assert((w >> j) & 1u64 != 0u64);
            assert(forall|v: u64| v & 1u64 != 0u64 ==> v & 1u64 == 1u64) by (bit_vector);
            assert(bit(w, j));
            assert(m == byte_at(k as int, j));
            assert(self.has(m));
            assert(self@.contains(m));
            assert(self@ != Set::<u8>::empty());
            assert forall|x: u8| #[trigger] self@.contains(x) implies x <= m by {
                assert(self.has(x));
                if x > m {
                    let xk = (x / 64) as int;
                    let xj = (x % 64) as u64;
                    if xk > k {
                        assert(a[xk] == 0);
                    } else {
                        assert(xk == k);
                        assert(xj > j);
                        assert((w >> xj) & 1u64 == 0u64);
                    }
                }
            }
        }
        Some(m)
    }

    /// The values of the set in ascending order.
    pub fn to_vec(&self) -> (r: Vec<u8>)
        ensures
            r@ == members(self@),
    {
        let mut v: Vec<u8> = Vec::new();
        let mut i: u16 = 0;
        while i < 256
            invariant
                i <= 256,
                v@ == members_below(self@, i as nat),
            decreases 256 - i,
        {
            let b = i as u8;
            if self.contains(b) {
                v.push(b);
            }
            i += 1;
        }
        v
    }

    /// The values of the set as a list, `[1, 2, 3]`: the text the set's
    /// debug output has as a list of its members.
    pub fn debug_string(&self) -> (r: String)
        ensures
            r@ == debug_list(members(self@)),
    {
        let v = self.to_vec();
        format_list(&v)
    }

    /// The bytes of the set within `[front, back)`.
    pub open spec fn within(self, front: int, back: int) -> Set<u8> {
        self@.filter(|x: u8| front <= x && x < back)
    }

    /// The bounds `[front, back)` of a range from the smallest to the largest
    /// value of the set; an empty range if the set is empty.
    fn range(&self) -> (r: (u16, u16))
        ensures
            r.0 <= r.1 <= 256,
            self.within(r.0 as int, r.1 as int) == self@,
            self@ == Set::<u8>::empty() ==> r == (0u16, 0u16),
            self@ != Set::<u8>::empty() ==> r.0 < r.1 && self@.contains(r.0 as u8)
                && self@.contains((r.1 - 1) as u8),
    {
        match (self.min(), self.max()) {
            (Some(lo), Some(hi)) => {
                assert(self.within(lo as int, hi + 1) =~= self@);
                (lo as u16, hi as u16 + 1)
            },
            _ => {
                assert(self.within(0, 0) =~= self@);
                (0, 0)
            },
        }
    }

    /// How many values of the set lie within `[front, back)`.
    fn len_in_range(&self, front: u16, back: u16) -> (r: usize)
        requires
            back <= 256,
        ensures
            r == self.within(front as int, back as int).len(),
    {
        if front >= back || self.is_empty() {
            proof {
                assert(self.within(front as int, back as int) =~= Set::<u8>::empty());
            }
            return 0;
        }
        let r = self.intersection(Self::from_bounds(
            Bound::Included(front as u8),
            Bound::Included((back - 1) as u8),
        ));
        proof {
            assert(r@ =~= self.within(front as int, back as int));
        }
        r.len()
    }

    /// An iterator over the values of the set in ascending order.
    pub fn iter(&self) -> (r: Iter<'_>)
        ensures
            r.remaining() == self@,
    {
        let (front, back) = self.range();
        Iter { set: self, front, back }
    }

    /// An iterator that consumes the set and yields its values in ascending
    /// order.
    pub fn into_iter(self) -> (r: IntoIter)
        ensures
            r.remaining() == self@,
    {
        let (front, back) = self.range();
        IntoIter { set: self, front, back }
    }

    /// The values that are in `self` but not in `other`.
    pub fn difference(self, other: Self) -> (r: Self)
        ensures
            r@ == self@.difference(other@),
    {
        let a = self.bytes;
        let b = other.bytes;
        let r = ByteSet { bytes: [a[0] & !b[0], a[1] & !b[1], a[2] & !b[2], a[3] & !b[3]] };
        proof {
            lemma_bit_ops();
            assert(forall|k: int| 0 <= k < 4 ==> r.bytes[k] == a[k] & !b[k]);
            assert(r@ =~= self@.difference(other@));
        }
        r
    }

    /// The values that are in `self` or in `other` but not in both.
    pub fn symmetric_difference(self, other: Self) -> (r: Self)
        ensures
            r@ == self@.difference(other@).union(other@.difference(self@)),
    {
        let a = self.bytes;
        let b = other.bytes;
        let r = ByteSet { bytes: [a[0] ^ b[0], a[1] ^ b[1], a[2] ^ b[2], a[3] ^ b[3]] };
        proof {
            lemma_bit_ops();
            assert(forall|k: int| 0 <= k < 4 ==> r.bytes[k] == a[k] ^ b[k]);
            assert(r@ =~= self@.difference(other@).union(other@.difference(self@)));
        }
        r
    }

    /// The values that are both in `self` and in `other`.
    pub fn intersection(self, other: Self) -> (r: Self)
        ensures
            r@ == self@.intersect(other@),
    {
        let a = self.bytes;
        let b = other.bytes;
        let r = ByteSet { bytes: [a[0] & b[0], a[1] & b[1], a[2] & b[2], a[3] & b[3]] };
        proof {
            lemma_bit_ops();
            assert(forall|k: int| 0 <= k < 4 ==> r.bytes[k] == a[k] & b[k]);
            assert(r@ =~= self@.intersect(other@));
        }
        r
    }

    /// The values that are in `self` or in `other`.
    pub fn union(self, other: Self) -> (r: Self)
        ensures
            r@ == self@.union(other@),
    {
        let a = self.bytes;
        let b = other.bytes;
        let r = ByteSet { bytes: [a[0] | b[0], a[1] | b[1], a[2] | b[2], a[3] | b[3]] };
        proof {
            lemma_bit_ops();
            assert(forall|k: int| 0 <= k < 4 ==> r.bytes[k] == a[k] | b[k]);
            assert(r@ =~= self@.union(other@));
        }
        r
    }

    /// Returns `true` if `self` has no elements in common with `other`.
    pub fn is_disjoint(&self, other: &Self) -> (r: bool)
        ensures
            r == self@.disjoint(other@),
    {
        let a = self.bytes;
        let b = other.bytes;
        let r = (a[0] & b[0]) == 0 && (a[1] & b[1]) == 0 && (a[2] & b[2]) == 0 && (a[3] & b[3]) == 0;
        proof {
            lemma_bit_ops();
            self.lemma_view();
            other.lemma_view();
            if r {
                assert(forall|k: int| 0 <= k < 4 ==> a[k] & b[k] == 0);
                assert forall|x: u8| !(self@.contains(x) && other@.contains(x)) by {
                    assert(self.has(x) == self@.contains(x));
                    assert(other.has(x) == other@.contains(x));
                    assert(bit(a[(x / 64) as int] & b[(x / 64) as int], (x % 64) as u64) == false);
                }
            } else {
                let k: int = if a[0] & b[0] != 0 { 0 } else if a[1] & b[1] != 0 { 1 } else if a[2] & b[2] != 0 { 2 } else { 3 };
                let j = lemma_nonzero_has_bit(a[k] & b[k]);
                lemma_byte_at(k, j);
                let x = byte_at(k, j);
                assert(self@.contains(x) == self.has(x));
                assert(other@.contains(x) == other.has(x));
                assert(self@.contains(x) && other@.contains(x));
            }
        }
        r
    }

    /// Returns `true` if every value of `self` is in `other`.
    pub fn is_subset(&self, other: &Self) -> (r: bool)
        ensures
            r == self@.subset_of(other@),
    {
        let a = self.bytes;
        let b = other.bytes;
        let r = (a[0] | b[0]) == b[0] && (a[1] | b[1]) == b[1] && (a[2] | b[2]) == b[2] && (a[3] | b[3]) == b[3];
        proof {
            lemma_bit_ops();
            self.lemma_view();
            other.lemma_view();
            if r {
                assert(forall|k: int| 0 <= k < 4 ==> a[k] | b[k] == b[k]);
                assert forall|x: u8| self@.contains(x) implies other@.contains(x) by {
                    assert(self.has(x));
                    assert(bit(a[(x / 64) as int] | b[(x / 64) as int], (x % 64) as u64));
                    assert(other.has(x));
                }
            } else {
                let k: int = if a[0] | b[0] != b[0] { 0 } else if a[1] | b[1] != b[1] { 1 } else if a[2] | b[2] != b[2] { 2 } else { 3 };
                assert(a[k] | b[k] != b[k]);
                if forall|j: u64| j < 64 ==> bit(a[k] | b[k], j) == bit(b[k], j) {
                    lemma_bits_equal(a[k] | b[k], b[k]);
                }
                let j = choose|j: u64| j < 64 && bit(a[k] | b[k], j) != bit(b[k], j);
                lemma_byte_at(k, j);
                let x = byte_at(k, j);
                assert(self@.contains(x) == self.has(x));
                assert(other@.contains(x) == other.has(x));
                assert(self@.contains(x) && !other@.contains(x));
            }
        }
        r
    }

    /// Returns `true` if every value of `other` is in `self`.
    pub fn is_superset(&self, other: &Self) -> (r: bool)
        ensures
            r == other@.subset_of(self@),
    {
        other.is_subset(self)
    }

    /// Returns `true` if the two sets hold the same values.
    pub fn const_eq(&self, other: &Self) -> (r: bool)
        ensures
            r == (self@ == other@),
    {
        let a = self.bytes;
        let b = other.bytes;
        let r = a[0] == b[0] && a[1] == b[1] && a[2] == b[2] && a[3] == b[3];
        proof {
            if r {
                assert(self.bytes@ =~= other.bytes@);
                assert(self@ =~= other@);
            } else if self@ == other@ {
                self.lemma_view_eq_words(*other);
            }
        }
        r
    }

    /// Adds a value to the set.
    pub fn insert(&mut self, i: u8)
        ensures
            final(self)@ == old(self)@.insert(i),
    {
        let (high, low) = Self::indices(i);
        let w = self.bytes[high] | low;
        self.bytes[high] = w;
        proof {
            lemma_single_bit((i % 64) as u64);
            lemma_bit_ops();
            assert(self@ =~= old(self)@.insert(i));
        }
    }

    /// Removes a value from the set.
    pub fn remove(&mut self, i: u8)
        ensures
            final(self)@ == old(self)@.remove(i),
    {
        let (high, low) = Self::indices(i);
        let w = self.bytes[high] & !low;
        self.bytes[high] = w;
        proof {
            lemma_single_bit((i % 64) as u64);
            lemma_bit_ops();
            assert(self@ =~= old(self)@.remove(i));
        }
    }

    /// Adds `i` to the set if it is absent, or removes it if it is present.
    pub fn toggle(&mut self, i: u8)
        ensures
            final(self)@ == toggled(old(self)@, i),
    {
        let (high, low) = Self::indices(i);
        let w = self.bytes[high] ^ low;
        self.bytes[high] = w;
        proof {
            lemma_single_bit((i % 64) as u64);
            lemma_bit_ops();
            if old(self)@.contains(i) {
                assert(self@ =~= old(self)@.remove(i));
            } else {
                assert(self@ =~= old(self)@.insert(i));
            }
        }
    }

    /// Clears the set, removing all values.
    pub fn clear(&mut self)
        ensures
            final(self)@ == Set::<u8>::empty(),
    {
        self.bytes = [0u64; 4];
        proof {
            lemma_bit_ops();
            assert(self@ =~= Set::<u8>::empty());
        }
    }

    /// Retains only the values for which `f` returns `true`, visiting the
    /// values in ascending order.
    pub fn retain<F: FnMut(u8) -> bool>(&mut self, mut f: F)
        requires
            forall|x: u8| #[trigger] old(self)@.contains(x) ==> call_requires(f, (x,)),
        ensures
            final(self)@.subset_of(old(self)@),
            forall|x: u8| #[trigger] final(self)@.contains(x) ==> call_ensures(f, (x,), true),
            forall|x: u8|
                #[trigger] old(self)@.contains(x) && !final(self)@.contains(x) ==> call_ensures(f, (x,), false),
    {
        let mut i: u16 = 0;
        let ghost f0 = f;
        while i < 256
            invariant
                i <= 256,
                f == f0,
                forall|x: u8| #[trigger] old(self)@.contains(x) ==> call_requires(f, (x,)),
                self@.subset_of(old(self)@),
                forall|x: u8| x >= i ==> (#[trigger] self@.contains(x) == old(self)@.contains(x)),
                forall|x: u8| x < i && #[trigger] self@.contains(x) ==> call_ensures(f, (x,), true),
                forall|x: u8|
                    x < i && #[trigger] old(self)@.contains(x) && !self@.contains(x) ==> call_ensures(f, (x,), false),
            decreases 256 - i,
        {
            let b = i as u8;
            if self.contains(b) && !f(b) {
                self.remove(b);
            }
            i += 1;
        }
        proof {
            assert forall|x: u8| #[trigger] self@.contains(x) implies call_ensures(f, (x,), true) by {
                assert(x < i);
            }
        }
    }

    /// Creates an iterator that removes from the set, and yields, the values
    /// for which `pred` returns `true`, in ascending order. The values that
    /// it does not reach stay in the set.
    pub fn extract_if<F: FnMut(u8) -> bool>(&mut self, pred: F) -> (r: ExtractIf<'_, F>)
        ensures
            r.set_view() == old(self)@,
            r.remaining() == old(self)@,
            r.predicate() == pred,
            *final(self) == *final(r.set),
    {
        let (front, back) = self.range();
        ExtractIf { set: self, front, back, pred }
    }
}

/// Iterates over the values of a borrowed `ByteSet` in ascending order.
pub struct Iter<'a> {
    set: &'a ByteSet,
    front: u16,
    back: u16,
}

impl<'a> Iter<'a> {
    #[verifier::type_invariant]
    spec fn bounded(self) -> bool {
        self.back <= 256
    }

    /// The values that are yet to be yielded.
    pub closed spec fn remaining(self) -> Set<u8> {
        self.set.within(self.front as int, self.back as int)
    }

    /// Yields the smallest value that is yet to be yielded.
    pub fn next(&mut self) -> (r: Option<u8>)
        ensures
            r is None <==> old(self).remaining() == Set::<u8>::empty(),
            r matches Some(m) ==> old(self).remaining().contains(m)
                && (forall|x: u8| #[trigger] old(self).remaining().contains(x) ==> m <= x)
                && final(self).remaining() == old(self).remaining().remove(m),
            r is None ==> final(self).remaining() == old(self).remaining(),
    {
        proof {
            use_type_invariant(&*self);
        }
        let ghost start = self.front;
        while self.front < self.back
            invariant
                self.set == old(self).set,
                self.back == old(self).back,
                start <= self.front,
                self.back <= 256,
                start == old(self).front,
                forall|x: u8| start <= x < self.front ==> !(#[trigger] self.set@.contains(x)),
            decreases self.back - self.front,
        {
            let b = self.front as u8;
            self.front = self.front + 1;
            if self.set.contains(b) {
                proof {
                    assert(old(self).remaining().contains(b));
                    assert(self.remaining() =~= old(self).remaining().remove(b));
                }
                return Some(b);
            }
        }
        proof {
            assert(old(self).remaining() =~= Set::<u8>::empty());
            assert(self.remaining() =~= Set::<u8>::empty());
        }
        None
    }

    /// Yields the largest value that is yet to be yielded.
    pub fn next_back(&mut self) -> (r: Option<u8>)
        ensures
            r is None <==> old(self).remaining() == Set::<u8>::empty(),
            r matches Some(m) ==> old(self).remaining().contains(m)
                && (forall|x: u8| #[trigger] old(self).remaining().contains(x) ==> x <= m)
                && final(self).remaining() == old(self).remaining().remove(m),
            r is None ==> final(self).remaining() == old(self).remaining(),
    {
        proof {
            use_type_invariant(&*self);
        }
        let ghost end = self.back;
        while self.front < self.back
            invariant
                self.set == old(self).set,
                self.front == old(self).front,
                self.back <= end,
                end <= 256,
                end == old(self).back,
                forall|x: u8| self.back <= x < end ==> !(#[trigger] self.set@.contains(x)),
            decreases self.back - self.front,
        {
            self.back = self.back - 1;
            let b = self.back as u8;
            if self.set.contains(b) {
                proof {
                    assert(old(self).remaining().contains(b));
                    assert(self.remaining() =~= old(self).remaining().remove(b));
                }
                return Some(b);
            }
        }
        proof {
            assert(old(self).remaining() =~= Set::<u8>::empty());
            assert(self.remaining() =~= Set::<u8>::empty());
        }
        None
    }

    /// The number of values that are yet to be yielded.
    pub fn len(&self) -> (r: usize)
        ensures
            r == self.remaining().len(),
    {
        proof {
            use_type_invariant(self);
        }
        self.set.len_in_range(self.front, self.back)
    }
}

/// Iterates over the values of an owned `ByteSet` in ascending order.
pub struct IntoIter {
    set: ByteSet,
    front: u16,
    back: u16,
}

impl IntoIter {
    #[verifier::type_invariant]
    spec fn bounded(self) -> bool {
        self.back <= 256
    }

    /// The values that are yet to be yielded.
    pub closed spec fn remaining(self) -> Set<u8> {
        self.set.within(self.front as int, self.back as int)
    }

    /// Yields the smallest value that is yet to be yielded.
    pub fn next(&mut self) -> (r: Option<u8>)
        ensures
            r is None <==> old(self).remaining() == Set::<u8>::empty(),
            r matches Some(m) ==> old(self).remaining().contains(m)
                && (forall|x: u8| #[trigger] old(self).remaining().contains(x) ==> m <= x)
                && final(self).remaining() == old(self).remaining().remove(m),
            r is None ==> final(self).remaining() == old(self).remaining(),
    {
        proof {
            use_type_invariant(&*self);
        }
        let ghost start = self.front;
        while self.front < self.back
            invariant
                self.set == old(self).set,
                self.back == old(self).back,
                start <= self.front,
                self.back <= 256,
                start == old(self).front,
                forall|x: u8| start <= x < self.front ==> !(#[trigger] self.set@.contains(x)),
            decreases self.back - self.front,
        {
            let b = self.front as u8;
            self.front = self.front + 1;
            if self.set.contains(b) {
                proof {
                    assert(old(self).remaining().contains(b));
                    assert(self.remaining() =~= old(self).remaining().remove(b));
                }
                return Some(b);
            }
        }
        proof {
            assert(old(self).remaining() =~= Set::<u8>::empty());
            assert(self.remaining() =~= Set::<u8>::empty());
        }
        None
    }

    /// Yields the largest value that is yet to be yielded.
    pub fn next_back(&mut self) -> (r: Option<u8>)
        ensures
            r is None <==> old(self).remaining() == Set::<u8>::empty(),
            r matches Some(m) ==> old(self).remaining().contains(m)
                && (forall|x: u8| #[trigger] old(self).remaining().contains(x) ==> x <= m)
                && final(self).remaining() == old(self).remaining().remove(m),
            r is None ==> final(self).remaining() == old(self).remaining(),
    {
        proof {
            use_type_invariant(&*self);
        }
        let ghost end = self.back;
        while self.front < self.back
            invariant
                self.set == old(self).set,
                self.front == old(self).front,
                self.back <= end,
                end <= 256,
                end == old(self).back,
                forall|x: u8| self.back <= x < end ==> !(#[trigger] self.set@.contains(x)),
            decreases self.back - self.front,
        {
            self.back = self.back - 1;
            let b = self.back as u8;
            if self.set.contains(b) {
                proof {
                    assert(old(self).remaining().contains(b));
                    assert(self.remaining() =~= old(self).remaining().remove(b));
                }
                return Some(b);
            }
        }
        proof {
            assert(old(self).remaining() =~= Set::<u8>::empty());
            assert(self.remaining() =~= Set::<u8>::empty());
        }
        None
    }

    /// The number of values that are yet to be yielded.
    pub fn len(&self) -> (r: usize)
        ensures
            r == self.remaining().len(),
    {
        proof {
            use_type_invariant(self);
        }
        self.set.len_in_range(self.front, self.back)
    }
}


/// Whether `pred` never returns both `true` and `false` for the same value.
pub open spec fn deterministic<F: FnMut(u8) -> bool>(pred: F) -> bool {
    forall|x: u8| !(#[trigger] call_ensures(pred, (x,), true) && call_ensures(pred, (x,), false))
}

/// Removes and yields, in ascending order, the values of a set for which a
/// predicate holds. Created by [`ByteSet::extract_if`].
pub struct ExtractIf<'a, F> {
    /// The set the values are removed from.
    pub set: &'a mut ByteSet,
    /// The lowest value yet to be visited.
    pub front: u16,
    /// One past the highest value yet to be visited.
    pub back: u16,
    /// The predicate that selects the values to remove.
    pub pred: F,
}

impl<'a, F: FnMut(u8) -> bool> ExtractIf<'a, F> {
    /// The current contents of the set.
    pub open spec fn set_view(self) -> Set<u8> {
        self.set@
    }

    /// The predicate.
    pub open spec fn predicate(self) -> F {
        self.pred
    }

    /// The values of the set that are yet to be visited.
    pub closed spec fn remaining(self) -> Set<u8> {
        self.set.within(self.front as int, self.back as int)
    }

    /// Visits the values yet to be visited in ascending order, up to the first
    /// for which the predicate holds; removes that one from the set and yields it.
    pub fn next(&mut self) -> (r: Option<u8>)
        requires
            forall|x: u8| #[trigger] old(self).remaining().contains(x) ==> call_requires(old(self).predicate(), (x,)),
        ensures
            final(self).predicate() == old(self).predicate(),
            *final(final(self).set) == *final(old(self).set),
            final(self).remaining().subset_of(old(self).remaining()),
            final(self).remaining().subset_of(final(self).set_view()),
            match r {
                None => final(self).set_view() == old(self).set_view()
                    && final(self).remaining() == Set::<u8>::empty()
                    && forall|x: u8| #[trigger] old(self).remaining().contains(x)
                        ==> call_ensures(old(self).predicate(), (x,), false),
                Some(m) => old(self).remaining().contains(m)
                    && call_ensures(old(self).predicate(), (m,), true)
                    && final(self).set_view() == old(self).set_view().remove(m)
                    && final(self).remaining() == old(self).remaining().filter(|x: u8| x > m)
                    && forall|x: u8| #[trigger] old(self).remaining().contains(x) && x < m
                        ==> call_ensures(old(self).predicate(), (x,), false),
            },
    {
        let ghost start = self.front;
        while self.front < self.back && self.front < 256
            invariant
                start == old(self).front,
                self.back == old(self).back,
                start <= self.front,
                self.pred == old(self).pred,
                *self.set == *old(self).set,
                *final(self.set) == *final(old(self).set),
                forall|x: u8| #[trigger] old(self).remaining().contains(x) ==> call_requires(self.pred, (x,)),
                forall|x: u8| start <= x < self.front && #[trigger] self.set@.contains(x) ==> call_ensures(self.pred, (x,), false),
            decreases self.back - self.front,
        {
            let b = self.front as u8;
            self.front = self.front + 1;
            if self.set.contains(b) {
                assert(old(self).remaining().contains(b));
                if (self.pred)(b) {
                    self.set.remove(b);
                    proof {
                        assert(self.remaining() =~= old(self).remaining().filter(|x: u8| x > b));
                    }
                    return Some(b);
                }
            }
        }
        proof {
            assert(self.remaining() =~= Set::<u8>::empty());
        }
        None
    }
    /// The number of values that `next` will still yield: the values yet to
    /// be visited for which the predicate holds. The predicate is called on
    /// each value yet to be visited, which is why this takes `&mut self`.
    pub fn len(&mut self) -> (r: usize)
        requires
            forall|x: u8| #[trigger] old(self).remaining().contains(x) ==> call_requires(old(self).predicate(), (x,)),
        ensures
            (exists|chosen: Set<u8>| {
                &&& chosen.subset_of(old(self).remaining())
                &&& r == chosen.len()
                &&& forall|x: u8| #[trigger] chosen.contains(x) ==> call_ensures(old(self).predicate(), (x,), true)
                &&& forall|x: u8|
                    old(self).remaining().contains(x) && !#[trigger] chosen.contains(x)
                        ==> call_ensures(old(self).predicate(), (x,), false)
            }),
            *final(self) == *old(self),
            deterministic(old(self).predicate()) ==> r == old(self).remaining().filter(
                |x: u8| call_ensures(old(self).predicate(), (x,), true),
            ).len(),
    {
        let back = if self.back > 256 { 256 } else { self.back };
        let mut i = self.front;
        let mut count: usize = 0;
        let ghost mut chosen = Set::<u8>::empty();
        while i < back
            invariant
                *self == *old(self),
                back <= 256,
                back <= self.back,
                self.front <= i,
                chosen.finite(),
                count == chosen.len(),
                count <= i - self.front,
                forall|x: u8| #[trigger] self.remaining().contains(x) ==> call_requires(self.pred, (x,)),
                forall|x: u8| #[trigger] chosen.contains(x) ==> self.remaining().contains(x) && x < i
                    && call_ensures(self.pred, (x,), true),
                forall|x: u8|
                    self.remaining().contains(x) && x < i && !#[trigger] chosen.contains(x)
                        ==> call_ensures(self.pred, (x,), false),
            decreases back - i,
        {
            let b = i as u8;
            if self.set.contains(b) {
                assert(self.remaining().contains(b));
                if (self.pred)(b) {
                    proof {
                        chosen = chosen.insert(b);
                    }
                    count = count + 1;
                }
            }
            i = i + 1;
        }
        proof {
            assert forall|x: u8| self.remaining().contains(x) && !#[trigger] chosen.contains(x)
                implies call_ensures(self.pred, (x,), false) by {
                assert(x < i);
            }
            if deterministic(self.pred) {
                assert(chosen =~= self.remaining().filter(|x: u8| call_ensures(self.pred, (x,), true)));
            }
        }
        count
    }

    /// Visits the values yet to be visited in descending order, down to the
    /// first for which the predicate holds; removes that one from the set and
    /// yields it.
    pub fn next_back(&mut self) -> (r: Option<u8>)
        requires
            forall|x: u8| #[trigger] old(self).remaining().contains(x) ==> call_requires(old(self).predicate(), (x,)),
        ensures
            final(self).predicate() == old(self).predicate(),
            *final(final(self).set) == *final(old(self).set),
            final(self).remaining().subset_of(old(self).remaining()),
            final(self).remaining().subset_of(final(self).set_view()),
            match r {
                None => final(self).set_view() == old(self).set_view()
                    && final(self).remaining() == Set::<u8>::empty()
                    && forall|x: u8| #[trigger] old(self).remaining().contains(x)
                        ==> call_ensures(old(self).predicate(), (x,), false),
                Some(m) => old(self).remaining().contains(m)
                    && call_ensures(old(self).predicate(), (m,), true)
                    && final(self).set_view() == old(self).set_view().remove(m)
                    && final(self).remaining() == old(self).remaining().filter(|x: u8| x < m)
                    && forall|x: u8| #[trigger] old(self).remaining().contains(x) && x > m
                        ==> call_ensures(old(self).predicate(), (x,), false),
            },
    {
        if self.back > 256 {
            self.back = 256;
            proof {
                assert(self.remaining() =~= old(self).remaining());
            }
        }
        let ghost end = self.back;
        while self.front < self.back
            invariant
                end <= 256,
                end == if old(self).back > 256 { 256 } else { old(self).back },
                self.front == old(self).front,
                self.back <= end,
                self.pred == old(self).pred,
                *self.set == *old(self).set,
                *final(self.set) == *final(old(self).set),
                forall|x: u8| #[trigger] old(self).remaining().contains(x) ==> call_requires(self.pred, (x,)),
                forall|x: u8| self.back <= x < end && #[trigger] self.set@.contains(x) ==> call_ensures(self.pred, (x,), false),
            decreases self.back - self.front,
        {
            self.back = self.back - 1;
            let b = self.back as u8;
            if self.set.contains(b) {
                assert(old(self).remaining().contains(b));
                if (self.pred)(b) {
                    self.set.remove(b);
                    proof {
                        assert(self.remaining() =~= old(self).remaining().filter(|x: u8| x < b));
                    }
                    return Some(b);
                }
            }
        }
        proof {
            assert(self.remaining() =~= Set::<u8>::empty());
        }
        None
    }
}

impl Not for ByteSet {
    type Output = ByteSet;

    /// The complement: every byte that is not in `self`.
    fn not(self) -> (r: ByteSet)
        ensures
            r@ == Set::<u8>::full().difference(self@),
    {
        let a = self.bytes;
        let r = ByteSet { bytes: [!a[0], !a[1], !a[2], !a[3]] };
        proof {
            lemma_bit_ops();
            assert(forall|k: int| 0 <= k < 4 ==> r.bytes[k] == !a[k]);
            assert(r@ =~= Set::<u8>::full().difference(self@));
            r.lemma_from_set();
        }
        r
    }
}

impl vstd::std_specs::ops::NotSpecImpl for ByteSet {
    open spec fn obeys_not_spec() -> bool {
        true
    }

    open spec fn not_req(self) -> bool {
        true
    }

    open spec fn not_spec(self) -> ByteSet {
        from_set(Set::<u8>::full().difference(self@))
    }
}

impl BitAnd<ByteSet> for ByteSet {
    type Output = ByteSet;

    /// The intersection of `self` and a set.
    fn bitand(self, rhs: ByteSet) -> (r: ByteSet)
        ensures
            r@ == self@.intersect(rhs@),
    {
        let r = self.intersection(rhs);
        proof {
            r.lemma_from_set();
        }
        r
    }
}

impl vstd::std_specs::ops::BitAndSpecImpl<ByteSet> for ByteSet {
    open spec fn obeys_bitand_spec() -> bool {
        true
    }

    open spec fn bitand_req(self, rhs: ByteSet) -> bool {
        true
    }

    open spec fn bitand_spec(self, rhs: ByteSet) -> ByteSet {
        from_set(self@.intersect(rhs@))
    }
}

impl BitOr<ByteSet> for ByteSet {
    type Output = ByteSet;

    /// The union of `self` and a set.
    fn bitor(self, rhs: ByteSet) -> (r: ByteSet)
        ensures
            r@ == self@.union(rhs@),
    {
        let r = self.union(rhs);
        proof {
            r.lemma_from_set();
        }
        r
    }
}

impl vstd::std_specs::ops::BitOrSpecImpl<ByteSet> for ByteSet {
    open spec fn obeys_bitor_spec() -> bool {
        true
    }

    open spec fn bitor_req(self, rhs: ByteSet) -> bool {
        true
    }

    open spec fn bitor_spec(self, rhs: ByteSet) -> ByteSet {
        from_set(self@.union(rhs@))
    }
}

impl BitXor<ByteSet> for ByteSet {
    type Output = ByteSet;

    /// The symmetric difference of `self` and a set.
    fn bitxor(self, rhs: ByteSet) -> (r: ByteSet)
        ensures
            r@ == self@.difference(rhs@).union(rhs@.difference(self@)),
    {
        let r = self.symmetric_difference(rhs);
        proof {
            r.lemma_from_set();
        }
        r
    }
}

impl vstd::std_specs::ops::BitXorSpecImpl<ByteSet> for ByteSet {
    open spec fn obeys_bitxor_spec() -> bool {
        true
    }

    open spec fn bitxor_req(self, rhs: ByteSet) -> bool {
        true
    }

    open spec fn bitxor_spec(self, rhs: ByteSet) -> ByteSet {
        from_set(self@.difference(rhs@).union(rhs@.difference(self@)))
    }
}

impl BitAndAssign<ByteSet> for ByteSet {
    /// Keeps only the values that are also in a set.
    fn bitand_assign(&mut self, rhs: ByteSet)
        ensures
            final(self)@ == old(self)@.intersect(rhs@),
    {
        *self = self.intersection(rhs);
    }
}

impl BitOrAssign<ByteSet> for ByteSet {
    /// Adds a set.
    fn bitor_assign(&mut self, rhs: ByteSet)
        ensures
            final(self)@ == old(self)@.union(rhs@),
    {
        *self = self.union(rhs);
    }
}

impl BitXorAssign<ByteSet> for ByteSet {
    /// Toggles a set.
    fn bitxor_assign(&mut self, rhs: ByteSet)
        ensures
            final(self)@ == old(self)@.difference(rhs@).union(rhs@.difference(old(self)@)),
    {
        *self = self.symmetric_difference(rhs);
    }
}

impl BitAnd<&[u8]> for ByteSet {
    type Output = ByteSet;

    /// The intersection of `self` and the bytes of a slice.
    fn bitand(self, rhs: &[u8]) -> (r: ByteSet)
        ensures
            r@ == self@.intersect(rhs@.to_set()),
    {
        let r = self.intersection(ByteSet::from(rhs));
        proof {
            r.lemma_from_set();
        }
        r
    }
}

impl vstd::std_specs::ops::BitAndSpecImpl<&[u8]> for ByteSet {
    open spec fn obeys_bitand_spec() -> bool {
        true
    }

    open spec fn bitand_req(self, rhs: &[u8]) -> bool {
        true
    }

    open spec fn bitand_spec(self, rhs: &[u8]) -> ByteSet {
        from_set(self@.intersect(rhs@.to_set()))
    }
}

impl BitOr<&[u8]> for ByteSet {
    type Output = ByteSet;

    /// The union of `self` and the bytes of a slice.
    fn bitor(self, rhs: &[u8]) -> (r: ByteSet)
        ensures
            r@ == self@.union(rhs@.to_set()),
    {
        let r = self.union(ByteSet::from(rhs));
        proof {
            r.lemma_from_set();
        }
        r
    }
}

impl vstd::std_specs::ops::BitOrSpecImpl<&[u8]> for ByteSet {
    open spec fn obeys_bitor_spec() -> bool {
        true
    }

    open spec fn bitor_req(self, rhs: &[u8]) -> bool {
        true
    }

    open spec fn bitor_spec(self, rhs: &[u8]) -> ByteSet {
        from_set(self@.union(rhs@.to_set()))
    }
}

impl BitXor<&[u8]> for ByteSet {
    type Output = ByteSet;

    /// The symmetric difference of `self` and the bytes of a slice.
    fn bitxor(self, rhs: &[u8]) -> (r: ByteSet)
        ensures
            r@ == self@.difference(rhs@.to_set()).union(rhs@.to_set().difference(self@)),
    {
        let r = self.symmetric_difference(ByteSet::from(rhs));
        proof {
            r.lemma_from_set();
        }
        r
    }
}

impl vstd::std_specs::ops::BitXorSpecImpl<&[u8]> for ByteSet {
    open spec fn obeys_bitxor_spec() -> bool {
        true
    }

    open spec fn bitxor_req(self, rhs: &[u8]) -> bool {
        true
    }

    open spec fn bitxor_spec(self, rhs: &[u8]) -> ByteSet {
        from_set(self@.difference(rhs@.to_set()).union(rhs@.to_set().difference(self@)))
    }
}

impl BitAndAssign<&[u8]> for ByteSet {
    /// Keeps only the values that are also in the bytes of a slice.
    fn bitand_assign(&mut self, rhs: &[u8])
        ensures
            final(self)@ == old(self)@.intersect(rhs@.to_set()),
    {
        *self = self.intersection(ByteSet::from(rhs));
    }
}

impl BitOrAssign<&[u8]> for ByteSet {
    /// Adds the bytes of a slice.
    fn bitor_assign(&mut self, rhs: &[u8])
        ensures
            final(self)@ == old(self)@.union(rhs@.to_set()),
    {
        *self = self.union(ByteSet::from(rhs));
    }
}

impl BitXorAssign<&[u8]> for ByteSet {
    /// Toggles the bytes of a slice.
    fn bitxor_assign(&mut self, rhs: &[u8])
        ensures
            final(self)@ == old(self)@.difference(rhs@.to_set()).union(rhs@.to_set().difference(old(self)@)),
    {
        *self = self.symmetric_difference(ByteSet::from(rhs));
    }
}

impl<const N: usize> BitAnd<[u8; N]> for ByteSet {
    type Output = ByteSet;

    /// The intersection of `self` and the bytes of an array.
    fn bitand(self, rhs: [u8; N]) -> (r: ByteSet)
        ensures
            r@ == self@.intersect(rhs@.to_set()),
    {
        let r = self.intersection(ByteSet::from(rhs));
        proof {
            r.lemma_from_set();
        }
        r
    }
}

impl<const N: usize> vstd::std_specs::ops::BitAndSpecImpl<[u8; N]> for ByteSet {
    open spec fn obeys_bitand_spec() -> bool {
        true
    }

    open spec fn bitand_req(self, rhs: [u8; N]) -> bool {
        true
    }

    open spec fn bitand_spec(self, rhs: [u8; N]) -> ByteSet {
        from_set(self@.intersect(rhs@.to_set()))
    }
}

impl<const N: usize> BitOr<[u8; N]> for ByteSet {
    type Output = ByteSet;

    /// The union of `self` and the bytes of an array.
    fn bitor(self, rhs: [u8; N]) -> (r: ByteSet)
        ensures
            r@ == self@.union(rhs@.to_set()),
    {
        let r = self.union(ByteSet::from(rhs));
        proof {
            r.lemma_from_set();
        }
        r
    }
}

impl<const N: usize> vstd::std_specs::ops::BitOrSpecImpl<[u8; N]> for ByteSet {
    open spec fn obeys_bitor_spec() -> bool {
        true
    }

    open spec fn bitor_req(self, rhs: [u8; N]) -> bool {
        true
    }

    open spec fn bitor_spec(self, rhs: [u8; N]) -> ByteSet {
        from_set(self@.union(rhs@.to_set()))
    }
}

impl<const N: usize> BitXor<[u8; N]> for ByteSet {
    type Output = ByteSet;

    /// The symmetric difference of `self` and the bytes of an array.
    fn bitxor(self, rhs: [u8; N]) -> (r: ByteSet)
        ensures
            r@ == self@.difference(rhs@.to_set()).union(rhs@.to_set().difference(self@)),
    {
        let r = self.symmetric_difference(ByteSet::from(rhs));
        proof {
            r.lemma_from_set();
        }
        r
    }
}

impl<const N: usize> vstd::std_specs::ops::BitXorSpecImpl<[u8; N]> for ByteSet {
    open spec fn obeys_bitxor_spec() -> bool {
        true
    }

    open spec fn bitxor_req(self, rhs: [u8; N]) -> bool {
        true
    }

    open spec fn bitxor_spec(self, rhs: [u8; N]) -> ByteSet {
        from_set(self@.difference(rhs@.to_set()).union(rhs@.to_set().difference(self@)))
    }
}

impl<const N: usize> BitAndAssign<[u8; N]> for ByteSet {
    /// Keeps only the values that are also in the bytes of an array.
    fn bitand_assign(&mut self, rhs: [u8; N])
        ensures
            final(self)@ == old(self)@.intersect(rhs@.to_set()),
    {
        *self = self.intersection(ByteSet::from(rhs));
    }
}

impl<const N: usize> BitOrAssign<[u8; N]> for ByteSet {
    /// Adds the bytes of an array.
    fn bitor_assign(&mut self, rhs: [u8; N])
        ensures
            final(self)@ == old(self)@.union(rhs@.to_set()),
    {
        *self = self.union(ByteSet::from(rhs));
    }
}

impl<const N: usize> BitXorAssign<[u8; N]> for ByteSet {
    /// Toggles the bytes of an array.
    fn bitxor_assign(&mut self, rhs: [u8; N])
        ensures
            final(self)@ == old(self)@.difference(rhs@.to_set()).union(rhs@.to_set().difference(old(self)@)),
    {
        *self = self.symmetric_difference(ByteSet::from(rhs));
    }
}

impl<const N: usize> BitAnd<&[u8; N]> for ByteSet {
    type Output = ByteSet;

    /// The intersection of `self` and the bytes of an array.
    fn bitand(self, rhs: &[u8; N]) -> (r: ByteSet)
        ensures
            r@ == self@.intersect(rhs@.to_set()),
    {
        let r = self.intersection(ByteSet::from(rhs));
        proof {
            r.lemma_from_set();
        }
        r
    }
}

impl<const N: usize> vstd::std_specs::ops::BitAndSpecImpl<&[u8; N]> for ByteSet {
    open spec fn obeys_bitand_spec() -> bool {
        true
    }

    open spec fn bitand_req(self, rhs: &[u8; N]) -> bool {
        true
    }

    open spec fn bitand_spec(self, rhs: &[u8; N]) -> ByteSet {
        from_set(self@.intersect(rhs@.to_set()))
    }
}

impl<const N: usize> BitOr<&[u8; N]> for ByteSet {
    type Output = ByteSet;

    /// The union of `self` and the bytes of an array.
    fn bitor(self, rhs: &[u8; N]) -> (r: ByteSet)
        ensures
            r@ == self@.union(rhs@.to_set()),
    {
        let r = self.union(ByteSet::from(rhs));
        proof {
            r.lemma_from_set();
        }
        r
    }
}

impl<const N: usize> vstd::std_specs::ops::BitOrSpecImpl<&[u8; N]> for ByteSet {
    open spec fn obeys_bitor_spec() -> bool {
        true
    }

    open spec fn bitor_req(self, rhs: &[u8; N]) -> bool {
        true
    }

    open spec fn bitor_spec(self, rhs: &[u8; N]) -> ByteSet {
        from_set(self@.union(rhs@.to_set()))
    }
}

impl<const N: usize> BitXor<&[u8; N]> for ByteSet {
    type Output = ByteSet;

    /// The symmetric difference of `self` and the bytes of an array.
    fn bitxor(self, rhs: &[u8; N]) -> (r: ByteSet)
        ensures
            r@ == self@.difference(rhs@.to_set()).union(rhs@.to_set().difference(self@)),
    {
        let r = self.symmetric_difference(ByteSet::from(rhs));
        proof {
            r.lemma_from_set();
        }
        r
    }
}

impl<const N: usize> vstd::std_specs::ops::BitXorSpecImpl<&[u8; N]> for ByteSet {
    open spec fn obeys_bitxor_spec() -> bool {
        true
    }

    open spec fn bitxor_req(self, rhs: &[u8; N]) -> bool {
        true
    }

    open spec fn bitxor_spec(self, rhs: &[u8; N]) -> ByteSet {
        from_set(self@.difference(rhs@.to_set()).union(rhs@.to_set().difference(self@)))
    }
}

impl<const N: usize> BitAndAssign<&[u8; N]> for ByteSet {
    /// Keeps only the values that are also in the bytes of an array.
    fn bitand_assign(&mut self, rhs: &[u8; N])
        ensures
            final(self)@ == old(self)@.intersect(rhs@.to_set()),
    {
        *self = self.intersection(ByteSet::from(rhs));
    }
}

impl<const N: usize> BitOrAssign<&[u8; N]> for ByteSet {
    /// Adds the bytes of an array.
    fn bitor_assign(&mut self, rhs: &[u8; N])
        ensures
            final(self)@ == old(self)@.union(rhs@.to_set()),
    {
        *self = self.union(ByteSet::from(rhs));
    }
}

impl<const N: usize> BitXorAssign<&[u8; N]> for ByteSet {
    /// Toggles the bytes of an array.
    fn bitxor_assign(&mut self, rhs: &[u8; N])
        ensures
            final(self)@ == old(self)@.difference(rhs@.to_set()).union(rhs@.to_set().difference(old(self)@)),
    {
        *self = self.symmetric_difference(ByteSet::from(rhs));
    }
}

impl BitAnd<(Bound<u8>, Bound<u8>)> for ByteSet {
    type Output = ByteSet;

    /// The intersection of `self` and the bytes within a pair of bounds.
    fn bitand(self, rhs: (Bound<u8>, Bound<u8>)) -> (r: ByteSet)
        ensures
            r@ == self@.intersect(bounded_set(rhs.0, rhs.1)),
    {
        let r = self.intersection(ByteSet::from(rhs));
        proof {
            r.lemma_from_set();
        }
        r
    }
}

impl vstd::std_specs::ops::BitAndSpecImpl<(Bound<u8>, Bound<u8>)> for ByteSet {
    open spec fn obeys_bitand_spec() -> bool {
        true
    }

    open spec fn bitand_req(self, rhs: (Bound<u8>, Bound<u8>)) -> bool {
        true
    }

    open spec fn bitand_spec(self, rhs: (Bound<u8>, Bound<u8>)) -> ByteSet {
        from_set(self@.intersect(bounded_set(rhs.0, rhs.1)))
    }
}

impl BitOr<(Bound<u8>, Bound<u8>)> for ByteSet {
    type Output = ByteSet;

    /// The union of `self` and the bytes within a pair of bounds.
    fn bitor(self, rhs: (Bound<u8>, Bound<u8>)) -> (r: ByteSet)
        ensures
            r@ == self@.union(bounded_set(rhs.0, rhs.1)),
    {
        let r = self.union(ByteSet::from(rhs));
        proof {
            r.lemma_from_set();
        }
        r
    }
}

impl vstd::std_specs::ops::BitOrSpecImpl<(Bound<u8>, Bound<u8>)> for ByteSet {
    open spec fn obeys_bitor_spec() -> bool {
        true
    }

    open spec fn bitor_req(self, rhs: (Bound<u8>, Bound<u8>)) -> bool {
        true
    }

    open spec fn bitor_spec(self, rhs: (Bound<u8>, Bound<u8>)) -> ByteSet {
        from_set(self@.union(bounded_set(rhs.0, rhs.1)))
    }
}

impl BitXor<(Bound<u8>, Bound<u8>)> for ByteSet {
    type Output = ByteSet;

    /// The symmetric difference of `self` and the bytes within a pair of bounds.
    fn bitxor(self, rhs: (Bound<u8>, Bound<u8>)) -> (r: ByteSet)
        ensures
            r@ == self@.difference(bounded_set(rhs.0, rhs.1)).union(bounded_set(rhs.0, rhs.1).difference(self@)),
    {
        let r = self.symmetric_difference(ByteSet::from(rhs));
        proof {
            r.lemma_from_set();
        }
        r
    }
}

impl vstd::std_specs::ops::BitXorSpecImpl<(Bound<u8>, Bound<u8>)> for ByteSet {
    open spec fn obeys_bitxor_spec() -> bool {
        true
    }

    open spec fn bitxor_req(self, rhs: (Bound<u8>, Bound<u8>)) -> bool {
        true
    }

    open spec fn bitxor_spec(self, rhs: (Bound<u8>, Bound<u8>)) -> ByteSet {
        from_set(self@.difference(bounded_set(rhs.0, rhs.1)).union(bounded_set(rhs.0, rhs.1).difference(self@)))
    }
}

impl BitAndAssign<(Bound<u8>, Bound<u8>)> for ByteSet {
    /// Keeps only the values that are also in the bytes within a pair of bounds.
    fn bitand_assign(&mut self, rhs: (Bound<u8>, Bound<u8>))
        ensures
            final(self)@ == old(self)@.intersect(bounded_set(rhs.0, rhs.1)),
    {
        *self = self.intersection(ByteSet::from(rhs));
    }
}

impl BitOrAssign<(Bound<u8>, Bound<u8>)> for ByteSet {
    /// Adds the bytes within a pair of bounds.
    fn bitor_assign(&mut self, rhs: (Bound<u8>, Bound<u8>))
        ensures
            final(self)@ == old(self)@.union(bounded_set(rhs.0, rhs.1)),
    {
        *self = self.union(ByteSet::from(rhs));
    }
}

impl BitXorAssign<(Bound<u8>, Bound<u8>)> for ByteSet {
    /// Toggles the bytes within a pair of bounds.
    fn bitxor_assign(&mut self, rhs: (Bound<u8>, Bound<u8>))
        ensures
            final(self)@ == old(self)@.difference(bounded_set(rhs.0, rhs.1)).union(bounded_set(rhs.0, rhs.1).difference(old(self)@)),
    {
        *self = self.symmetric_difference(ByteSet::from(rhs));
    }
}

impl BitAnd<(Bound<&u8>, Bound<&u8>)> for ByteSet {
    type Output = ByteSet;

    /// The intersection of `self` and the bytes within a pair of bounds.
    fn bitand(self, rhs: (Bound<&u8>, Bound<&u8>)) -> (r: ByteSet)
        ensures
            r@ == self@.intersect(bounded_set(copied_bound(rhs.0), copied_bound(rhs.1))),
    {
        let r = self.intersection(ByteSet::from(rhs));
        proof {
            r.lemma_from_set();
        }
        r
    }
}

impl vstd::std_specs::ops::BitAndSpecImpl<(Bound<&u8>, Bound<&u8>)> for ByteSet {
    open spec fn obeys_bitand_spec() -> bool {
        true
    }

    open spec fn bitand_req(self, rhs: (Bound<&u8>, Bound<&u8>)) -> bool {
        true
    }

    open spec fn bitand_spec(self, rhs: (Bound<&u8>, Bound<&u8>)) -> ByteSet {
        from_set(self@.intersect(bounded_set(copied_bound(rhs.0), copied_bound(rhs.1))))
    }
}

impl BitOr<(Bound<&u8>, Bound<&u8>)> for ByteSet {
    type Output = ByteSet;

    /// The union of `self` and the bytes within a pair of bounds.
    fn bitor(self, rhs: (Bound<&u8>, Bound<&u8>)) -> (r: ByteSet)
        ensures
            r@ == self@.union(bounded_set(copied_bound(rhs.0), copied_bound(rhs.1))),
    {
        let r = self.union(ByteSet::from(rhs));
        proof {
            r.lemma_from_set();
        }
        r
    }
}

impl vstd::std_specs::ops::BitOrSpecImpl<(Bound<&u8>, Bound<&u8>)> for ByteSet {
    open spec fn obeys_bitor_spec() -> bool {
        true
    }

    open spec fn bitor_req(self, rhs: (Bound<&u8>, Bound<&u8>)) -> bool {
        true
    }

    open spec fn bitor_spec(self, rhs: (Bound<&u8>, Bound<&u8>)) -> ByteSet {
        from_set(self@.union(bounded_set(copied_bound(rhs.0), copied_bound(rhs.1))))
    }
}

impl BitXor<(Bound<&u8>, Bound<&u8>)> for ByteSet {
    type Output = ByteSet;

    /// The symmetric difference of `self` and the bytes within a pair of bounds.
    fn bitxor(self, rhs: (Bound<&u8>, Bound<&u8>)) -> (r: ByteSet)
        ensures
            r@ == self@.difference(bounded_set(copied_bound(rhs.0), copied_bound(rhs.1))).union(bounded_set(copied_bound(rhs.0), copied_bound(rhs.1)).difference(self@)),
    {
        let r = self.symmetric_difference(ByteSet::from(rhs));
        proof {
            r.lemma_from_set();
        }
        r
    }
}

impl vstd::std_specs::ops::BitXorSpecImpl<(Bound<&u8>, Bound<&u8>)> for ByteSet {
    open spec fn obeys_bitxor_spec() -> bool {
        true
    }

    open spec fn bitxor_req(self, rhs: (Bound<&u8>, Bound<&u8>)) -> bool {
        true
    }

    open spec fn bitxor_spec(self, rhs: (Bound<&u8>, Bound<&u8>)) -> ByteSet {
        from_set(self@.difference(bounded_set(copied_bound(rhs.0), copied_bound(rhs.1))).union(bounded_set(copied_bound(rhs.0), copied_bound(rhs.1)).difference(self@)))
    }
}

impl BitAndAssign<(Bound<&u8>, Bound<&u8>)> for ByteSet {
    /// Keeps only the values that are also in the bytes within a pair of bounds.
    fn bitand_assign(&mut self, rhs: (Bound<&u8>, Bound<&u8>))
        ensures
            final(self)@ == old(self)@.intersect(bounded_set(copied_bound(rhs.0), copied_bound(rhs.1))),
    {
        *self = self.intersection(ByteSet::from(rhs));
    }
}

impl BitOrAssign<(Bound<&u8>, Bound<&u8>)> for ByteSet {
    /// Adds the bytes within a pair of bounds.
    fn bitor_assign(&mut self, rhs: (Bound<&u8>, Bound<&u8>))
        ensures
            final(self)@ == old(self)@.union(bounded_set(copied_bound(rhs.0), copied_bound(rhs.1))),
    {
        *self = self.union(ByteSet::from(rhs));
    }
}

impl BitXorAssign<(Bound<&u8>, Bound<&u8>)> for ByteSet {
    /// Toggles the bytes within a pair of bounds.
    fn bitxor_assign(&mut self, rhs: (Bound<&u8>, Bound<&u8>))
        ensures
            final(self)@ == old(self)@.difference(bounded_set(copied_bound(rhs.0), copied_bound(rhs.1))).union(bounded_set(copied_bound(rhs.0), copied_bound(rhs.1)).difference(old(self)@)),
    {
        *self = self.symmetric_difference(ByteSet::from(rhs));
    }
}

impl BitAnd<RangeFull> for ByteSet {
    type Output = ByteSet;

    /// The intersection of `self` and every byte.
    fn bitand(self, rhs: RangeFull) -> (r: ByteSet)
        ensures
            r@ == self@.intersect(Set::<u8>::full()),
    {
        let r = self.intersection(ByteSet::from(rhs));
        proof {
            r.lemma_from_set();
        }
        r
    }
}

impl vstd::std_specs::ops::BitAndSpecImpl<RangeFull> for ByteSet {
    open spec fn obeys_bitand_spec() -> bool {
        true
    }

    open spec fn bitand_req(self, rhs: RangeFull) -> bool {
        true
    }

    open spec fn bitand_spec(self, rhs: RangeFull) -> ByteSet {
        from_set(self@.intersect(Set::<u8>::full()))
    }
}

impl BitOr<RangeFull> for ByteSet {
    type Output = ByteSet;

    /// The union of `self` and every byte.
    fn bitor(self, rhs: RangeFull) -> (r: ByteSet)
        ensures
            r@ == self@.union(Set::<u8>::full()),
    {
        let r = self.union(ByteSet::from(rhs));
        proof {
            r.lemma_from_set();
        }
        r
    }
}

impl vstd::std_specs::ops::BitOrSpecImpl<RangeFull> for ByteSet {
    open spec fn obeys_bitor_spec() -> bool {
        true
    }

    open spec fn bitor_req(self, rhs: RangeFull) -> bool {
        true
    }

    open spec fn bitor_spec(self, rhs: RangeFull) -> ByteSet {
        from_set(self@.union(Set::<u8>::full()))
    }
}

impl BitXor<RangeFull> for ByteSet {
    type Output = ByteSet;

    /// The symmetric difference of `self` and every byte.
    fn bitxor(self, rhs: RangeFull) -> (r: ByteSet)
        ensures
            r@ == self@.difference(Set::<u8>::full()).union(Set::<u8>::full().difference(self@)),
    {
        let r = self.symmetric_difference(ByteSet::from(rhs));
        proof {
            r.lemma_from_set();
        }
        r
    }
}

impl vstd::std_specs::ops::BitXorSpecImpl<RangeFull> for ByteSet {
    open spec fn obeys_bitxor_spec() -> bool {
        true
    }

    open spec fn bitxor_req(self, rhs: RangeFull) -> bool {
        true
    }

    open spec fn bitxor_spec(self, rhs: RangeFull) -> ByteSet {
        from_set(self@.difference(Set::<u8>::full()).union(Set::<u8>::full().difference(self@)))
    }
}

impl BitAndAssign<RangeFull> for ByteSet {
    /// Keeps only the values that are also in every byte.
    fn bitand_assign(&mut self, rhs: RangeFull)
        ensures
            final(self)@ == old(self)@.intersect(Set::<u8>::full()),
    {
        *self = self.intersection(ByteSet::from(rhs));
    }
}

impl BitOrAssign<RangeFull> for ByteSet {
    /// Adds every byte.
    fn bitor_assign(&mut self, rhs: RangeFull)
        ensures
            final(self)@ == old(self)@.union(Set::<u8>::full()),
    {
        *self = self.union(ByteSet::from(rhs));
    }
}

impl BitXorAssign<RangeFull> for ByteSet {
    /// Toggles every byte.
    fn bitxor_assign(&mut self, rhs: RangeFull)
        ensures
            final(self)@ == old(self)@.difference(Set::<u8>::full()).union(Set::<u8>::full().difference(old(self)@)),
    {
        *self = self.symmetric_difference(ByteSet::from(rhs));
    }
}

impl BitAnd<Range<u8>> for ByteSet {
    type Output = ByteSet;

    /// The intersection of `self` and the bytes of a range.
    fn bitand(self, rhs: Range<u8>) -> (r: ByteSet)
        ensures
            r@ == self@.intersect(bounded_set(Bound::Included(rhs.start), Bound::Excluded(rhs.end))),
    {
        let r = self.intersection(ByteSet::from(rhs));
        proof {
            r.lemma_from_set();
        }
        r
    }
}

impl vstd::std_specs::ops::BitAndSpecImpl<Range<u8>> for ByteSet {
    open spec fn obeys_bitand_spec() -> bool {
        true
    }

    open spec fn bitand_req(self, rhs: Range<u8>) -> bool {
        true
    }

    open spec fn bitand_spec(self, rhs: Range<u8>) -> ByteSet {
        from_set(self@.intersect(bounded_set(Bound::Included(rhs.start), Bound::Excluded(rhs.end))))
    }
}

impl BitOr<Range<u8>> for ByteSet {
    type Output = ByteSet;

    /// The union of `self` and the bytes of a range.
    fn bitor(self, rhs: Range<u8>) -> (r: ByteSet)
        ensures
            r@ == self@.union(bounded_set(Bound::Included(rhs.start), Bound::Excluded(rhs.end))),
    {
        let r = self.union(ByteSet::from(rhs));
        proof {
            r.lemma_from_set();
        }
        r
    }
}

impl vstd::std_specs::ops::BitOrSpecImpl<Range<u8>> for ByteSet {
    open spec fn obeys_bitor_spec() -> bool {
        true
    }

    open spec fn bitor_req(self, rhs: Range<u8>) -> bool {
        true
    }

    open spec fn bitor_spec(self, rhs: Range<u8>) -> ByteSet {
        from_set(self@.union(bounded_set(Bound::Included(rhs.start), Bound::Excluded(rhs.end))))
    }
}

impl BitXor<Range<u8>> for ByteSet {
    type Output = ByteSet;

    /// The symmetric difference of `self` and the bytes of a range.
    fn bitxor(self, rhs: Range<u8>) -> (r: ByteSet)
        ensures
            r@ == self@.difference(bounded_set(Bound::Included(rhs.start), Bound::Excluded(rhs.end))).union(bounded_set(Bound::Included(rhs.start), Bound::Excluded(rhs.end)).difference(self@)),
    {
        let r = self.symmetric_difference(ByteSet::from(rhs));
        proof {
            r.lemma_from_set();
        }
        r
    }
}

impl vstd::std_specs::ops::BitXorSpecImpl<Range<u8>> for ByteSet {
    open spec fn obeys_bitxor_spec() -> bool {
        true
    }

    open spec fn bitxor_req(self, rhs: Range<u8>) -> bool {
        true
    }

    open spec fn bitxor_spec(self, rhs: Range<u8>) -> ByteSet {
        from_set(self@.difference(bounded_set(Bound::Included(rhs.start), Bound::Excluded(rhs.end))).union(bounded_set(Bound::Included(rhs.start), Bound::Excluded(rhs.end)).difference(self@)))
    }
}

impl BitAndAssign<Range<u8>> for ByteSet {
    /// Keeps only the values that are also in the bytes of a range.
    fn bitand_assign(&mut self, rhs: Range<u8>)
        ensures
            final(self)@ == old(self)@.intersect(bounded_set(Bound::Included(rhs.start), Bound::Excluded(rhs.end))),
    {
        *self = self.intersection(ByteSet::from(rhs));
    }
}

impl BitOrAssign<Range<u8>> for ByteSet {
    /// Adds the bytes of a range.
    fn bitor_assign(&mut self, rhs: Range<u8>)
        ensures
            final(self)@ == old(self)@.union(bounded_set(Bound::Included(rhs.start), Bound::Excluded(rhs.end))),
    {
        *self = self.union(ByteSet::from(rhs));
    }
}

impl BitXorAssign<Range<u8>> for ByteSet {
    /// Toggles the bytes of a range.
    fn bitxor_assign(&mut self, rhs: Range<u8>)
        ensures
            final(self)@ == old(self)@.difference(bounded_set(Bound::Included(rhs.start), Bound::Excluded(rhs.end))).union(bounded_set(Bound::Included(rhs.start), Bound::Excluded(rhs.end)).difference(old(self)@)),
    {
        *self = self.symmetric_difference(ByteSet::from(rhs));
    }
}

impl BitAnd<Range<&u8>> for ByteSet {
    type Output = ByteSet;

    /// The intersection of `self` and the bytes of a range.
    fn bitand(self, rhs: Range<&u8>) -> (r: ByteSet)
        ensures
            r@ == self@.intersect(bounded_set(Bound::Included(*rhs.start), Bound::Excluded(*rhs.end))),
    {
        let r = self.intersection(ByteSet::from(rhs));
        proof {
            r.lemma_from_set();
        }
        r
    }
}

impl vstd::std_specs::ops::BitAndSpecImpl<Range<&u8>> for ByteSet {
    open spec fn obeys_bitand_spec() -> bool {
        true
    }

    open spec fn bitand_req(self, rhs: Range<&u8>) -> bool {
        true
    }

    open spec fn bitand_spec(self, rhs: Range<&u8>) -> ByteSet {
        from_set(self@.intersect(bounded_set(Bound::Included(*rhs.start), Bound::Excluded(*rhs.end))))
    }
}

impl BitOr<Range<&u8>> for ByteSet {
    type Output = ByteSet;

    /// The union of `self` and the bytes of a range.
    fn bitor(self, rhs: Range<&u8>) -> (r: ByteSet)
        ensures
            r@ == self@.union(bounded_set(Bound::Included(*rhs.start), Bound::Excluded(*rhs.end))),
    {
        let r = self.union(ByteSet::from(rhs));
        proof {
            r.lemma_from_set();
        }
        r
    }
}

impl vstd::std_specs::ops::BitOrSpecImpl<Range<&u8>> for ByteSet {
    open spec fn obeys_bitor_spec() -> bool {
        true
    }

    open spec fn bitor_req(self, rhs: Range<&u8>) -> bool {
        true
    }

    open spec fn bitor_spec(self, rhs: Range<&u8>) -> ByteSet {
        from_set(self@.union(bounded_set(Bound::Included(*rhs.start), Bound::Excluded(*rhs.end))))
    }
}

impl BitXor<Range<&u8>> for ByteSet {
    type Output = ByteSet;

    /// The symmetric difference of `self` and the bytes of a range.
    fn bitxor(self, rhs: Range<&u8>) -> (r: ByteSet)
        ensures
            r@ == self@.difference(bounded_set(Bound::Included(*rhs.start), Bound::Excluded(*rhs.end))).union(bounded_set(Bound::Included(*rhs.start), Bound::Excluded(*rhs.end)).difference(self@)),
    {
        let r = self.symmetric_difference(ByteSet::from(rhs));
        proof {
            r.lemma_from_set();
        }
        r
    }
}

impl vstd::std_specs::ops::BitXorSpecImpl<Range<&u8>> for ByteSet {
    open spec fn obeys_bitxor_spec() -> bool {
        true
    }

    open spec fn bitxor_req(self, rhs: Range<&u8>) -> bool {
        true
    }

    open spec fn bitxor_spec(self, rhs: Range<&u8>) -> ByteSet {
        from_set(self@.difference(bounded_set(Bound::Included(*rhs.start), Bound::Excluded(*rhs.end))).union(bounded_set(Bound::Included(*rhs.start), Bound::Excluded(*rhs.end)).difference(self@)))
    }
}

impl BitAndAssign<Range<&u8>> for ByteSet {
    /// Keeps only the values that are also in the bytes of a range.
    fn bitand_assign(&mut self, rhs: Range<&u8>)
        ensures
            final(self)@ == old(self)@.intersect(bounded_set(Bound::Included(*rhs.start), Bound::Excluded(*rhs.end))),
    {
        *self = self.intersection(ByteSet::from(rhs));
    }
}

impl BitOrAssign<Range<&u8>> for ByteSet {
    /// Adds the bytes of a range.
    fn bitor_assign(&mut self, rhs: Range<&u8>)
        ensures
            final(self)@ == old(self)@.union(bounded_set(Bound::Included(*rhs.start), Bound::Excluded(*rhs.end))),
    {
        *self = self.union(ByteSet::from(rhs));
    }
}

impl BitXorAssign<Range<&u8>> for ByteSet {
    /// Toggles the bytes of a range.
    fn bitxor_assign(&mut self, rhs: Range<&u8>)
        ensures
            final(self)@ == old(self)@.difference(bounded_set(Bound::Included(*rhs.start), Bound::Excluded(*rhs.end))).union(bounded_set(Bound::Included(*rhs.start), Bound::Excluded(*rhs.end)).difference(old(self)@)),
    {
        *self = self.symmetric_difference(ByteSet::from(rhs));
    }
}

impl BitAnd<RangeFrom<u8>> for ByteSet {
    type Output = ByteSet;

    /// The intersection of `self` and the bytes of a range.
    fn bitand(self, rhs: RangeFrom<u8>) -> (r: ByteSet)
        ensures
            r@ == self@.intersect(bounded_set(Bound::Included(rhs.start), Bound::Unbounded)),
    {
        let r = self.intersection(ByteSet::from(rhs));
        proof {
            r.lemma_from_set();
        }
        r
    }
}

impl vstd::std_specs::ops::BitAndSpecImpl<RangeFrom<u8>> for ByteSet {
    open spec fn obeys_bitand_spec() -> bool {
        true
    }

    open spec fn bitand_req(self, rhs: RangeFrom<u8>) -> bool {
        true
    }

    open spec fn bitand_spec(self, rhs: RangeFrom<u8>) -> ByteSet {
        from_set(self@.intersect(bounded_set(Bound::Included(rhs.start), Bound::Unbounded)))
    }
}

impl BitOr<RangeFrom<u8>> for ByteSet {
    type Output = ByteSet;

    /// The union of `self` and the bytes of a range.
    fn bitor(self, rhs: RangeFrom<u8>) -> (r: ByteSet)
        ensures
            r@ == self@.union(bounded_set(Bound::Included(rhs.start), Bound::Unbounded)),
    {
        let r = self.union(ByteSet::from(rhs));
        proof {
            r.lemma_from_set();
        }
        r
    }
}

impl vstd::std_specs::ops::BitOrSpecImpl<RangeFrom<u8>> for ByteSet {
    open spec fn obeys_bitor_spec() -> bool {
        true
    }

    open spec fn bitor_req(self, rhs: RangeFrom<u8>) -> bool {
        true
    }

    open spec fn bitor_spec(self, rhs: RangeFrom<u8>) -> ByteSet {
        from_set(self@.union(bounded_set(Bound::Included(rhs.start), Bound::Unbounded)))
    }
}

impl BitXor<RangeFrom<u8>> for ByteSet {
    type Output = ByteSet;

    /// The symmetric difference of `self` and the bytes of a range.
    fn bitxor(self, rhs: RangeFrom<u8>) -> (r: ByteSet)
        ensures
            r@ == self@.difference(bounded_set(Bound::Included(rhs.start), Bound::Unbounded)).union(bounded_set(Bound::Included(rhs.start), Bound::Unbounded).difference(self@)),
    {
        let r = self.symmetric_difference(ByteSet::from(rhs));
        proof {
            r.lemma_from_set();
        }
        r
    }
}

impl vstd::std_specs::ops::BitXorSpecImpl<RangeFrom<u8>> for ByteSet {
    open spec fn obeys_bitxor_spec() -> bool {
        true
    }

    open spec fn bitxor_req(self, rhs: RangeFrom<u8>) -> bool {
        true
    }

    open spec fn bitxor_spec(self, rhs: RangeFrom<u8>) -> ByteSet {
        from_set(self@.difference(bounded_set(Bound::Included(rhs.start), Bound::Unbounded)).union(bounded_set(Bound::Included(rhs.start), Bound::Unbounded).difference(self@)))
    }
}

impl BitAndAssign<RangeFrom<u8>> for ByteSet {
    /// Keeps only the values that are also in the bytes of a range.
    fn bitand_assign(&mut self, rhs: RangeFrom<u8>)
        ensures
            final(self)@ == old(self)@.intersect(bounded_set(Bound::Included(rhs.start), Bound::Unbounded)),
    {
        *self = self.intersection(ByteSet::from(rhs));
    }
}

impl BitOrAssign<RangeFrom<u8>> for ByteSet {
    /// Adds the bytes of a range.
    fn bitor_assign(&mut self, rhs: RangeFrom<u8>)
        ensures
            final(self)@ == old(self)@.union(bounded_set(Bound::Included(rhs.start), Bound::Unbounded)),
    {
        *self = self.union(ByteSet::from(rhs));
    }
}

impl BitXorAssign<RangeFrom<u8>> for ByteSet {
    /// Toggles the bytes of a range.
    fn bitxor_assign(&mut self, rhs: RangeFrom<u8>)
        ensures
            final(self)@ == old(self)@.difference(bounded_set(Bound::Included(rhs.start), Bound::Unbounded)).union(bounded_set(Bound::Included(rhs.start), Bound::Unbounded).difference(old(self)@)),
    {
        *self = self.symmetric_difference(ByteSet::from(rhs));
    }
}

impl BitAnd<RangeFrom<&u8>> for ByteSet {
    type Output = ByteSet;

    /// The intersection of `self` and the bytes of a range.
    fn bitand(self, rhs: RangeFrom<&u8>) -> (r: ByteSet)
        ensures
            r@ == self@.intersect(bounded_set(Bound::Included(*rhs.start), Bound::Unbounded)),
    {
        let r = self.intersection(ByteSet::from(rhs));
        proof {
            r.lemma_from_set();
        }
        r
    }
}

impl vstd::std_specs::ops::BitAndSpecImpl<RangeFrom<&u8>> for ByteSet {
    open spec fn obeys_bitand_spec() -> bool {
        true
    }

    open spec fn bitand_req(self, rhs: RangeFrom<&u8>) -> bool {
        true
    }

    open spec fn bitand_spec(self, rhs: RangeFrom<&u8>) -> ByteSet {
        from_set(self@.intersect(bounded_set(Bound::Included(*rhs.start), Bound::Unbounded)))
    }
}

impl BitOr<RangeFrom<&u8>> for ByteSet {
    type Output = ByteSet;

    /// The union of `self` and the bytes of a range.
    fn bitor(self, rhs: RangeFrom<&u8>) -> (r: ByteSet)
        ensures
            r@ == self@.union(bounded_set(Bound::Included(*rhs.start), Bound::Unbounded)),
    {
        let r = self.union(ByteSet::from(rhs));
        proof {
            r.lemma_from_set();
        }
        r
    }
}

impl vstd::std_specs::ops::BitOrSpecImpl<RangeFrom<&u8>> for ByteSet {
    open spec fn obeys_bitor_spec() -> bool {
        true
    }

    open spec fn bitor_req(self, rhs: RangeFrom<&u8>) -> bool {
        true
    }

    open spec fn bitor_spec(self, rhs: RangeFrom<&u8>) -> ByteSet {
        from_set(self@.union(bounded_set(Bound::Included(*rhs.start), Bound::Unbounded)))
    }
}

impl BitXor<RangeFrom<&u8>> for ByteSet {
    type Output = ByteSet;

    /// The symmetric difference of `self` and the bytes of a range.
    fn bitxor(self, rhs: RangeFrom<&u8>) -> (r: ByteSet)
        ensures
            r@ == self@.difference(bounded_set(Bound::Included(*rhs.start), Bound::Unbounded)).union(bounded_set(Bound::Included(*rhs.start), Bound::Unbounded).difference(self@)),
    {
        let r = self.symmetric_difference(ByteSet::from(rhs));
        proof {
            r.lemma_from_set();
        }
        r
    }
}

impl vstd::std_specs::ops::BitXorSpecImpl<RangeFrom<&u8>> for ByteSet {
    open spec fn obeys_bitxor_spec() -> bool {
        true
    }

    open spec fn bitxor_req(self, rhs: RangeFrom<&u8>) -> bool {
        true
    }

    open spec fn bitxor_spec(self, rhs: RangeFrom<&u8>) -> ByteSet {
        from_set(self@.difference(bounded_set(Bound::Included(*rhs.start), Bound::Unbounded)).union(bounded_set(Bound::Included(*rhs.start), Bound::Unbounded).difference(self@)))
    }
}

impl BitAndAssign<RangeFrom<&u8>> for ByteSet {
    /// Keeps only the values that are also in the bytes of a range.
    fn bitand_assign(&mut self, rhs: RangeFrom<&u8>)
        ensures
            final(self)@ == old(self)@.intersect(bounded_set(Bound::Included(*rhs.start), Bound::Unbounded)),
    {
        *self = self.intersection(ByteSet::from(rhs));
    }
}

impl BitOrAssign<RangeFrom<&u8>> for ByteSet {
    /// Adds the bytes of a range.
    fn bitor_assign(&mut self, rhs: RangeFrom<&u8>)
        ensures
            final(self)@ == old(self)@.union(bounded_set(Bound::Included(*rhs.start), Bound::Unbounded)),
    {
        *self = self.union(ByteSet::from(rhs));
    }
}

impl BitXorAssign<RangeFrom<&u8>> for ByteSet {
    /// Toggles the bytes of a range.
    fn bitxor_assign(&mut self, rhs: RangeFrom<&u8>)
        ensures
            final(self)@ == old(self)@.difference(bounded_set(Bound::Included(*rhs.start), Bound::Unbounded)).union(bounded_set(Bound::Included(*rhs.start), Bound::Unbounded).difference(old(self)@)),
    {
        *self = self.symmetric_difference(ByteSet::from(rhs));
    }
}

impl BitAnd<RangeTo<u8>> for ByteSet {
    type Output = ByteSet;

    /// The intersection of `self` and the bytes of a range.
    fn bitand(self, rhs: RangeTo<u8>) -> (r: ByteSet)
        ensures
            r@ == self@.intersect(bounded_set(Bound::Unbounded, Bound::Excluded(rhs.end))),
    {
        let r = self.intersection(ByteSet::from(rhs));
        proof {
            r.lemma_from_set();
        }
        r
    }
}

impl vstd::std_specs::ops::BitAndSpecImpl<RangeTo<u8>> for ByteSet {
    open spec fn obeys_bitand_spec() -> bool {
        true
    }

    open spec fn bitand_req(self, rhs: RangeTo<u8>) -> bool {
        true
    }

    open spec fn bitand_spec(self, rhs: RangeTo<u8>) -> ByteSet {
        from_set(self@.intersect(bounded_set(Bound::Unbounded, Bound::Excluded(rhs.end))))
    }
}

impl BitOr<RangeTo<u8>> for ByteSet {
    type Output = ByteSet;

    /// The union of `self` and the bytes of a range.
    fn bitor(self, rhs: RangeTo<u8>) -> (r: ByteSet)
        ensures
            r@ == self@.union(bounded_set(Bound::Unbounded, Bound::Excluded(rhs.end))),
    {
        let r = self.union(ByteSet::from(rhs));
        proof {
            r.lemma_from_set();
        }
        r
    }
}

impl vstd::std_specs::ops::BitOrSpecImpl<RangeTo<u8>> for ByteSet {
    open spec fn obeys_bitor_spec() -> bool {
        true
    }

    open spec fn bitor_req(self, rhs: RangeTo<u8>) -> bool {
        true
    }

    open spec fn bitor_spec(self, rhs: RangeTo<u8>) -> ByteSet {
        from_set(self@.union(bounded_set(Bound::Unbounded, Bound::Excluded(rhs.end))))
    }
}

impl BitXor<RangeTo<u8>> for ByteSet {
    type Output = ByteSet;

    /// The symmetric difference of `self` and the bytes of a range.
    fn bitxor(self, rhs: RangeTo<u8>) -> (r: ByteSet)
        ensures
            r@ == self@.difference(bounded_set(Bound::Unbounded, Bound::Excluded(rhs.end))).union(bounded_set(Bound::Unbounded, Bound::Excluded(rhs.end)).difference(self@)),
    {
        let r = self.symmetric_difference(ByteSet::from(rhs));
        proof {
            r.lemma_from_set();
        }
        r
    }
}

impl vstd::std_specs::ops::BitXorSpecImpl<RangeTo<u8>> for ByteSet {
    open spec fn obeys_bitxor_spec() -> bool {
        true
    }

    open spec fn bitxor_req(self, rhs: RangeTo<u8>) -> bool {
        true
    }

    open spec fn bitxor_spec(self, rhs: RangeTo<u8>) -> ByteSet {
        from_set(self@.difference(bounded_set(Bound::Unbounded, Bound::Excluded(rhs.end))).union(bounded_set(Bound::Unbounded, Bound::Excluded(rhs.end)).difference(self@)))
    }
}

impl BitAndAssign<RangeTo<u8>> for ByteSet {
    /// Keeps only the values that are also in the bytes of a range.
    fn bitand_assign(&mut self, rhs: RangeTo<u8>)
        ensures
            final(self)@ == old(self)@.intersect(bounded_set(Bound::Unbounded, Bound::Excluded(rhs.end))),
    {
        *self = self.intersection(ByteSet::from(rhs));
    }
}

impl BitOrAssign<RangeTo<u8>> for ByteSet {
    /// Adds the bytes of a range.
    fn bitor_assign(&mut self, rhs: RangeTo<u8>)
        ensures
            final(self)@ == old(self)@.union(bounded_set(Bound::Unbounded, Bound::Excluded(rhs.end))),
    {
        *self = self.union(ByteSet::from(rhs));
    }
}

impl BitXorAssign<RangeTo<u8>> for ByteSet {
    /// Toggles the bytes of a range.
    fn bitxor_assign(&mut self, rhs: RangeTo<u8>)
        ensures
            final(self)@ == old(self)@.difference(bounded_set(Bound::Unbounded, Bound::Excluded(rhs.end))).union(bounded_set(Bound::Unbounded, Bound::Excluded(rhs.end)).difference(old(self)@)),
    {
        *self = self.symmetric_difference(ByteSet::from(rhs));
    }
}

impl BitAnd<RangeTo<&u8>> for ByteSet {
    type Output = ByteSet;

    /// The intersection of `self` and the bytes of a range.
    fn bitand(self, rhs: RangeTo<&u8>) -> (r: ByteSet)
        ensures
            r@ == self@.intersect(bounded_set(Bound::Unbounded, Bound::Excluded(*rhs.end))),
    {
        let r = self.intersection(ByteSet::from(rhs));
        proof {
            r.lemma_from_set();
        }
        r
    }
}

impl vstd::std_specs::ops::BitAndSpecImpl<RangeTo<&u8>> for ByteSet {
    open spec fn obeys_bitand_spec() -> bool {
        true
    }

    open spec fn bitand_req(self, rhs: RangeTo<&u8>) -> bool {
        true
    }

    open spec fn bitand_spec(self, rhs: RangeTo<&u8>) -> ByteSet {
        from_set(self@.intersect(bounded_set(Bound::Unbounded, Bound::Excluded(*rhs.end))))
    }
}

impl BitOr<RangeTo<&u8>> for ByteSet {
    type Output = ByteSet;

    /// The union of `self` and the bytes of a range.
    fn bitor(self, rhs: RangeTo<&u8>) -> (r: ByteSet)
        ensures
            r@ == self@.union(bounded_set(Bound::Unbounded, Bound::Excluded(*rhs.end))),
    {
        let r = self.union(ByteSet::from(rhs));
        proof {
            r.lemma_from_set();
        }
        r
    }
}

impl vstd::std_specs::ops::BitOrSpecImpl<RangeTo<&u8>> for ByteSet {
    open spec fn obeys_bitor_spec() -> bool {
        true
    }

    open spec fn bitor_req(self, rhs: RangeTo<&u8>) -> bool {
        true
    }

    open spec fn bitor_spec(self, rhs: RangeTo<&u8>) -> ByteSet {
        from_set(self@.union(bounded_set(Bound::Unbounded, Bound::Excluded(*rhs.end))))
    }
}

impl BitXor<RangeTo<&u8>> for ByteSet {
    type Output = ByteSet;

    /// The symmetric difference of `self` and the bytes of a range.
    fn bitxor(self, rhs: RangeTo<&u8>) -> (r: ByteSet)
        ensures
            r@ == self@.difference(bounded_set(Bound::Unbounded, Bound::Excluded(*rhs.end))).union(bounded_set(Bound::Unbounded, Bound::Excluded(*rhs.end)).difference(self@)),
    {
        let r = self.symmetric_difference(ByteSet::from(rhs));
        proof {
            r.lemma_from_set();
        }
        r
    }
}

impl vstd::std_specs::ops::BitXorSpecImpl<RangeTo<&u8>> for ByteSet {
    open spec fn obeys_bitxor_spec() -> bool {
        true
    }

    open spec fn bitxor_req(self, rhs: RangeTo<&u8>) -> bool {
        true
    }

    open spec fn bitxor_spec(self, rhs: RangeTo<&u8>) -> ByteSet {
        from_set(self@.difference(bounded_set(Bound::Unbounded, Bound::Excluded(*rhs.end))).union(bounded_set(Bound::Unbounded, Bound::Excluded(*rhs.end)).difference(self@)))
    }
}

impl BitAndAssign<RangeTo<&u8>> for ByteSet {
    /// Keeps only the values that are also in the bytes of a range.
    fn bitand_assign(&mut self, rhs: RangeTo<&u8>)
        ensures
            final(self)@ == old(self)@.intersect(bounded_set(Bound::Unbounded, Bound::Excluded(*rhs.end))),
    {
        *self = self.intersection(ByteSet::from(rhs));
    }
}

impl BitOrAssign<RangeTo<&u8>> for ByteSet {
    /// Adds the bytes of a range.
    fn bitor_assign(&mut self, rhs: RangeTo<&u8>)
        ensures
            final(self)@ == old(self)@.union(bounded_set(Bound::Unbounded, Bound::Excluded(*rhs.end))),
    {
        *self = self.union(ByteSet::from(rhs));
    }
}

impl BitXorAssign<RangeTo<&u8>> for ByteSet {
    /// Toggles the bytes of a range.
    fn bitxor_assign(&mut self, rhs: RangeTo<&u8>)
        ensures
            final(self)@ == old(self)@.difference(bounded_set(Bound::Unbounded, Bound::Excluded(*rhs.end))).union(bounded_set(Bound::Unbounded, Bound::Excluded(*rhs.end)).difference(old(self)@)),
    {
        *self = self.symmetric_difference(ByteSet::from(rhs));
    }
}

impl BitAnd<RangeToInclusive<u8>> for ByteSet {
    type Output = ByteSet;

    /// The intersection of `self` and the bytes of a range.
    fn bitand(self, rhs: RangeToInclusive<u8>) -> (r: ByteSet)
        ensures
            r@ == self@.intersect(bounded_set(Bound::Unbounded, Bound::Included(rhs.end))),
    {
        let r = self.intersection(ByteSet::from(rhs));
        proof {
            r.lemma_from_set();
        }
        r
    }
}

impl vstd::std_specs::ops::BitAndSpecImpl<RangeToInclusive<u8>> for ByteSet {
    open spec fn obeys_bitand_spec() -> bool {
        true
    }

    open spec fn bitand_req(self, rhs: RangeToInclusive<u8>) -> bool {
        true
    }

    open spec fn bitand_spec(self, rhs: RangeToInclusive<u8>) -> ByteSet {
        from_set(self@.intersect(bounded_set(Bound::Unbounded, Bound::Included(rhs.end))))
    }
}

impl BitOr<RangeToInclusive<u8>> for ByteSet {
    type Output = ByteSet;

    /// The union of `self` and the bytes of a range.
    fn bitor(self, rhs: RangeToInclusive<u8>) -> (r: ByteSet)
        ensures
            r@ == self@.union(bounded_set(Bound::Unbounded, Bound::Included(rhs.end))),
    {
        let r = self.union(ByteSet::from(rhs));
        proof {
            r.lemma_from_set();
        }
        r
    }
}

impl vstd::std_specs::ops::BitOrSpecImpl<RangeToInclusive<u8>> for ByteSet {
    open spec fn obeys_bitor_spec() -> bool {
        true
    }

    open spec fn bitor_req(self, rhs: RangeToInclusive<u8>) -> bool {
        true
    }

    open spec fn bitor_spec(self, rhs: RangeToInclusive<u8>) -> ByteSet {
        from_set(self@.union(bounded_set(Bound::Unbounded, Bound::Included(rhs.end))))
    }
}

impl BitXor<RangeToInclusive<u8>> for ByteSet {
    type Output = ByteSet;

    /// The symmetric difference of `self` and the bytes of a range.
    fn bitxor(self, rhs: RangeToInclusive<u8>) -> (r: ByteSet)
        ensures
            r@ == self@.difference(bounded_set(Bound::Unbounded, Bound::Included(rhs.end))).union(bounded_set(Bound::Unbounded, Bound::Included(rhs.end)).difference(self@)),
    {
        let r = self.symmetric_difference(ByteSet::from(rhs));
        proof {
            r.lemma_from_set();
        }
        r
    }
}

impl vstd::std_specs::ops::BitXorSpecImpl<RangeToInclusive<u8>> for ByteSet {
    open spec fn obeys_bitxor_spec() -> bool {
        true
    }

    open spec fn bitxor_req(self, rhs: RangeToInclusive<u8>) -> bool {
        true
    }

    open spec fn bitxor_spec(self, rhs: RangeToInclusive<u8>) -> ByteSet {
        from_set(self@.difference(bounded_set(Bound::Unbounded, Bound::Included(rhs.end))).union(bounded_set(Bound::Unbounded, Bound::Included(rhs.end)).difference(self@)))
    }
}

impl BitAndAssign<RangeToInclusive<u8>> for ByteSet {
    /// Keeps only the values that are also in the bytes of a range.
    fn bitand_assign(&mut self, rhs: RangeToInclusive<u8>)
        ensures
            final(self)@ == old(self)@.intersect(bounded_set(Bound::Unbounded, Bound::Included(rhs.end))),
    {
        *self = self.intersection(ByteSet::from(rhs));
    }
}

impl BitOrAssign<RangeToInclusive<u8>> for ByteSet {
    /// Adds the bytes of a range.
    fn bitor_assign(&mut self, rhs: RangeToInclusive<u8>)
        ensures
            final(self)@ == old(self)@.union(bounded_set(Bound::Unbounded, Bound::Included(rhs.end))),
    {
        *self = self.union(ByteSet::from(rhs));
    }
}

impl BitXorAssign<RangeToInclusive<u8>> for ByteSet {
    /// Toggles the bytes of a range.
    fn bitxor_assign(&mut self, rhs: RangeToInclusive<u8>)
        ensures
            final(self)@ == old(self)@.difference(bounded_set(Bound::Unbounded, Bound::Included(rhs.end))).union(bounded_set(Bound::Unbounded, Bound::Included(rhs.end)).difference(old(self)@)),
    {
        *self = self.symmetric_difference(ByteSet::from(rhs));
    }
}

impl BitAnd<RangeToInclusive<&u8>> for ByteSet {
    type Output = ByteSet;

    /// The intersection of `self` and the bytes of a range.
    fn bitand(self, rhs: RangeToInclusive<&u8>) -> (r: ByteSet)
        ensures
            r@ == self@.intersect(bounded_set(Bound::Unbounded, Bound::Included(*rhs.end))),
    {
        let r = self.intersection(ByteSet::from(rhs));
        proof {
            r.lemma_from_set();
        }
        r
    }
}

impl vstd::std_specs::ops::BitAndSpecImpl<RangeToInclusive<&u8>> for ByteSet {
    open spec fn obeys_bitand_spec() -> bool {
        true
    }

    open spec fn bitand_req(self, rhs: RangeToInclusive<&u8>) -> bool {
        true
    }

    open spec fn bitand_spec(self, rhs: RangeToInclusive<&u8>) -> ByteSet {
        from_set(self@.intersect(bounded_set(Bound::Unbounded, Bound::Included(*rhs.end))))
    }
}

impl BitOr<RangeToInclusive<&u8>> for ByteSet {
    type Output = ByteSet;

    /// The union of `self` and the bytes of a range.
    fn bitor(self, rhs: RangeToInclusive<&u8>) -> (r: ByteSet)
        ensures
            r@ == self@.union(bounded_set(Bound::Unbounded, Bound::Included(*rhs.end))),
    {
        let r = self.union(ByteSet::from(rhs));
        proof {
            r.lemma_from_set();
        }
        r
    }
}

impl vstd::std_specs::ops::BitOrSpecImpl<RangeToInclusive<&u8>> for ByteSet {
    open spec fn obeys_bitor_spec() -> bool {
        true
    }

    open spec fn bitor_req(self, rhs: RangeToInclusive<&u8>) -> bool {
        true
    }

    open spec fn bitor_spec(self, rhs: RangeToInclusive<&u8>) -> ByteSet {
        from_set(self@.union(bounded_set(Bound::Unbounded, Bound::Included(*rhs.end))))
    }
}

impl BitXor<RangeToInclusive<&u8>> for ByteSet {
    type Output = ByteSet;

    /// The symmetric difference of `self` and the bytes of a range.
    fn bitxor(self, rhs: RangeToInclusive<&u8>) -> (r: ByteSet)
        ensures
            r@ == self@.difference(bounded_set(Bound::Unbounded, Bound::Included(*rhs.end))).union(bounded_set(Bound::Unbounded, Bound::Included(*rhs.end)).difference(self@)),
    {
        let r = self.symmetric_difference(ByteSet::from(rhs));
        proof {
            r.lemma_from_set();
        }
        r
    }
}

impl vstd::std_specs::ops::BitXorSpecImpl<RangeToInclusive<&u8>> for ByteSet {
    open spec fn obeys_bitxor_spec() -> bool {
        true
    }

    open spec fn bitxor_req(self, rhs: RangeToInclusive<&u8>) -> bool {
        true
    }

    open spec fn bitxor_spec(self, rhs: RangeToInclusive<&u8>) -> ByteSet {
        from_set(self@.difference(bounded_set(Bound::Unbounded, Bound::Included(*rhs.end))).union(bounded_set(Bound::Unbounded, Bound::Included(*rhs.end)).difference(self@)))
    }
}

impl BitAndAssign<RangeToInclusive<&u8>> for ByteSet {
    /// Keeps only the values that are also in the bytes of a range.
    fn bitand_assign(&mut self, rhs: RangeToInclusive<&u8>)
        ensures
            final(self)@ == old(self)@.intersect(bounded_set(Bound::Unbounded, Bound::Included(*rhs.end))),
    {
        *self = self.intersection(ByteSet::from(rhs));
    }
}

impl BitOrAssign<RangeToInclusive<&u8>> for ByteSet {
    /// Adds the bytes of a range.
    fn bitor_assign(&mut self, rhs: RangeToInclusive<&u8>)
        ensures
            final(self)@ == old(self)@.union(bounded_set(Bound::Unbounded, Bound::Included(*rhs.end))),
    {
        *self = self.union(ByteSet::from(rhs));
    }
}

impl BitXorAssign<RangeToInclusive<&u8>> for ByteSet {
    /// Toggles the bytes of a range.
    fn bitxor_assign(&mut self, rhs: RangeToInclusive<&u8>)
        ensures
            final(self)@ == old(self)@.difference(bounded_set(Bound::Unbounded, Bound::Included(*rhs.end))).union(bounded_set(Bound::Unbounded, Bound::Included(*rhs.end)).difference(old(self)@)),
    {
        *self = self.symmetric_difference(ByteSet::from(rhs));
    }
}

impl BitAnd<RangeInclusive<u8>> for ByteSet {
    type Output = ByteSet;

    /// The intersection of `self` and the bytes of a range.
    fn bitand(self, rhs: RangeInclusive<u8>) -> (r: ByteSet)
        ensures
            r@ == self@.intersect(bounded_set(Bound::Included(rhs@.start), inclusive_end(rhs))),
    {
        let r = self.intersection(ByteSet::from(rhs));
        proof {
            r.lemma_from_set();
        }
        r
    }
}

impl vstd::std_specs::ops::BitAndSpecImpl<RangeInclusive<u8>> for ByteSet {
    open spec fn obeys_bitand_spec() -> bool {
        true
    }

    open spec fn bitand_req(self, rhs: RangeInclusive<u8>) -> bool {
        true
    }

    open spec fn bitand_spec(self, rhs: RangeInclusive<u8>) -> ByteSet {
        from_set(self@.intersect(bounded_set(Bound::Included(rhs@.start), inclusive_end(rhs))))
    }
}

impl BitOr<RangeInclusive<u8>> for ByteSet {
    type Output = ByteSet;

    /// The union of `self` and the bytes of a range.
    fn bitor(self, rhs: RangeInclusive<u8>) -> (r: ByteSet)
        ensures
            r@ == self@.union(bounded_set(Bound::Included(rhs@.start), inclusive_end(rhs))),
    {
        let r = self.union(ByteSet::from(rhs));
        proof {
            r.lemma_from_set();
        }
        r
    }
}

impl vstd::std_specs::ops::BitOrSpecImpl<RangeInclusive<u8>> for ByteSet {
    open spec fn obeys_bitor_spec() -> bool {
        true
    }

    open spec fn bitor_req(self, rhs: RangeInclusive<u8>) -> bool {
        true
    }

    open spec fn bitor_spec(self, rhs: RangeInclusive<u8>) -> ByteSet {
        from_set(self@.union(bounded_set(Bound::Included(rhs@.start), inclusive_end(rhs))))
    }
}

impl BitXor<RangeInclusive<u8>> for ByteSet {
    type Output = ByteSet;

    /// The symmetric difference of `self` and the bytes of a range.
    fn bitxor(self, rhs: RangeInclusive<u8>) -> (r: ByteSet)
        ensures
            r@ == self@.difference(bounded_set(Bound::Included(rhs@.start), inclusive_end(rhs))).union(bounded_set(Bound::Included(rhs@.start), inclusive_end(rhs)).difference(self@)),
    {
        let r = self.symmetric_difference(ByteSet::from(rhs));
        proof {
            r.lemma_from_set();
        }
        r
    }
}

impl vstd::std_specs::ops::BitXorSpecImpl<RangeInclusive<u8>> for ByteSet {
    open spec fn obeys_bitxor_spec() -> bool {
        true
    }

    open spec fn bitxor_req(self, rhs: RangeInclusive<u8>) -> bool {
        true
    }

    open spec fn bitxor_spec(self, rhs: RangeInclusive<u8>) -> ByteSet {
        from_set(self@.difference(bounded_set(Bound::Included(rhs@.start), inclusive_end(rhs))).union(bounded_set(Bound::Included(rhs@.start), inclusive_end(rhs)).difference(self@)))
    }
}

impl BitAndAssign<RangeInclusive<u8>> for ByteSet {
    /// Keeps only the values that are also in the bytes of a range.
    fn bitand_assign(&mut self, rhs: RangeInclusive<u8>)
        ensures
            final(self)@ == old(self)@.intersect(bounded_set(Bound::Included(rhs@.start), inclusive_end(rhs))),
    {
        *self = self.intersection(ByteSet::from(rhs));
    }
}

impl BitOrAssign<RangeInclusive<u8>> for ByteSet {
    /// Adds the bytes of a range.
    fn bitor_assign(&mut self, rhs: RangeInclusive<u8>)
        ensures
            final(self)@ == old(self)@.union(bounded_set(Bound::Included(rhs@.start), inclusive_end(rhs))),
    {
        *self = self.union(ByteSet::from(rhs));
    }
}

impl BitXorAssign<RangeInclusive<u8>> for ByteSet {
    /// Toggles the bytes of a range.
    fn bitxor_assign(&mut self, rhs: RangeInclusive<u8>)
        ensures
            final(self)@ == old(self)@.difference(bounded_set(Bound::Included(rhs@.start), inclusive_end(rhs))).union(bounded_set(Bound::Included(rhs@.start), inclusive_end(rhs)).difference(old(self)@)),
    {
        *self = self.symmetric_difference(ByteSet::from(rhs));
    }
}

impl BitAnd<RangeInclusive<&u8>> for ByteSet {
    type Output = ByteSet;

    /// The intersection of `self` and the bytes of a range.
    fn bitand(self, rhs: RangeInclusive<&u8>) -> (r: ByteSet)
        ensures
            r@ == self@.intersect(ref_inclusive_set(rhs)),
    {
        let r = self.intersection(ByteSet::from(rhs));
        proof {
            r.lemma_from_set();
        }
        r
    }
}

impl vstd::std_specs::ops::BitAndSpecImpl<RangeInclusive<&u8>> for ByteSet {
    open spec fn obeys_bitand_spec() -> bool {
        true
    }

    open spec fn bitand_req(self, rhs: RangeInclusive<&u8>) -> bool {
        true
    }

    open spec fn bitand_spec(self, rhs: RangeInclusive<&u8>) -> ByteSet {
        from_set(self@.intersect(ref_inclusive_set(rhs)))
    }
}

impl BitOr<RangeInclusive<&u8>> for ByteSet {
    type Output = ByteSet;

    /// The union of `self` and the bytes of a range.
    fn bitor(self, rhs: RangeInclusive<&u8>) -> (r: ByteSet)
        ensures
            r@ == self@.union(ref_inclusive_set(rhs)),
    {
        let r = self.union(ByteSet::from(rhs));
        proof {
            r.lemma_from_set();
        }
        r
    }
}

impl vstd::std_specs::ops::BitOrSpecImpl<RangeInclusive<&u8>> for ByteSet {
    open spec fn obeys_bitor_spec() -> bool {
        true
    }

    open spec fn bitor_req(self, rhs: RangeInclusive<&u8>) -> bool {
        true
    }

    open spec fn bitor_spec(self, rhs: RangeInclusive<&u8>) -> ByteSet {
        from_set(self@.union(ref_inclusive_set(rhs)))
    }
}

impl BitXor<RangeInclusive<&u8>> for ByteSet {
    type Output = ByteSet;

    /// The symmetric difference of `self` and the bytes of a range.
    fn bitxor(self, rhs: RangeInclusive<&u8>) -> (r: ByteSet)
        ensures
            r@ == self@.difference(ref_inclusive_set(rhs)).union(ref_inclusive_set(rhs).difference(self@)),
    {
        let r = self.symmetric_difference(ByteSet::from(rhs));
        proof {
            r.lemma_from_set();
        }
        r
    }
}

impl vstd::std_specs::ops::BitXorSpecImpl<RangeInclusive<&u8>> for ByteSet {
    open spec fn obeys_bitxor_spec() -> bool {
        true
    }

    open spec fn bitxor_req(self, rhs: RangeInclusive<&u8>) -> bool {
        true
    }

    open spec fn bitxor_spec(self, rhs: RangeInclusive<&u8>) -> ByteSet {
        from_set(self@.difference(ref_inclusive_set(rhs)).union(ref_inclusive_set(rhs).difference(self@)))
    }
}

impl BitAndAssign<RangeInclusive<&u8>> for ByteSet {
    /// Keeps only the values that are also in the bytes of a range.
    fn bitand_assign(&mut self, rhs: RangeInclusive<&u8>)
        ensures
            final(self)@ == old(self)@.intersect(ref_inclusive_set(rhs)),
    {
        *self = self.intersection(ByteSet::from(rhs));
    }
}

impl BitOrAssign<RangeInclusive<&u8>> for ByteSet {
    /// Adds the bytes of a range.
    fn bitor_assign(&mut self, rhs: RangeInclusive<&u8>)
        ensures
            final(self)@ == old(self)@.union(ref_inclusive_set(rhs)),
    {
        *self = self.union(ByteSet::from(rhs));
    }
}

impl BitXorAssign<RangeInclusive<&u8>> for ByteSet {
    /// Toggles the bytes of a range.
    fn bitxor_assign(&mut self, rhs: RangeInclusive<&u8>)
        ensures
            final(self)@ == old(self)@.difference(ref_inclusive_set(rhs)).union(ref_inclusive_set(rhs).difference(old(self)@)),
    {
        *self = self.symmetric_difference(ByteSet::from(rhs));
    }
}

impl BitOrAssign<u8> for ByteSet {
    /// Inserts `rhs`.
    fn bitor_assign(&mut self, rhs: u8)
        ensures
            final(self)@ == old(self)@.insert(rhs),
    {
        self.insert(rhs);
    }
}

impl BitXorAssign<u8> for ByteSet {
    /// Toggles `rhs`.
    fn bitxor_assign(&mut self, rhs: u8)
        ensures
            final(self)@ == toggled(old(self)@, rhs),
    {
        self.toggle(rhs);
    }
}

impl BitOr<u8> for ByteSet {
    type Output = ByteSet;

    /// A copy of the set with `rhs` inserted.
    fn bitor(self, rhs: u8) -> (r: ByteSet)
        ensures
            r@ == self@.insert(rhs),
    {
        let mut copy = self;
        copy.insert(rhs);
        proof {
            copy.lemma_from_set();
        }
        copy
    }
}

impl vstd::std_specs::ops::BitOrSpecImpl<u8> for ByteSet {
    open spec fn obeys_bitor_spec() -> bool {
        true
    }

    open spec fn bitor_req(self, rhs: u8) -> bool {
        true
    }

    open spec fn bitor_spec(self, rhs: u8) -> ByteSet {
        from_set(self@.insert(rhs))
    }
}

impl BitXor<u8> for ByteSet {
    type Output = ByteSet;

    /// A copy of the set with `rhs` toggled.
    fn bitxor(self, rhs: u8) -> (r: ByteSet)
        ensures
            r@ == toggled(self@, rhs),
    {
        let mut copy = self;
        copy.toggle(rhs);
        proof {
            copy.lemma_from_set();
        }
        copy
    }
}

impl vstd::std_specs::ops::BitXorSpecImpl<u8> for ByteSet {
    open spec fn obeys_bitxor_spec() -> bool {
        true
    }

    open spec fn bitxor_req(self, rhs: u8) -> bool {
        true
    }

    open spec fn bitxor_spec(self, rhs: u8) -> ByteSet {
        from_set(toggled(self@, rhs))
    }
}

impl Index<u8> for ByteSet {
    type Output = bool;

    /// Whether the set contains `index`.
    fn index(&self, index: u8) -> (r: &bool)
        ensures
            *r == self@.contains(index),
    {
        if self.contains(index) {
            &true
        } else {
            &false
        }
    }
}

impl vstd::std_specs::core::IndexSpecImpl<u8> for ByteSet {
    open spec fn index_req(&self, index: &u8) -> bool {
        true
    }
}

impl From<&[u8]> for ByteSet {
    /// The set of the bytes of the slice.
    fn from(value: &[u8]) -> (r: ByteSet)
        ensures
            r@ == value@.to_set(),
    {
        let r = Self::from_bytes(value);
        proof {
            r.lemma_from_set();
        }
        r
    }
}

impl vstd::std_specs::convert::FromSpecImpl<&[u8]> for ByteSet {
    open spec fn obeys_from_spec() -> bool {
        true
    }

    open spec fn from_spec(v: &[u8]) -> ByteSet {
        from_set(v@.to_set())
    }
}

impl<const N: usize> From<[u8; N]> for ByteSet {
    /// The set of the bytes of the array.
    fn from(value: [u8; N]) -> (r: ByteSet)
        ensures
            r@ == value@.to_set(),
    {
        let r = Self::from_bytes(value.as_slice());
        proof {
            r.lemma_from_set();
        }
        r
    }
}

impl<const N: usize> vstd::std_specs::convert::FromSpecImpl<[u8; N]> for ByteSet {
    open spec fn obeys_from_spec() -> bool {
        true
    }

    open spec fn from_spec(v: [u8; N]) -> ByteSet {
        from_set(v@.to_set())
    }
}

impl<const N: usize> From<&[u8; N]> for ByteSet {
    /// The set of the bytes of the array.
    fn from(value: &[u8; N]) -> (r: ByteSet)
        ensures
            r@ == value@.to_set(),
    {
        let r = Self::from_bytes(value.as_slice());
        proof {
            r.lemma_from_set();
        }
        r
    }
}

impl<const N: usize> vstd::std_specs::convert::FromSpecImpl<&[u8; N]> for ByteSet {
    open spec fn obeys_from_spec() -> bool {
        true
    }

    open spec fn from_spec(v: &[u8; N]) -> ByteSet {
        from_set(v@.to_set())
    }
}

impl From<(Bound<u8>, Bound<u8>)> for ByteSet {
    /// The set of the values within the bounds.
    fn from(value: (Bound<u8>, Bound<u8>)) -> (r: ByteSet)
        ensures
            r@ == bounded_set(value.0, value.1),
    {
        let (start, end) = value;
        let r = Self::from_bounds(start, end);
        proof {
            assert(r@ =~= bounded_set(start, end));
            r.lemma_from_set();
        }
        r
    }
}

impl vstd::std_specs::convert::FromSpecImpl<(Bound<u8>, Bound<u8>)> for ByteSet {
    open spec fn obeys_from_spec() -> bool {
        true
    }

    open spec fn from_spec(v: (Bound<u8>, Bound<u8>)) -> ByteSet {
        from_set(bounded_set(v.0, v.1))
    }
}

impl From<RangeFull> for ByteSet {
    /// The set of every byte.
    fn from(value: RangeFull) -> (r: ByteSet)
        ensures
            r@ == Set::<u8>::full(),
    {
        let r = Self::full();
        proof {
            r.lemma_from_set();
        }
        r
    }
}

impl vstd::std_specs::convert::FromSpecImpl<RangeFull> for ByteSet {
    open spec fn obeys_from_spec() -> bool {
        true
    }

    open spec fn from_spec(v: RangeFull) -> ByteSet {
        from_set(Set::<u8>::full())
    }
}

impl From<Range<u8>> for ByteSet {
    /// The set of the values `start <= x < end`.
    fn from(value: Range<u8>) -> (r: ByteSet)
        ensures
            r@ == bounded_set(Bound::Included(value.start), Bound::Excluded(value.end)),
    {
        let r = Self::from_ref_bounds(Bound::Included(&value.start), Bound::Excluded(&value.end));
        proof {
            assert(r@ =~= bounded_set(Bound::Included(value.start), Bound::Excluded(value.end)));
            r.lemma_from_set();
        }
        r
    }
}

impl vstd::std_specs::convert::FromSpecImpl<Range<u8>> for ByteSet {
    open spec fn obeys_from_spec() -> bool {
        true
    }

    open spec fn from_spec(v: Range<u8>) -> ByteSet {
        from_set(bounded_set(Bound::Included(v.start), Bound::Excluded(v.end)))
    }
}

impl From<RangeFrom<u8>> for ByteSet {
    /// The set of the values `start <= x`.
    fn from(value: RangeFrom<u8>) -> (r: ByteSet)
        ensures
            r@ == bounded_set(Bound::Included(value.start), Bound::Unbounded),
    {
        let r = Self::from_ref_bounds(Bound::Included(&value.start), Bound::Unbounded);
        proof {
            assert(r@ =~= bounded_set(Bound::Included(value.start), Bound::Unbounded));
            r.lemma_from_set();
        }
        r
    }
}

impl vstd::std_specs::convert::FromSpecImpl<RangeFrom<u8>> for ByteSet {
    open spec fn obeys_from_spec() -> bool {
        true
    }

    open spec fn from_spec(v: RangeFrom<u8>) -> ByteSet {
        from_set(bounded_set(Bound::Included(v.start), Bound::Unbounded))
    }
}

impl From<RangeTo<u8>> for ByteSet {
    /// The set of the values `x < end`.
    fn from(value: RangeTo<u8>) -> (r: ByteSet)
        ensures
            r@ == bounded_set(Bound::Unbounded, Bound::Excluded(value.end)),
    {
        let r = Self::from_ref_bounds(Bound::Unbounded, Bound::Excluded(&value.end));
        proof {
            assert(r@ =~= bounded_set(Bound::Unbounded, Bound::Excluded(value.end)));
            r.lemma_from_set();
        }
        r
    }
}

impl vstd::std_specs::convert::FromSpecImpl<RangeTo<u8>> for ByteSet {
    open spec fn obeys_from_spec() -> bool {
        true
    }

    open spec fn from_spec(v: RangeTo<u8>) -> ByteSet {
        from_set(bounded_set(Bound::Unbounded, Bound::Excluded(v.end)))
    }
}

impl From<RangeToInclusive<u8>> for ByteSet {
    /// The set of the values `x <= end`.
    fn from(value: RangeToInclusive<u8>) -> (r: ByteSet)
        ensures
            r@ == bounded_set(Bound::Unbounded, Bound::Included(value.end)),
    {
        let r = Self::from_ref_bounds(Bound::Unbounded, Bound::Included(&value.end));
        proof {
            assert(r@ =~= bounded_set(Bound::Unbounded, Bound::Included(value.end)));
            r.lemma_from_set();
        }
        r
    }
}

impl vstd::std_specs::convert::FromSpecImpl<RangeToInclusive<u8>> for ByteSet {
    open spec fn obeys_from_spec() -> bool {
        true
    }

    open spec fn from_spec(v: RangeToInclusive<u8>) -> ByteSet {
        from_set(bounded_set(Bound::Unbounded, Bound::Included(v.end)))
    }
}

impl From<RangeInclusive<u8>> for ByteSet {
    /// The set of the values the range holds: `start <= x <= end`, or
    /// `start <= x < end` once the range has been exhausted by iteration.
    fn from(value: RangeInclusive<u8>) -> (r: ByteSet)
        ensures
            r@ == bounded_set(Bound::Included(value@.start), inclusive_end(value)),
    {
        let r = Self::from_ref_bounds(inclusive_start_bound(&value), inclusive_end_bound(&value));
        proof {
            assert(r@ =~= bounded_set(Bound::Included(value@.start), inclusive_end(value)));
            r.lemma_from_set();
        }
        r
    }
}

impl vstd::std_specs::convert::FromSpecImpl<RangeInclusive<u8>> for ByteSet {
    open spec fn obeys_from_spec() -> bool {
        true
    }

    open spec fn from_spec(v: RangeInclusive<u8>) -> ByteSet {
        from_set(bounded_set(Bound::Included(v@.start), inclusive_end(v)))
    }
}

impl From<(Bound<&u8>, Bound<&u8>)> for ByteSet {
    /// The set of the values within the bounds.
    fn from(value: (Bound<&u8>, Bound<&u8>)) -> (r: ByteSet)
        ensures
            r@ == bounded_set(copied_bound(value.0), copied_bound(value.1)),
    {
        let r = Self::from_ref_bounds(value.0, value.1);
        proof {
            assert(r@ =~= bounded_set(copied_bound(value.0), copied_bound(value.1)));
            r.lemma_from_set();
        }
        r
    }
}

impl vstd::std_specs::convert::FromSpecImpl<(Bound<&u8>, Bound<&u8>)> for ByteSet {
    open spec fn obeys_from_spec() -> bool {
        true
    }

    open spec fn from_spec(v: (Bound<&u8>, Bound<&u8>)) -> ByteSet {
        from_set(bounded_set(copied_bound(v.0), copied_bound(v.1)))
    }
}

impl From<Range<&u8>> for ByteSet {
    /// The set of the values `*start <= x < *end`.
    fn from(value: Range<&u8>) -> (r: ByteSet)
        ensures
            r@ == bounded_set(Bound::Included(*value.start), Bound::Excluded(*value.end)),
    {
        let r = Self::from_ref_bounds(Bound::Included(value.start), Bound::Excluded(value.end));
        proof {
            assert(r@ =~= bounded_set(Bound::Included(*value.start), Bound::Excluded(*value.end)));
            r.lemma_from_set();
        }
        r
    }
}

impl vstd::std_specs::convert::FromSpecImpl<Range<&u8>> for ByteSet {
    open spec fn obeys_from_spec() -> bool {
        true
    }

    open spec fn from_spec(v: Range<&u8>) -> ByteSet {
        from_set(bounded_set(Bound::Included(*v.start), Bound::Excluded(*v.end)))
    }
}

impl From<RangeFrom<&u8>> for ByteSet {
    /// The set of the values `*start <= x`.
    fn from(value: RangeFrom<&u8>) -> (r: ByteSet)
        ensures
            r@ == bounded_set(Bound::Included(*value.start), Bound::Unbounded),
    {
        let r = Self::from_ref_bounds(Bound::Included(value.start), Bound::Unbounded);
        proof {
            assert(r@ =~= bounded_set(Bound::Included(*value.start), Bound::Unbounded));
            r.lemma_from_set();
        }
        r
    }
}

impl vstd::std_specs::convert::FromSpecImpl<RangeFrom<&u8>> for ByteSet {
    open spec fn obeys_from_spec() -> bool {
        true
    }

    open spec fn from_spec(v: RangeFrom<&u8>) -> ByteSet {
        from_set(bounded_set(Bound::Included(*v.start), Bound::Unbounded))
    }
}

impl From<RangeTo<&u8>> for ByteSet {
    /// The set of the values `x < *end`.
    fn from(value: RangeTo<&u8>) -> (r: ByteSet)
        ensures
            r@ == bounded_set(Bound::Unbounded, Bound::Excluded(*value.end)),
    {
        let r = Self::from_ref_bounds(Bound::Unbounded, Bound::Excluded(value.end));
        proof {
            assert(r@ =~= bounded_set(Bound::Unbounded, Bound::Excluded(*value.end)));
            r.lemma_from_set();
        }
        r
    }
}

impl vstd::std_specs::convert::FromSpecImpl<RangeTo<&u8>> for ByteSet {
    open spec fn obeys_from_spec() -> bool {
        true
    }

    open spec fn from_spec(v: RangeTo<&u8>) -> ByteSet {
        from_set(bounded_set(Bound::Unbounded, Bound::Excluded(*v.end)))
    }
}

impl From<RangeToInclusive<&u8>> for ByteSet {
    /// The set of the values `x <= *end`.
    fn from(value: RangeToInclusive<&u8>) -> (r: ByteSet)
        ensures
            r@ == bounded_set(Bound::Unbounded, Bound::Included(*value.end)),
    {
        let r = Self::from_ref_bounds(Bound::Unbounded, Bound::Included(value.end));
        proof {
            assert(r@ =~= bounded_set(Bound::Unbounded, Bound::Included(*value.end)));
            r.lemma_from_set();
        }
        r
    }
}

impl vstd::std_specs::convert::FromSpecImpl<RangeToInclusive<&u8>> for ByteSet {
    open spec fn obeys_from_spec() -> bool {
        true
    }

    open spec fn from_spec(v: RangeToInclusive<&u8>) -> ByteSet {
        from_set(bounded_set(Bound::Unbounded, Bound::Included(*v.end)))
    }
}

impl From<RangeInclusive<&u8>> for ByteSet {
    /// The set of the values between the range's bounds: `*start <= x <= *end`
    /// for a range that iteration has not exhausted.
    fn from(value: RangeInclusive<&u8>) -> (r: ByteSet)
        ensures
            r@ == ref_inclusive_set(value),
            !value@.exhausted ==> r@ == bounded_set(Bound::Included(*value@.start), Bound::Included(*value@.end)),
    {
        let r = Self::from_ref_bounds(inclusive_ref_start_bound(&value), inclusive_ref_end_bound(&value));
        proof {
            assert(r@ =~= ref_inclusive_set(value));
            if !value@.exhausted {
                assert(r@ =~= bounded_set(Bound::Included(*value@.start), Bound::Included(*value@.end)));
            }
            r.lemma_from_set();
        }
        r
    }
}

impl vstd::std_specs::convert::FromSpecImpl<RangeInclusive<&u8>> for ByteSet {
    open spec fn obeys_from_spec() -> bool {
        true
    }

    open spec fn from_spec(v: RangeInclusive<&u8>) -> ByteSet {
        from_set(ref_inclusive_set(v))
    }
}

/// The word whose lowest `n` bits stand for the members of `s` in block `k`.
spec fn word_for(s: Set<u8>, k: int, n: nat) -> u64
    decreases n,
{
    if n == 0 {
        0
    } else {
        let w = word_for(s, k, (n - 1) as nat);
        if s.contains(byte_at(k, (n - 1) as u64)) {
            w | (1u64 << ((n - 1) as u64))
        } else {
            w
        }
    }
}

proof fn lemma_word_for(s: Set<u8>, k: int, n: nat)
    requires
        n <= 64,
    ensures
        forall|j: u64| j < 64 ==> (#[trigger] bit(word_for(s, k, n), j) <==> j < n && s.contains(byte_at(k, j))),
    decreases n,
{
    lemma_bit_ops();
    if n > 0 {
        lemma_word_for(s, k, (n - 1) as nat);
        let m = (n - 1) as u64;
        lemma_single_bit(m);
        let w = word_for(s, k, (n - 1) as nat);
        assert forall|j: u64| j < 64 implies (#[trigger] bit(word_for(s, k, n), j) <==> j < n && s.contains(byte_at(k, j))) by {
            if s.contains(byte_at(k, m)) {
                assert(word_for(s, k, n) == w | (1u64 << m));
                assert(bit(w | (1u64 << m), j) == (bit(w, j) || bit(1u64 << m, j)));
            } else {
                assert(word_for(s, k, n) == w);
            }
        }
    } else {
        assert(word_for(s, k, 0) == 0);
    }
}

/// Every set of bytes is the view of the `ByteSet` that `from_set` gives.
pub broadcast proof fn lemma_from_set_view(s: Set<u8>)
    ensures
        #[trigger] from_set(s)@ == s,
{
    let b = ByteSet { bytes: [word_for(s, 0, 64), word_for(s, 1, 64), word_for(s, 2, 64), word_for(s, 3, 64)] };
    lemma_word_for(s, 0, 64);
    lemma_word_for(s, 1, 64);
    lemma_word_for(s, 2, 64);
    lemma_word_for(s, 3, 64);
    assert forall|x: u8| b@.contains(x) == s.contains(x) by {
        let k = (x / 64) as int;
        let j = (x % 64) as u64;
        lemma_byte_at(k, j);
        assert(byte_at(k, j) == x);
        assert(b.bytes[k] == word_for(s, k, 64));
        assert(b.has(x) == bit(word_for(s, k, 64), j));
    }
    assert(b@ =~= s);
}

/// Whether the bytes of `ys` strictly ascend.
pub open spec fn strictly_ascending(ys: Seq<u8>) -> bool {
    forall|i: int, j: int| 0 <= i < j < ys.len() ==> ys[i] < ys[j]
}

/// Iteration in ascending order. Let `left[i]` be what an iterator has left
/// before its `i`-th yield and `ys[i]` that yield, each step yielding the
/// smallest value left and removing it, as `Iter::next` and `IntoIter::next`
/// state. Then the yields strictly ascend and are exactly the values that
/// left; once nothing is left they are all the values there were, as many as
/// there were.
pub proof fn lemma_ascending_iteration(left: Seq<Set<u8>>, ys: Seq<u8>)
    requires
        left.len() == ys.len() + 1,
        forall|i: int|
            0 <= i < ys.len() ==> #[trigger] left[i].contains(ys[i]) && left[i + 1] == left[i].remove(ys[i])
                && (forall|x: u8| left[i].contains(x) ==> ys[i] <= x),
    ensures
        strictly_ascending(ys),
        ys.to_set() == left[0].difference(left[ys.len() as int]),
        left[ys.len() as int] == Set::<u8>::empty() ==> ys.to_set() == left[0] && ys.len()
            == left[0].len(),
{
    lemma_ascending_steps(left, ys);
    if left[ys.len() as int] == Set::<u8>::empty() {
        assert(ys.to_set() =~= left[0]);
        assert(ys.no_duplicates());
        ys.unique_seq_to_set();
    }
}

proof fn lemma_ascending_steps(left: Seq<Set<u8>>, ys: Seq<u8>)
    requires
        left.len() == ys.len() + 1,
        forall|i: int|
            0 <= i < ys.len() ==> #[trigger] left[i].contains(ys[i]) && left[i + 1] == left[i].remove(ys[i])
                && (forall|x: u8| left[i].contains(x) ==> ys[i] <= x),
    ensures
        strictly_ascending(ys),
        ys.to_set() == left[0].difference(left[ys.len() as int]),
        left[ys.len() as int].subset_of(left[0]),
    decreases ys.len(),
{
    if ys.len() == 0 {
        assert(ys.to_set() =~= left[0].difference(left[0]));
    } else {
        let l2 = left.subrange(1, left.len() as int);
        let y2 = ys.subrange(1, ys.len() as int);
        assert forall|i: int| 0 <= i < y2.len() implies #[trigger] l2[i].contains(y2[i]) && l2[i + 1]
            == l2[i].remove(y2[i]) && (forall|x: u8| l2[i].contains(x) ==> y2[i] <= x) by {
            assert(left[i + 1].contains(ys[i + 1]));
        }
        lemma_ascending_steps(l2, y2);
        let k = ys.len() as int;
        assert(l2[y2.len() as int] == left[k]);
        assert(left[0].contains(ys[0]));
        assert forall|i: int, j: int| 0 <= i < j < ys.len() implies ys[i] < ys[j] by {
            if i > 0 {
                assert(y2[i - 1] < y2[j - 1]);
            } else {
                assert(y2.to_set().contains(y2[j - 1]));
                assert(left[1].contains(ys[j]));
            }
        }
        assert(ys =~= seq![ys[0]] + y2);
        assert forall|x: u8| ys.to_set().contains(x) <==> left[0].difference(left[k]).contains(x) by {
            if x == ys[0] {
                assert(ys[0] == x);
            } else {
                if y2.to_set().contains(x) {
                    let j = choose|j: int| 0 <= j < y2.len() && y2[j] == x;
                    assert(ys[j + 1] == x);
                }
                if ys.to_set().contains(x) {
                    let j = choose|j: int| 0 <= j < ys.len() && ys[j] == x;
                    assert(y2[j - 1] == x);
                }
            }
        }
        assert(ys.to_set() =~= left[0].difference(left[k]));
    }
}

/// Extraction, for a run of `ExtractIf::next` that may stop early. Let
/// `sets[i]` be the set, `left[i]` the values left to visit and `ys[i]` the
/// yield of the `i`-th call, each step yielding a value left for which `pred`
/// holds, after only values for which it fails, then leaving the values above
/// it and removing it from the set, as `ExtractIf::next` states. Then the
/// yields strictly ascend, the set has lost exactly them (so with no yield it
/// is as it was), `pred` holds on each yield and fails on every other value
/// that was to be visited and is no longer left.
pub proof fn lemma_extraction_steps<F: FnMut(u8) -> bool>(
    pred: F,
    sets: Seq<Set<u8>>,
    left: Seq<Set<u8>>,
    ys: Seq<u8>,
)
    requires
        sets.len() == ys.len() + 1,
        left.len() == ys.len() + 1,
        forall|i: int|
            0 <= i < ys.len() ==> #[trigger] left[i].contains(ys[i]) && call_ensures(pred, (ys[i],), true)
                && left[i + 1] == left[i].filter(|x: u8| x > ys[i]) && sets[i + 1] == sets[i].remove(ys[i])
                && (forall|x: u8| left[i].contains(x) && x < ys[i] ==> call_ensures(pred, (x,), false)),
    ensures
        strictly_ascending(ys),
        sets[ys.len() as int] == sets[0].difference(ys.to_set()),
        ys.to_set().subset_of(left[0]),
        left[ys.len() as int].subset_of(left[0]),
        ys.to_set().disjoint(left[ys.len() as int]),
        forall|x: u8| #[trigger] ys.to_set().contains(x) ==> call_ensures(pred, (x,), true),
        forall|x: u8|
            left[0].contains(x) && !#[trigger] ys.to_set().contains(x) && !left[ys.len() as int].contains(x)
                ==> call_ensures(pred, (x,), false),
    decreases ys.len(),
{
    let k = ys.len() as int;
    if ys.len() == 0 {
        assert(sets[0].difference(ys.to_set()) =~= sets[0]);
        assert(ys.to_set() =~= Set::<u8>::empty());
    } else {
        let s2 = sets.subrange(1, sets.len() as int);
        let l2 = left.subrange(1, left.len() as int);
        let y2 = ys.subrange(1, ys.len() as int);
        assert forall|i: int| 0 <= i < y2.len() implies #[trigger] l2[i].contains(y2[i]) && call_ensures(pred, (y2[i],), true)
            && l2[i + 1] == l2[i].filter(|x: u8| x > y2[i]) && s2[i + 1] == s2[i].remove(y2[i])
            && (forall|x: u8| l2[i].contains(x) && x < y2[i] ==> call_ensures(pred, (x,), false)) by {
            assert(left[i + 1].contains(ys[i + 1]));
        }
        assert(l2[y2.len() as int] == left[k]);
        lemma_extraction_steps(pred, s2, l2, y2);
        assert(left[0].contains(ys[0]));
        assert(ys =~= seq![ys[0]] + y2);
        assert forall|x: u8| #[trigger] ys.to_set().contains(x) <==> x == ys[0] || y2.to_set().contains(x) by {
            if y2.to_set().contains(x) {
                let j = choose|j: int| 0 <= j < y2.len() && y2[j] == x;
                assert(ys[j + 1] == x);
            }
            if ys.to_set().contains(x) && x != ys[0] {
                let j = choose|j: int| 0 <= j < ys.len() && ys[j] == x;
                assert(y2[j - 1] == x);
            }
        }
        assert forall|i: int, j: int| 0 <= i < j < ys.len() implies ys[i] < ys[j] by {
            if i > 0 {
                assert(y2[i - 1] < y2[j - 1]);
            } else {
                assert(y2.to_set().contains(y2[j - 1]));
            }
        }
        assert(sets[k] =~= sets[0].difference(ys.to_set()));
        assert forall|x: u8| left[0].contains(x) && !#[trigger] ys.to_set().contains(x) && !left[k].contains(x)
            implies call_ensures(pred, (x,), false) by {
            if x > ys[0] {
                assert(l2[0].contains(x));
            }
        }
    }
}

/// Extraction run to exhaustion: the run of `lemma_extraction_steps`, after
/// which `ExtractIf::next` has returned `None`, so that `pred` fails on every
/// value still left. Then the set has lost exactly the values to be visited
/// on which `pred` holds: the yields, strictly ascending.
pub proof fn lemma_extraction<F: FnMut(u8) -> bool>(
    pred: F,
    sets: Seq<Set<u8>>,
    left: Seq<Set<u8>>,
    ys: Seq<u8>,
)
    requires
        sets.len() == ys.len() + 1,
        left.len() == ys.len() + 1,
        forall|i: int|
            0 <= i < ys.len() ==> #[trigger] left[i].contains(ys[i]) && call_ensures(pred, (ys[i],), true)
                && left[i + 1] == left[i].filter(|x: u8| x > ys[i]) && sets[i + 1] == sets[i].remove(ys[i])
                && (forall|x: u8| left[i].contains(x) && x < ys[i] ==> call_ensures(pred, (x,), false)),
        forall|x: u8| #[trigger] left[ys.len() as int].contains(x) ==> call_ensures(pred, (x,), false),
    ensures
        strictly_ascending(ys),
        sets[ys.len() as int] == sets[0].difference(ys.to_set()),
        ys.to_set().subset_of(left[0]),
        forall|x: u8| #[trigger] ys.to_set().contains(x) ==> call_ensures(pred, (x,), true),
        forall|x: u8|
            left[0].contains(x) && !#[trigger] ys.to_set().contains(x) ==> call_ensures(pred, (x,), false),
        deterministic(pred) ==> ys.to_set() == left[0].filter(|x: u8| call_ensures(pred, (x,), true)),
{
    lemma_extraction_steps(pred, sets, left, ys);
    let k = ys.len() as int;
    assert forall|x: u8| left[0].contains(x) && !#[trigger] ys.to_set().contains(x)
        implies call_ensures(pred, (x,), false) by {
        if left[k].contains(x) {
            assert(left[k].contains(x));
        }
    }
    if deterministic(pred) {
        assert(ys.to_set() =~= left[0].filter(|x: u8| call_ensures(pred, (x,), true)));
    }
}

proof fn lemma_members_below(s: Set<u8>, n: nat)
    requires
        n <= 256,
    ensures
        strictly_ascending(members_below(s, n)),
        forall|x: u8| #[trigger] members_below(s, n).contains(x) <==> s.contains(x) && x < n,
    decreases n,
{
    if n > 0 {
        lemma_members_below(s, (n - 1) as nat);
        let before = members_below(s, (n - 1) as nat);
        let y = (n - 1) as u8;
        if s.contains(y) {
            assert forall|x: u8| #[trigger] before.push(y).contains(x) <==> before.contains(x) || x == y by {
                if before.push(y).contains(x) {
                    let j = choose|j: int| 0 <= j < before.push(y).len() && before.push(y)[j] == x;
                    if j < before.len() {
                        assert(before[j] == x);
                    }
                }
                if before.contains(x) {
                    let j = choose|j: int| 0 <= j < before.len() && before[j] == x;
                    assert(before.push(y)[j] == x);
                }
                if x == y {
                    assert(before.push(y)[before.len() as int] == y);
                }
            }
            assert forall|i: int, j: int| 0 <= i < j < before.push(y).len()
                implies before.push(y)[i] < before.push(y)[j] by {
                if j == before.len() {
                    assert(before.contains(before[i]));
                }
            }
        }
    }
}

/// Listing the members: `to_vec` gives every value of the set once, in
/// strictly ascending order, as many values as the set's size.
pub proof fn lemma_members(s: ByteSet)
    ensures
        strictly_ascending(members(s@)),
        members(s@).to_set() == s@,
        members(s@).len() == s@.len(),
{
    lemma_members_below(s@, 256);
    let m = members(s@);
    assert(m.to_set() =~= s@);
    assert(m.no_duplicates());
    m.unique_seq_to_set();
}

/// A `ByteSet` is determined by the values it holds: two sets with the same
/// values are the same set, so `const_eq` and `==` agree with `==` of views.
pub proof fn lemma_view_injective(a: ByteSet, b: ByteSet)
    ensures
        a@ == b@ <==> a == b,
{
    if a@ == b@ {
        a.lemma_view_eq_words(b);
    }
}

/// Every set is finite and holds at most 256 values.
pub proof fn lemma_finite(s: ByteSet)
    ensures
        s@.finite(),
        s@.len() <= 256,
{
    s.lemma_len();
}

/// The set of all bytes holds 256 values.
pub proof fn lemma_full_len()
    ensures
        Set::<u8>::full().finite(),
        Set::<u8>::full().len() == 256,
{
    let f = ByteSet { bytes: [u64::MAX, u64::MAX, u64::MAX, u64::MAX] };
    lemma_bit_ops();
    f.lemma_len();
    assert(f@ =~= Set::<u8>::full());
    lemma_count_bits_max(64);
    reveal_with_fuel(ByteSet::words_count, 5);
}

/// A set is empty exactly when its size is 0.
pub proof fn lemma_empty_iff_len_zero(s: ByteSet)
    ensures
        s@ == Set::<u8>::empty() <==> s@.len() == 0,
{
    s.lemma_len();
    if s@.len() == 0 {
        s@.lemma_len0_is_empty();
    }
}

/// The symmetric difference does not depend on the order of its operands.
pub proof fn lemma_symmetric_difference_commutes(a: ByteSet, b: ByteSet)
    ensures
        a@.difference(b@).union(b@.difference(a@)) == b@.difference(a@).union(a@.difference(b@)),
{
    assert(a@.difference(b@).union(b@.difference(a@)) =~= b@.difference(a@).union(a@.difference(b@)));
}

/// The difference of `a` and `b` is `a` intersected with the complement of `b`.
pub proof fn lemma_difference_is_intersection_with_complement(a: ByteSet, b: ByteSet)
    ensures
        a@.difference(b@) == a@.intersect(Set::<u8>::full().difference(b@)),
{
    assert(a@.difference(b@) =~= a@.intersect(Set::<u8>::full().difference(b@)));
}

/// `a` is a subset of `b` exactly when their union is `b`.
pub proof fn lemma_subset_iff_union(a: ByteSet, b: ByteSet)
    ensures
        a@.subset_of(b@) <==> a@.union(b@) == b@,
{
    if a@.union(b@) == b@ {
        assert forall|x: u8| a@.contains(x) implies b@.contains(x) by {
            assert(a@.union(b@).contains(x));
        }
    }
    if a@.subset_of(b@) {
        assert(a@.union(b@) =~= b@);
    }
}

/// `a` and `b` are disjoint exactly when their intersection is empty.
pub proof fn lemma_disjoint_iff_intersection_empty(a: ByteSet, b: ByteSet)
    ensures
        a@.disjoint(b@) <==> a@.intersect(b@) == Set::<u8>::empty(),
{
    if a@.intersect(b@) == Set::<u8>::empty() {
        assert forall|x: u8| !(a@.contains(x) && b@.contains(x)) by {
            assert(!a@.intersect(b@).contains(x));
        }
    }
    if a@.disjoint(b@) {
        assert(a@.intersect(b@) =~= Set::<u8>::empty());
    }
}

/// Toggling a value twice leaves the set as it was.
pub proof fn lemma_toggle_twice(s: ByteSet, i: u8)
    ensures
        toggled(toggled(s@, i), i) == s@,
{
    if s@.contains(i) {
        assert(s@.remove(i).insert(i) =~= s@);
    } else {
        assert(s@.insert(i).remove(i) =~= s@);
    }
}

/// Inserting a value that is already there changes nothing; removing a value
/// just inserted leaves no trace of it.
pub proof fn lemma_insert_remove(s: ByteSet, i: u8)
    ensures
        s@.insert(i).insert(i) == s@.insert(i),
        !s@.insert(i).remove(i).contains(i),
        s@.contains(i) ==> s@.insert(i) == s@,
        !s@.contains(i) ==> s@.insert(i).remove(i) == s@,
{
    assert(s@.insert(i).insert(i) =~= s@.insert(i));
    if s@.contains(i) {
        assert(s@.insert(i) =~= s@);
    } else {
        assert(s@.insert(i).remove(i) =~= s@);
    }
}

impl Default for ByteSet {
    /// The empty set.
    fn default() -> (r: ByteSet)
        ensures
            r@ == Set::<u8>::empty(),
    {
        ByteSet::new()
    }
}

impl PartialEq for ByteSet {
    fn eq(&self, other: &Self) -> (r: bool) {
        self.const_eq(other)
    }
}

impl Eq for ByteSet {}

impl vstd::std_specs::cmp::PartialEqSpecImpl for ByteSet {
    open spec fn obeys_eq_spec() -> bool {
        true
    }

    open spec fn eq_spec(&self, other: &Self) -> bool {
        self@ == other@
    }
}

impl View for ByteSet {
    type V = Set<u8>;

    closed spec fn view(&self) -> Set<u8> {
        Set::new(|i: u8| self.has(i))
    }
}

} // verus!
