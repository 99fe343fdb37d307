use bytetable::set::ExtractIf;
use bytetable::ByteSet;
use std::ops::Bound;

fn collect(set: &ByteSet) -> Vec<u8> {
    let mut out = Vec::new();
    let mut it = set.iter();
    while let Some(b) = it.next() {
        out.push(b);
    }
    out
}

fn drain_extract<F: FnMut(u8) -> bool>(mut e: ExtractIf<'_, F>) -> Vec<u8> {
    let mut out = Vec::new();
    while let Some(b) = e.next() {
        out.push(b);
    }
    out
}

#[test]
fn struct_example() {
    let mut set = ByteSet::new() | (18..28) | (6..=10);
    set.insert(100);
    assert!(set.contains(20));
    set.remove(20);
    assert!(!set.contains(20));
    assert_eq!(set.min(), Some(6));
    assert_eq!(set.max(), Some(100));
    let mut it = set.into_iter();
    let mut els = Vec::new();
    while let Some(b) = it.next() {
        els.push(b);
    }
    assert_eq!(els, [6, 7, 8, 9, 10, 18, 19, 21, 22, 23, 24, 25, 26, 27, 100]);
    assert_eq!(set.len(), 15);
}

#[test]
fn new_is_empty() {
    let set = ByteSet::new();
    assert_eq!(set.len(), 0);
    assert!(set.is_empty());
    assert_eq!(set.min(), None);
    assert_eq!(set.max(), None);
}

#[test]
fn full_has_every_byte() {
    let set = ByteSet::full();
    assert_eq!(set.len(), 256);
    assert!(set.contains(0));
    assert!(set.contains(255));
    assert_eq!(set.min(), Some(0));
    assert_eq!(set.max(), Some(255));
    assert_eq!(set, ByteSet::from(..));
}

#[test]
fn from_bytes_example() {
    let set = ByteSet::from_bytes(&[10, 20, 30, 40]);
    assert_eq!(set.len(), 4);
    let same = ByteSet::from(&[10, 20, 30, 40]);
    assert_eq!(set, same);
    assert_eq!(ByteSet::from_bytes(&[7, 7, 7]).len(), 1);
    assert!(ByteSet::from_bytes(&[]).is_empty());
}

#[test]
fn iter_ascending() {
    let set = ByteSet::from(10..15);
    assert_eq!(collect(&set), [10, 11, 12, 13, 14]);
}

#[test]
fn iter_len_and_back() {
    let set = ByteSet::from([3, 200, 64, 63, 0]);
    let mut it = set.iter();
    assert_eq!(it.len(), 5);
    assert_eq!(it.next(), Some(0));
    assert_eq!(it.next_back(), Some(200));
    assert_eq!(it.len(), 3);
    assert_eq!(it.next_back(), Some(64));
    assert_eq!(it.next(), Some(3));
    assert_eq!(it.next(), Some(63));
    assert_eq!(it.len(), 0);
    assert_eq!(it.next(), None);
    assert_eq!(it.next_back(), None);
}

#[test]
fn iter_of_empty_set() {
    let set = ByteSet::new();
    let mut it = set.iter();
    assert_eq!(it.len(), 0);
    assert_eq!(it.next(), None);
    assert_eq!(it.next_back(), None);
}

#[test]
fn len_example() {
    let set = ByteSet::from(10..15);
    assert_eq!(set.len(), 5);
}

#[test]
fn is_empty_example() {
    let mut set = ByteSet::new();
    assert!(set.is_empty());
    set.insert(1);
    assert!(!set.is_empty());
}

#[test]
fn extract_if_example() {
    let mut set: ByteSet = (0..8).into();
    let extracted = drain_extract(set.extract_if(|v| v % 2 == 0));
    let evens = ByteSet::from(&extracted[..]);
    assert_eq!(collect(&evens), vec![0, 2, 4, 6]);
    assert_eq!(collect(&set), vec![1, 3, 5, 7]);
}

#[test]
fn extract_if_stops_early() {
    let mut set = ByteSet::from(0..10);
    {
        let mut e = set.extract_if(|v| v >= 5);
        assert_eq!(e.len(), 5);
        assert_eq!(e.next(), Some(5));
        assert_eq!(e.next(), Some(6));
        assert_eq!(e.next_back(), Some(9));
    }
    assert_eq!(collect(&set), vec![0, 1, 2, 3, 4, 7, 8]);
}

#[test]
fn retain_example() {
    let mut set = ByteSet::from(1..=6);
    set.retain(|k| k % 2 == 0);
    assert_eq!(set, [2, 4, 6].into());
}

#[test]
fn clear_example() {
    let mut v = ByteSet::new();
    v.insert(1);
    v.clear();
    assert!(v.is_empty());
}

#[test]
fn difference_example() {
    let a = ByteSet::from([1, 2, 3]);
    let b = ByteSet::from([4, 2, 3, 4]);
    assert_eq!(a.difference(b), [1].into());
    assert_eq!(b.difference(a), [4].into());
    assert_eq!(a.difference(b), a & !b);
}

#[test]
fn symmetric_difference_example() {
    let a = ByteSet::from([1, 2, 3]);
    let b = ByteSet::from([4, 2, 3, 4]);
    let diff1 = a.symmetric_difference(b);
    let diff2 = b.symmetric_difference(a);
    assert_eq!(diff1, diff2);
    assert_eq!(diff1, [1, 4].into());
    assert_eq!(diff1, a ^ b);
}

#[test]
fn intersection_example() {
    let a = ByteSet::from([1, 2, 3]);
    let b = ByteSet::from([4, 2, 3, 4]);
    assert_eq!(a.intersection(b), [2, 3].into());
    assert_eq!(a.intersection(b), a & b);
}

#[test]
fn union_example() {
    let a = ByteSet::from([1, 2, 3]);
    let b = ByteSet::from([4, 2, 3, 4]);
    assert_eq!(a.union(b), [1, 2, 3, 4].into());
    assert_eq!(a.union(b), a | b);
}

#[test]
fn contains_example() {
    let set = ByteSet::from([1, 2, 3]);
    assert_eq!(set.contains(1), true);
    assert_eq!(set.contains(4), false);
    assert_eq!(set[1], true);
    assert_eq!(set[4], false);
}

#[test]
fn is_disjoint_example() {
    let a = ByteSet::from([1, 2, 3]);
    let mut b = ByteSet::new();
    assert_eq!(a.is_disjoint(&b), true);
    b.insert(4);
    assert_eq!(a.is_disjoint(&b), true);
    b.insert(1);
    assert_eq!(a.is_disjoint(&b), false);
    assert_eq!(a.is_disjoint(&b), (a & b).is_empty());
}

#[test]
fn is_subset_example() {
    let sup = ByteSet::from([1, 2, 3]);
    let mut set = ByteSet::new();
    assert_eq!(set.is_subset(&sup), true);
    set.insert(2);
    assert_eq!(set.is_subset(&sup), true);
    set.insert(4);
    assert_eq!(set.is_subset(&sup), false);
    assert_eq!(set.is_subset(&sup), (set | sup) == sup);
}

#[test]
fn is_superset_example() {
    let sub = ByteSet::from([1, 2]);
    let mut set = ByteSet::new();
    assert_eq!(set.is_superset(&sub), false);
    set.insert(0);
    set.insert(1);
    assert_eq!(set.is_superset(&sub), false);
    set.insert(2);
    assert_eq!(set.is_superset(&sub), true);
}

#[test]
fn const_eq_example() {
    let a = ByteSet::from_bytes(&[5, 10, 15]);
    let b = ByteSet::from_bytes(&[5, 10, 15, 20]);
    let c = ByteSet::from_bytes(&[15, 10, 5]);
    assert!(!a.const_eq(&b));
    assert!(a.const_eq(&c));
    assert_eq!(a.const_eq(&c), a == c);
    assert_eq!(a.const_eq(&b), a == b);
}

#[test]
fn insert_example() {
    let mut set = ByteSet::new();
    set.insert(2);
    set.insert(2);
    assert_eq!(set.len(), 1);
}

#[test]
fn remove_example() {
    let mut set = ByteSet::new();
    set.insert(2);
    set.remove(2);
    assert_eq!(set.len(), 0);
    set.remove(2);
    assert_eq!(set.len(), 0);
}

#[test]
fn toggle_example() {
    let mut set = ByteSet::new();
    set.toggle(2);
    assert!(set.contains(2));
    set.toggle(2);
    assert!(!set.contains(2));
}

#[test]
fn toggle_twice_restores() {
    let orig = ByteSet::from([1, 64, 128, 255]);
    for i in [0u8, 1, 63, 64, 200, 255] {
        let mut set = orig;
        set.toggle(i);
        assert_ne!(set, orig);
        set.toggle(i);
        assert_eq!(set, orig);
    }
}

#[test]
fn min_example() {
    let mut set = ByteSet::new();
    assert_eq!(set.min(), None);
    set |= 30..50;
    assert_eq!(set.min(), Some(30));
}

#[test]
fn max_example() {
    let mut set = ByteSet::new();
    assert_eq!(set.max(), None);
    set |= 30..50;
    assert_eq!(set.max(), Some(49));
}

#[test]
fn min_max_in_each_word() {
    for b in [0u8, 1, 63, 64, 65, 127, 128, 191, 192, 254, 255] {
        let set = ByteSet::from([b]);
        assert_eq!(set.min(), Some(b));
        assert_eq!(set.max(), Some(b));
    }
    let set = ByteSet::from([5, 70, 150, 250]);
    assert_eq!(set.min(), Some(5));
    assert_eq!(set.max(), Some(250));
}

#[test]
fn from_bounds_example() {
    let set = ByteSet::from_bounds(Bound::Unbounded, Bound::Excluded(10));
    assert_eq!(set, ByteSet::from(..10));
    assert_eq!(set.len(), 10);
}

#[test]
fn from_bounds_edges() {
    let all = ByteSet::from_bounds(Bound::Unbounded, Bound::Unbounded);
    assert_eq!(all, ByteSet::full());
    let none = ByteSet::from_bounds(Bound::Excluded(255), Bound::Unbounded);
    assert!(none.is_empty());
    let top = ByteSet::from_bounds(Bound::Included(255), Bound::Included(255));
    assert_eq!(collect(&top), vec![255]);
    let crossing = ByteSet::from_bounds(Bound::Excluded(62), Bound::Excluded(130));
    assert_eq!(crossing.len(), 67);
    assert_eq!(crossing.min(), Some(63));
    assert_eq!(crossing.max(), Some(129));
    let reversed = ByteSet::from_bounds(Bound::Included(20), Bound::Excluded(10));
    assert!(reversed.is_empty());
    let pair: ByteSet = (Bound::Included(3), Bound::Included(5)).into();
    assert_eq!(collect(&pair), vec![3, 4, 5]);
}

#[test]
fn ranges_convert() {
    assert_eq!(collect(&ByteSet::from(250..)), vec![250, 251, 252, 253, 254, 255]);
    assert_eq!(collect(&ByteSet::from(..3)), vec![0, 1, 2]);
    assert_eq!(collect(&ByteSet::from(..=3)), vec![0, 1, 2, 3]);
    assert_eq!(collect(&ByteSet::from(3..=3)), vec![3]);
    assert_eq!(ByteSet::from(0..=255).len(), 256);
    assert!(ByteSet::from(5..5).is_empty());
}

#[test]
fn exhausted_inclusive_range() {
    let mut r = 7..=7u8;
    assert_eq!(r.next(), Some(7));
    assert!(ByteSet::from(r).is_empty());
}

#[test]
fn operators_with_bytes() {
    let set = ByteSet::new() | 4u8;
    assert_eq!(collect(&set), vec![4]);
    let set = set ^ 4u8;
    assert!(set.is_empty());
    let mut set = ByteSet::from([1, 2]);
    set |= 9u8;
    set ^= 1u8;
    assert_eq!(collect(&set), vec![2, 9]);
    set &= 0..5;
    assert_eq!(collect(&set), vec![2]);
    set ^= 0..3;
    assert_eq!(collect(&set), vec![0, 1]);
}

#[test]
fn not_is_complement() {
    let set = ByteSet::from(0..200);
    let comp = !set;
    assert_eq!(comp, ByteSet::from(200..));
    assert_eq!(!comp, set);
    assert_eq!(!ByteSet::new(), ByteSet::full());
}

#[test]
fn equality_ignores_insertion_order() {
    let a = ByteSet::from([9, 1, 200]);
    let mut b = ByteSet::new();
    b.insert(200);
    b.insert(9);
    b.insert(1);
    assert_eq!(a, b);
    assert_eq!(ByteSet::default(), ByteSet::new());
}

#[test]
fn extract_if_len_counts_what_next_yields() {
    let mut set = ByteSet::from(0..8);
    let mut e = set.extract_if(|v| v % 2 == 0);
    assert_eq!(e.len(), 4);
    assert_eq!(e.next(), Some(0));
    assert_eq!(e.len(), 3);
    assert_eq!(e.next_back(), Some(6));
    assert_eq!(e.len(), 2);
    assert_eq!(e.next(), Some(2));
    assert_eq!(e.next(), Some(4));
    assert_eq!(e.len(), 0);
    assert_eq!(e.next(), None);
}

#[test]
fn from_ranges_of_references() {
    let (a, b) = (3u8, 6u8);
    assert_eq!(collect(&ByteSet::from(&a..&b)), vec![3, 4, 5]);
    assert_eq!(collect(&ByteSet::from(&a..=&b)), vec![3, 4, 5, 6]);
    assert_eq!(ByteSet::from(&b..).len(), 250);
    assert_eq!(collect(&ByteSet::from(..&a)), vec![0, 1, 2]);
    assert_eq!(collect(&ByteSet::from(..=&a)), vec![0, 1, 2, 3]);
    let pair: ByteSet = (Bound::Excluded(&a), Bound::Included(&b)).into();
    assert_eq!(collect(&pair), vec![4, 5, 6]);
    let set = ByteSet::new() | (&a..&b);
    assert_eq!(collect(&set), vec![3, 4, 5]);
}

#[test]
fn operators_with_every_kind_of_operand() {
    let base = ByteSet::from(0..10);
    assert_eq!(base & [1u8, 2, 200], [1, 2].into());
    assert_eq!(base & &[1u8, 2][..], [1, 2].into());
    assert_eq!(base & &[9u8], [9].into());
    assert_eq!(base | .., ByteSet::full());
    assert_eq!(base ^ (5..15), ByteSet::from(0..5) | (10..15));
    assert_eq!(base & (Bound::Included(8u8), Bound::Unbounded), ByteSet::from(8..10));
    let mut set = base;
    set &= ..=2;
    assert_eq!(collect(&set), vec![0, 1, 2]);
    set |= 250..;
    assert_eq!(set.len(), 9);
    set ^= ByteSet::from([0, 1]);
    assert_eq!(set.min(), Some(2));
}

#[test]
fn default_is_empty() {
    assert!(ByteSet::default().is_empty());
    assert_eq!(ByteSet::default(), ByteSet::new());
}

#[test]
fn to_vec_lists_members_in_order() {
    let set = ByteSet::from([200, 3, 64, 3, 0]);
    assert_eq!(set.to_vec(), vec![0, 3, 64, 200]);
    assert_eq!(ByteSet::new().to_vec(), Vec::<u8>::new());
    assert_eq!(ByteSet::full().to_vec().len(), 256);
}

#[test]
fn debug_string_is_the_member_list() {
    let set = ByteSet::from([1, 2, 3]);
    assert_eq!(set.debug_string(), "[1, 2, 3]");
    assert_eq!(ByteSet::new().debug_string(), "[]");
    assert_eq!(ByteSet::from(254..).debug_string(), "[254, 255]");
}

#[test]
fn len_counts_bits_in_every_word() {
    for b in 0..=255u8 {
        assert_eq!(ByteSet::from(..=b).len(), b as usize + 1);
        assert_eq!(ByteSet::from(b..).len(), 256 - b as usize);
    }
    assert_eq!(ByteSet::from([0, 63, 64, 127, 128, 191, 192, 255]).len(), 8);
}

#[test]
fn retain_with_stateful_predicate() {
    let mut set = ByteSet::from(0..10);
    let mut seen = Vec::new();
    set.retain(|k| {
        seen.push(k);
        k < 5
    });
    assert_eq!(seen, (0..10).collect::<Vec<u8>>());
    assert_eq!(set, ByteSet::from(0..5));
}

#[test]
fn extract_if_with_stateful_predicate() {
    let mut set = ByteSet::from(0..6);
    let mut seen = 0;
    let out = drain_extract(set.extract_if(|v| {
        seen += 1;
        v >= 3
    }));
    assert_eq!(out, vec![3, 4, 5]);
    assert_eq!(seen, 6);
    assert_eq!(set, ByteSet::from(0..3));
}
