use bytetable::ByteTable;
use std::ops::Bound;

#[test]
fn table_example() {
    let table = ByteTable::generate(|n| (n as usize).pow(3));
    assert_eq!(table[99], 99usize.pow(3));
}

#[test]
fn default_example() {
    assert_eq!(ByteTable::default(), ByteTable::new([""; 256]));
}

#[test]
fn new_example() {
    let mut array = [15; 256];
    array[3] = 10;
    let table = ByteTable::new(array);
    assert_eq!(table[255], 15);
    assert_eq!(table[3], 10);
}

#[test]
fn into_array_example() {
    let table = ByteTable::new([15; 256]);
    assert_eq!(table.into_array(), [15; 256]);
}

#[test]
fn generate_boxed_example() {
    let table = ByteTable::generate_boxed(|n| (n as usize).pow(3));
    assert_eq!(table[99], 99usize.pow(3));
}

#[test]
fn generate_covers_every_byte() {
    let table = ByteTable::generate(|n| n);
    for i in 0..=255u8 {
        assert_eq!(table[i], i);
    }
}

#[test]
fn get_example() {
    let table = ByteTable::generate(|n| (n as usize) * 10);
    assert_eq!(*table.get(30), 300);
    assert_eq!(table[30], 300);
}

#[test]
fn get_mut_example() {
    let mut table = ByteTable::generate(|n| (n as usize) * 10);
    *table.get_mut(30) = 0;
    assert_eq!(table[30], 0);
    assert_eq!(table[31], 310);
    table[31] = 1;
    assert_eq!(table[31], 1);
}

#[test]
fn map_example() {
    let times_10 = ByteTable::generate(|n| (n as usize) * 10);
    let plus_1 = times_10.map(|n| n + 1);
    assert_eq!(plus_1[5], 51);
}

#[test]
fn each_ref_and_each_mut() {
    let mut table = ByteTable::generate(|n| n as u32);
    let refs = table.each_ref();
    assert_eq!(*refs[7], 7);
    let mut muts = table.each_mut();
    *muts[7] = 70;
    assert_eq!(table[7], 70);
    assert_eq!(table[8], 8);
}

#[test]
fn slices_and_arrays() {
    let mut table = ByteTable::generate(|n| n);
    assert_eq!(table.as_slice().len(), 256);
    assert_eq!(table.as_slice()[200], 200);
    table.as_mut_slice()[0] = 9;
    assert_eq!(table[0], 9);
    assert_eq!(table.as_array()[1], 1);
    table.as_array_mut()[1] = 11;
    assert_eq!(table[1], 11);
    assert_eq!(table.len(), 256);
    let r: &[u8] = table.as_ref();
    assert_eq!(r[1], 11);
}

#[test]
fn range_indexing() {
    let mut table = ByteTable::generate(|n| n);
    assert_eq!(&table[10..13], &[10, 11, 12]);
    assert_eq!(&table[253..], &[253, 254, 255]);
    assert_eq!(&table[..2], &[0, 1]);
    assert_eq!(&table[..=2], &[0, 1, 2]);
    assert_eq!(&table[4..=5], &[4, 5]);
    assert_eq!(table[..].len(), 256);
    assert_eq!(&table[(Bound::Excluded(1), Bound::Included(3))], &[2, 3]);
    assert_eq!(table[(Bound::Unbounded, Bound::Unbounded)].len(), 256);
    assert_eq!(&table[255..=255], &[255]);
    table[10..12].copy_from_slice(&[0, 0]);
    assert_eq!(&table[9..13], &[9, 0, 0, 12]);
    table[(Bound::Included(0), Bound::Excluded(1))][0] = 5;
    assert_eq!(table[0], 5);
}

#[test]
fn exhausted_inclusive_range_index() {
    let table = ByteTable::generate(|n| n);
    let mut r = 3..=3u8;
    assert_eq!(r.next(), Some(3));
    assert!(table[r].is_empty());
}

#[test]
fn conversions() {
    let table: ByteTable<u16> = [2u16; 256].into();
    let back: [u16; 256] = table.into();
    assert_eq!(back, [2u16; 256]);
    let v = vec![1u8; 256];
    let t = ByteTable::try_from(&v[..]).unwrap();
    assert_eq!(t[255], 1);
    assert!(ByteTable::try_from(&v[..255]).is_err());
    let mut w = vec![3u8; 256];
    let t2 = ByteTable::try_from(&mut w[..]).unwrap();
    assert_eq!(t2[0], 3);
}

#[test]
fn iterate_by_reference() {
    let table = ByteTable::generate(|n| n as u32);
    let mut sum = 0u32;
    for v in &table {
        sum += *v;
    }
    assert_eq!(sum, 255 * 256 / 2);
}

#[test]
fn compare_with_arrays_and_slices() {
    let table = ByteTable::new([4u8; 256]);
    let array = [4u8; 256];
    assert!(table == array);
    assert!(array == table);
    assert!(table == array[..]);
    assert!(array[..] == table);
    assert!(table == &array[..]);
    assert!(&array[..] == table);
    assert!(table == &array);
    assert!(&array == table);
    let mut other = [4u8; 256];
    other[255] = 5;
    assert!(table != other);
    assert!(other != table);
    assert!(table != &mut other[..]);
    assert!(&mut other[..] != table);
    assert!(table != &mut other);
    assert!(&mut other != table);
    assert!(table != array[..255]);
    assert!(array[..255] != table);
}

#[test]
fn iterate_by_value_and_mutably() {
    let mut table = ByteTable::generate(|n| n as u32);
    for v in &mut table {
        *v += 1;
    }
    assert_eq!(table[0], 1);
    assert_eq!(table[255], 256);
    let values: Vec<u32> = table.into_iter().collect();
    assert_eq!(values.len(), 256);
    assert_eq!(values[10], 11);
}

#[test]
fn map_with_stateful_closure() {
    let table = ByteTable::generate(|n| n as u32);
    let mut calls = 0u32;
    let mapped = table.map(|v| {
        calls += 1;
        v * 2
    });
    assert_eq!(calls, 256);
    assert_eq!(mapped[100], 200);
}
