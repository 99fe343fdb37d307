# bytetable

Data structures indexed by `u8`, verified with Verus.

- `src/set.rs`: `ByteSet`, a set of bytes stored as four `u64` words, with its
  iterators (`Iter`, `IntoIter`, `ExtractIf`), operators and conversions. Its
  view is a `Set<u8>`; every operation is specified over that view, and the
  laws that relate the operations are proof functions at the end of the file.
- `src/table.rs`: `ByteTable<T>`, a lookup table backed by `[T; 256]`. Its view
  is a `Seq<T>` of length 256.
- `src/bits.rs`: facts about single bits of `u64` words, and a bit count.
- `src/bounds.rs`: bounds of byte ranges and what the crate reads of std's
  range types.
