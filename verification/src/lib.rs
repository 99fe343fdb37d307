//! Data structures indexed by `u8`: every integer from 0 to 255 inclusive.
//!
//! - [`ByteSet`]: a set of bytes stored as a 256-bit array.
//! - [`ByteTable`]: a lookup table backed by `[T; 256]`, indexed by `u8`
//!   without any bounds check.

pub mod bits;
pub mod bounds;
pub mod set;
pub mod table;

pub use set::ByteSet;
pub use table::ByteTable;
