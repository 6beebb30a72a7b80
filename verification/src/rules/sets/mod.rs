//! Sets of entries in any order, each alternative within its bounds.

pub mod delimitted_set_of;
pub mod set_entries;
pub mod set_of;

pub use self::delimitted_set_of::DelimittedSetOf;
pub use self::set_entries::SetEntries;
pub use self::set_of::SetOf;
