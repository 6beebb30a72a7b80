//! The rule library.

pub mod all_of;
pub mod any;
pub mod delimitted;
pub mod either;
pub mod literal;
pub mod not;
pub mod one_or_more;
pub mod optional;
pub mod peek;
pub mod range;
pub mod sets;
pub mod zero_or_more;

pub use self::any::Any;
pub use self::delimitted::Delimitted;
pub use self::either::Either;
pub use self::literal::Literal;
pub use self::not::Not;
pub use self::one_or_more::OneOrMore;
pub use self::peek::Peek;
pub use self::range::Range;
pub use self::sets::{DelimittedSetOf, SetOf};
