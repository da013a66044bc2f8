//! Reducers that fold the items of an iterator into one value: their sum or
//! their product.
//!
//! [`Sum`] and [`Product`] are implemented
//! - for the primitive integer kinds, with exact arithmetic, so that every
//!   running result has to stay in the kind's range ([`exact`]);
//! - for [`core::num::Wrapping`] around them, where the arithmetic wraps
//!   round the range instead ([`wrapping`]);
//! - for `Option` and `Result` around anything that can itself be reduced,
//!   where the first absent or failed item ends the reduction
//!   ([`optional`], [`fallible`]).

pub mod reducer;
pub mod running;
pub mod wrap;
pub mod primitive;
pub mod unsigned;
pub mod signed;
pub mod exact;
pub mod wrapping;
pub mod optional;
pub mod fallible;

pub use fallible::take_ok;
pub use optional::take_present;
pub use primitive::Primitive;
pub use reducer::{Product, Sum};
