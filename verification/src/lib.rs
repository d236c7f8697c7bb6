//! Verified core of a small REST toolkit: intrinsic field validators, the
//! accumulating validation primitives, a composable query description with an
//! in-memory repository, phantom-typed identifiers, and the rule logic behind
//! the validation derives.

pub mod chars;
pub mod validation;
pub mod formats;
pub mod pattern;
pub mod validators;
pub mod query;
pub mod paging;
pub mod repository;
pub mod id;
pub mod rules;
