//! Functional combinators over materialized sequences, verified.
//!
//! The library offers the classic sequence transformations (map, filter,
//! folds, take/skip, zip, sort) together with scalar helpers, a currying
//! layer and a small composition layer, each with a contract that pins its
//! result down.

pub mod basic_fn;

pub use basic_fn::compose;
pub use basic_fn::curry;
pub use basic_fn::fun;
pub use basic_fn::laws;
pub use basic_fn::list;
pub use basic_fn::model;
pub use basic_fn::scalar;
