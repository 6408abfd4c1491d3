//! The combinator toolkit: sequence transformations, scalar helpers, a
//! currying layer and a composition layer, each verified against the model
//! in [`model`].

pub mod compose;
pub mod curry;
pub mod fun;
pub mod laws;
pub mod list;
pub mod model;
pub mod scalar;
