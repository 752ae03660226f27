//! Reduction rules: their data model, their validation and their compiled form.
pub mod compiled;
pub mod header;
pub mod index;
pub mod laws;
pub mod model;
pub mod permutation;
pub mod round_trip;
pub mod sections;
pub mod source;
pub mod validation;
pub mod verification;
