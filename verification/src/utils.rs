//! Helpers that the models and the format adapters share.

pub mod beats;
pub mod numbers;
pub mod quaver;
pub mod rhythm;
pub mod sections;
pub mod sequences;
pub mod text;
