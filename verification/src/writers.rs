//! From the canonical chart to the models of the formats.

pub mod fluxis;
pub mod osu;
pub mod quaver;
