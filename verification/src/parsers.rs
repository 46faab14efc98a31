//! From the models of the formats to the canonical chart.

pub mod fluxis;
pub mod osu;
pub mod quaver;
pub mod stepmania;
