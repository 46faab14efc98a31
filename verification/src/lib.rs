//! Conversion of rhythm-game charts between several native formats through one
//! canonical in-memory chart.
//!
//! All quantities are integers. Times are milliseconds. Tempos and other
//! fractional quantities are fixed-point numbers in thousandths, and beat
//! positions are counted in ticks (see [`utils::rhythm`]).

pub mod errors;
pub mod models;
pub mod parsers;
pub mod writers;
pub mod utils;

pub use models::common;
pub use models::fluxis;
pub use models::generic;
pub use models::osu;
pub use models::quaver;

pub use common::{GameMode, Key, KeyType};
pub use fluxis::FscFile;
pub use generic::GenericManiaChart;
pub use osu::OsuFile;
pub use quaver::QuaFile;
