//! The canonical chart: the one representation every format converts through.

pub mod sound;
pub mod metadata;
pub mod chart;
pub mod chartinfo;
pub mod hitobjects;
pub mod timing_points;

pub use sound::{HitSoundType, KeySound, SoundBank, SoundEffect};
pub use metadata::Metadata;
pub use chart::GenericManiaChart;
pub use chartinfo::ChartInfo;
pub use hitobjects::{HitObject, HitObjects};
pub use timing_points::{TimingChange, TimingPoint, TimingPoints};
