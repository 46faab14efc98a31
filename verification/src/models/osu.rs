//! The model of the INI-like format: one struct per section of the file.

pub mod chart;
pub mod difficulty;
pub mod editor;
pub mod events;
pub mod general;
pub mod hitobjects;
pub mod metadata;
pub mod sound;
pub mod timing_points;

pub use chart::{OsuFile, OsuMode};
pub use difficulty::Difficulty;
pub use editor::Editor;
pub use events::{Background, Break, Event, Events, Sample, Video};
pub use general::{General, OverlayPosition};
pub use hitobjects::{HitObject, HitObjects};
pub use metadata::Metadata;
pub use sound::{HitSample, SampleSet};
pub use timing_points::{TimingPoint, TimingPoints};
