//! The model of the JSON-based format.

pub mod chart;
pub mod hitobjects;
pub mod metadata;
pub mod sound;
pub mod timing_points;

pub use chart::{DualMode, FscFile};
pub use hitobjects::HitObject;
pub use metadata::{Colors, Metadata};
pub use sound::HitSoundFade;
pub use timing_points::{ScrollVelocity, TimingPoint};
