//! The model of the YAML-based format.

pub mod chart;
pub mod editor;
pub mod hitobjects;
pub mod sound;
pub mod timing_points;

pub use chart::QuaFile;
pub use editor::{EditorLayer, RgbColor};
pub use hitobjects::HitObject;
pub use sound::{AudioSample, KeySound, SoundEffect};
pub use timing_points::{SliderVelocity, TimingPoint};
