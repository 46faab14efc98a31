//! The data model: what is common to all formats, and the ordered timelines.

pub mod common;
pub mod fluxis;
pub mod generic;
pub mod grid;
pub mod grid_laws;
pub mod grid_order;
pub mod ordered;
pub mod osu;
pub mod quaver;
pub mod timeline;
