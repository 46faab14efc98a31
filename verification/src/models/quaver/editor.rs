//! Editor layers. They carry nothing that a chart needs.

use vstd::prelude::*;

verus! {

#[derive(Debug, Clone)]
pub struct EditorLayer {
    pub name: String,
    pub color_rgb: RgbColor,
}

#[derive(Debug, Clone, Copy, PartialEq, Eq, Structural)]
pub struct RgbColor {
    pub red: u8,
    pub green: u8,
    pub blue: u8,
}

} // verus!
