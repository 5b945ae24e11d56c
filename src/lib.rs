//! A headless build-and-inspect library for a hierarchical 3D scene: a small
//! declarative property language, a loader that turns a project tree into an
//! enriched scene graph, a structured diff between two scene graphs, a parser
//! for script-analyzer diagnostics, and the layout logic that feeds a software
//! rasterizer.

pub mod errors;
pub mod text;
pub mod analysis;
pub mod datamodel;
pub mod parser;
pub mod bounds;
pub mod loader;
pub mod valuetext;
pub mod diff;
pub mod render;
pub mod options;
