//! Build-time icon bundling: resolves icon files from shipped packs and a
//! user-supplied folder into a registry of unique identifiers, packs the
//! selected files into a single GResource container, and renders Rust
//! constants for every packed asset.

pub mod bundle;
pub mod catalog;
pub mod codegen;
pub mod errors;
pub mod merge;
pub mod normalize;
pub mod patcher;
pub mod pipeline;
pub mod registry;
pub mod text;
