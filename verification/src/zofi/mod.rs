//! The launcher.

pub mod assets;
pub mod bar;
pub mod highlight;
pub mod launcher;
pub mod registry;
pub mod source;
pub mod sources;
pub mod theme;
pub mod usage;
