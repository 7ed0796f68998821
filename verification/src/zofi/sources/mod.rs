//! What the launcher can list.

pub mod apps;
pub mod clipboard;
pub mod file_icons;
pub mod files;
pub mod icon;
pub mod union;
pub mod windows;
