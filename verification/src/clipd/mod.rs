//! The clipboard history and the daemon that keeps it.

pub mod daemon;
pub mod db;
pub mod import;
pub mod model;
pub mod paths;
pub mod preview;
