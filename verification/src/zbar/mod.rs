//! The status bar.

pub mod battery;
pub mod brightness;
pub mod clock;
pub mod cpu_mem;
pub mod net_info;
pub mod net_worker;
pub mod network;
pub mod outputs;
pub mod popup_catcher;
pub mod settings;
pub mod theme;
pub mod tray;
pub mod volume;
pub mod window_title;
pub mod workspaces;
