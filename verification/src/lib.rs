//! The logic of a small desktop shell: a status bar, a launcher with a clipboard
//! history, and what the two share.

pub mod clipd;
pub mod json;
pub mod numeral;
pub mod pathname;
pub mod sorting;
pub mod text;
pub mod textmap;
pub mod wire;
pub mod zbar;
pub mod zofi;
pub mod ztheme;
pub mod zwindows;
