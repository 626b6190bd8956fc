//! macOS: the accent palette and the appearance reading behind the tray
//! theme, and the capabilities macOS answers without a scan.

pub mod audio_apps;
pub mod theme;
