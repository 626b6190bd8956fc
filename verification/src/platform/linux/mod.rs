//! Linux: the sound-server scan's identity rules, the power-supply reading,
//! the OS build string, the shell theme reading, and the capabilities Linux
//! answers without asking the OS.

pub mod audio_apps;
pub mod input;
pub mod loopback;
pub mod mcp_paths;
pub mod mic_users;
pub mod ocr;
pub mod os_build;
pub mod permissions;
pub mod power;
pub mod proc;
pub mod pulse;
pub mod supervisor;
pub mod theme;
