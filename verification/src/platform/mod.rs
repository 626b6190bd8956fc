//! The platform layer's pure halves. The OS calls stay with the app; what
//! each platform decides from what the OS answered is here.

pub mod linux;
pub mod macos;
