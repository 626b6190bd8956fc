//! The command modules' pure halves.

pub mod assets;
pub mod finalize;
pub mod meetings;
pub mod models;
pub mod recording;
pub mod settings;
