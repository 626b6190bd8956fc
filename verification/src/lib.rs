pub mod autodetect;
pub mod commands;
pub mod config;
pub mod dictation;
pub mod janitor;
pub mod json;
pub mod llm;
pub mod mcp_clients;
pub mod notes_matching;
pub mod notice;
pub mod ocr;
pub mod platform;
pub mod support;
pub mod text;
pub mod types;
