//! Core logic of a desktop meeting assistant.

pub mod app;
pub mod appearance;
pub mod audio;
pub mod debug_log;
pub mod dictation;
pub mod domain;
pub mod json;
pub mod number;
pub mod providers;
pub mod text;
pub mod window;
