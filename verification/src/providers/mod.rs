//! Speech-to-text and language model providers.

pub mod config;
pub mod credentials;
pub mod llm;
pub mod retry;
pub mod sse;
pub mod stt;
