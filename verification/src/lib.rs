//! Conversion between an OpenAI-compatible chat wire format and the
//! internal message model, and a framing parser for server-sent events.

pub mod text;
pub mod sse;
pub mod json;
pub mod types;
pub mod openai_compat;
pub mod laws;
pub mod conversion_laws;
