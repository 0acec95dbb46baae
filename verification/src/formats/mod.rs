//! The wire formats the router speaks, and their translation to and from
//! the canonical model.

pub mod anthropic;
pub mod ollama;
pub mod openai;
pub mod responses;
