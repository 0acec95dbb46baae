//! A local-first LLM router: the wire formats it speaks, the canonical
//! request/response model they translate to, the routing rules, classifiers
//! and plugins that decide where a request goes, and the small state
//! machines that drive streaming and the request pipeline.

pub mod json;
pub mod text;
pub mod canonical;
pub mod config;
pub mod provider;
pub mod router;
pub mod formats;
pub mod plugins;
pub mod classifiers;
pub mod logging;
pub mod server;
pub mod stream;
pub mod tui;
pub mod watch;
pub mod cli;
