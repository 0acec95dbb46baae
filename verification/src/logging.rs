//! The records of the request feed and the request log.
//!
//! The feed (`/dashboard/events`, read by the dashboard, `watch` and the
//! terminal UI) carries [`RouterEvent`]s: `Start` as soon as a request
//! enters the pipeline, `Classified` and `Routed` as it progresses, and
//! `Complete` when it finishes. Only `Complete` events are written to the
//! log file, one JSON line each. Writing the file and serializing are done
//! by the program around the library.

use vstd::prelude::*;

use crate::canonical::{ChatResponse, Message};

verus! {

/// One event of the request feed. Timestamps are milliseconds since the
/// Unix epoch.
#[derive(Debug)]
pub enum RouterEvent {
    /// A request entered the pipeline, before classifiers or routing.
    Start {
        id: u64,
        ts_ms: u64,
        /// The model the client asked for.
        model: String,
        /// Requests in flight, this one included.
        in_flight: u64,
    },
    /// The classifiers ran; `tags` may be empty.
    Classified { id: u64, ts_ms: u64, tags: Vec<String> },
    /// The router chose a provider and model, before the upstream call.
    Routed { id: u64, ts_ms: u64, provider: String, model: String },
    /// The pipeline finished, with a response or an error; `id` matches the
    /// `Start` event.
    Complete { id: u64, entry: LogEntry },
}

/// The record of one finished request.
#[derive(Debug)]
pub struct LogEntry {
    pub ts_ms: u64,
    pub provider: String,
    /// The model the client asked for.
    pub requested_model: String,
    /// The model sent to the provider (after any rewrite).
    pub sent_model: String,
    pub duration_ms: u64,
    /// Tags the classifiers gave the request before routing.
    pub tags: Vec<String>,
    /// Trace id of the request (hex), when telemetry is enabled.
    pub trace_id: Option<String>,
    /// Ids of the plugins that changed the request or response.
    pub plugins: Vec<String>,
    pub system: Option<String>,
    pub messages: Vec<Message>,
    pub response: Option<ChatResponse>,
    pub error: Option<String>,
}

impl RouterEvent {
    /// Whether the event goes to the log file: only `Complete` ones do.
    pub fn is_logged(&self) -> (r: bool)
        ensures
            r <==> self is Complete,
    {
        match self {
            RouterEvent::Complete { .. } => true,
            _ => false,
        }
    }
}

} // verus!
