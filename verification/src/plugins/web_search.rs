//! `web`: would add real-time web search results to a request. Not
//! implemented: enabling it fails the request with a clear error rather
//! than silently doing nothing.

use vstd::prelude::*;

use super::{Flow, Plugin, PluginContext};
use crate::canonical::{ChatRequest, ChatResponse};

verus! {

pub struct WebSearchPlugin;

pub const WEB_UNIMPLEMENTED: &'static str = "plugin 'web' (Web Search) is enabled but not yet implemented: configure a search backend and implement WebSearchPlugin::pre_request";

impl Plugin for WebSearchPlugin {
    fn id(&self) -> (r: &'static str)
        ensures
            r@ == "web"@,
    {
        "web"
    }

    /// Before routing: always fails, with the error text it returns.
    fn pre_request(&self, _ctx: &PluginContext, req: &mut ChatRequest, resp: &mut Option<ChatResponse>) -> (r: Result<
        Flow,
        String,
    >)
        ensures
            r matches Err(e) && e@ == WEB_UNIMPLEMENTED@,
            *final(req) == *old(req),
            *final(resp) == *old(resp),
    {
        Err(String::from_str(WEB_UNIMPLEMENTED))
    }
}

} // verus!
