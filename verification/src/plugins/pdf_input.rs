//! `pdf`: would extract the content of uploaded PDF files. Not
//! implemented: enabling it fails the request with a clear error rather
//! than silently doing nothing.

use vstd::prelude::*;

use super::{Flow, Plugin, PluginContext};
use crate::canonical::{ChatRequest, ChatResponse};

verus! {

pub struct PdfInputPlugin;

pub const PDF_UNIMPLEMENTED: &'static str = "plugin 'pdf' (PDF Inputs) is enabled but not yet implemented: extend canonical::Message to support attachments and add PDF text extraction";

impl Plugin for PdfInputPlugin {
    fn id(&self) -> (r: &'static str)
        ensures
            r@ == "pdf"@,
    {
        "pdf"
    }

    /// Before routing: always fails, with the error text it returns.
    fn pre_request(&self, _ctx: &PluginContext, req: &mut ChatRequest, resp: &mut Option<ChatResponse>) -> (r: Result<
        Flow,
        String,
    >)
        ensures
            r matches Err(e) && e@ == PDF_UNIMPLEMENTED@,
            *final(req) == *old(req),
            *final(resp) == *old(resp),
    {
        Err(String::from_str(PDF_UNIMPLEMENTED))
    }
}

} // verus!
