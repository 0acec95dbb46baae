//! `pareto-router`: picks a provider from a named quality tier (say
//! `low`, `medium`, `high`), so a request can ask for a cheaper or a better
//! model without naming a provider.
//!
//! Config:
//!
//! ```toml
//! [plugins.pareto-router]
//! enabled = true
//! default_tier = "medium"
//!
//! [plugins.pareto-router.tiers]
//! low = ["local-llama"]
//! medium = ["openai"]
//! high = ["anthropic"]
//! ```
//!
//! A request overrides the tier with
//! `{"plugins": [{"id": "pareto-router", "tier": "high"}]}`.

use vstd::prelude::*;

use super::{req_after, Flow, Plugin, PluginContext};
use crate::canonical::{ChatRequest, ChatResponse};
use crate::json::{lookup, str_of, JsonValue};
use crate::text::{concat, debug_list, debug_strings};

verus! {

pub struct ParetoRouterPlugin;

pub const NO_TIERS: &'static str = "pareto-router: no `tiers` configured (e.g. [plugins.pareto-router.tiers])";

/// The tier a request asks for: its `tier` setting, else `default_tier`,
/// else `medium`.
pub open spec fn chosen_tier(settings: Seq<(String, JsonValue)>) -> Seq<char> {
    match str_of(lookup(settings, "tier"@)) {
        Some(t) => t,
        None => match str_of(lookup(settings, "default_tier"@)) {
            Some(t) => t,
            None => "medium"@,
        },
    }
}

/// The keys of an association list, in order.
pub open spec fn keys_of(entries: Seq<(String, JsonValue)>) -> Seq<Seq<char>> {
    entries.map_values(|e: (String, JsonValue)| e.0@)
}

pub open spec fn unknown_tier_message(tier: Seq<char>, known: Seq<Seq<char>>) -> Seq<char> {
    "pareto-router: unknown tier '"@ + tier + "' (configured tiers: "@ + debug_list(known) + ")"@
}

pub open spec fn empty_tier_message(tier: Seq<char>) -> Seq<char> {
    "pareto-router: tier '"@ + tier + "' has no providers configured"@
}

/// The provider the chosen tier names first, or why there is none: no
/// `tiers` object, a tier that it does not list as an array, or a tier
/// whose first entry is missing or not a string.
pub open spec fn pareto_outcome(settings: Seq<(String, JsonValue)>) -> Result<Seq<char>, Seq<char>> {
    let tier = chosen_tier(settings);
    match lookup(settings, "tiers"@) {
        Some(JsonValue::Object(tiers)) => match lookup(tiers@, tier) {
            Some(JsonValue::Array(ps)) => if ps@.len() > 0 {
                match ps@[0] {
                    JsonValue::Str(p) => Ok(p@),
                    _ => Err(empty_tier_message(tier)),
                }
            } else {
                Err(empty_tier_message(tier))
            },
            _ => Err(unknown_tier_message(tier, keys_of(tiers@))),
        },
        _ => Err(NO_TIERS@),
    }
}

fn key_names(entries: &Vec<(String, JsonValue)>) -> (r: Vec<String>)
    ensures
        r@.map_values(|s: String| s@) == keys_of(entries@),
{
    let mut out: Vec<String> = Vec::new();
    let mut i: usize = 0;
    while i < entries.len()
        invariant
            i <= entries.len(),
            out@.len() == i,
            forall|j: int| 0 <= j < i ==> (#[trigger] out@[j])@ == entries@[j].0@,
        decreases entries.len() - i,
    {
        out.push(entries[i].0.clone());
        i = i + 1;
    }
    proof {
        assert(out@.map_values(|s: String| s@) =~= keys_of(entries@));
    }
    out
}

impl Plugin for ParetoRouterPlugin {
    fn id(&self) -> (r: &'static str)
        ensures
            r@ == "pareto-router"@,
    {
        "pareto-router"
    }

    /// Before routing: forces the provider the chosen tier names first.
    fn pre_request(&self, ctx: &PluginContext, req: &mut ChatRequest, resp: &mut Option<ChatResponse>) -> (r: Result<
        Flow,
        String,
    >)
        ensures
            match pareto_outcome(ctx.settings()) {
                Ok(p) => r == Ok::<Flow, String>(Flow::Continue) && req_after(*old(req), *final(req), Some(p)),
                Err(m) => r matches Err(e) && e@ == m && req_after(*old(req), *final(req), None),
            },
            *final(resp) == *old(resp),
    {
        proof {
            reveal_strlit("medium");
        }
        let tier: String = match ctx.get_str("tier") {
            Some(t) => t.clone(),
            None => match ctx.get_str("default_tier") {
                Some(t) => t.clone(),
                None => String::from_str("medium"),
            },
        };
        let tiers = match ctx.get("tiers") {
            Some(JsonValue::Object(t)) => t,
            _ => {
                return Err(String::from_str(NO_TIERS));
            },
        };
        let providers = match crate::json::get(tiers, tier.as_str()) {
            Some(JsonValue::Array(ps)) => ps,
            _ => {
                let known = key_names(tiers);
                let listed = debug_strings(&known);
                let a = concat("pareto-router: unknown tier '", tier.as_str());
                let b = concat(a.as_str(), "' (configured tiers: ");
                let c = concat(b.as_str(), listed.as_str());
                return Err(concat(c.as_str(), ")"));
            },
        };
        if providers.len() > 0 {
            if let JsonValue::Str(p) = &providers[0] {
                req.forced_provider = Some(p.clone());
                return Ok(Flow::Continue);
            }
        }
        let a = concat("pareto-router: tier '", tier.as_str());
        Err(concat(a.as_str(), "' has no providers configured"))
    }
}

} // verus!
