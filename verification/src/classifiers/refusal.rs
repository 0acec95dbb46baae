//! `refusal`: tags a response that looks like a model refusal.
//!
//! Config:
//!
//! ```toml
//! [response_classifiers.refusal]
//! enabled = true
//! phrases = ["i cannot help with that", "i can't assist with"]
//! ```
//!
//! Without `phrases`, a built-in list is used. The response content is
//! searched case-insensitively for any phrase; a hit gives the `refusal`
//! tag. A plain substring match, not a real refusal classifier.

use vstd::prelude::*;

use super::{ClassifierContext, ResponseClassifier};
use crate::canonical::{ChatRequest, ChatResponse};
use crate::json::{lookup, JsonValue};
use crate::text::{contains_str, has_substring, lowercase, to_lower};

verus! {

pub struct RefusalClassifier;

/// The phrases searched for when none are configured.
pub open spec fn default_phrases() -> Seq<Seq<char>> {
    seq![
        "i cannot help with that"@,
        "i can't help with that"@,
        "i cannot assist with"@,
        "i can't assist with"@,
        "i'm not able to help with"@,
        "i am not able to help with"@,
        "as an ai language model"@,
        "i won't be able to help with that"@,
    ]
}

/// The lower-cased strings among the first `n` values of `vs`, in order.
pub open spec fn lowered_strings(vs: Seq<JsonValue>, n: int) -> Seq<Seq<char>>
    decreases n,
{
    if n <= 0 {
        Seq::empty()
    } else {
        lowered_strings(vs, n - 1) + match vs[n - 1] {
            JsonValue::Str(s) => seq![lowercase(s@)],
            _ => Seq::empty(),
        }
    }
}

/// The configured phrases: the strings of the `phrases` array, lower-cased.
pub open spec fn configured_phrases(settings: Seq<(String, JsonValue)>) -> Seq<Seq<char>> {
    match lookup(settings, "phrases"@) {
        Some(JsonValue::Array(vs)) => lowered_strings(vs@, vs@.len() as int),
        _ => Seq::empty(),
    }
}

/// The phrases searched for: the configured ones, or the built-in list
/// when none are configured.
pub open spec fn refusal_phrases(settings: Seq<(String, JsonValue)>) -> Seq<Seq<char>> {
    if configured_phrases(settings).len() == 0 {
        default_phrases()
    } else {
        configured_phrases(settings)
    }
}

/// `["refusal"]` when some phrase occurs in the lower-cased content, else
/// nothing.
pub open spec fn refusal_tags(settings: Seq<(String, JsonValue)>, content: Seq<char>) -> Seq<Seq<char>> {
    if exists|i: int|
        0 <= i < refusal_phrases(settings).len() && has_substring(
            lowercase(content),
            #[trigger] refusal_phrases(settings)[i],
        ) {
        seq!["refusal"@]
    } else {
        Seq::empty()
    }
}

/// With no `phrases` setting, a response is tagged `refusal` exactly when
/// its lower-cased content contains one of the eight built-in phrases.
pub proof fn law_default_refusal_phrases(settings: Seq<(String, JsonValue)>, content: Seq<char>)
    requires
        lookup(settings, "phrases"@) is None,
    ensures
        refusal_tags(settings, content) == if {
            let hay = lowercase(content);
            ||| has_substring(hay, "i cannot help with that"@)
            ||| has_substring(hay, "i can't help with that"@)
            ||| has_substring(hay, "i cannot assist with"@)
            ||| has_substring(hay, "i can't assist with"@)
            ||| has_substring(hay, "i'm not able to help with"@)
            ||| has_substring(hay, "i am not able to help with"@)
            ||| has_substring(hay, "as an ai language model"@)
            ||| has_substring(hay, "i won't be able to help with that"@)
        } {
            seq!["refusal"@]
        } else {
            Seq::empty()
        },
{
    let ps = refusal_phrases(settings);
    assert(configured_phrases(settings).len() == 0);
    assert(ps == default_phrases());
    let hay = lowercase(content);
    assert(ps[0] == "i cannot help with that"@);
    assert(ps[1] == "i can't help with that"@);
    assert(ps[2] == "i cannot assist with"@);
    assert(ps[3] == "i can't assist with"@);
    assert(ps[4] == "i'm not able to help with"@);
    assert(ps[5] == "i am not able to help with"@);
    assert(ps[6] == "as an ai language model"@);
    assert(ps[7] == "i won't be able to help with that"@);
    assert(ps.len() == 8);
}

fn phrases_of(settings: &Vec<(String, JsonValue)>) -> (r: Vec<String>)
    ensures
        r@.map_values(|s: String| s@) == refusal_phrases(settings@),
{
    let mut out: Vec<String> = Vec::new();
    if let Some(JsonValue::Array(vs)) = crate::json::get(settings, "phrases") {
        let mut i: usize = 0;
        while i < vs.len()
            invariant
                i <= vs.len(),
                out@.map_values(|s: String| s@) == lowered_strings(vs@, i as int),
            decreases vs.len() - i,
        {
            if let JsonValue::Str(s) = &vs[i] {
                out.push(to_lower(s.as_str()));
            }
            proof {
                assert(out@.map_values(|s: String| s@) =~= lowered_strings(vs@, i + 1));
            }
            i = i + 1;
        }
    }
    proof {
        assert(out@.map_values(|s: String| s@) == configured_phrases(settings@));
    }
    if out.len() == 0 {
        let mut d: Vec<String> = Vec::new();
        d.push(String::from_str("i cannot help with that"));
        d.push(String::from_str("i can't help with that"));
        d.push(String::from_str("i cannot assist with"));
        d.push(String::from_str("i can't assist with"));
        d.push(String::from_str("i'm not able to help with"));
        d.push(String::from_str("i am not able to help with"));
        d.push(String::from_str("as an ai language model"));
        d.push(String::from_str("i won't be able to help with that"));
        proof {
            assert(d@.map_values(|s: String| s@) =~= default_phrases());
        }
        return d;
    }
    out
}

impl ResponseClassifier for RefusalClassifier {
    fn id(&self) -> (r: &'static str)
        ensures
            r@ == "refusal"@,
    {
        "refusal"
    }

    /// `["refusal"]` when the response content contains, case-insensitively,
    /// a configured phrase (or a built-in one when none are configured).
    fn classify(&self, ctx: &ClassifierContext, _req: &ChatRequest, resp: &ChatResponse) -> (r: Vec<String>)
        ensures
            r@.map_values(|s: String| s@) == refusal_tags(ctx.entries(), resp.content@),
    {
        let empty: Vec<(String, JsonValue)> = Vec::new();
        let settings = match ctx.settings {
            Some(s) => s,
            None => &empty,
        };
        proof {
            assert(settings@ == ctx.entries());
        }
        let phrases = phrases_of(settings);
        let hay = to_lower(resp.content.as_str());
        let ghost ps = refusal_phrases(settings@);
        let mut hit = false;
        let mut i: usize = 0;
        while i < phrases.len()
            invariant
                i <= phrases.len(),
                phrases@.map_values(|s: String| s@) == ps,
                hay@ == lowercase(resp.content@),
                hit <==> exists|w: int| 0 <= w < i && has_substring(hay@, #[trigger] ps[w]),
            decreases phrases.len() - i,
        {
            proof {
                assert(ps[i as int] == phrases@[i as int]@);
            }
            if contains_str(hay.as_str(), phrases[i].as_str()) {
                hit = true;
            }
            i = i + 1;
        }
        let mut tags: Vec<String> = Vec::new();
        if hit {
            tags.push(String::from_str("refusal"));
        }
        proof {
            assert(tags@.map_values(|s: String| s@) =~= refusal_tags(settings@, resp.content@));
        }
        tags
    }
}

} // verus!
