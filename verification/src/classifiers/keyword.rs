//! `keyword`: tags a request by configurable keyword lists.
//!
//! Config:
//!
//! ```toml
//! [classifiers.keyword]
//! enabled = true
//!
//! [classifiers.keyword.tags]
//! vision = ["image", "photo", "picture", "screenshot"]
//! nsfw = ["explicit term", "another term"]
//! ```
//!
//! The system prompt and the text of every message are joined and searched
//! case-insensitively for each tag's keywords; a tag with at least one hit
//! is given to the request. A plain substring match: a configurable
//! baseline, not a real moderation or modality classifier.

use vstd::prelude::*;

use super::{ClassifierContext, Classifier};
use crate::canonical::{message_models, text_of_parts, ChatRequest, MessageModel};
use crate::json::{lookup, JsonValue};
use crate::text::{contains_str, has_prefix, has_substring, lowercase, occurs_at, str_eq, to_lower};

verus! {

pub struct KeywordClassifier;

/// The text of messages, each preceded by a space.
pub open spec fn messages_text(ms: Seq<MessageModel>) -> Seq<char>
    decreases ms.len(),
{
    if ms.len() == 0 {
        Seq::empty()
    } else {
        messages_text(ms.drop_last()) + " "@ + text_of_parts(ms.last().content)
    }
}

/// What the keywords are searched in: the lower-cased system prompt (empty
/// when absent) followed by the text of every message.
pub open spec fn request_haystack(req: ChatRequest) -> Seq<char> {
    lowercase(
        match req.system {
            Some(s) => s@,
            None => Seq::empty(),
        } + messages_text(message_models(req.messages@)),
    )
}

/// Some string of `keywords`, lower-cased, occurs in `hay`.
pub open spec fn keyword_hit(hay: Seq<char>, keywords: Seq<JsonValue>) -> bool {
    exists|i: int|
        0 <= i < keywords.len() && match #[trigger] keywords[i] {
            JsonValue::Str(k) => has_substring(hay, lowercase(k@)),
            _ => false,
        }
}

/// A later entry of `entries` binds the same key as entry `i`.
pub open spec fn shadowed(entries: Seq<(String, JsonValue)>, i: int) -> bool {
    exists|j: int| i < j < entries.len() && #[trigger] entries[j].0@ == entries[i].0@
}

/// Tag entry `i` applies: it is the binding of its key and lists, as an
/// array, a keyword that occurs in `hay`.
pub open spec fn tag_applies(entries: Seq<(String, JsonValue)>, i: int, hay: Seq<char>) -> bool {
    !shadowed(entries, i) && match entries[i].1 {
        JsonValue::Array(kws) => keyword_hit(hay, kws@),
        _ => false,
    }
}

/// The tags among the first `n` entries that apply, in order.
pub open spec fn matched_tags(entries: Seq<(String, JsonValue)>, hay: Seq<char>, n: int) -> Seq<Seq<char>>
    decreases n,
{
    if n <= 0 {
        Seq::empty()
    } else {
        matched_tags(entries, hay, n - 1) + if tag_applies(entries, n - 1, hay) {
            seq![entries[n - 1].0@]
        } else {
            Seq::empty()
        }
    }
}

/// The tags the keyword classifier gives, by its `tags` setting (none when
/// that is not a table).
pub open spec fn keyword_tags(settings: Seq<(String, JsonValue)>, hay: Seq<char>) -> Seq<Seq<char>> {
    match lookup(settings, "tags"@) {
        Some(JsonValue::Object(entries)) => matched_tags(entries@, hay, entries@.len() as int),
        _ => Seq::empty(),
    }
}

/// The text of a run of messages is the text of its first part followed by
/// the text of the rest.
proof fn lemma_messages_text_concat(a: Seq<MessageModel>, b: Seq<MessageModel>)
    ensures
        messages_text(a + b) == messages_text(a) + messages_text(b),
    decreases b.len(),
{
    if b.len() == 0 {
        assert(a + b =~= a);
        assert(messages_text(b) =~= Seq::<char>::empty());
        assert(messages_text(a) + messages_text(b) =~= messages_text(a));
    } else {
        lemma_messages_text_concat(a, b.drop_last());
        assert((a + b).drop_last() =~= a + b.drop_last());
        assert((a + b).last() == b.last());
        assert(messages_text(a + b) =~= messages_text(a) + messages_text(b));
    }
}

/// The keywords are searched in the lower-cased form of a text that starts
/// with the system prompt and holds the text of every message of the
/// request (each after a space), so a keyword in any message can be found,
/// not only in the first.
pub proof fn law_haystack_holds_every_message(req: ChatRequest)
    ensures
        exists|pre: Seq<char>|
            {
                &&& request_haystack(req) == #[trigger] lowercase(pre)
                &&& match req.system {
                    Some(sys) => has_prefix(pre, sys@),
                    None => true,
                }
                &&& forall|i: int|
                    0 <= i < req.messages@.len() ==> has_substring(
                        pre,
                        " "@ + text_of_parts(#[trigger] req.messages@[i]@.content),
                    )
            },
{
    let sys = match req.system {
        Some(s) => s@,
        None => Seq::<char>::empty(),
    };
    let mm = message_models(req.messages@);
    let pre = sys + messages_text(mm);
    assert(request_haystack(req) == lowercase(pre));
    assert(pre.subrange(0, sys.len() as int) =~= sys);
    assert forall|i: int| 0 <= i < req.messages@.len() implies has_substring(
        pre,
        " "@ + text_of_parts(#[trigger] req.messages@[i]@.content),
    ) by {
        let m = mm[i];
        assert(m == req.messages@[i]@);
        let one = seq![m];
        assert(one.drop_last() =~= Seq::<MessageModel>::empty());
        assert(messages_text(Seq::<MessageModel>::empty()) =~= Seq::<char>::empty());
        assert(messages_text(one) =~= " "@ + text_of_parts(m.content));
        assert(mm =~= mm.take(i) + (one + mm.skip(i + 1)));
        lemma_messages_text_concat(mm.take(i), one + mm.skip(i + 1));
        lemma_messages_text_concat(one, mm.skip(i + 1));
        let needle = " "@ + text_of_parts(m.content);
        let a = sys + messages_text(mm.take(i));
        let b = messages_text(mm.skip(i + 1));
        assert(pre =~= a + needle + b);
        assert(pre.subrange(a.len() as int, (a.len() + needle.len()) as int) =~= needle);
        assert(occurs_at(pre, needle, a.len() as int));
    }
}

/// The lower-cased text the keywords are searched in.
fn haystack_of(req: &ChatRequest) -> (r: String)
    ensures
        r@ == request_haystack(*req),
{
    let mut text = match &req.system {
        Some(s) => s.clone(),
        None => String::new(),
    };
    let ghost start = text@;
    let ghost mm = message_models(req.messages@);
    let mut i: usize = 0;
    while i < req.messages.len()
        invariant
            i <= req.messages.len(),
            mm == message_models(req.messages@),
            text@ == start + messages_text(mm.take(i as int)),
        decreases req.messages.len() - i,
    {
        proof {
            assert(mm.take(i + 1).drop_last() =~= mm.take(i as int));
            assert(mm.take(i + 1).last() == req.messages@[i as int]@);
        }
        text.append(" ");
        let body = req.messages[i].text_content();
        text.append(body.as_str());
        proof {
            assert(text@ =~= start + messages_text(mm.take(i + 1)));
        }
        i = i + 1;
    }
    proof {
        assert(mm.take(i as int) =~= mm);
    }
    to_lower(text.as_str())
}

/// Whether a later entry binds the same key as entry `i`.
fn is_shadowed(entries: &Vec<(String, JsonValue)>, i: usize) -> (r: bool)
    requires
        i < entries.len(),
    ensures
        r == shadowed(entries@, i as int),
{
    let mut j: usize = i + 1;
    while j < entries.len()
        invariant
            i < j <= entries.len(),
            forall|w: int| i < w < j ==> entries@[w].0@ != entries@[i as int].0@,
        decreases entries.len() - j,
    {
        if str_eq(entries[j].0.as_str(), entries[i].0.as_str()) {
            return true;
        }
        j = j + 1;
    }
    false
}

/// Whether some keyword of `keywords` occurs in `hay`.
fn any_keyword(hay: &str, keywords: &Vec<JsonValue>) -> (r: bool)
    ensures
        r == keyword_hit(hay@, keywords@),
{
    let mut k: usize = 0;
    while k < keywords.len()
        invariant
            k <= keywords.len(),
            forall|w: int|
                0 <= w < k ==> match #[trigger] keywords@[w] {
                    JsonValue::Str(s) => !has_substring(hay@, lowercase(s@)),
                    _ => true,
                },
        decreases keywords.len() - k,
    {
        if let JsonValue::Str(s) = &keywords[k] {
            let low = to_lower(s.as_str());
            if contains_str(hay, low.as_str()) {
                return true;
            }
        }
        k = k + 1;
    }
    false
}

impl Classifier for KeywordClassifier {
    fn id(&self) -> (r: &'static str)
        ensures
            r@ == "keyword"@,
    {
        "keyword"
    }

    /// The tags of the `tags` setting with a keyword that occurs,
    /// case-insensitively, in the request's system prompt or messages, in
    /// the setting's order.
    fn classify(&self, ctx: &ClassifierContext, req: &ChatRequest) -> (r: Vec<String>)
        ensures
            r@.map_values(|s: String| s@) == keyword_tags(ctx.entries(), request_haystack(*req)),
    {
        let empty: Vec<(String, JsonValue)> = Vec::new();
        let settings = match ctx.settings {
            Some(s) => s,
            None => &empty,
        };
        proof {
            assert(settings@ == ctx.entries());
        }
        let entries = match crate::json::get(settings, "tags") {
            Some(JsonValue::Object(e)) => e,
            _ => {
                return Vec::new();
            },
        };
        let hay = haystack_of(req);
        let mut matched: Vec<String> = Vec::new();
        let mut i: usize = 0;
        while i < entries.len()
            invariant
                i <= entries.len(),
                hay@ == request_haystack(*req),
                matched@.map_values(|s: String| s@) == matched_tags(entries@, hay@, i as int),
            decreases entries.len() - i,
        {
            let applies = if is_shadowed(entries, i) {
                false
            } else {
                match &entries[i].1 {
                    JsonValue::Array(kws) => any_keyword(hay.as_str(), kws),
                    _ => false,
                }
            };
            if applies {
                matched.push(entries[i].0.clone());
            }
            proof {
                assert(applies == tag_applies(entries@, i as int, hay@));
                assert(matched@.map_values(|s: String| s@) =~= matched_tags(entries@, hay@, i + 1));
            }
            i = i + 1;
        }
        matched
    }
}

} // verus!
