//! The lines `watch [BASE_URL]` prints for the request feed: a one-liner
//! when a request starts, one when it is classified and one when it is
//! routed, and a summary when it completes. The program around the
//! library reads the feed and prints the lines.

use vstd::prelude::*;

use crate::canonical::{message_models, text_of_parts, views, MessageModel, Role, StopReason};
use crate::logging::LogEntry;
use crate::server::{join, join_tags};
use crate::text::{chars_of, concat, decimal, string_of};
use crate::tui::{clock_of, clock_text, trunc, trunc_text};

verus! {

pub const RESET: &'static str = "\x1b[0m";

pub const BOLD: &'static str = "\x1b[1m";

pub const DIM: &'static str = "\x1b[2m";

pub const CYAN: &'static str = "\x1b[36m";

pub const BLUE: &'static str = "\x1b[94m";

pub const YELLOW: &'static str = "\x1b[33m";

pub const MAGENTA: &'static str = "\x1b[35m";

pub const RED: &'static str = "\x1b[31m";

/// `s` with every line break replaced by a space.
pub open spec fn flatten(s: Seq<char>) -> Seq<char> {
    s.map_values(|c: char| if c == '\n' { ' ' } else { c })
}

/// `s` on one line, cut to `max` characters (with `…` when longer).
pub open spec fn truncate_text(s: Seq<char>, max: int) -> Seq<char> {
    trunc_text(flatten(s), max)
}

/// `s` with every line break replaced by a space.
pub fn flatten_str(s: &str) -> (r: String)
    ensures
        r@ == flatten(s@),
{
    let cs = chars_of(s);
    let mut out: Vec<char> = Vec::new();
    let mut i: usize = 0;
    while i < cs.len()
        invariant
            i <= cs.len(),
            cs@ == s@,
            out@ == flatten(cs@.take(i as int)),
        decreases cs.len() - i,
    {
        let c = cs[i];
        out.push(if c == '\n' { ' ' } else { c });
        i = i + 1;
        proof {
            assert(out@ =~= flatten(cs@.take(i as int)));
        }
    }
    proof {
        assert(cs@.take(i as int) =~= cs@);
    }
    string_of(out.as_slice())
}

/// `s` on one line, cut to `max` characters, with `…` when it was longer.
pub fn truncate(s: &str, max: usize) -> (r: String)
    ensures
        r@ == truncate_text(s@, max as int),
{
    let flat = flatten_str(s);
    trunc(flat.as_str(), max)
}

/// The text of the last user message (empty when there is none).
pub open spec fn last_user_text(ms: Seq<MessageModel>) -> Seq<char>
    decreases ms.len(),
{
    if ms.len() == 0 {
        Seq::empty()
    } else if ms.last().role == Role::User {
        text_of_parts(ms.last().content)
    } else {
        last_user_text(ms.drop_last())
    }
}

/// The text of the last user message of `e` (empty when there is none).
pub fn last_user_prompt(e: &LogEntry) -> (r: String)
    ensures
        r@ == last_user_text(message_models(e.messages@)),
{
    let ghost mm = message_models(e.messages@);
    let mut i: usize = e.messages.len();
    proof {
        assert(mm.take(i as int) =~= mm);
    }
    while i > 0
        invariant
            i <= e.messages.len(),
            mm == message_models(e.messages@),
            last_user_text(mm) == last_user_text(mm.take(i as int)),
        decreases i,
    {
        proof {
            assert(mm.take(i as int).drop_last() =~= mm.take(i - 1));
            assert(mm.take(i as int).last() == e.messages@[i - 1]@);
        }
        if e.messages[i - 1].role == Role::User {
            return e.messages[i - 1].text_content();
        }
        i = i - 1;
    }
    String::new()
}

/// The name `{:?}` gives a stop reason.
pub open spec fn stop_name(r: StopReason) -> Seq<char> {
    match r {
        StopReason::EndTurn => "EndTurn"@,
        StopReason::MaxTokens => "MaxTokens"@,
        StopReason::ToolUse => "ToolUse"@,
        StopReason::Other => "Other"@,
    }
}

fn stop_reason_name(r: StopReason) -> (s: &'static str)
    ensures
        s@ == stop_name(r),
{
    match r {
        StopReason::EndTurn => "EndTurn",
        StopReason::MaxTokens => "MaxTokens",
        StopReason::ToolUse => "ToolUse",
        StopReason::Other => "Other",
    }
}

/// The line for a request that started.
pub open spec fn start_line_text(ts_ms: u64, model: Seq<char>, in_flight: u64) -> Seq<char> {
    DIM@ + clock_of(ts_ms) + "  ⋯  "@ + RESET@ + BLUE@ + model + RESET@ + DIM@ + "  ("@ + decimal(in_flight as nat)
        + " in flight)"@ + RESET@
}

/// The line for a request that started.
pub fn start_line(ts_ms: u64, model: &str, in_flight: u64) -> (r: String)
    ensures
        r@ == start_line_text(ts_ms, model@, in_flight),
{
    let mut s = String::from_str(DIM);
    s.append(clock_text(ts_ms).as_str());
    s.append("  ⋯  ");
    s.append(RESET);
    s.append(BLUE);
    s.append(model);
    s.append(RESET);
    s.append(DIM);
    s.append("  (");
    s.append(crate::text::u64_text(in_flight).as_str());
    s.append(" in flight)");
    s.append(RESET);
    s
}

/// The line for a request that was classified, when it got tags.
pub open spec fn classified_line_text(tags: Seq<Seq<char>>) -> Option<Seq<char>> {
    if tags.len() == 0 {
        None
    } else {
        Some(DIM@ + "  → classified: ["@ + join(tags, ", "@) + "]"@ + RESET@)
    }
}

/// `tags` joined with `, `.
fn join_comma_space(tags: &Vec<String>) -> (r: String)
    ensures
        r@ == join(views(tags@), ", "@),
{
    let ghost ts = views(tags@);
    let mut out = String::new();
    let mut i: usize = 0;
    while i < tags.len()
        invariant
            i <= tags.len(),
            ts == views(tags@),
            out@ == join(ts.take(i as int), ", "@),
        decreases tags.len() - i,
    {
        proof {
            assert(ts.take(i + 1).drop_last() =~= ts.take(i as int));
            assert(ts.take(i + 1).last() == tags@[i as int]@);
        }
        if i > 0 {
            out.append(", ");
        }
        out.append(tags[i].as_str());
        proof {
            if i == 0 {
                assert(ts.take(1) =~= seq![tags@[0]@]);
            }
            assert(out@ =~= join(ts.take(i + 1), ", "@));
        }
        i = i + 1;
    }
    proof {
        assert(ts.take(i as int) =~= ts);
    }
    out
}

/// The line for a request that was classified; none when it got no tags.
pub fn classified_line(tags: &Vec<String>) -> (r: Option<String>)
    ensures
        match r {
            Some(l) => classified_line_text(views(tags@)) == Some(l@),
            None => classified_line_text(views(tags@)) is None,
        },
{
    if tags.len() == 0 {
        return None;
    }
    let mut s = String::from_str(DIM);
    s.append("  → classified: [");
    s.append(join_comma_space(tags).as_str());
    s.append("]");
    s.append(RESET);
    Some(s)
}

/// The line for a request that was routed.
pub open spec fn routed_line_text(provider: Seq<char>, model: Seq<char>) -> Seq<char> {
    DIM@ + "  → routed: "@ + RESET@ + BLUE@ + provider + RESET@ + DIM@ + "/"@ + RESET@ + BLUE@ + model + RESET@
}

/// The line for a request that was routed.
pub fn routed_line(provider: &str, model: &str) -> (r: String)
    ensures
        r@ == routed_line_text(provider@, model@),
{
    let mut s = String::from_str(DIM);
    s.append("  → routed: ");
    s.append(RESET);
    s.append(BLUE);
    s.append(provider);
    s.append(RESET);
    s.append(DIM);
    s.append("/");
    s.append(RESET);
    s.append(BLUE);
    s.append(model);
    s.append(RESET);
    s
}

/// The decorated words of a header, each preceded by two spaces.
pub open spec fn decorated(items: Seq<Seq<char>>, color: Seq<char>, open: Seq<char>, close: Seq<char>) -> Seq<char>
    decreases items.len(),
{
    if items.len() == 0 {
        Seq::empty()
    } else {
        decorated(items.drop_last(), color, open, close) + "  "@ + color + open + items.last() + close + RESET@
    }
}

fn append_decorated(s: &mut String, items: &Vec<String>, color: &str, open: &str, close: &str)
    ensures
        final(s)@ == old(s)@ + decorated(views(items@), color@, open@, close@),
{
    let ghost start = s@;
    let ghost its = views(items@);
    let mut i: usize = 0;
    while i < items.len()
        invariant
            i <= items.len(),
            its == views(items@),
            start == old(s)@,
            s@ == start + decorated(its.take(i as int), color@, open@, close@),
        decreases items.len() - i,
    {
        proof {
            assert(its.take(i + 1).drop_last() =~= its.take(i as int));
            assert(its.take(i + 1).last() == items@[i as int]@);
        }
        s.append("  ");
        s.append(color);
        s.append(open);
        s.append(items[i].as_str());
        s.append(close);
        s.append(RESET);
        proof {
            assert(s@ =~= start + decorated(its.take(i + 1), color@, open@, close@));
        }
        i = i + 1;
    }
    proof {
        assert(its.take(i as int) =~= its);
    }
}

/// The header line of a finished request: time, provider, model (with the
/// requested one when it was rewritten), tags, active plugins, response
/// tags, and duration (red when it failed).
pub open spec fn header_text(e: LogEntry) -> Seq<char> {
    DIM@ + clock_of(e.ts_ms) + RESET@ + "  "@ + BOLD@ + CYAN@ + e.provider@ + RESET@ + (if e.requested_model@
        != e.sent_model@ {
        "  "@ + DIM@ + e.requested_model@ + RESET@ + " "@ + DIM@ + "→"@ + RESET@ + " "@ + BLUE@ + e.sent_model@
            + RESET@
    } else {
        "  "@ + BLUE@ + e.sent_model@ + RESET@
    }) + decorated(views(e.tags@), YELLOW@, "["@, "]"@) + decorated(views(e.plugins@), MAGENTA@, "("@, ")"@) + (
    match e.response {
        Some(r) => decorated(views(r.tags@), RED@, "<"@, ">"@),
        None => Seq::empty(),
    }) + "  "@ + (if e.error is Some {
        RED@
    } else {
        DIM@
    }) + decimal(e.duration_ms as nat) + "ms"@ + RESET@
}

/// The lines printed for a finished request: the header, the prompt, then
/// the error, or the reply and its token counts and stop reason, then a
/// blank line. Texts are put on one line and cut to 120 characters.
pub open spec fn entry_lines_text(e: LogEntry) -> Seq<Seq<char>> {
    seq![header_text(e), "  "@ + DIM@ + "prompt:"@ + RESET@ + "  "@ + truncate_text(
        last_user_text(message_models(e.messages@)),
        120,
    )] + match e.error {
        Some(err) => seq!["  "@ + RED@ + "error:"@ + RESET@ + "   "@ + truncate_text(err@, 120)],
        None => match e.response {
            Some(r) => seq![
                "  "@ + DIM@ + "reply:"@ + RESET@ + "   "@ + truncate_text(r.content@, 120),
                "  "@ + DIM@ + decimal(r.usage.input_tokens as nat) + " in / "@ + decimal(r.usage.output_tokens as nat)
                    + " out · "@ + stop_name(r.stop_reason) + RESET@,
            ],
            None => Seq::empty(),
        },
    } + seq![Seq::empty()]
}

/// The header line of a finished request.
#[verifier::spinoff_prover]
#[verifier::rlimit(50)]
fn header_line(e: &LogEntry) -> (r: String)
    ensures
        r@ == header_text(*e),
{
    let mut s = String::from_str(DIM);
    s.append(clock_text(e.ts_ms).as_str());
    s.append(RESET);
    s.append("  ");
    s.append(BOLD);
    s.append(CYAN);
    s.append(e.provider.as_str());
    s.append(RESET);
    if !crate::text::str_eq(e.requested_model.as_str(), e.sent_model.as_str()) {
        s.append("  ");
        s.append(DIM);
        s.append(e.requested_model.as_str());
        s.append(RESET);
        s.append(" ");
        s.append(DIM);
        s.append("→");
        s.append(RESET);
        s.append(" ");
        s.append(BLUE);
        s.append(e.sent_model.as_str());
        s.append(RESET);
    } else {
        s.append("  ");
        s.append(BLUE);
        s.append(e.sent_model.as_str());
        s.append(RESET);
    }
    append_decorated(&mut s, &e.tags, YELLOW, "[", "]");
    append_decorated(&mut s, &e.plugins, MAGENTA, "(", ")");
    match &e.response {
        Some(r) => append_decorated(&mut s, &r.tags, RED, "<", ">"),
        None => {},
    }
    s.append("  ");
    s.append(if e.error.is_some() { RED } else { DIM });
    s.append(crate::text::u64_text(e.duration_ms).as_str());
    s.append("ms");
    s.append(RESET);
    s
}

/// The lines printed for a finished request.
#[verifier::spinoff_prover]
#[verifier::rlimit(50)]
pub fn entry_lines(e: &LogEntry) -> (r: Vec<String>)
    ensures
        r@.map_values(|l: String| l@) == entry_lines_text(*e),
{
    let mut lines: Vec<String> = Vec::new();
    lines.push(header_line(e));
    let prompt = last_user_prompt(e);
    let mut p = String::from_str("  ");
    p.append(DIM);
    p.append("prompt:");
    p.append(RESET);
    p.append("  ");
    p.append(truncate(prompt.as_str(), 120).as_str());
    lines.push(p);
    match &e.error {
        Some(err) => {
            let mut l = String::from_str("  ");
            l.append(RED);
            l.append("error:");
            l.append(RESET);
            l.append("   ");
            l.append(truncate(err.as_str(), 120).as_str());
            lines.push(l);
        },
        None => match &e.response {
            Some(r) => {
                let mut l = String::from_str("  ");
                l.append(DIM);
                l.append("reply:");
                l.append(RESET);
                l.append("   ");
                l.append(truncate(r.content.as_str(), 120).as_str());
                lines.push(l);
                let mut u = String::from_str("  ");
                u.append(DIM);
                u.append(crate::text::u64_text(r.usage.input_tokens as u64).as_str());
                u.append(" in / ");
                u.append(crate::text::u64_text(r.usage.output_tokens as u64).as_str());
                u.append(" out · ");
                u.append(stop_reason_name(r.stop_reason));
                u.append(RESET);
                lines.push(u);
            },
            None => {},
        },
    }
    lines.push(String::new());
    proof {
        assert(lines@.map_values(|l: String| l@) =~= entry_lines_text(*e));
    }
    lines
}

/// Each tag as `[tag] `, joined.
pub open spec fn decorated_plain(tags: Seq<Seq<char>>) -> Seq<char>
    decreases tags.len(),
{
    if tags.len() == 0 {
        Seq::empty()
    } else {
        decorated_plain(tags.drop_last()) + "["@ + tags.last() + "] "@
    }
}

} // verus!
