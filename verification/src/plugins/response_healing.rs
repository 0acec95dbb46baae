//! `response-healing`: best-effort repair of malformed JSON in a model's
//! reply (markdown code fences, surrounding prose, trailing commas,
//! truncated or unbalanced brackets).
//!
//! A reply is only touched when it is not already valid JSON and a repair
//! attempt produces valid JSON; plain prose is left alone.

use vstd::prelude::*;

use super::{Flow, Plugin, PluginContext};
use crate::canonical::{ChatRequest, ChatResponse};
use crate::json::{is_valid_json, parsed_json};
use crate::text::{
    chars_of, has_prefix, is_white_space, is_whitespace, last_occurrence, rfind_chars, starts_with_chars,
    string_of, trim, trim_bounds,
};

verus! {

/// `s` without its leading `\r` and `\n` characters.
pub open spec fn skip_newlines(s: Seq<char>) -> Seq<char>
    decreases s.len(),
{
    if s.len() > 0 && (s[0] == '\r' || s[0] == '\n') {
        skip_newlines(s.drop_first())
    } else {
        s
    }
}

/// `t` without a surrounding ```` ```json ... ``` ```` (or plain
/// ```` ``` ````) fence: after the opening fence and an optional `json`
/// tag, leading line breaks are dropped, and the text up to the last
/// closing fence (or the whole rest, when there is none) is trimmed.
pub open spec fn strip_fence(t: Seq<char>) -> Seq<char> {
    if has_prefix(t, "```"@) {
        let r1 = t.skip(3);
        let r2 = if has_prefix(r1, "json"@) {
            r1.skip(4)
        } else {
            r1
        };
        let r3 = skip_newlines(r2);
        match last_occurrence(r3, "```"@) {
            Some(e) => trim(r3.take(e)),
            None => trim(r3),
        }
    } else {
        t
    }
}

pub open spec fn is_opener(c: char) -> bool {
    c == '{' || c == '['
}

pub open spec fn is_closer(c: char) -> bool {
    c == '}' || c == ']'
}

/// The position of the first `{` or `[` of `s`, if any.
pub open spec fn first_opener(s: Seq<char>) -> Option<int> {
    if exists|i: int| 0 <= i < s.len() && is_opener(s[i]) {
        Some(choose|i: int| 0 <= i < s.len() && is_opener(s[i]) && forall|k: int| 0 <= k < i ==> !is_opener(s[k]))
    } else {
        None
    }
}

/// The position of the last `}` or `]` of `s`, if any.
pub open spec fn last_closer(s: Seq<char>) -> Option<int> {
    if exists|i: int| 0 <= i < s.len() && is_closer(s[i]) {
        Some(
            choose|i: int|
                0 <= i < s.len() && is_closer(s[i]) && forall|k: int| i < k < s.len() ==> !is_closer(s[k]),
        )
    } else {
        None
    }
}

/// `t` from its first opening to its last closing bracket, dropping any
/// prose around the JSON; `t` itself when there is no such pair.
pub open spec fn cut_to_brackets(t: Seq<char>) -> Seq<char> {
    match (first_opener(t), last_closer(t)) {
        (Some(a), Some(b)) => if b >= a {
            t.subrange(a, b + 1)
        } else {
            t
        },
        _ => t,
    }
}

/// The cut keeps exactly the text from the first `{` or `[` to the last
/// `}` or `]`, when the first comes before the last: prose before and
/// after the JSON is dropped, whichever kind of bracket opens it.
pub proof fn law_cut_spans_first_opener_to_last_closer(t: Seq<char>, i: int, j: int)
    requires
        0 <= i <= j < t.len(),
        t[i] == '{' || t[i] == '[',
        forall|k: int| 0 <= k < i ==> t[k] != '{' && t[k] != '[',
        t[j] == '}' || t[j] == ']',
        forall|k: int| j < k < t.len() ==> t[k] != '}' && t[k] != ']',
    ensures
        cut_to_brackets(t) == t.subrange(i, j + 1),
{
    assert(is_opener(t[i]));
    let a = choose|a: int| 0 <= a < t.len() && is_opener(t[a]) && forall|k: int| 0 <= k < a ==> !is_opener(t[k]);
    assert(0 <= a < t.len() && is_opener(t[a]) && forall|k: int| 0 <= k < a ==> !is_opener(t[k]));
    if a < i {
        assert(t[a] != '{' && t[a] != '[');
    }
    if a > i {
        assert(!is_opener(t[i]));
    }
    assert(first_opener(t) == Some(i));
    assert(is_closer(t[j]));
    let b = choose|b: int| 0 <= b < t.len() && is_closer(t[b]) && forall|k: int| b < k < t.len() ==> !is_closer(t[k]);
    assert(0 <= b < t.len() && is_closer(t[b]) && forall|k: int| b < k < t.len() ==> !is_closer(t[k]));
    if b > j {
        assert(t[b] != '}' && t[b] != ']');
    }
    if b < j {
        assert(!is_closer(t[j]));
    }
    assert(last_closer(t) == Some(j));
}

/// The comma at position `i` of `s` is followed, after nothing but
/// whitespace, by a closing bracket.
pub open spec fn trailing_comma(s: Seq<char>, i: int) -> bool {
    &&& s[i] == ','
    &&& exists|j: int|
        i < j < s.len() && is_closer(#[trigger] s[j]) && forall|k: int| i < k < j ==> is_white_space(s[k])
}

/// The first `n` characters of `s`, less its trailing commas.
pub open spec fn without_trailing_commas(s: Seq<char>, n: int) -> Seq<char>
    decreases n,
{
    if n <= 0 {
        Seq::empty()
    } else {
        without_trailing_commas(s, n - 1) + if trailing_comma(s, n - 1) {
            Seq::empty()
        } else {
            seq![s[n - 1]]
        }
    }
}

/// `s` less every comma that is followed, after nothing but whitespace, by
/// a closing bracket.
pub open spec fn strip_commas(s: Seq<char>) -> Seq<char> {
    without_trailing_commas(s, s.len() as int)
}

/// Where a left-to-right scan of JSON-like text stands: the closing
/// brackets owed for what is open (innermost last), and whether it is
/// inside a string and just after a backslash there.
pub ghost struct ScanState {
    pub stack: Seq<char>,
    pub in_string: bool,
    pub escaped: bool,
}

pub open spec fn scan_start() -> ScanState {
    ScanState { stack: Seq::empty(), in_string: false, escaped: false }
}

/// One step of the scan. In a string, a backslash escapes the next
/// character and an unescaped quote ends it. Outside, a quote starts a
/// string, `{` and `[` open, and a closer that matches the innermost open
/// bracket closes it; anything else changes nothing.
pub open spec fn scan_step(st: ScanState, c: char) -> ScanState {
    if st.in_string {
        if !st.escaped && c == '\\' {
            ScanState { escaped: true, ..st }
        } else if !st.escaped && c == '"' {
            ScanState { in_string: false, ..st }
        } else {
            ScanState { escaped: false, ..st }
        }
    } else if c == '"' {
        ScanState { in_string: true, ..st }
    } else if c == '{' {
        ScanState { stack: st.stack.push('}'), ..st }
    } else if c == '[' {
        ScanState { stack: st.stack.push(']'), ..st }
    } else if is_closer(c) && st.stack.len() > 0 && st.stack.last() == c {
        ScanState { stack: st.stack.drop_last(), ..st }
    } else {
        st
    }
}

/// The scan of `s` from `st`.
pub open spec fn scan_from(st: ScanState, s: Seq<char>) -> ScanState
    decreases s.len(),
{
    if s.len() == 0 {
        st
    } else {
        scan_step(scan_from(st, s.drop_last()), s.last())
    }
}

pub open spec fn scan(s: Seq<char>) -> ScanState {
    scan_from(scan_start(), s)
}

/// What must be appended to close everything the scan left open: a quote
/// when inside a string, then the owed closers, innermost first.
pub open spec fn closers(st: ScanState) -> Seq<char> {
    (if st.in_string {
        seq!['"']
    } else {
        Seq::empty()
    }) + st.stack.reverse()
}

/// `s` with everything it leaves open closed.
pub open spec fn balance(s: Seq<char>) -> Seq<char> {
    s + closers(scan(s))
}

/// The repair attempted on a reply: trimmed, unfenced, cut to its
/// brackets, stripped of trailing commas and balanced.
pub open spec fn heal_candidate(input: Seq<char>) -> Seq<char> {
    balance(strip_commas(cut_to_brackets(strip_fence(trim(input)))))
}

/// Scanning `a + b` is scanning `b` from where `a` left the scan.
pub proof fn lemma_scan_concat(st: ScanState, a: Seq<char>, b: Seq<char>)
    ensures
        scan_from(st, a + b) == scan_from(scan_from(st, a), b),
    decreases b.len(),
{
    if b.len() == 0 {
        assert(a + b =~= a);
    } else {
        lemma_scan_concat(st, a, b.drop_last());
        assert((a + b).drop_last() =~= a + b.drop_last());
        assert((a + b).last() == b.last());
    }
}

/// Every bracket owed by a scan is a closer.
pub open spec fn owes_closers(st: ScanState) -> bool {
    forall|i: int| 0 <= i < st.stack.len() ==> is_closer(#[trigger] st.stack[i])
}

proof fn lemma_scan_owes_closers(st: ScanState, s: Seq<char>)
    requires
        owes_closers(st),
    ensures
        owes_closers(scan_from(st, s)),
    decreases s.len(),
{
    if s.len() > 0 {
        lemma_scan_owes_closers(st, s.drop_last());
        let prev = scan_from(st, s.drop_last());
        let next = scan_step(prev, s.last());
        assert forall|i: int| 0 <= i < next.stack.len() implies is_closer(#[trigger] next.stack[i]) by {
            if i < prev.stack.len() {
                assert(next.stack[i] == prev.stack[i]);
            }
        }
    }
}

/// Outside a string, appending the owed closers (innermost first) closes
/// everything.
proof fn lemma_close_stack(stack: Seq<char>)
    requires
        forall|i: int| 0 <= i < stack.len() ==> is_closer(#[trigger] stack[i]),
    ensures
        scan_from(ScanState { stack, in_string: false, escaped: false }, stack.reverse()) == scan_start(),
    decreases stack.len(),
{
    let st = ScanState { stack, in_string: false, escaped: false };
    if stack.len() == 0 {
        assert(stack =~= Seq::<char>::empty());
        assert(stack.reverse() =~= Seq::<char>::empty());
    } else {
        let c = stack.last();
        let rest = stack.drop_last();
        assert(is_closer(stack[stack.len() - 1]));
        assert(stack.reverse() =~= seq![c] + rest.reverse());
        let one: Seq<char> = seq![c];
        lemma_scan_concat(st, one, rest.reverse());
        assert(one.drop_last() =~= Seq::<char>::empty());
        assert(one.last() == c);
        assert(scan_from(st, one.drop_last()) == st);
        assert(scan_from(st, one) == scan_step(st, c));
        assert(scan_step(st, c) == ScanState { stack: rest, in_string: false, escaped: false });
        assert forall|i: int| 0 <= i < rest.len() implies is_closer(#[trigger] rest[i]) by {
            assert(rest[i] == stack[i]);
        }
        lemma_close_stack(rest);
    }
}

/// Balancing closes everything that was open: scanning the balanced text
/// ends outside any string with nothing owed, unless the text ends inside
/// a string right after a backslash (which then escapes the added quote).
pub proof fn law_balance_closes_everything(s: Seq<char>)
    requires
        !scan(s).escaped,
    ensures
        scan(balance(s)) == scan_start(),
{
    let st = scan(s);
    lemma_scan_owes_closers(scan_start(), s);
    lemma_scan_concat(scan_start(), s, closers(st));
    assert(!st.in_string ==> !st.escaped);
    let outside = ScanState { stack: st.stack, in_string: false, escaped: false };
    if st.in_string {
        let q: Seq<char> = seq!['"'];
        assert(closers(st) =~= q + st.stack.reverse());
        lemma_scan_concat(st, q, st.stack.reverse());
        assert(q.drop_last() =~= Seq::<char>::empty());
        assert(q.last() == '"');
        assert(scan_from(st, q.drop_last()) == st);
        assert(scan_from(st, q) == scan_step(st, '"'));
        assert(scan_step(st, '"') == outside);
    } else {
        lemma_scan_never_escaped_outside(s);
        assert(closers(st) =~= st.stack.reverse());
        assert(st == outside);
    }
    lemma_close_stack(st.stack);
}

/// Outside a string the scan is never escaped.
proof fn lemma_scan_never_escaped_outside(s: Seq<char>)
    ensures
        !scan(s).in_string ==> !scan(s).escaped,
    decreases s.len(),
{
    if s.len() > 0 {
        lemma_scan_never_escaped_outside(s.drop_last());
    }
}

/// Appends a closing quote and closing brackets for whatever `input`
/// leaves open, for replies cut short by a token limit.
pub fn balance_brackets(input: &str) -> (r: String)
    ensures
        r@ == balance(input@),
{
    let cs = chars_of(input);
    let mut stack: Vec<char> = Vec::new();
    let mut in_string = false;
    let mut escaped = false;
    let mut i: usize = 0;
    while i < cs.len()
        invariant
            i <= cs.len(),
            cs@ == input@,
            scan(cs@.take(i as int)) == (ScanState { stack: stack@, in_string, escaped }),
        decreases cs.len() - i,
    {
        let c = cs[i];
        proof {
            assert(cs@.take(i + 1).drop_last() =~= cs@.take(i as int));
            assert(cs@.take(i + 1).last() == c);
        }
        if in_string {
            if !escaped && c == '\\' {
                escaped = true;
            } else if !escaped && c == '"' {
                in_string = false;
            } else {
                escaped = false;
            }
        } else if c == '"' {
            in_string = true;
        } else if c == '{' {
            stack.push('}');
        } else if c == '[' {
            stack.push(']');
        } else if (c == '}' || c == ']') && stack.len() > 0 && stack[stack.len() - 1] == c {
            stack.pop();
        }
        i = i + 1;
    }
    proof {
        assert(cs@.take(i as int) =~= input@);
    }
    let ghost st = scan(input@);
    let mut out: Vec<char> = cs;
    if in_string {
        out.push('"');
    }
    let ghost base = out@;
    proof {
        assert(base =~= input@ + (if st.in_string {
            seq!['"']
        } else {
            Seq::empty()
        }));
    }
    let ghost full = stack@;
    while stack.len() > 0
        invariant
            stack@.len() <= full.len(),
            stack@ == full.take(stack@.len() as int),
            out@ == base + full.reverse().take(full.len() - stack@.len()),
        decreases stack.len(),
    {
        let ghost n = stack@.len();
        let c = stack.pop().unwrap();
        proof {
            assert(c == full[n - 1]);
            assert(full.reverse()[full.len() - n] == full[n - 1]);
            assert(full.reverse().take(full.len() - n + 1) =~= full.reverse().take(full.len() - n).push(c));
            assert(stack@ =~= full.take(n - 1));
        }
        out.push(c);
    }
    proof {
        assert(full.reverse().take(full.len() as int) =~= full.reverse());
        assert(out@ =~= balance(input@));
    }
    string_of(out.as_slice())
}

/// Whether the comma at `i` is a trailing one, looking ahead past
/// whitespace.
fn is_trailing_comma(cs: &Vec<char>, i: usize) -> (r: bool)
    requires
        i < cs.len(),
        cs@[i as int] == ',',
    ensures
        r == trailing_comma(cs@, i as int),
{
    let mut j: usize = i + 1;
    while j < cs.len() && is_whitespace(cs[j])
        invariant
            i < j <= cs.len(),
            forall|k: int| i < k < j ==> is_white_space(cs@[k]),
        decreases cs.len() - j,
    {
        j = j + 1;
    }
    let r = j < cs.len() && (cs[j] == '}' || cs[j] == ']');
    proof {
        if r {
            assert(is_closer(cs@[j as int]));
        } else if trailing_comma(cs@, i as int) {
            let w = choose|w: int|
                i < w < cs@.len() && is_closer(#[trigger] cs@[w]) && forall|k: int| i < k < w ==> is_white_space(cs@[k]);
            if w < j {
                assert(is_white_space(cs@[w]));
            } else if w > j {
                assert(is_white_space(cs@[j as int]));
            }
        }
    }
    r
}

/// Removes every comma that is followed, after nothing but whitespace, by
/// a closing `}` or `]`.
pub fn remove_trailing_commas(input: &str) -> (r: String)
    ensures
        r@ == strip_commas(input@),
{
    let cs = chars_of(input);
    let mut out: Vec<char> = Vec::new();
    let mut i: usize = 0;
    while i < cs.len()
        invariant
            i <= cs.len(),
            cs@ == input@,
            out@ == without_trailing_commas(cs@, i as int),
        decreases cs.len() - i,
    {
        let c = cs[i];
        let drop = c == ',' && is_trailing_comma(&cs, i);
        if !drop {
            out.push(c);
        }
        proof {
            assert(drop == trailing_comma(cs@, i as int));
            assert(out@ =~= without_trailing_commas(cs@, i + 1));
        }
        i = i + 1;
    }
    string_of(out.as_slice())
}

/// The length of the run of `\r` and `\n` at position `from` of `cs`.
fn newline_run_end(cs: &Vec<char>, from: usize) -> (r: usize)
    requires
        from <= cs.len(),
    ensures
        from <= r <= cs.len(),
        skip_newlines(cs@.skip(from as int)) == cs@.skip(r as int),
{
    let mut i = from;
    while i < cs.len() && (cs[i] == '\r' || cs[i] == '\n')
        invariant
            from <= i <= cs.len(),
            skip_newlines(cs@.skip(from as int)) == skip_newlines(cs@.skip(i as int)),
        decreases cs.len() - i,
    {
        proof {
            assert(cs@.skip(i as int).drop_first() =~= cs@.skip(i + 1));
        }
        i = i + 1;
    }
    i
}

/// Strips a surrounding ```` ```json ... ``` ```` (or plain ```` ``` ````)
/// fence from `text`, when it has one.
pub fn strip_code_fence(text: &str) -> (r: String)
    ensures
        r@ == strip_fence(text@),
{
    proof {
        reveal_strlit("```");
        reveal_strlit("json");
    }
    let cs = chars_of(text);
    let fence = chars_of("```");
    if !starts_with_chars(&cs, &fence) {
        return String::from_str(text);
    }
    let json_tag = chars_of("json");
    let after_fence: Vec<char> = crate::text::slice_chars(&cs, 3, cs.len());
    proof {
        assert(after_fence@ =~= text@.skip(3));
    }
    let skip = if starts_with_chars(&after_fence, &json_tag) {
        4
    } else {
        0
    };
    let start = newline_run_end(&after_fence, skip);
    proof {
        if skip == 0 {
            assert(after_fence@.skip(0) =~= after_fence@);
        }
    }
    let rest: Vec<char> = crate::text::slice_chars(&after_fence, start, after_fence.len());
    proof {
        assert(rest@ =~= after_fence@.skip(start as int));
    }
    let body: Vec<char> = match rfind_chars(&rest, &fence) {
        Some(end) => {
            let b = crate::text::slice_chars(&rest, 0, end);
            proof {
                assert(b@ =~= rest@.take(end as int));
            }
            b
        },
        None => rest,
    };
    let (i, j) = trim_bounds(&body);
    crate::text::substring(&body, i, j)
}

/// The position of the first `{` or `[` of `cs`.
fn find_opener(cs: &Vec<char>) -> (r: Option<usize>)
    ensures
        match r {
            Some(i) => i < cs.len() && first_opener(cs@) == Some(i as int),
            None => first_opener(cs@) is None,
        },
{
    let mut i: usize = 0;
    while i < cs.len()
        invariant
            i <= cs.len(),
            forall|k: int| 0 <= k < i ==> !is_opener(cs@[k]),
        decreases cs.len() - i,
    {
        if cs[i] == '{' || cs[i] == '[' {
            proof {
                let w = choose|w: int|
                    0 <= w < cs@.len() && is_opener(cs@[w]) && forall|k: int| 0 <= k < w ==> !is_opener(cs@[k]);
                if w < i {
                    assert(!is_opener(cs@[w]));
                } else if w > i {
                    assert(!is_opener(cs@[i as int]));
                }
            }
            return Some(i);
        }
        i = i + 1;
    }
    None
}

/// The position of the last `}` or `]` of `cs`.
fn find_last_closer(cs: &Vec<char>) -> (r: Option<usize>)
    ensures
        match r {
            Some(i) => i < cs.len() && last_closer(cs@) == Some(i as int),
            None => last_closer(cs@) is None,
        },
{
    let mut i: usize = cs.len();
    while i > 0
        invariant
            i <= cs.len(),
            forall|k: int| i <= k < cs.len() ==> !is_closer(cs@[k]),
        decreases i,
    {
        if cs[i - 1] == '}' || cs[i - 1] == ']' {
            proof {
                let w = choose|w: int|
                    0 <= w < cs@.len() && is_closer(cs@[w]) && forall|k: int| w < k < cs@.len() ==> !is_closer(cs@[k]);
                if w > i - 1 {
                    assert(!is_closer(cs@[w]));
                } else if w < i - 1 {
                    assert(!is_closer(cs@[i - 1]));
                }
            }
            return Some(i - 1);
        }
        i = i - 1;
    }
    None
}

/// `text` cut to its brackets.
fn cut_brackets(text: String) -> (r: String)
    ensures
        r@ == cut_to_brackets(text@),
{
    let cs = chars_of(text.as_str());
    let start = find_opener(&cs);
    let end = find_last_closer(&cs);
    if let Some(a) = start {
        if let Some(b) = end {
            if b >= a {
                return crate::text::substring(&cs, a, b + 1);
            }
        }
    }
    text
}

/// The repair candidate for `input`, before the validity check.
fn heal_candidate_text(input: &str) -> (r: String)
    ensures
        r@ == heal_candidate(input@),
{
    let trimmed = crate::text::trim_str(input);
    let unfenced = strip_code_fence(trimmed.as_str());
    let cut = cut_brackets(unfenced);
    let stripped = remove_trailing_commas(cut.as_str());
    balance_brackets(stripped.as_str())
}

/// Tries to turn `input` into valid JSON: `Some` of the repaired text when
/// it parses, `None` when no repair does.
pub fn heal_json(input: &str) -> (r: Option<String>)
    ensures
        match r {
            Some(s) => s@ == heal_candidate(input@) && parsed_json(s@) is Some,
            None => parsed_json(heal_candidate(input@)) is None,
        },
{
    let candidate = heal_candidate_text(input);
    if is_valid_json(candidate.as_str()) {
        Some(candidate)
    } else {
        None
    }
}

pub struct ResponseHealingPlugin;

impl Plugin for ResponseHealingPlugin {
    fn id(&self) -> (r: &'static str)
        ensures
            r@ == "response-healing"@,
    {
        "response-healing"
    }

    /// After the response: when its content is not valid JSON but its
    /// repair is, replaces the content by the repair (`Modified`);
    /// otherwise leaves it (`Continue`).
    fn post_response(&self, _ctx: &PluginContext, _req: &ChatRequest, resp: &mut Option<ChatResponse>) -> (r: Result<
        Flow,
        String,
    >)
        ensures
            r is Ok,
            super::hook_outcome(
                super::PluginKind::ResponseHealing,
                super::Stage::PostResponse,
                Seq::empty(),
                super::content_of(*old(resp)),
            ).result == Ok::<Flow, Seq<char>>(r->Ok_0),
            super::resp_after(
                *old(resp),
                *final(resp),
                super::hook_outcome(
                    super::PluginKind::ResponseHealing,
                    super::Stage::PostResponse,
                    Seq::empty(),
                    super::content_of(*old(resp)),
                ).content,
            ),
    {
        match resp {
            Some(r) => {
                if is_valid_json(r.content.as_str()) {
                    return Ok(Flow::Continue);
                }
                match heal_json(r.content.as_str()) {
                    Some(healed) => {
                        r.content = healed;
                        Ok(Flow::Modified)
                    },
                    None => Ok(Flow::Continue),
                }
            },
            None => Ok(Flow::Continue),
        }
    }
}

} // verus!
