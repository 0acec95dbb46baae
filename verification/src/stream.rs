//! Reading line-oriented streams: the provider streams (OpenAI server-sent
//! events, Ollama's JSON lines) and the router's own request feed. Bytes
//! arrive in arbitrary pieces; a [`LineBuffer`] collects them and hands out
//! complete lines, and the functions here decide what each line means.
//! Receiving the bytes and parsing the JSON of a line is done by the
//! program around the library.

use vstd::prelude::*;

use crate::canonical::{StopReason, StreamEvent, Usage};
use crate::formats::ollama::OllamaChatResponse;
use crate::text::{chars_of, first_index, has_prefix, str_eq, trim};

verus! {

/// Text received but not yet handed out as a line.
#[derive(Debug, Clone, PartialEq)]
pub struct LineBuffer {
    pub buf: Vec<char>,
}

impl LineBuffer {
    pub fn new() -> (r: LineBuffer)
        ensures
            r.buf@ == Seq::<char>::empty(),
    {
        LineBuffer { buf: Vec::new() }
    }

    /// Appends received text.
    pub fn push_str(&mut self, text: &str)
        ensures
            final(self).buf@ == old(self).buf@ + text@,
    {
        let cs = chars_of(text);
        let mut i: usize = 0;
        while i < cs.len()
            invariant
                i <= cs.len(),
                cs@ == text@,
                self.buf@ == old(self).buf@ + cs@.take(i as int),
            decreases cs.len() - i,
        {
            self.buf.push(cs[i]);
            i = i + 1;
            proof {
                assert(self.buf@ =~= old(self).buf@ + cs@.take(i as int));
            }
        }
        proof {
            assert(cs@.take(i as int) =~= cs@);
        }
    }

    /// The next complete line (without its `\n`), removed from the buffer;
    /// `None`, leaving the buffer as it is, while no `\n` has arrived.
    pub fn next_line(&mut self) -> (r: Option<String>)
        ensures
            match first_index(old(self).buf@, '\n') {
                Some(i) => r matches Some(line) && line@ == old(self).buf@.take(i) && final(self).buf@ == old(
                    self,
                ).buf@.skip(i + 1),
                None => r is None && final(self).buf@ == old(self).buf@,
            },
    {
        match crate::text::find_char(&self.buf, '\n') {
            Some(i) => {
                let line = crate::text::substring(&self.buf, 0, i);
                let rest = crate::text::slice_chars(&self.buf, i + 1, self.buf.len());
                proof {
                    assert(self.buf@.subrange(0, i as int) =~= self.buf@.take(i as int));
                    assert(self.buf@.subrange(i + 1, self.buf@.len() as int) =~= self.buf@.skip(i + 1));
                }
                self.buf = rest;
                Some(line)
            },
            None => None,
        }
    }
}

/// `s` without the prefix `p`, when it has it.
pub open spec fn strip_prefix(s: Seq<char>, p: Seq<char>) -> Option<Seq<char>> {
    if has_prefix(s, p) {
        Some(s.skip(p.len() as int))
    } else {
        None
    }
}

fn strip_prefix_str(s: &str, p: &str) -> (r: Option<String>)
    ensures
        match r {
            Some(t) => strip_prefix(s@, p@) == Some(t@),
            None => strip_prefix(s@, p@) is None,
        },
{
    let cs = chars_of(s);
    let ps = chars_of(p);
    if crate::text::starts_with_chars(&cs, &ps) {
        let t = crate::text::substring(&cs, ps.len(), cs.len());
        proof {
            assert(cs@.subrange(ps@.len() as int, cs@.len() as int) =~= s@.skip(p@.len() as int));
        }
        Some(t)
    } else {
        None
    }
}

/// What one line of an OpenAI-format event stream means.
#[derive(Debug, Clone, PartialEq)]
pub enum StreamLine {
    /// Not a `data:` line (a comment, an event name, a blank line).
    Skip,
    /// `data: [DONE]`: the stream is over.
    End,
    /// A `data:` line: the JSON of a chunk.
    Data(String),
}

/// What one line of an OpenAI-format event stream means: trimmed, a line
/// starting `data: ` carries a chunk, or ends the stream when the rest is
/// `[DONE]`; any other line is skipped.
pub fn openai_stream_line(raw: &str) -> (r: StreamLine)
    ensures
        match strip_prefix(trim(raw@), "data: "@) {
            Some(data) => if data == "[DONE]"@ {
                r == StreamLine::End
            } else {
                r matches StreamLine::Data(d) && d@ == data
            },
            None => r == StreamLine::Skip,
        },
{
    let line = crate::text::trim_str(raw);
    match strip_prefix_str(line.as_str(), "data: ") {
        Some(data) => {
            if str_eq(data.as_str(), "[DONE]") {
                StreamLine::End
            } else {
                StreamLine::Data(data)
            }
        },
        None => StreamLine::Skip,
    }
}

/// The JSON of an Ollama stream line: the line trimmed, or `None` for a
/// blank line.
pub fn ollama_stream_line(raw: &str) -> (r: Option<String>)
    ensures
        match r {
            Some(t) => t@ == trim(raw@) && t@.len() > 0,
            None => trim(raw@).len() == 0,
        },
{
    let line = crate::text::trim_str(raw);
    if line.as_str().is_empty() {
        None
    } else {
        Some(line)
    }
}

/// The canonical events of one Ollama stream chunk: its text (when there
/// is any), then, on the final chunk, the end of the stream with the token
/// counts. The flag is set on the final chunk. Ollama streams no tool-call
/// deltas.
pub fn ollama_chunk_events(chunk: OllamaChatResponse) -> (r: (Vec<StreamEvent>, bool))
    ensures
        r.1 == chunk.done,
        r.0@.map_values(|e: StreamEvent| e@) == (if chunk.message.content@.len() > 0 {
            seq![crate::canonical::EventModel::TextDelta(chunk.message.content@)]
        } else {
            Seq::empty()
        }) + (if chunk.done {
            seq![
                crate::canonical::EventModel::Done(
                    StopReason::EndTurn,
                    Usage { input_tokens: chunk.prompt_eval_count, output_tokens: chunk.eval_count },
                ),
            ]
        } else {
            Seq::empty()
        }),
{
    let mut out: Vec<StreamEvent> = Vec::new();
    let has_text = !chunk.message.content.as_str().is_empty();
    let ghost text = chunk.message.content@;
    if has_text {
        out.push(StreamEvent::TextDelta { text: chunk.message.content });
    }
    if chunk.done {
        out.push(StreamEvent::Done {
            stop_reason: StopReason::EndTurn,
            usage: Usage { input_tokens: chunk.prompt_eval_count, output_tokens: chunk.eval_count },
        });
    }
    proof {
        assert(out@.map_values(|e: StreamEvent| e@) =~= (if text.len() > 0 {
            seq![crate::canonical::EventModel::TextDelta(text)]
        } else {
            Seq::empty()
        }) + (if chunk.done {
            seq![
                crate::canonical::EventModel::Done(
                    StopReason::EndTurn,
                    Usage { input_tokens: chunk.prompt_eval_count, output_tokens: chunk.eval_count },
                ),
            ]
        } else {
            Seq::empty()
        }));
    }
    (out, chunk.done)
}

/// `s` without its trailing `\r` characters.
pub open spec fn trim_end_cr(s: Seq<char>) -> Seq<char>
    decreases s.len(),
{
    if s.len() > 0 && s.last() == '\r' {
        trim_end_cr(s.drop_last())
    } else {
        s
    }
}

/// The payload of a line of the router's own event feed: the line without
/// trailing `\r`, when it starts `data: `.
pub fn feed_data(raw: &str) -> (r: Option<String>)
    ensures
        match r {
            Some(d) => strip_prefix(trim_end_cr(raw@), "data: "@) == Some(d@),
            None => strip_prefix(trim_end_cr(raw@), "data: "@) is None,
        },
{
    let cs = chars_of(raw);
    let mut n: usize = cs.len();
    proof {
        assert(cs@.take(n as int) =~= cs@);
    }
    while n > 0 && cs[n - 1] == '\r'
        invariant
            n <= cs.len(),
            cs@ == raw@,
            trim_end_cr(raw@) == trim_end_cr(cs@.take(n as int)),
        decreases n,
    {
        proof {
            assert(cs@.take(n as int).drop_last() =~= cs@.take(n - 1));
        }
        n = n - 1;
    }
    let line = crate::text::substring(&cs, 0, n);
    proof {
        assert(cs@.subrange(0, n as int) =~= cs@.take(n as int));
        assert(trim_end_cr(cs@.take(n as int)) == cs@.take(n as int));
    }
    strip_prefix_str(line.as_str(), "data: ")
}

/// When `c` occurs in `s`, it has a first occurrence.
proof fn lemma_first_exists(s: Seq<char>, c: char)
    requires
        exists|i: int| 0 <= i < s.len() && s[i] == c,
    ensures
        exists|i: int| 0 <= i < s.len() && s[i] == c && forall|k: int| 0 <= k < i ==> s[k] != c,
    decreases s.len(),
{
    if s[0] == c {
        assert(0 <= 0 < s.len() && s[0] == c && forall|k: int| 0 <= k < 0 ==> s[k] != c);
    } else {
        let w = choose|i: int| 0 <= i < s.len() && s[i] == c;
        let t = s.drop_first();
        assert(t[w - 1] == c);
        lemma_first_exists(t, c);
        let v = choose|i: int| 0 <= i < t.len() && t[i] == c && forall|k: int| 0 <= k < i ==> t[k] != c;
        assert forall|k: int| 0 <= k < v + 1 implies s[k] != c by {
            if k > 0 {
                assert(s[k] == t[k - 1]);
            }
        }
        assert(s[v + 1] == c);
    }
}

/// No received text is lost: a buffer is the line it hands out, the line
/// break, and what stays buffered.
pub proof fn law_line_split_loses_nothing(buf: Seq<char>)
    ensures
        match first_index(buf, '\n') {
            Some(i) => buf.take(i) + seq!['\n'] + buf.skip(i + 1) == buf,
            None => true,
        },
{
    if exists|i: int| 0 <= i < buf.len() && buf[i] == '\n' {
        lemma_first_exists(buf, '\n');
        let i = first_index(buf, '\n')->0;
        assert(0 <= i < buf.len() && buf[i] == '\n');
        assert(buf.take(i) + seq!['\n'] + buf.skip(i + 1) =~= buf);
    }
}

} // verus!
