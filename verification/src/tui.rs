//! The state and decisions of the terminal UI (`tui [BASE_URL]`): a live
//! feed of requests, running statistics, and a small chat client. Drawing
//! the panes, reading keys and talking HTTP is done by the program around
//! the library.
//!
//! Keys: `q` or Ctrl-C quits; Tab cycles focus between feed and chat;
//! ↑/`k` and ↓/`j` scroll the feed; `i` jumps to the chat; Enter sends the
//! typed message; Esc clears the input and returns to the feed;
//! `:model <name>` changes the chat's model.

use vstd::prelude::*;

use crate::canonical::{views, Role};
use crate::json::JsonValue;
use crate::logging::LogEntry;
use crate::text::{chars_of, concat, decimal, str_eq, string_of, trim};

verus! {

/// How many feed entries are kept; older ones are dropped.
pub const MAX_EVENTS: usize = 200;

/// The count bound to `key` in a counter list (0 when absent).
pub open spec fn count_in<T>(list: Seq<(String, T)>, key: Seq<char>) -> Option<T>
    decreases list.len(),
{
    if list.len() == 0 {
        None
    } else if list.last().0@ == key {
        Some(list.last().1)
    } else {
        count_in(list.drop_last(), key)
    }
}

/// No key occurs twice.
pub open spec fn keys_unique<T>(list: Seq<(String, T)>) -> bool {
    forall|i: int, j: int| 0 <= i < j < list.len() ==> list[i].0@ != list[j].0@
}

/// The sum of the counts of a counter list.
pub open spec fn total_count(list: Seq<(String, u32)>) -> int
    decreases list.len(),
{
    if list.len() == 0 {
        0
    } else {
        total_count(list.drop_last()) + list.last().1
    }
}

/// With unique keys, the value bound to the key of entry `i` is its own.
proof fn lemma_count_at<T>(list: Seq<(String, T)>, i: int)
    requires
        keys_unique(list),
        0 <= i < list.len(),
    ensures
        count_in(list, list[i].0@) == Some(list[i].1),
    decreases list.len(),
{
    if i < list.len() - 1 {
        assert(list.last().0@ != list[i].0@);
        assert(list.drop_last()[i] == list[i]);
        lemma_count_at(list.drop_last(), i);
    }
}

/// A key no entry has is unbound.
proof fn lemma_count_absent<T>(list: Seq<(String, T)>, key: Seq<char>)
    requires
        forall|i: int| 0 <= i < list.len() ==> list[i].0@ != key,
    ensures
        count_in(list, key) is None,
    decreases list.len(),
{
    if list.len() > 0 {
        lemma_count_absent(list.drop_last(), key);
    }
}

/// Changing the value of entry `i` rebinds only its key.
proof fn lemma_count_update<T>(list: Seq<(String, T)>, i: int, v: T, key: Seq<char>)
    requires
        keys_unique(list),
        0 <= i < list.len(),
    ensures
        count_in(list.update(i, (list[i].0, v)), key) == if key == list[i].0@ {
            Some(v)
        } else {
            count_in(list, key)
        },
    decreases list.len(),
{
    let u = list.update(i, (list[i].0, v));
    if i == list.len() - 1 {
        assert(u.drop_last() =~= list.drop_last());
    } else {
        assert(u.drop_last() =~= list.drop_last().update(i, (list[i].0, v)));
        assert(list.drop_last()[i] == list[i]);
        lemma_count_update(list.drop_last(), i, v, key);
    }
}

/// Raising entry `i` by one raises the sum by one.
proof fn lemma_total_update(list: Seq<(String, u32)>, i: int, v: u32)
    requires
        0 <= i < list.len(),
        v == list[i].1 + 1,
    ensures
        total_count(list.update(i, (list[i].0, v))) == total_count(list) + 1,
    decreases list.len(),
{
    let u = list.update(i, (list[i].0, v));
    if i == list.len() - 1 {
        assert(u.drop_last() =~= list.drop_last());
    } else {
        assert(u.drop_last() =~= list.drop_last().update(i, (list[i].0, v)));
        assert(list.drop_last()[i] == list[i]);
        lemma_total_update(list.drop_last(), i, v);
    }
}

/// The position of `key` in a counter list.
fn position_of<T>(list: &Vec<(String, T)>, key: &str) -> (r: Option<usize>)
    ensures
        match r {
            Some(i) => i < list.len() && list@[i as int].0@ == key@,
            None => forall|i: int| 0 <= i < list.len() ==> list@[i].0@ != key@,
        },
{
    let mut i: usize = 0;
    while i < list.len()
        invariant
            i <= list.len(),
            forall|k: int| 0 <= k < i ==> list@[k].0@ != key@,
        decreases list.len() - i,
    {
        if str_eq(list[i].0.as_str(), key) {
            return Some(i);
        }
        i = i + 1;
    }
    None
}

/// Counts one more under `key`: its entry is raised by one, or a new
/// entry with count 1 is appended.
fn bump(list: &mut Vec<(String, u32)>, key: &str)
    requires
        keys_unique(old(list)@),
        match count_in(old(list)@, key@) {
            Some(c) => c < u32::MAX,
            None => true,
        },
    ensures
        keys_unique(final(list)@),
        forall|k: Seq<char>|
            #[trigger] count_in(final(list)@, k) == if k == key@ {
                Some(
                    match count_in(old(list)@, key@) {
                        Some(c) => (c + 1) as u32,
                        None => 1u32,
                    },
                )
            } else {
                count_in(old(list)@, k)
            },
        total_count(final(list)@) == total_count(old(list)@) + 1,
{
    match position_of(list, key) {
        Some(i) => {
            let ghost before = list@;
            proof {
                lemma_count_at(before, i as int);
            }
            let c = list[i].1;
            let name = list[i].0.clone();
            list.set(i, (name, c + 1));
            proof {
                assert(list@ == before.update(i as int, (before[i as int].0, (c + 1) as u32)));
                assert forall|k: Seq<char>| #[trigger] count_in(list@, k) == if k == key@ {
                    Some((c + 1) as u32)
                } else {
                    count_in(before, k)
                } by {
                    lemma_count_update(before, i as int, (c + 1) as u32, k);
                }
                lemma_total_update(before, i as int, (c + 1) as u32);
                assert forall|a: int, b: int| 0 <= a < b < list@.len() implies list@[a].0@ != list@[b].0@ by {
                    assert(list@[a].0@ == before[a].0@ && list@[b].0@ == before[b].0@);
                }
            }
        },
        None => {
            let ghost before = list@;
            proof {
                lemma_count_absent(before, key@);
            }
            list.push((String::from_str(key), 1));
            proof {
                assert(list@.drop_last() =~= before);
                assert forall|a: int, b: int| 0 <= a < b < list@.len() implies list@[a].0@ != list@[b].0@ by {
                    if b < before.len() {
                        assert(list@[a] == before[a] && list@[b] == before[b]);
                    } else {
                        assert(list@[a] == before[a]);
                    }
                }
            }
        },
    }
}

/// Sets `key` to `value`: its entry is overwritten, or a new one appended.
fn upsert_time(list: &mut Vec<(String, u128)>, key: &str, value: u128)
    requires
        keys_unique(old(list)@),
    ensures
        keys_unique(final(list)@),
        forall|k: Seq<char>|
            #[trigger] count_in(final(list)@, k) == if k == key@ {
                Some(value)
            } else {
                count_in(old(list)@, k)
            },
{
    match position_of(list, key) {
        Some(i) => {
            let ghost before = list@;
            let name = list[i].0.clone();
            list.set(i, (name, value));
            proof {
                assert(list@ == before.update(i as int, (before[i as int].0, value)));
                assert forall|k: Seq<char>| #[trigger] count_in(list@, k) == if k == key@ {
                    Some(value)
                } else {
                    count_in(before, k)
                } by {
                    lemma_count_update(before, i as int, value, k);
                }
                assert forall|a: int, b: int| 0 <= a < b < list@.len() implies list@[a].0@ != list@[b].0@ by {
                    assert(list@[a].0@ == before[a].0@ && list@[b].0@ == before[b].0@);
                }
            }
        },
        None => {
            let ghost before = list@;
            proof {
                lemma_count_absent(before, key@);
            }
            list.push((String::from_str(key), value));
            proof {
                assert(list@.drop_last() =~= before);
                assert forall|a: int, b: int| 0 <= a < b < list@.len() implies list@[a].0@ != list@[b].0@ by {
                    if b < before.len() {
                        assert(list@[a] == before[a] && list@[b] == before[b]);
                    } else {
                        assert(list@[a] == before[a]);
                    }
                }
            }
        },
    }
}

/// `new` is `old` with request `e` counted: one more request (and error,
/// when it failed), its duration added, one more for its provider, its
/// tags counted, and, on success, its time as its provider's last success.
pub open spec fn ingested(old: Stats, new: Stats, e: LogEntry) -> bool {
    &&& new.total == old.total + 1
    &&& new.errors == old.errors + if e.error is Some {
        1int
    } else {
        0int
    }
    &&& new.total_duration_ms == old.total_duration_ms + e.duration_ms
    &&& forall|k: Seq<char>|
        #[trigger] count_in(new.by_provider@, k) == if k == e.provider@ {
            Some(
                match count_in(old.by_provider@, k) {
                    Some(c) => (c + 1) as u32,
                    None => 1u32,
                },
            )
        } else {
            count_in(old.by_provider@, k)
        }
    &&& forall|k: Seq<char>|
        #[trigger] count_in(new.last_ok@, k) == if e.error is None && k == e.provider@ {
            Some(e.ts_ms as u128)
        } else {
            count_in(old.last_ok@, k)
        }
    &&& tags_counted(old.by_tag@, new.by_tag@, e.tags@)
}

/// Running statistics over the requests seen on the feed.
#[derive(Debug, Clone, PartialEq)]
pub struct Stats {
    pub total: u32,
    pub errors: u32,
    pub total_duration_ms: u128,
    /// Requests per provider, in order of first appearance.
    pub by_provider: Vec<(String, u32)>,
    /// Occurrences per tag, in order of first appearance.
    pub by_tag: Vec<(String, u32)>,
    /// Timestamp (ms since the epoch) of each provider's last successful
    /// response.
    pub last_ok: Vec<(String, u128)>,
}

impl Stats {
    /// Every request is counted under exactly one provider, errors are
    /// among the requests, and each list names a key once.
    pub open spec fn wf(self) -> bool {
        &&& keys_unique(self.by_provider@)
        &&& keys_unique(self.by_tag@)
        &&& keys_unique(self.last_ok@)
        &&& total_count(self.by_provider@) == self.total
        &&& self.errors <= self.total
    }

    pub fn new() -> (r: Stats)
        ensures
            r.wf(),
            r.total == 0,
            r.errors == 0,
            r.total_duration_ms == 0,
            r.by_provider@.len() == 0,
            r.by_tag@.len() == 0,
            r.last_ok@.len() == 0,
    {
        Stats {
            total: 0,
            errors: 0,
            total_duration_ms: 0,
            by_provider: Vec::new(),
            by_tag: Vec::new(),
            last_ok: Vec::new(),
        }
    }

    /// Counts one finished request: one more request (and error, when it
    /// failed), its duration, its provider and each of its tags; a success
    /// records the provider's last successful response time.
    pub fn ingest(&mut self, e: &LogEntry)
        requires
            old(self).wf(),
            old(self).total < u32::MAX,
            old(self).total_duration_ms + e.duration_ms <= u128::MAX,
            forall|i: int|
                0 <= i < e.tags@.len() ==> match count_in(old(self).by_tag@, #[trigger] e.tags@[i]@) {
                    Some(c) => c + e.tags@.len() < u32::MAX,
                    None => e.tags@.len() < u32::MAX,
                },
        ensures
            final(self).wf(),
            ingested(*old(self), *final(self), *e),
    {
        self.total = self.total + 1;
        if e.error.is_some() {
            self.errors = self.errors + 1;
        } else {
            upsert_time(&mut self.last_ok, e.provider.as_str(), e.ts_ms as u128);
        }
        self.total_duration_ms = self.total_duration_ms + e.duration_ms as u128;
        proof {
            if count_in(self.by_provider@, e.provider@) is Some {
                lemma_count_le_total(self.by_provider@, e.provider@);
            }
        }
        bump(&mut self.by_provider, e.provider.as_str());
        let ghost tags0 = self.by_tag@;
        let ghost mid = *self;
        let mut i: usize = 0;
        while i < e.tags.len()
            invariant
                i <= e.tags.len(),
                self.total == mid.total,
                self.errors == mid.errors,
                self.total_duration_ms == mid.total_duration_ms,
                self.by_provider == mid.by_provider,
                self.last_ok == mid.last_ok,
                keys_unique(self.by_tag@),
                forall|k: Seq<char>|
                    (#[trigger] count_in(self.by_tag@, k) is Some) <==> (count_in(tags0, k) is Some || views(
                        e.tags@.take(i as int),
                    ).contains(k)),
                forall|k: Seq<char>|
                    #[trigger] count_in(self.by_tag@, k) matches Some(c) ==> c <= match count_in(tags0, k) {
                        Some(c0) => c0 + i,
                        None => i as int,
                    },
                forall|j: int|
                    0 <= j < e.tags@.len() ==> match count_in(tags0, #[trigger] e.tags@[j]@) {
                        Some(c) => c + e.tags@.len() < u32::MAX,
                        None => e.tags@.len() < u32::MAX,
                    },
            decreases e.tags.len() - i,
        {
            let ghost before = self.by_tag@;
            proof {
                let k = e.tags@[i as int]@;
                assert(count_in(before, k) matches Some(c) ==> c < u32::MAX);
            }
            bump(&mut self.by_tag, e.tags[i].as_str());
            proof {
                assert(views(e.tags@.take(i + 1)) =~= views(e.tags@.take(i as int)).push(e.tags@[i as int]@));
                assert forall|k: Seq<char>|
                    (#[trigger] count_in(self.by_tag@, k) is Some) <==> (count_in(tags0, k) is Some || views(
                        e.tags@.take(i + 1),
                    ).contains(k)) by {
                    if k == e.tags@[i as int]@ {
                        assert(views(e.tags@.take(i + 1))[i as int] == k);
                    }
                    let after = views(e.tags@.take(i + 1));
                    let prior = views(e.tags@.take(i as int));
                    if after.contains(k) && !prior.contains(k) {
                        let w = choose|w: int| 0 <= w < after.len() && #[trigger] after[w] == k;
                        if w < i {
                            assert(prior[w] == k);
                        }
                    }
                    if prior.contains(k) {
                        let w = choose|w: int| 0 <= w < prior.len() && #[trigger] prior[w] == k;
                        assert(after[w] == k);
                    }
                }
            }
            i = i + 1;
        }
        proof {
            assert(e.tags@.take(i as int) =~= e.tags@);
        }
    }

    /// The mean duration in milliseconds (0 before any request).
    pub fn avg_latency_ms(&self) -> (r: u64)
        ensures
            r == if self.total == 0 {
                0
            } else {
                (self.total_duration_ms / (self.total as u128)) as u64
            },
    {
        if self.total == 0 {
            0
        } else {
            (self.total_duration_ms / (self.total as u128)) as u64
        }
    }
}

/// With unique keys, no count exceeds the sum.
proof fn lemma_count_le_total(list: Seq<(String, u32)>, key: Seq<char>)
    requires
        keys_unique(list),
        count_in(list, key) is Some,
    ensures
        count_in(list, key)->0 <= total_count(list),
    decreases list.len(),
{
    if list.len() > 0 && list.last().0@ != key {
        assert(keys_unique(list.drop_last()));
        lemma_count_le_total(list.drop_last(), key);
    }
    if list.len() > 0 && list.last().0@ == key {
        lemma_total_nonneg(list.drop_last());
    }
}

proof fn lemma_total_nonneg(list: Seq<(String, u32)>)
    ensures
        total_count(list) >= 0,
    decreases list.len(),
{
    if list.len() > 0 {
        lemma_total_nonneg(list.drop_last());
    }
}

/// Entry `a` of `counts` comes before entry `b` when it has the larger
/// count, or the same count and comes first.
pub open spec fn ranks_before(counts: Seq<(String, u32)>, a: int, b: int) -> bool {
    counts[a].1 > counts[b].1 || (counts[a].1 == counts[b].1 && a < b)
}

/// `order` lists every position of `counts` once, largest count first
/// (ties in list order).
pub open spec fn ranking(counts: Seq<(String, u32)>, order: Seq<usize>) -> bool {
    &&& order.len() == counts.len()
    &&& forall|i: int| 0 <= i < order.len() ==> order[i] < counts.len()
    &&& forall|i: int, j: int| 0 <= i < j < order.len() ==> ranks_before(counts, order[i] as int, order[j] as int)
}

/// The positions of `counts`, largest count first; equal counts keep their
/// order (a stable sort by count, descending).
pub fn rank_by_count(counts: &Vec<(String, u32)>) -> (r: Vec<usize>)
    ensures
        ranking(counts@, r@),
{
    let mut order: Vec<usize> = Vec::new();
    let mut i: usize = 0;
    while i < counts.len()
        invariant
            i <= counts.len(),
            order@.len() == i,
            forall|k: int| 0 <= k < order@.len() ==> order@[k] < i,
            forall|a: int, b: int|
                0 <= a < b < order@.len() ==> ranks_before(counts@, order@[a] as int, order@[b] as int),
        decreases counts.len() - i,
    {
        let c = counts[i].1;
        let mut p: usize = 0;
        while p < order.len() && counts[order[p]].1 >= c
            invariant
                p <= order@.len(),
                i < counts.len(),
                c == counts@[i as int].1,
                forall|k: int| 0 <= k < order@.len() ==> order@[k] < i,
                forall|k: int| 0 <= k < p ==> counts@[order@[k] as int].1 >= c,
            decreases order@.len() - p,
        {
            p = p + 1;
        }
        let ghost before = order@;
        proof {
            assert forall|k: int| p <= k < before.len() implies counts@[before[k] as int].1 < c by {
                if p < before.len() {
                    assert(counts@[before[p as int] as int].1 < c);
                    if k > p {
                        assert(ranks_before(counts@, before[p as int] as int, before[k] as int));
                    }
                }
            }
        }
        order.insert(p, i);
        proof {
            assert(order@ == before.insert(p as int, i));
            assert forall|a: int, b: int| 0 <= a < b < order@.len() implies ranks_before(
                counts@,
                order@[a] as int,
                order@[b] as int,
            ) by {
                if b < p {
                    assert(order@[a] == before[a] && order@[b] == before[b]);
                } else if b == p {
                    assert(order@[a] == before[a]);
                } else if a < p {
                    assert(order@[a] == before[a] && order@[b] == before[b - 1]);
                } else if a == p {
                    assert(order@[b] == before[b - 1]);
                } else {
                    assert(order@[a] == before[a - 1] && order@[b] == before[b - 1]);
                }
            }
        }
        i = i + 1;
    }
    order
}

/// How long ago `ts_ms` was at `now_ms` (both ms since the epoch): whole
/// seconds under a minute, else whole minutes under an hour, else whole
/// hours; a time in the future counts as now.
pub open spec fn ago_text(ts_ms: u128, now_ms: u128) -> Seq<char> {
    let secs = (if now_ms >= ts_ms {
        ((now_ms - ts_ms) / 1000) as u128
    } else {
        0u128
    }) as u64;
    if secs < 60 {
        decimal(secs as nat) + "s ago"@
    } else if secs < 3600 {
        decimal((secs / 60) as nat) + "m ago"@
    } else {
        decimal((secs / 3600) as nat) + "h ago"@
    }
}

/// How long ago `ts_ms` was, as of `now_ms`.
pub fn ago_str(ts_ms: u128, now_ms: u128) -> (r: String)
    ensures
        r@ == ago_text(ts_ms, now_ms),
{
    let secs = (now_ms.saturating_sub(ts_ms) / 1000) as u64;
    if secs < 60 {
        concat(crate::text::u64_text(secs).as_str(), "s ago")
    } else if secs < 3600 {
        concat(crate::text::u64_text(secs / 60).as_str(), "m ago")
    } else {
        concat(crate::text::u64_text(secs / 3600).as_str(), "h ago")
    }
}

/// The first `max` characters of `s`, followed by `…` when it is longer.
pub open spec fn trunc_text(s: Seq<char>, max: int) -> Seq<char> {
    if s.len() > max {
        s.take(max) + seq!['…']
    } else {
        s
    }
}

/// `s` cut to `max` characters, with `…` when it was longer.
pub fn trunc(s: &str, max: usize) -> (r: String)
    ensures
        r@ == trunc_text(s@, max as int),
{
    let cs = chars_of(s);
    if cs.len() > max {
        let mut head = crate::text::slice_chars(&cs, 0, max);
        head.push('…');
        proof {
            assert(head@ =~= s@.take(max as int) + seq!['…']);
        }
        string_of(head.as_slice())
    } else {
        String::from_str(s)
    }
}

/// `n` with two digits at least (a leading zero under 10).
pub open spec fn two_digits(n: nat) -> Seq<char> {
    if n < 10 {
        seq!['0'] + decimal(n)
    } else {
        decimal(n)
    }
}

fn two_digit_text(n: u64) -> (r: String)
    ensures
        r@ == two_digits(n as nat),
{
    let d = crate::text::u64_text(n);
    if n < 10 {
        proof {
            reveal_strlit("0");
        }
        concat("0", d.as_str())
    } else {
        d
    }
}

/// The wall-clock time of `ts_ms` (ms since the epoch, UTC) as `HH:MM:SS`.
pub open spec fn clock_of(ts_ms: u64) -> Seq<char> {
    let secs = ts_ms / 1000;
    two_digits(((secs / 3600) % 24) as nat) + ":"@ + two_digits(((secs / 60) % 60) as nat) + ":"@ + two_digits(
        (secs % 60) as nat,
    )
}

/// The wall-clock time of a timestamp, as `HH:MM:SS` (UTC).
pub fn clock_text(ts_ms: u64) -> (r: String)
    ensures
        r@ == clock_of(ts_ms),
{
    let secs = ts_ms / 1000;
    let h = two_digit_text((secs / 3600) % 24);
    let m = two_digit_text((secs / 60) % 60);
    let s = two_digit_text(secs % 60);
    let a = concat(h.as_str(), ":");
    let b = concat(a.as_str(), m.as_str());
    let c = concat(b.as_str(), ":");
    concat(c.as_str(), s.as_str())
}

/// Which pane has the keyboard.
#[derive(Debug, Clone, Copy, PartialEq, Eq, Structural)]
pub enum Focus {
    Feed,
    Chat,
}

/// Routing facts of the most recent finished request.
#[derive(Debug, Clone, PartialEq)]
pub struct RoutedMeta {
    pub provider: String,
    pub sent_model: String,
    pub tags: Vec<String>,
}

/// A key as the UI reads it.
#[derive(Debug, Clone, Copy, PartialEq, Eq, Structural)]
pub enum KeyCode {
    Char(char),
    Tab,
    Up,
    Down,
    Esc,
    Backspace,
    Enter,
    Other,
}

#[derive(Debug, Clone, Copy, PartialEq, Eq, Structural)]
pub struct KeyPress {
    pub code: KeyCode,
    /// Whether Control was held.
    pub ctrl: bool,
}

/// What the program should do after a key.
#[derive(Debug, Clone, PartialEq)]
pub enum KeyAction {
    Quit,
    Stay,
    /// Send `message` to the router's chat endpoint at `base_url` with
    /// `model`, then report the reply with [`TuiState::finish_send`].
    Send { message: String, model: String, base_url: String },
}

/// Everything the terminal UI shows and remembers.
#[derive(Debug)]
pub struct TuiState {
    /// Finished requests, newest first, at most `MAX_EVENTS`.
    pub events: Vec<LogEntry>,
    pub stats: Stats,
    /// How many of the newest entries the feed scrolls past.
    pub scroll: usize,
    pub focus: Focus,
    /// The chat input being typed.
    pub input: String,
    /// The model the chat client asks for.
    pub model: String,
    pub last_response: Option<String>,
    pub last_routed: Option<RoutedMeta>,
    /// A chat message is on its way.
    pub sending: bool,
    /// The state of the feed connection, as shown.
    pub sse_status: String,
    pub base_url: String,
}

/// `a` and `b` agree on everything keys do not change.
pub open spec fn same_content(a: TuiState, b: TuiState) -> bool {
    &&& a.events == b.events
    &&& a.stats == b.stats
    &&& a.last_response == b.last_response
    &&& a.last_routed == b.last_routed
    &&& a.sse_status == b.sse_status
    &&& a.base_url == b.base_url
}

/// `a` and `b` are the same but for the feed's scroll position and focus.
pub open spec fn same_but_view(a: TuiState, b: TuiState) -> bool {
    &&& same_content(a, b)
    &&& a.input == b.input
    &&& a.model == b.model
    &&& a.sending == b.sending
}

/// `s` without its last character (empty stays empty).
pub open spec fn drop_last_char(s: Seq<char>) -> Seq<char> {
    if s.len() > 0 {
        s.drop_last()
    } else {
        s
    }
}

impl TuiState {
    pub open spec fn wf(self) -> bool {
        &&& self.stats.wf()
        &&& self.events@.len() <= MAX_EVENTS
    }

    /// The state when the UI starts: an empty feed focused, the chat model
    /// `llama3.1:8b`, the feed connecting.
    pub fn new(base_url: &str) -> (r: TuiState)
        ensures
            r.wf(),
            r.events@.len() == 0,
            r.stats.total == 0 && r.stats.errors == 0 && r.stats.total_duration_ms == 0,
            r.stats.by_provider@.len() == 0 && r.stats.by_tag@.len() == 0 && r.stats.last_ok@.len() == 0,
            r.scroll == 0,
            r.focus == Focus::Feed,
            r.input@.len() == 0,
            r.model@ == "llama3.1:8b"@,
            r.last_response is None,
            r.last_routed is None,
            !r.sending,
            r.sse_status@ == "connecting…"@,
            r.base_url@ == base_url@,
    {
        TuiState {
            events: Vec::new(),
            stats: Stats::new(),
            scroll: 0,
            focus: Focus::Feed,
            input: String::new(),
            model: String::from_str("llama3.1:8b"),
            last_response: None,
            last_routed: None,
            sending: false,
            sse_status: String::from_str("connecting…"),
            base_url: String::from_str(base_url),
        }
    }

    /// Handles one key.
    ///
    /// Ctrl-C quits from anywhere. In the feed: `q` quits, Tab or `i`
    /// focuses the chat, ↑/`k` scrolls towards older entries (up to the
    /// last), ↓/`j` back. In the chat: Esc clears the input and focuses the
    /// feed, Tab focuses the feed, Backspace deletes a character, a
    /// character is typed, and Enter (unless the input is empty or a
    /// message is on its way) either sets the model from `:model <name>`
    /// or sends the input.
    pub fn handle_key(&mut self, key: KeyPress) -> (r: KeyAction)
        ensures
            same_content(*old(self), *final(self)),
            final(self).wf() == old(self).wf(),
            if key.ctrl && key.code == KeyCode::Char('c') {
                r == KeyAction::Quit && same_but_view(*old(self), *final(self)) && final(self).focus == old(self).focus && final(self).scroll == old(self).scroll
            } else {
                match old(self).focus {
                    Focus::Feed => {
                        &&& same_but_view(*old(self), *final(self))
                        &&& match key.code {
                            KeyCode::Char('q') => r == KeyAction::Quit && final(self).focus == Focus::Feed
                                && final(self).scroll == old(self).scroll,
                            KeyCode::Tab | KeyCode::Char('i') => r == KeyAction::Stay && final(self).focus
                                == Focus::Chat && final(self).scroll == old(self).scroll,
                            KeyCode::Up | KeyCode::Char('k') => r == KeyAction::Stay && final(self).focus
                                == Focus::Feed && final(self).scroll == (if old(self).scroll + 1 < old(self).events@.len() {
                                old(self).scroll + 1
                            } else {
                                old(self).scroll as int
                            }),
                            KeyCode::Down | KeyCode::Char('j') => r == KeyAction::Stay && final(self).focus
                                == Focus::Feed && final(self).scroll == (if old(self).scroll > 0 {
                                old(self).scroll - 1
                            } else {
                                0
                            }),
                            _ => r == KeyAction::Stay && final(self).focus == Focus::Feed && final(self).scroll
                                == old(self).scroll,
                        }
                    },
                    Focus::Chat => {
                        &&& final(self).scroll == old(self).scroll
                        &&& match key.code {
                            KeyCode::Esc => r == KeyAction::Stay && final(self).focus == Focus::Feed && final(self).input@.len() == 0 && final(self).model == old(self).model && final(self).sending
                                == old(self).sending,
                            KeyCode::Tab => r == KeyAction::Stay && final(self).focus == Focus::Feed
                                && same_but_view(*old(self), *final(self)),
                            KeyCode::Backspace => r == KeyAction::Stay && final(self).focus == Focus::Chat
                                && final(self).input@ == drop_last_char(old(self).input@) && final(self).model
                                == old(self).model && final(self).sending == old(self).sending,
                            KeyCode::Char(c) => r == KeyAction::Stay && final(self).focus == Focus::Chat
                                && final(self).input@ == old(self).input@.push(c) && final(self).model == old(self).model && final(self).sending == old(self).sending,
                            KeyCode::Enter => final(self).focus == Focus::Chat && (if old(self).input@.len() == 0
                                || old(self).sending {
                                r == KeyAction::Stay && same_but_view(*old(self), *final(self))
                            } else if crate::text::has_prefix(old(self).input@, ":model "@) {
                                &&& r == KeyAction::Stay
                                &&& final(self).model@ == trim(old(self).input@.skip(7))
                                &&& final(self).input@.len() == 0
                                &&& final(self).sending == old(self).sending
                            } else {
                                &&& r matches KeyAction::Send { message, model, base_url }
                                &&& message@ == old(self).input@ && model == old(self).model && base_url == old(self).base_url
                                &&& final(self).input@.len() == 0
                                &&& final(self).model == old(self).model
                                &&& final(self).sending
                            }),
                            _ => r == KeyAction::Stay && final(self).focus == Focus::Chat && same_but_view(
                                *old(self),
                                *final(self),
                            ),
                        }
                    },
                }
            },
    {
        if key.ctrl && key.code == KeyCode::Char('c') {
            return KeyAction::Quit;
        }
        match self.focus {
            Focus::Feed => match key.code {
                KeyCode::Char('q') => KeyAction::Quit,
                KeyCode::Tab | KeyCode::Char('i') => {
                    self.focus = Focus::Chat;
                    KeyAction::Stay
                },
                KeyCode::Up | KeyCode::Char('k') => {
                    let max = if self.events.len() > 0 {
                        self.events.len() - 1
                    } else {
                        0
                    };
                    if self.scroll < max {
                        self.scroll = self.scroll + 1;
                    }
                    KeyAction::Stay
                },
                KeyCode::Down | KeyCode::Char('j') => {
                    if self.scroll > 0 {
                        self.scroll = self.scroll - 1;
                    }
                    KeyAction::Stay
                },
                _ => KeyAction::Stay,
            },
            Focus::Chat => match key.code {
                KeyCode::Esc => {
                    self.input = String::new();
                    self.focus = Focus::Feed;
                    KeyAction::Stay
                },
                KeyCode::Tab => {
                    self.focus = Focus::Feed;
                    KeyAction::Stay
                },
                KeyCode::Backspace => {
                    let cs = chars_of(self.input.as_str());
                    if cs.len() > 0 {
                        let head = crate::text::slice_chars(&cs, 0, cs.len() - 1);
                        proof {
                            assert(head@ =~= self.input@.drop_last());
                        }
                        self.input = string_of(head.as_slice());
                    }
                    KeyAction::Stay
                },
                KeyCode::Char(c) => {
                    let mut cs = chars_of(self.input.as_str());
                    cs.push(c);
                    self.input = string_of(cs.as_slice());
                    KeyAction::Stay
                },
                KeyCode::Enter => {
                    if self.input.as_str().is_empty() || self.sending {
                        return KeyAction::Stay;
                    }
                    proof {
                        reveal_strlit(":model ");
                    }
                    let cs = chars_of(self.input.as_str());
                    let prefix = chars_of(":model ");
                    if crate::text::starts_with_chars(&cs, &prefix) {
                        let rest = crate::text::substring(&cs, 7, cs.len());
                        proof {
                            assert(rest@ =~= self.input@.skip(7));
                        }
                        self.model = crate::text::trim_str(rest.as_str());
                        self.input = String::new();
                        KeyAction::Stay
                    } else {
                        let mut message = String::new();
                        std::mem::swap(&mut message, &mut self.input);
                        self.sending = true;
                        KeyAction::Send { message, model: self.model.clone(), base_url: self.base_url.clone() }
                    }
                },
                _ => KeyAction::Stay,
            },
        }
    }

    /// Records the outcome of a chat message: its reply, or `error: ` and
    /// the error text.
    pub fn finish_send(&mut self, result: Result<String, String>)
        ensures
            !final(self).sending,
            final(self).last_response matches Some(t) && t@ == match result {
                Ok(text) => text@,
                Err(e) => "error: "@ + e@,
            },
            final(self).events == old(self).events,
            final(self).stats == old(self).stats,
            final(self).scroll == old(self).scroll,
            final(self).focus == old(self).focus,
            final(self).input == old(self).input,
            final(self).model == old(self).model,
            final(self).last_routed == old(self).last_routed,
            final(self).sse_status == old(self).sse_status,
            final(self).base_url == old(self).base_url,
    {
        self.sending = false;
        self.last_response = Some(
            match result {
                Ok(text) => text,
                Err(e) => concat("error: ", e.as_str()),
            },
        );
    }
}

/// The counts `new` holds after counting `tags` into `old`: exactly the
/// keys of `old` and the tags.
pub open spec fn tags_counted(old: Seq<(String, u32)>, new: Seq<(String, u32)>, tags: Seq<String>) -> bool {
    forall|k: Seq<char>| (#[trigger] count_in(new, k) is Some) <==> (count_in(old, k) is Some || views(tags).contains(k))
}

/// Whether counting `e` into `s` stays within the counters' ranges.
pub open spec fn ingest_ok(s: Stats, e: LogEntry) -> bool {
    &&& s.total < u32::MAX
    &&& s.total_duration_ms + e.duration_ms <= u128::MAX
    &&& forall|i: int|
        0 <= i < e.tags@.len() ==> match count_in(s.by_tag@, #[trigger] e.tags@[i]@) {
            Some(c) => c + e.tags@.len() < u32::MAX,
            None => e.tags@.len() < u32::MAX,
        }
}

impl Stats {
    /// Whether [`Stats::ingest`] can count `e` without overflowing a counter.
    pub fn can_ingest(&self, e: &LogEntry) -> (r: bool)
        requires
            self.wf(),
        ensures
            r == ingest_ok(*self, *e),
    {
        if self.total == u32::MAX {
            return false;
        }
        if self.total_duration_ms > u128::MAX - e.duration_ms as u128 {
            return false;
        }
        let n = e.tags.len();
        let mut i: usize = 0;
        while i < n
            invariant
                i <= n,
                n == e.tags@.len(),
                keys_unique(self.by_tag@),
                forall|j: int|
                    0 <= j < i ==> match count_in(self.by_tag@, #[trigger] e.tags@[j]@) {
                        Some(c) => c + n < u32::MAX,
                        None => n < u32::MAX,
                    },
            decreases n - i,
        {
            let ok = match position_of(&self.by_tag, e.tags[i].as_str()) {
                Some(p) => {
                    proof {
                        lemma_count_at(self.by_tag@, p as int);
                    }
                    (self.by_tag[p].1 as u128) + (n as u128) < u32::MAX as u128
                },
                None => {
                    proof {
                        lemma_count_absent(self.by_tag@, e.tags@[i as int]@);
                    }
                    (n as u64) < u32::MAX as u64
                },
            };
            if !ok {
                return false;
            }
            i = i + 1;
        }
        true
    }
}

impl TuiState {
    /// Adds a finished request to the feed (newest first, keeping at most
    /// `MAX_EVENTS`), counts it in the statistics, remembers its routing,
    /// and keeps the feed scrolled to the same entry.
    pub fn push_event(&mut self, entry: LogEntry)
        requires
            old(self).wf(),
            ingest_ok(old(self).stats, entry),
            old(self).scroll < usize::MAX,
        ensures
            final(self).wf(),
            ingested(old(self).stats, final(self).stats, entry),
            final(self).events@ == (seq![entry] + old(self).events@).take(
                if old(self).events@.len() < MAX_EVENTS {
                    old(self).events@.len() + 1int
                } else {
                    MAX_EVENTS as int
                },
            ),
            final(self).last_routed matches Some(m) && m.provider@ == entry.provider@ && m.sent_model@
                == entry.sent_model@ && views(m.tags@) == views(entry.tags@),
            final(self).scroll == if old(self).scroll > 0 {
                old(self).scroll + 1
            } else {
                0
            },
            final(self).focus == old(self).focus,
            final(self).input == old(self).input,
            final(self).model == old(self).model,
            final(self).last_response == old(self).last_response,
            final(self).sending == old(self).sending,
            final(self).sse_status == old(self).sse_status,
            final(self).base_url == old(self).base_url,
    {
        self.stats.ingest(&entry);
        let tags = crate::canonical::copy_strings(&entry.tags);
        self.last_routed = Some(
            RoutedMeta { provider: entry.provider.clone(), sent_model: entry.sent_model.clone(), tags },
        );
        let ghost before = self.events@;
        self.events.insert(0, entry);
        proof {
            assert(self.events@ =~= seq![entry] + before);
        }
        if self.events.len() > MAX_EVENTS {
            self.events.pop();
            proof {
                assert(self.events@ =~= (seq![entry] + before).take(MAX_EVENTS as int));
            }
        } else {
            proof {
                assert((seq![entry] + before).take(before.len() + 1int) =~= seq![entry] + before);
            }
        }
        if self.scroll > 0 {
            self.scroll = self.scroll + 1;
        }
    }
}

/// When a request arrives while the feed is scrolled, the entry shown
/// stays the same: the scroll position moves with it (as long as the entry
/// is still kept).
pub proof fn law_scroll_follows_entry(events: Seq<LogEntry>, entry: LogEntry, scroll: int)
    requires
        0 < scroll < events.len(),
        scroll + 1 < MAX_EVENTS,
    ensures
        ({
            let pushed = (seq![entry] + events).take(
                if events.len() < MAX_EVENTS {
                    events.len() + 1int
                } else {
                    MAX_EVENTS as int
                },
            );
            pushed[scroll + 1] == events[scroll]
        }),
{
}

/// One provider line of the statistics pane.
#[derive(Debug, Clone, PartialEq)]
pub struct ProviderRow {
    pub name: String,
    pub count: u32,
    /// The provider's share of all requests, in whole percent.
    pub percent: u32,
    /// How long ago it last answered successfully, or `never`.
    pub last_ok: String,
}

/// The text of the "last success" column for `name`.
pub open spec fn last_ok_text(last_ok: Seq<(String, u128)>, name: Seq<char>, now_ms: u128) -> Seq<char> {
    match count_in(last_ok, name) {
        Some(ts) => ago_text(ts, now_ms),
        None => "never"@,
    }
}

impl Stats {
    /// The provider lines of the statistics pane, most requests first
    /// (ties in order of first appearance).
    pub fn provider_rows(&self, now_ms: u128) -> (r: Vec<ProviderRow>)
        requires
            self.wf(),
            forall|i: int| 0 <= i < self.by_provider@.len() ==> (#[trigger] self.by_provider@[i]).1 * 100 <= u32::MAX,
        ensures
            exists|order: Seq<usize>|
                {
                    &&& #[trigger] ranking(self.by_provider@, order)
                    &&& r@.len() == order.len()
                    &&& forall|i: int|
                        0 <= i < r@.len() ==> {
                            let e = self.by_provider@[order[i] as int];
                            &&& (#[trigger] r@[i]).name@ == e.0@
                            &&& r@[i].count == e.1
                            &&& r@[i].percent == if self.total > 0 {
                                (e.1 * 100 / self.total as int) as u32
                            } else {
                                0u32
                            }
                            &&& r@[i].last_ok@ == last_ok_text(self.last_ok@, e.0@, now_ms)
                        }
                },
    {
        proof {
            reveal_strlit("never");
        }
        let order = rank_by_count(&self.by_provider);
        let mut rows: Vec<ProviderRow> = Vec::new();
        let mut i: usize = 0;
        while i < order.len()
            invariant
                i <= order.len(),
                ranking(self.by_provider@, order@),
                forall|j: int| 0 <= j < self.by_provider@.len() ==> (#[trigger] self.by_provider@[j]).1 * 100 <= u32::MAX,
                keys_unique(self.last_ok@),
                rows@.len() == i,
                forall|k: int|
                    0 <= k < i ==> {
                        let e = self.by_provider@[order@[k] as int];
                        &&& (#[trigger] rows@[k]).name@ == e.0@
                        &&& rows@[k].count == e.1
                        &&& rows@[k].percent == if self.total > 0 {
                            (e.1 * 100 / self.total as int) as u32
                        } else {
                            0u32
                        }
                        &&& rows@[k].last_ok@ == last_ok_text(self.last_ok@, e.0@, now_ms)
                    },
            decreases order.len() - i,
        {
            let idx = order[i];
            let name = self.by_provider[idx].0.clone();
            let count = self.by_provider[idx].1;
            let percent = if self.total > 0 {
                count * 100 / self.total
            } else {
                0
            };
            let last = match position_of(&self.last_ok, name.as_str()) {
                Some(p) => {
                    proof {
                        lemma_count_at(self.last_ok@, p as int);
                    }
                    ago_str(self.last_ok[p].1, now_ms)
                },
                None => {
                    proof {
                        lemma_count_absent(self.last_ok@, name@);
                    }
                    String::from_str("never")
                },
            };
            rows.push(ProviderRow { name, count, percent, last_ok: last });
            i = i + 1;
        }
        rows
    }

    /// The tag lines of the statistics pane, `(tag, count)`, most frequent
    /// first (ties in order of first appearance).
    pub fn tag_rows(&self) -> (r: Vec<(String, u32)>)
        ensures
            exists|order: Seq<usize>|
                {
                    &&& #[trigger] ranking(self.by_tag@, order)
                    &&& r@.len() == order.len()
                    &&& forall|i: int|
                        0 <= i < r@.len() ==> (#[trigger] r@[i]).0@ == self.by_tag@[order[i] as int].0@ && r@[i].1
                            == self.by_tag@[order[i] as int].1
                },
    {
        let order = rank_by_count(&self.by_tag);
        let mut rows: Vec<(String, u32)> = Vec::new();
        let mut i: usize = 0;
        while i < order.len()
            invariant
                i <= order.len(),
                ranking(self.by_tag@, order@),
                rows@.len() == i,
                forall|k: int|
                    0 <= k < i ==> (#[trigger] rows@[k]).0@ == self.by_tag@[order@[k] as int].0@ && rows@[k].1
                        == self.by_tag@[order@[k] as int].1,
            decreases order.len() - i,
        {
            let idx = order[i];
            rows.push((self.by_tag[idx].0.clone(), self.by_tag[idx].1));
            i = i + 1;
        }
        rows
    }
}

/// A ranking is unique: two rankings of the same counts are the same
/// order, so the lines of the statistics pane are fully determined.
pub proof fn law_ranking_unique(counts: Seq<(String, u32)>, a: Seq<usize>, b: Seq<usize>)
    requires
        ranking(counts, a),
        ranking(counts, b),
    ensures
        a == b,
{
    let n = counts.len();
    assert forall|i: int| 0 <= i < n implies a[i] == b[i] by {
        lemma_rank_position(counts, a, i);
        lemma_rank_position(counts, b, i);
    }
    assert(a =~= b);
}

/// In a ranking, the entry at position `i` is the one with exactly `i`
/// entries ranked before it.
proof fn lemma_rank_position(counts: Seq<(String, u32)>, order: Seq<usize>, i: int)
    requires
        ranking(counts, order),
        0 <= i < order.len(),
    ensures
        order[i] as int == choose_ranked(counts, i),
{
    lemma_ranking_distinct(counts, order);
    let x = order[i] as int;
    let before = Set::new(|p: int| 0 <= p < counts.len() && ranks_before(counts, p, x));
    let prefix = Set::new(|p: int| exists|j: int| 0 <= j < i && order[j] == p);
    assert(before =~= prefix) by {
        assert forall|p: int| before.contains(p) implies prefix.contains(p) by {
            lemma_ranking_covers(counts, order, p);
            let j = choose|j: int| 0 <= j < order.len() && order[j] == p;
            if j >= i {
                if j == i {
                    assert(!ranks_before(counts, x, x));
                } else {
                    assert(ranks_before(counts, x, p));
                }
            }
        }
        assert forall|p: int| prefix.contains(p) implies before.contains(p) by {
            let j = choose|j: int| 0 <= j < i && order[j] == p;
        }
    }
    lemma_prefix_size(order, i);
    assert(rank_count(counts, x) == i);
    lemma_rank_count_injective(counts, x);
}

/// The number of entries ranked before entry `x`.
pub open spec fn rank_count(counts: Seq<(String, u32)>, x: int) -> int {
    Set::new(|p: int| 0 <= p < counts.len() && ranks_before(counts, p, x)).len() as int
}

/// The entry with exactly `i` entries ranked before it.
pub open spec fn choose_ranked(counts: Seq<(String, u32)>, i: int) -> int {
    choose|x: int| 0 <= x < counts.len() && rank_count(counts, x) == i
}

proof fn lemma_ranking_distinct(counts: Seq<(String, u32)>, order: Seq<usize>)
    requires
        ranking(counts, order),
    ensures
        forall|i: int, j: int| 0 <= i < j < order.len() ==> order[i] != order[j],
{
    assert forall|i: int, j: int| 0 <= i < j < order.len() implies order[i] != order[j] by {
        assert(ranks_before(counts, order[i] as int, order[j] as int));
    }
}

/// A ranking lists every position.
proof fn lemma_ranking_covers(counts: Seq<(String, u32)>, order: Seq<usize>, p: int)
    requires
        ranking(counts, order),
        0 <= p < counts.len(),
    ensures
        exists|j: int| 0 <= j < order.len() && order[j] == p,
{
    lemma_ranking_distinct(counts, order);
    let m = order.map_values(|v: usize| v as int);
    let s = m.to_set();
    let full = vstd::set_lib::set_int_range(0, counts.len() as int);
    lemma_distinct_len(order);
    assert(s.subset_of(full)) by {
        assert forall|q: int| s.contains(q) implies full.contains(q) by {
            let j = choose|j: int| 0 <= j < m.len() && #[trigger] m[j] == q;
            assert(order[j] < counts.len());
        }
    }
    vstd::set_lib::lemma_int_range(0, counts.len() as int);
    vstd::set_lib::lemma_subset_equality(s, full);
    assert(full.contains(p));
    let j = choose|j: int| 0 <= j < m.len() && #[trigger] m[j] == p;
    assert(order[j] == p);
}

proof fn lemma_distinct_len(order: Seq<usize>)
    requires
        forall|i: int, j: int| 0 <= i < j < order.len() ==> order[i] != order[j],
    ensures
        order.map_values(|v: usize| v as int).to_set().len() == order.len(),
{
    let m = order.map_values(|v: usize| v as int);
    assert(m.no_duplicates()) by {
        assert forall|i: int, j: int| 0 <= i < m.len() && 0 <= j < m.len() && i != j implies m[i] != m[j] by {
            if i < j {
                assert(order[i] != order[j]);
            } else {
                assert(order[j] != order[i]);
            }
        }
    }
    m.unique_seq_to_set();
}

proof fn lemma_prefix_size(order: Seq<usize>, i: int)
    requires
        forall|a: int, b: int| 0 <= a < b < order.len() ==> order[a] != order[b],
        0 <= i <= order.len(),
    ensures
        Set::new(|p: int| exists|j: int| 0 <= j < i && order[j] == p).len() == i,
{
    let t = order.take(i);
    assert forall|a: int, b: int| 0 <= a < b < t.len() implies t[a] != t[b] by {}
    lemma_distinct_len(t);
    assert(Set::new(|p: int| exists|j: int| 0 <= j < i && order[j] == p) =~= t.map_values(|v: usize| v as int).to_set())
        by {
        let m = t.map_values(|v: usize| v as int);
        assert forall|p: int|
            Set::new(|p: int| exists|j: int| 0 <= j < i && order[j] == p).contains(p) implies m.to_set().contains(p) by {
            let j = choose|j: int| 0 <= j < i && order[j] == p;
            assert(m[j] == p);
        }
        assert forall|p: int| m.to_set().contains(p) implies exists|j: int| 0 <= j < i && order[j] == p by {
            let j = choose|j: int| 0 <= j < m.len() && m[j] == p;
            assert(order[j] == p);
        }
    }
}

/// Distinct entries have distinct numbers of entries ranked before them.
proof fn lemma_rank_count_injective(counts: Seq<(String, u32)>, x: int)
    requires
        0 <= x < counts.len(),
    ensures
        choose_ranked(counts, rank_count(counts, x)) == x,
{
    let i = rank_count(counts, x);
    assert(0 <= x < counts.len() && rank_count(counts, x) == i);
    let y = choose_ranked(counts, i);
    if y != x {
        assert(0 <= y < counts.len() && rank_count(counts, y) == i);
        let bx = Set::new(|p: int| 0 <= p < counts.len() && ranks_before(counts, p, x));
        let by = Set::new(|p: int| 0 <= p < counts.len() && ranks_before(counts, p, y));
        vstd::set_lib::lemma_int_range(0, counts.len() as int);
        assert(bx.subset_of(vstd::set_lib::set_int_range(0, counts.len() as int)));
        assert(by.subset_of(vstd::set_lib::set_int_range(0, counts.len() as int)));
        vstd::set_lib::lemma_len_subset(bx, vstd::set_lib::set_int_range(0, counts.len() as int));
        vstd::set_lib::lemma_len_subset(by, vstd::set_lib::set_int_range(0, counts.len() as int));
        if ranks_before(counts, x, y) {
            assert(bx.insert(x).subset_of(by));
            vstd::set_lib::lemma_len_subset(bx.insert(x), by);
        } else {
            assert(ranks_before(counts, y, x));
            assert(by.insert(y).subset_of(bx));
            vstd::set_lib::lemma_len_subset(by.insert(y), bx);
        }
    }
}

/// The second line of a feed entry.
#[derive(Debug, Clone, PartialEq)]
pub enum Detail {
    /// The request failed: the error, cut to 90 characters.
    Error(String),
    /// The reply, on one line, cut to 90 characters.
    Reply(String),
    /// Neither an error nor a reply.
    Nothing,
}

/// The texts of one feed entry; the program draws them, coloured.
#[derive(Debug, Clone, PartialEq)]
pub struct FeedItem {
    /// `HH:MM:SS`.
    pub time: String,
    pub provider: String,
    /// The model the client asked for, when it was rewritten.
    pub requested_model: Option<String>,
    pub sent_model: String,
    /// Each tag as `[tag]`.
    pub tags: Vec<String>,
    /// Each active plugin as `(plugin)`.
    pub plugins: Vec<String>,
    /// `  <n>ms`.
    pub duration: String,
    pub failed: bool,
    /// The last user message, on one line, cut to 90 characters.
    pub prompt: String,
    pub detail: Detail,
}

/// Each item wrapped in `open` and `close`.
pub open spec fn wrapped(items: Seq<Seq<char>>, open: Seq<char>, close: Seq<char>) -> Seq<Seq<char>> {
    items.map_values(|t: Seq<char>| open + t + close)
}

fn wrap_all(items: &Vec<String>, open: &str, close: &str) -> (r: Vec<String>)
    ensures
        views(r@) == wrapped(views(items@), open@, close@),
{
    let mut out: Vec<String> = Vec::new();
    let mut i: usize = 0;
    while i < items.len()
        invariant
            i <= items.len(),
            out@.len() == i,
            forall|k: int| 0 <= k < i ==> (#[trigger] out@[k])@ == open@ + items@[k]@ + close@,
        decreases items.len() - i,
    {
        let a = concat(open, items[i].as_str());
        out.push(concat(a.as_str(), close));
        i = i + 1;
    }
    proof {
        assert(views(out@) =~= wrapped(views(items@), open@, close@));
    }
    out
}

/// The feed entry of a finished request.
pub fn feed_item(e: &LogEntry) -> (r: FeedItem)
    ensures
        r.time@ == clock_of(e.ts_ms),
        r.provider == e.provider,
        match r.requested_model {
            Some(m) => e.requested_model@ != e.sent_model@ && m == e.requested_model,
            None => e.requested_model@ == e.sent_model@,
        },
        r.sent_model == e.sent_model,
        views(r.tags@) == wrapped(views(e.tags@), "["@, "]"@),
        views(r.plugins@) == wrapped(views(e.plugins@), "("@, ")"@),
        r.duration@ == "  "@ + decimal(e.duration_ms as nat) + "ms"@,
        r.failed == e.error is Some,
        r.prompt@ == trunc_text(
            crate::watch::flatten(crate::watch::last_user_text(crate::canonical::message_models(e.messages@))),
            90,
        ),
        match e.error {
            Some(err) => r.detail matches Detail::Error(t) && t@ == trunc_text(err@, 90),
            None => match e.response {
                Some(resp) => r.detail matches Detail::Reply(t) && t@ == trunc_text(
                    crate::watch::flatten(resp.content@),
                    90,
                ),
                None => r.detail == Detail::Nothing,
            },
        },
{
    let requested_model = if str_eq(e.requested_model.as_str(), e.sent_model.as_str()) {
        None
    } else {
        Some(e.requested_model.clone())
    };
    let prompt_text = crate::watch::last_user_prompt(e);
    let flat = crate::watch::flatten_str(prompt_text.as_str());
    let detail = match &e.error {
        Some(err) => Detail::Error(trunc(err.as_str(), 90)),
        None => match &e.response {
            Some(resp) => {
                let f = crate::watch::flatten_str(resp.content.as_str());
                Detail::Reply(trunc(f.as_str(), 90))
            },
            None => Detail::Nothing,
        },
    };
    let d = concat("  ", crate::text::u64_text(e.duration_ms).as_str());
    FeedItem {
        time: clock_text(e.ts_ms),
        provider: e.provider.clone(),
        requested_model,
        sent_model: e.sent_model.clone(),
        tags: wrap_all(&e.tags, "[", "]"),
        plugins: wrap_all(&e.plugins, "(", ")"),
        duration: concat(d.as_str(), "ms"),
        failed: e.error.is_some(),
        prompt: trunc(flat.as_str(), 90),
        detail,
    }
}

impl TuiState {
    /// The feed pane's title: connection state and number of entries.
    pub fn feed_title(&self) -> (r: String)
        ensures
            r@ == " Pipeline  "@ + self.sse_status@ + "  "@ + decimal(self.events@.len()) + " events "@,
    {
        let a = concat(" Pipeline  ", self.sse_status.as_str());
        let b = concat(a.as_str(), "  ");
        let c = concat(b.as_str(), crate::text::u64_text(self.events.len() as u64).as_str());
        concat(c.as_str(), " events ")
    }

    /// The chat pane's title: the chat's model.
    pub fn chat_title(&self) -> (r: String)
        ensures
            r@ == " Chat  model: "@ + self.model@ + " "@,
    {
        let a = concat(" Chat  model: ", self.model.as_str());
        concat(a.as_str(), " ")
    }

    /// The title of the reply area: the provider, model and tags of the
    /// most recent finished request, or ` response ` before any.
    pub fn route_title(&self) -> (r: String)
        ensures
            r@ == match self.last_routed {
                Some(m) => " "@ + m.provider@ + " / "@ + m.sent_model@ + " "@ + crate::watch::decorated_plain(
                    views(m.tags@),
                ),
                None => " response "@,
            },
    {
        match &self.last_routed {
            Some(m) => {
                let a = concat(" ", m.provider.as_str());
                let b = concat(a.as_str(), " / ");
                let c = concat(b.as_str(), m.sent_model.as_str());
                let mut t = concat(c.as_str(), " ");
                let ghost start = t@;
                let mut i: usize = 0;
                while i < m.tags.len()
                    invariant
                        i <= m.tags.len(),
                        t@ == start + crate::watch::decorated_plain(views(m.tags@).take(i as int)),
                    decreases m.tags.len() - i,
                {
                    proof {
                        assert(views(m.tags@).take(i + 1).drop_last() =~= views(m.tags@).take(i as int));
                        assert(views(m.tags@).take(i + 1).last() == m.tags@[i as int]@);
                    }
                    t.append("[");
                    t.append(m.tags[i].as_str());
                    t.append("] ");
                    proof {
                        assert(t@ =~= start + crate::watch::decorated_plain(views(m.tags@).take(i + 1)));
                    }
                    i = i + 1;
                }
                proof {
                    assert(views(m.tags@).take(i as int) =~= views(m.tags@));
                }
                t
            },
            None => String::from_str(" response "),
        }
    }

    /// The reply area's text: `sending…` while a message is on its way,
    /// else the last reply, else a hint.
    pub fn reply_text(&self) -> (r: String)
        ensures
            r@ == if self.sending {
                "sending…"@
            } else {
                match self.last_response {
                    Some(t) => t@,
                    None => "(no messages yet — type below and press Enter)"@,
                }
            },
    {
        if self.sending {
            String::from_str("sending…")
        } else {
            match &self.last_response {
                Some(t) => t.clone(),
                None => String::from_str("(no messages yet — type below and press Enter)"),
            }
        }
    }
}

/// The value at `key` of a JSON object (`null` otherwise), as
/// `serde_json`'s indexing gives it.
pub open spec fn at_key(v: Option<JsonValue>, key: Seq<char>) -> Option<JsonValue> {
    match v {
        Some(JsonValue::Object(entries)) => crate::json::lookup(entries@, key),
        _ => None,
    }
}

/// The value at position `i` of a JSON array (`null` otherwise).
pub open spec fn at_index(v: Option<JsonValue>, i: int) -> Option<JsonValue> {
    match v {
        Some(JsonValue::Array(items)) => if 0 <= i < items@.len() {
            Some(items@[i])
        } else {
            None
        },
        _ => None,
    }
}

fn key_of<'a>(v: Option<&'a JsonValue>, key: &str) -> (r: Option<&'a JsonValue>)
    ensures
        match r {
            Some(x) => at_key(
                match v {
                    Some(y) => Some(*y),
                    None => None,
                },
                key@,
            ) == Some(*x),
            None => at_key(
                match v {
                    Some(y) => Some(*y),
                    None => None,
                },
                key@,
            ) is None,
        },
{
    match v {
        Some(JsonValue::Object(entries)) => crate::json::get(entries, key),
        _ => None,
    }
}

/// The chat pane's text for the router's reply: the first choice's message
/// content, else `error: ` and the error message, else `(empty response)`.
pub fn chat_reply_text(resp: &JsonValue) -> (r: String)
    ensures
        r@ == match crate::json::str_of(
            at_key(at_key(at_index(at_key(Some(*resp), "choices"@), 0), "message"@), "content"@),
        ) {
            Some(c) => c,
            None => match crate::json::str_of(at_key(at_key(Some(*resp), "error"@), "message"@)) {
                Some(m) => "error: "@ + m,
                None => "(empty response)"@,
            },
        },
{
    let choices = key_of(Some(resp), "choices");
    let first: Option<&JsonValue> = match choices {
        Some(JsonValue::Array(items)) => {
            if items.len() > 0 {
                Some(&items[0])
            } else {
                None
            }
        },
        _ => None,
    };
    let message = key_of(first, "message");
    let content = key_of(message, "content");
    if let Some(JsonValue::Str(c)) = content {
        return c.clone();
    }
    let err = key_of(Some(resp), "error");
    let msg = key_of(err, "message");
    if let Some(JsonValue::Str(m)) = msg {
        return concat("error: ", m.as_str());
    }
    String::from_str("(empty response)")
}

} // verus!
