//! Bounded capture of llama-server output, secret redaction, and the
//! lifecycle phase of the managed server.
use vstd::prelude::*;
use crate::server_process::{
    ManagedProcessIdentity, ProcessExitEvidence, ProcessExitKind, copy_evidence, copy_identity,
};
use crate::strings::{chars_of, decimal, decimal_chars, now_unix_ms, push_chars, push_str, string_from_chars};
use crate::text::{ascii_lower, is_ws, to_ascii_lower, is_whitespace_char, token_end};

verus! {

pub const DEFAULT_SERVER_LOG_RETENTION_BYTES: usize = 2097152;

#[derive(Debug, Clone, Copy, PartialEq, Eq, Structural)]
pub enum ServerLogStream {
    Stdout,
    Stderr,
}

/// One captured chunk of server output.
#[derive(Debug, Clone, PartialEq, Eq)]
pub struct ServerLogEntry {
    pub sequence: u64,
    pub observed_at_unix_ms: u64,
    pub pid: u32,
    pub stream: ServerLogStream,
    pub text: String,
    pub truncated: bool,
}

/// The retained entries with their accounting.
#[derive(Debug, Clone, PartialEq, Eq)]
pub struct ServerLogSnapshot {
    pub entries: Vec<ServerLogEntry>,
    pub retained_bytes: usize,
    pub retention_limit_bytes: usize,
    pub evicted_entries: u64,
}

/// UTF-8 length of one character.
pub open spec fn char_utf8_len(c: char) -> nat {
    let u = c as u32;
    if u < 0x80 {
        1
    } else if u < 0x800 {
        2
    } else if u < 0x10000 {
        3
    } else {
        4
    }
}

/// UTF-8 length of a text: what `str::len` reports.
pub open spec fn utf8_len(s: Seq<char>) -> nat
    decreases s.len(),
{
    if s.len() == 0 {
        0
    } else {
        utf8_len(s.drop_last()) + char_utf8_len(s.last())
    }
}

pub proof fn lemma_utf8_len_concat(a: Seq<char>, b: Seq<char>)
    ensures
        utf8_len(a + b) == utf8_len(a) + utf8_len(b),
    decreases b.len(),
{
    if b.len() > 0 {
        lemma_utf8_len_concat(a, b.drop_last());
        assert((a + b).drop_last() == a + b.drop_last());
    } else {
        assert(a + b == a);
    }
}

pub proof fn lemma_utf8_len_split(s: Seq<char>, j: int)
    requires
        0 <= j <= s.len(),
    ensures
        utf8_len(s) == utf8_len(s.subrange(0, j)) + utf8_len(s.subrange(j, s.len() as int)),
{
    lemma_utf8_len_concat(s.subrange(0, j), s.subrange(j, s.len() as int));
    assert(s.subrange(0, j) + s.subrange(j, s.len() as int) == s);
}

fn char_len_exec(c: char) -> (r: u64)
    ensures
        r == char_utf8_len(c),
{
    let u = c as u32;
    if u < 0x80 {
        1
    } else if u < 0x800 {
        2
    } else if u < 0x10000 {
        3
    } else {
        4
    }
}

/// UTF-8 length of `s`.
pub fn utf8_len_exec(s: &[char]) -> (r: u128)
    ensures
        r == utf8_len(s@),
{
    let mut total: u128 = 0;
    let mut i: usize = 0;
    while i < s.len()
        invariant
            i <= s@.len(),
            total == utf8_len(s@.subrange(0, i as int)),
            total <= 4 * i,
        decreases s@.len() - i,
    {
        let ghost prefix = s@.subrange(0, i as int + 1);
        assert(prefix.drop_last() == s@.subrange(0, i as int));
        total = total + char_len_exec(s[i]) as u128;
        i = i + 1;
    }
    assert(s@.subrange(0, s@.len() as int) == s@);
    total
}

/// First character index at or after which the tail of `s` fits in `limit`
/// UTF-8 bytes: the tail kept by truncation starts on a character boundary.
pub open spec fn keep_from(s: Seq<char>, limit: nat) -> int
    recommends
        utf8_len(s) > limit,
{
    choose|j: int|
        0 <= j <= s.len() && utf8_len(s.subrange(0, j)) >= utf8_len(s) - limit && forall|k: int|
            0 <= k < j ==> utf8_len(s.subrange(0, k)) < utf8_len(s) - limit
}

/// The text an entry keeps of `s`: all of it when it fits in `limit` bytes,
/// else the shortest-dropped tail that does, cut on a character boundary.
pub open spec fn retained_text(s: Seq<char>, limit: nat) -> Seq<char> {
    if utf8_len(s) > limit {
        s.subrange(keep_from(s, limit), s.len() as int)
    } else {
        s
    }
}

proof fn lemma_prefix_len_step(s: Seq<char>, j: int)
    requires
        0 <= j < s.len(),
    ensures
        utf8_len(s.subrange(0, j + 1)) == utf8_len(s.subrange(0, j)) + char_utf8_len(s[j]),
{
    assert(s.subrange(0, j + 1).drop_last() == s.subrange(0, j));
}

/// Keeps the tail of `text` that fits in `limit` UTF-8 bytes.
fn truncate_to_limit(text: &[char], limit: usize) -> (r: (Vec<char>, bool))
    ensures
        r.0@ == retained_text(text@, limit as nat),
        r.1 == (utf8_len(text@) > limit),
        utf8_len(r.0@) <= limit,
{
    let total = utf8_len_exec(text);
    if total <= limit as u128 {
        let v = crate::text::copy_range(text, 0, text.len());
        assert(text@.subrange(0, text@.len() as int) == text@);
        return (v, false);
    }
    let excess: u128 = total - limit as u128;
    let mut j: usize = 0;
    let mut acc: u128 = 0;
    while acc < excess && j < text.len()
        invariant
            j <= text@.len(),
            acc == utf8_len(text@.subrange(0, j as int)),
            excess == utf8_len(text@) - limit,
            forall|k: int| 0 <= k < j ==> utf8_len(text@.subrange(0, k)) < excess,
            acc <= 4 * j,
        decreases text@.len() - j,
    {
        proof {
            lemma_prefix_len_step(text@, j as int);
        }
        acc = acc + char_len_exec(text[j]) as u128;
        j = j + 1;
    }
    assert(text@.subrange(0, text@.len() as int) == text@);
    assert(acc >= excess);
    proof {
        let jj = j as int;
        assert(0 <= jj <= text@.len() && utf8_len(text@.subrange(0, jj)) >= utf8_len(text@) - limit
            && forall|k: int| 0 <= k < jj ==> utf8_len(text@.subrange(0, k)) < utf8_len(text@) - limit);
        let c = keep_from(text@, limit as nat);
        if c < jj {
            assert(utf8_len(text@.subrange(0, c)) < utf8_len(text@) - limit);
        } else if c > jj {
            assert(utf8_len(text@.subrange(0, jj)) < utf8_len(text@) - limit);
        }
        assert(c == jj);
        lemma_utf8_len_split(text@, jj);
    }
    let v = crate::text::copy_range(text, j, text.len());
    (v, true)
}

/// Total UTF-8 bytes of the entries' texts.
pub open spec fn total_bytes(entries: Seq<ServerLogEntry>) -> nat
    decreases entries.len(),
{
    if entries.len() == 0 {
        0
    } else {
        total_bytes(entries.drop_last()) + utf8_len(entries.last().text@)
    }
}

pub proof fn lemma_total_bytes_front(entries: Seq<ServerLogEntry>)
    requires
        entries.len() > 0,
    ensures
        total_bytes(entries) == utf8_len(entries[0].text@) + total_bytes(entries.drop_first()),
    decreases entries.len(),
{
    if entries.len() > 1 {
        lemma_total_bytes_front(entries.drop_last());
        assert(entries.drop_last().drop_first() == entries.drop_first().drop_last());
        assert(entries.drop_last()[0] == entries[0]);
        assert(entries.drop_first().last() == entries.last());
        assert(total_bytes(entries.drop_first()) == total_bytes(entries.drop_first().drop_last())
            + utf8_len(entries.drop_first().last().text@));
    } else {
        assert(entries.drop_first().len() == 0);
        assert(entries.drop_last().len() == 0);
        assert(total_bytes(entries.drop_last()) == 0);
        assert(total_bytes(entries.drop_first()) == 0);
        assert(entries.last() == entries[0]);
    }
}

/// The byte total as the buffer accounts it: capped at `usize::MAX`.
pub open spec fn accounted_bytes(entries: Seq<ServerLogEntry>) -> nat {
    if total_bytes(entries) > usize::MAX {
        usize::MAX as nat
    } else {
        total_bytes(entries)
    }
}

/// Whether `entries` and a new entry of `bytes` bytes fit `limit`, adding
/// as the buffer adds (saturating at `usize::MAX`).
pub open spec fn fits_with(entries: Seq<ServerLogEntry>, bytes: nat, limit: nat) -> bool {
    let t = accounted_bytes(entries) + bytes;
    (if t > usize::MAX { usize::MAX as nat } else { t }) <= limit
}

/// How many of the oldest entries must go, counting from `k`, so that the
/// rest and a new entry of `bytes` bytes fit `limit`: the first count at
/// which they fit, or all of them.
pub open spec fn evictions_needed(entries: Seq<ServerLogEntry>, bytes: nat, limit: nat, k: int) -> int
    decreases entries.len() - k,
{
    if k < 0 {
        0
    } else if k >= entries.len() || fits_with(entries.subrange(k, entries.len() as int), bytes, limit) {
        k
    } else {
        evictions_needed(entries, bytes, limit, k + 1)
    }
}

proof fn lemma_evictions_needed_bounds(entries: Seq<ServerLogEntry>, bytes: nat, limit: nat, k: int)
    requires
        0 <= k <= entries.len(),
    ensures
        k <= evictions_needed(entries, bytes, limit, k) <= entries.len(),
        evictions_needed(entries, bytes, limit, k) == entries.len() || fits_with(
            entries.subrange(evictions_needed(entries, bytes, limit, k), entries.len() as int),
            bytes,
            limit,
        ),
        forall|d: int| k <= d < evictions_needed(entries, bytes, limit, k) ==> !fits_with(
            #[trigger] entries.subrange(d, entries.len() as int),
            bytes,
            limit,
        ),
    decreases entries.len() - k,
{
    if k < entries.len() && !fits_with(entries.subrange(k, entries.len() as int), bytes, limit) {
        lemma_evictions_needed_bounds(entries, bytes, limit, k + 1);
    }
}

/// What pushing `text` from `pid` on `stream` makes of a buffer: the limit
/// and accounting stay; just enough of the oldest entries are evicted (and
/// counted) for the rest and the new entry, truncated to the limit, to fit;
/// the new entry comes last with the next sequence number.
pub open spec fn log_pushed(before: ServerLogBuffer, after: ServerLogBuffer, pid: u32, stream: ServerLogStream, text: Seq<char>) -> bool {
    &&& after.retention_limit_bytes == before.retention_limit_bytes
    &&& after.entries@.len() >= 1
    &&& ({
            let e = after.entries@.last();
            &&& e.sequence == before.next_sequence
            &&& e.pid == pid
            &&& e.stream == stream
            &&& e.text@ == retained_text(text, before.retention_limit_bytes as nat)
            &&& e.truncated == (utf8_len(text) > before.retention_limit_bytes)
        })
    &&& ({
            let k = evictions_needed(
                before.entries@,
                utf8_len(retained_text(text, before.retention_limit_bytes as nat)),
                before.retention_limit_bytes as nat,
                0,
            );
            &&& 0 <= k <= before.entries@.len()
            &&& after.entries@.drop_last() == before.entries@.subrange(k, before.entries@.len() as int)
            &&& after.evicted_entries == if before.evicted_entries + k > u64::MAX {
                u64::MAX as int
            } else {
                before.evicted_entries + k
            }
        })
    &&& after.next_sequence == if before.next_sequence == u64::MAX {
            u64::MAX
        } else {
            (before.next_sequence + 1) as u64
        }
}

/// A bounded, ordered buffer of server output.
#[derive(Debug)]
pub struct ServerLogBuffer {
    pub retention_limit_bytes: usize,
    pub entries: std::collections::VecDeque<ServerLogEntry>,
    pub retained_bytes: usize,
    pub next_sequence: u64,
    pub evicted_entries: u64,
}

/// Whether entry sequences increase strictly along the buffer (up to the
/// saturated last sequence number).
pub open spec fn sequences_increase(entries: Seq<ServerLogEntry>) -> bool {
    forall|i: int, j: int|
        0 <= i < j < entries.len() ==> entries[i].sequence < entries[j].sequence || entries[j].sequence == u64::MAX
}

impl ServerLogBuffer {
    /// The buffer's accounting invariant.
    pub open spec fn wf(&self) -> bool {
        &&& self.retention_limit_bytes >= 1
        &&& self.retained_bytes as nat == if total_bytes(self.entries@) > usize::MAX {
            usize::MAX as nat
        } else {
            total_bytes(self.entries@)
        }
        &&& self.retained_bytes <= self.retention_limit_bytes
        &&& self.retention_limit_bytes < usize::MAX ==> total_bytes(self.entries@)
            <= self.retention_limit_bytes
        &&& forall|i: int|
            0 <= i < self.entries@.len() ==> utf8_len(#[trigger] self.entries@[i].text@)
                <= self.retention_limit_bytes
        &&& sequences_increase(self.entries@)
        &&& forall|i: int|
            0 <= i < self.entries@.len() ==> #[trigger] self.entries@[i].sequence
                < self.next_sequence || self.next_sequence == u64::MAX
    }

    /// An empty buffer keeping at most `max(retention_limit_bytes, 1)` bytes.
    pub fn new(retention_limit_bytes: usize) -> (r: Self)
        ensures
            r.wf(),
            r.retention_limit_bytes == if retention_limit_bytes == 0 {
                1
            } else {
                retention_limit_bytes
            },
            r.entries@.len() == 0,
            r.retained_bytes == 0,
            r.next_sequence == 0,
            r.evicted_entries == 0,
    {
        let limit = if retention_limit_bytes == 0 {
            1
        } else {
            retention_limit_bytes
        };
        ServerLogBuffer {
            retention_limit_bytes: limit,
            entries: std::collections::VecDeque::new(),
            retained_bytes: 0,
            next_sequence: 0,
            evicted_entries: 0,
        }
    }

    /// Appends one chunk of output, truncating it to the retention limit and
    /// evicting the oldest entries until it fits.
    pub fn push(&mut self, pid: u32, stream: ServerLogStream, text: String)
        requires
            old(self).wf(),
        ensures
            final(self).wf(),
            log_pushed(*old(self), *final(self), pid, stream, text@),
    {
        let limit = self.retention_limit_bytes;
        let raw = chars_of(text.as_str());
        let (kept, truncated) = truncate_to_limit(raw.as_slice(), limit);
        let bytes_wide = utf8_len_exec(kept.as_slice());
        assert(bytes_wide <= limit);
        let bytes = bytes_wide as usize;
        let kept_text = string_from_chars(kept.as_slice());
        let ghost before = self.entries@;
        let start_len = self.entries.len();
        let mut dropped: usize = 0;
        while self.entries.len() > 0 && self.retained_bytes.saturating_add(bytes) > limit
            invariant
                self.wf(),
                self.retention_limit_bytes == limit,
                bytes <= limit,
                dropped <= before.len(),
                before.len() == start_len,
                self.entries@ == before.subrange(dropped as int, before.len() as int),
                self.next_sequence == old(self).next_sequence,
                evictions_needed(before, bytes as nat, limit as nat, 0) == evictions_needed(
                    before,
                    bytes as nat,
                    limit as nat,
                    dropped as int,
                ),
                self.evicted_entries == if old(self).evicted_entries + dropped > u64::MAX {
                    u64::MAX as int
                } else {
                    old(self).evicted_entries + dropped
                },
            decreases self.entries@.len(),
        {
            assert(dropped < before.len());
            assert(!fits_with(before.subrange(dropped as int, before.len() as int), bytes as nat, limit as nat));
            proof {
                lemma_total_bytes_front(self.entries@);
            }
            let evicted = self.entries.pop_front();
            match evicted {
                Some(e) => {
                    let ev = chars_of(e.text.as_str());
                    let ev_bytes = utf8_len_exec(ev.as_slice());
                    self.retained_bytes = self.retained_bytes.saturating_sub(ev_bytes as usize);
                    self.evicted_entries = self.evicted_entries.saturating_add(1);
                },
                None => {},
            }
            dropped = dropped + 1;
            assert(self.entries@ == before.subrange(dropped as int, before.len() as int));
        }
        proof {
            if dropped < before.len() {
                assert(fits_with(before.subrange(dropped as int, before.len() as int), bytes as nat, limit as nat));
            }
            assert(evictions_needed(before, bytes as nat, limit as nat, dropped as int) == dropped);
        }
        let sequence = self.next_sequence;
        self.next_sequence = self.next_sequence.saturating_add(1);
        self.retained_bytes = self.retained_bytes.saturating_add(bytes);
        let ghost kept_entries = self.entries@;
        self.entries.push_back(
            ServerLogEntry {
                sequence,
                observed_at_unix_ms: now_unix_ms(),
                pid,
                stream,
                text: kept_text,
                truncated,
            },
        );
        assert(self.entries@.drop_last() == kept_entries);
        assert(self.entries@.drop_last() == before.subrange(dropped as int, before.len() as int));
        proof {
            let es = self.entries@;
            assert forall|i: int, j: int| 0 <= i < j < es.len() implies es[i].sequence < es[j].sequence
                || es[j].sequence == u64::MAX by {
                if j < es.len() - 1 {
                    assert(es[i] == kept_entries[i]);
                    assert(es[j] == kept_entries[j]);
                } else {
                    assert(es[i] == kept_entries[i]);
                }
            }
        }
    }

    /// A copy of the retained entries and their accounting.
    pub fn snapshot(&self) -> (r: ServerLogSnapshot)
        requires
            self.wf(),
        ensures
            r.entries@ == self.entries@,
            r.retained_bytes == self.retained_bytes,
            r.retention_limit_bytes == self.retention_limit_bytes,
            r.evicted_entries == self.evicted_entries,
            r.retained_bytes <= r.retention_limit_bytes,
            sequences_increase(r.entries@),
    {
        let mut entries: Vec<ServerLogEntry> = Vec::new();
        let mut i: usize = 0;
        while i < self.entries.len()
            invariant
                i <= self.entries@.len(),
                entries@ == self.entries@.subrange(0, i as int),
            decreases self.entries@.len() - i,
        {
            entries.push(copy_entry(&self.entries[i]));
            i = i + 1;
        }
        assert(self.entries@.subrange(0, self.entries@.len() as int) == self.entries@);
        ServerLogSnapshot {
            entries,
            retained_bytes: self.retained_bytes,
            retention_limit_bytes: self.retention_limit_bytes,
            evicted_entries: self.evicted_entries,
        }
    }
}

pub fn copy_entry(e: &ServerLogEntry) -> (r: ServerLogEntry)
    ensures
        r == *e,
{
    ServerLogEntry {
        sequence: e.sequence,
        observed_at_unix_ms: e.observed_at_unix_ms,
        pid: e.pid,
        stream: e.stream,
        text: e.text.clone(),
        truncated: e.truncated,
    }
}

/// A log buffer never retains more bytes than its limit, and every push
/// leaves it well formed: the accounting survives any sequence of pushes.
pub proof fn law_retained_bytes_bounded(buffer: ServerLogBuffer)
    requires
        buffer.wf(),
    ensures
        buffer.retained_bytes <= buffer.retention_limit_bytes,
        buffer.retention_limit_bytes < usize::MAX ==> total_bytes(buffer.entries@)
            == buffer.retained_bytes,
        forall|i: int|
            0 <= i < buffer.entries@.len() ==> utf8_len(#[trigger] buffer.entries@[i].text@)
                <= buffer.retention_limit_bytes,
{
}

/// Every pushed entry is either kept or counted as evicted: a push adds one
/// to the sum of the kept entries and the evictions (until that count
/// saturates), and what it keeps is the longest run of the newest entries
/// that fits with the new one (none, when no run does).
pub proof fn law_every_push_is_kept_or_evicted(before: ServerLogBuffer, after: ServerLogBuffer, pid: u32, stream: ServerLogStream, text: Seq<char>)
    requires
        before.wf(),
        log_pushed(before, after, pid, stream, text),
        before.evicted_entries + before.entries@.len() < u64::MAX,
    ensures
        after.evicted_entries + after.entries@.len() == before.evicted_entries + before.entries@.len() + 1,
        ({
            let bytes = utf8_len(retained_text(text, before.retention_limit_bytes as nat));
            let kept = after.entries@.drop_last();
            &&& kept.len() == 0 || fits_with(kept, bytes, before.retention_limit_bytes as nat)
            &&& forall|d: int| 0 <= d < before.entries@.len() - kept.len() ==> !fits_with(
                #[trigger] before.entries@.subrange(d, before.entries@.len() as int),
                bytes,
                before.retention_limit_bytes as nat,
            )
        }),
{
    let bytes = utf8_len(retained_text(text, before.retention_limit_bytes as nat));
    lemma_evictions_needed_bounds(before.entries@, bytes, before.retention_limit_bytes as nat, 0);
}

/// `states[i + 1]` is what pushing `pushes[i]` (pid, stream, text) made of
/// `states[i]`, for every push in turn.
pub open spec fn pushed_in_turn(states: Seq<ServerLogBuffer>, pushes: Seq<(u32, ServerLogStream, Seq<char>)>) -> bool {
    &&& states.len() == pushes.len() + 1
    &&& forall|i: int|
        0 <= i < pushes.len() ==> log_pushed(#[trigger] states[i], states[i + 1], pushes[i].0, pushes[i].1, pushes[i].2)
}

/// After the first `m` pushes onto an empty buffer: every push is either
/// kept or counted as evicted, and the kept entries are the latest pushes,
/// in order, numbered by their position among all pushes.
pub open spec fn holds_latest_pushes(s: ServerLogBuffer, pushes: Seq<(u32, ServerLogStream, Seq<char>)>, m: int) -> bool {
    &&& s.evicted_entries + s.entries@.len() == m
    &&& s.next_sequence == m
    &&& forall|j: int|
        0 <= j < s.entries@.len() ==> {
            let e = #[trigger] s.entries@[j];
            let p = pushes[m - s.entries@.len() + j];
            &&& e.sequence == m - s.entries@.len() + j
            &&& e.pid == p.0
            &&& e.stream == p.1
            &&& e.text@ == retained_text(p.2, s.retention_limit_bytes as nat)
        }
}

proof fn lemma_push_step(
    b: ServerLogBuffer,
    a: ServerLogBuffer,
    pushes: Seq<(u32, ServerLogStream, Seq<char>)>,
    m: int,
)
    requires
        1 <= m <= pushes.len(),
        pushes.len() < u64::MAX,
        holds_latest_pushes(b, pushes, m - 1),
        log_pushed(b, a, pushes[m - 1].0, pushes[m - 1].1, pushes[m - 1].2),
    ensures
        holds_latest_pushes(a, pushes, m),
        a.retention_limit_bytes == b.retention_limit_bytes,
        a.entries@.len() >= 1,
{
    let k = evictions_needed(
        b.entries@,
        utf8_len(retained_text(pushes[m - 1].2, b.retention_limit_bytes as nat)),
        b.retention_limit_bytes as nat,
        0,
    );
    let bl = b.entries@.len() as int;
    let al = a.entries@.len() as int;
    assert(0 <= k <= bl);
    assert(a.entries@.drop_last() == b.entries@.subrange(k, bl));
    assert(a.entries@.drop_last().len() == al - 1);
    assert(al == bl - k + 1);
    assert forall|j: int| 0 <= j < al implies {
        let e = #[trigger] a.entries@[j];
        let p = pushes[m - al + j];
        &&& e.sequence == m - al + j
        &&& e.pid == p.0
        &&& e.stream == p.1
        &&& e.text@ == retained_text(p.2, a.retention_limit_bytes as nat)
    } by {
        if j < al - 1 {
            assert(a.entries@[j] == a.entries@.drop_last()[j]);
            assert(a.entries@[j] == b.entries@[k + j]);
            let e0 = b.entries@[k + j];
            assert(e0.sequence == (m - 1) - bl + (k + j));
        } else {
            assert(a.entries@[j] == a.entries@.last());
        }
    }
}

proof fn lemma_pushes_hold_latest(states: Seq<ServerLogBuffer>, pushes: Seq<(u32, ServerLogStream, Seq<char>)>, m: int)
    requires
        pushed_in_turn(states, pushes),
        0 <= m <= pushes.len(),
        pushes.len() < u64::MAX,
        states[0].entries@.len() == 0,
        states[0].next_sequence == 0,
        states[0].evicted_entries == 0,
    ensures
        holds_latest_pushes(states[m], pushes, m),
        states[m].retention_limit_bytes == states[0].retention_limit_bytes,
        m >= 1 ==> states[m].entries@.len() >= 1,
    decreases m,
{
    if m > 0 {
        lemma_pushes_hold_latest(states, pushes, m - 1);
        assert(log_pushed(states[m - 1], states[m], pushes[m - 1].0, pushes[m - 1].1, pushes[m - 1].2));
        lemma_push_step(states[m - 1], states[m], pushes, m);
    }
}

/// Over any run of pushes onto a new buffer: the accounted bytes are the
/// retained texts' total (whenever the limit is below `usize::MAX`) and
/// stay within the limit; the newest push is always kept; the entries are
/// the latest pushes in push order, numbered by push; and evicted plus kept
/// entries count every push.
pub proof fn law_pushes_keep_the_newest_and_count_the_rest(
    states: Seq<ServerLogBuffer>,
    pushes: Seq<(u32, ServerLogStream, Seq<char>)>,
)
    requires
        pushed_in_turn(states, pushes),
        forall|i: int| 0 <= i < states.len() ==> (#[trigger] states[i]).wf(),
        states[0].entries@.len() == 0,
        states[0].next_sequence == 0,
        states[0].evicted_entries == 0,
        pushes.len() < u64::MAX,
    ensures
        ({
            let s = states.last();
            let n = pushes.len() as int;
            &&& s.retention_limit_bytes == states[0].retention_limit_bytes
            &&& s.retained_bytes <= s.retention_limit_bytes
            &&& s.retention_limit_bytes < usize::MAX ==> s.retained_bytes as nat == total_bytes(s.entries@)
            &&& n >= 1 ==> (s.entries@.len() >= 1 && s.entries@.last().sequence == n - 1 && s.entries@.last().text@
                == retained_text(pushes[n - 1].2, s.retention_limit_bytes as nat))
            &&& s.evicted_entries + s.entries@.len() == n
            &&& holds_latest_pushes(s, pushes, n)
        }),
{
    let n = pushes.len() as int;
    lemma_pushes_hold_latest(states, pushes, n);
    let s = states[n];
    assert(s == states.last());
    assert(s.wf());
    if n >= 1 {
        let l = s.entries@.len() as int;
        assert(s.entries@.last() == s.entries@[l - 1]);
    }
}

/// `str::replace` of every non-overlapping occurrence of `pat`, scanning
/// from index `i` to the end.
pub open spec fn replace_from(s: Seq<char>, pat: Seq<char>, rep: Seq<char>, i: int) -> Seq<char>
    decreases s.len() - i,
{
    if i < 0 || i >= s.len() || pat.len() == 0 {
        if pat.len() == 0 && 0 <= i < s.len() {
            s.subrange(i, s.len() as int)
        } else {
            Seq::empty()
        }
    } else if i + pat.len() <= s.len() && s.subrange(i, i + pat.len()) == pat {
        rep + replace_from(s, pat, rep, i + pat.len())
    } else {
        seq![s[i]] + replace_from(s, pat, rep, i + 1)
    }
}

pub open spec fn replace_all(s: Seq<char>, pat: Seq<char>, rep: Seq<char>) -> Seq<char> {
    if pat.len() == 0 {
        s
    } else {
        replace_from(s, pat, rep, 0)
    }
}

fn matches_at(s: &[char], pat: &[char], i: usize) -> (r: bool)
    requires
        i <= s@.len(),
    ensures
        r == (i + pat@.len() <= s@.len() && s@.subrange(i as int, i + pat@.len()) == pat@),
{
    if pat.len() > s.len() - i {
        return false;
    }
    let mut k: usize = 0;
    while k < pat.len()
        invariant
            i + pat@.len() <= s@.len(),
            s@.len() == s.len(),
            k <= pat@.len(),
            forall|m: int| 0 <= m < k ==> s@[i + m] == pat@[m],
        decreases pat@.len() - k,
    {
        if s[i + k] != pat[k] {
            assert(s@.subrange(i as int, i + pat@.len())[k as int] != pat@[k as int]);
            return false;
        }
        k = k + 1;
    }
    assert(s@.subrange(i as int, i + pat@.len()) =~= pat@);
    true
}

/// Replaces every non-overlapping occurrence of a non-empty `pat` by `rep`.
pub fn replace_chars(s: &[char], pat: &[char], rep: &[char]) -> (r: Vec<char>)
    requires
        pat@.len() > 0,
    ensures
        r@ == replace_all(s@, pat@, rep@),
{
    let mut out: Vec<char> = Vec::new();
    let mut i: usize = 0;
    while i < s.len()
        invariant
            pat@.len() > 0,
            i <= s@.len(),
            out@ + replace_from(s@, pat@, rep@, i as int) == replace_from(s@, pat@, rep@, 0),
        decreases s@.len() - i,
    {
        let ghost before = out@;
        if matches_at(s, pat, i) {
            push_chars(&mut out, rep);
            assert(before + replace_from(s@, pat@, rep@, i as int) == before + (rep@ + replace_from(
                s@,
                pat@,
                rep@,
                i + pat@.len(),
            )));
            assert(before + (rep@ + replace_from(s@, pat@, rep@, i + pat@.len())) == out@
                + replace_from(s@, pat@, rep@, i + pat@.len()));
            i = i + pat.len();
        } else {
            out.push(s[i]);
            assert(before + (seq![s@[i as int]] + replace_from(s@, pat@, rep@, i + 1)) == out@
                + replace_from(s@, pat@, rep@, i + 1));
            i = i + 1;
        }
    }
    assert(replace_from(s@, pat@, rep@, i as int) == Seq::<char>::empty());
    assert(out@ + Seq::<char>::empty() == out@);
    out
}

/// Every configured non-empty secret replaced by `<redacted>`, one secret
/// after another.
pub open spec fn redact_secrets(s: Seq<char>, secrets: Seq<String>) -> Seq<char>
    decreases secrets.len(),
{
    if secrets.len() == 0 {
        s
    } else {
        let prev = redact_secrets(s, secrets.drop_last());
        replace_all(prev, secrets.last()@, "<redacted>"@)
    }
}

pub open spec fn bearer_at(s: Seq<char>, i: int) -> bool {
    0 <= i && i + 7 <= s.len() && forall|k: int| 0 <= k < 7 ==> ascii_lower(#[trigger] s[i + k]) == "bearer "@[k]
}

/// First position of `bearer ` (ASCII case-insensitive) at or after `i`.
pub open spec fn find_bearer(s: Seq<char>, i: int) -> Option<int>
    decreases s.len() - i,
{
    if i < 0 || i + 7 > s.len() {
        None
    } else if bearer_at(s, i) {
        Some(i)
    } else {
        find_bearer(s, i + 1)
    }
}

pub proof fn lemma_find_bearer_bounds(s: Seq<char>, i: int)
    requires
        0 <= i,
    ensures
        find_bearer(s, i) matches Some(k) ==> i <= k && k + 7 <= s.len() && bearer_at(s, k),
    decreases s.len() - i,
{
    if i + 7 <= s.len() && !bearer_at(s, i) {
        lemma_find_bearer_bounds(s, i + 1);
    }
}

/// Each `bearer <token>` keeps its prefix as written and has the token,
/// up to the next whitespace, replaced by `<redacted>`.
pub open spec fn redact_bearer(s: Seq<char>) -> Seq<char>
    decreases s.len(),
{
    match find_bearer(s, 0) {
        None => s,
        Some(i) => {
            proof {
                lemma_find_bearer_bounds(s, 0);
            }
            let rest = s.subrange(i + 7, s.len() as int);
            proof {
                crate::text::lemma_token_end_bounds(rest, 0);
            }
            let t = token_end(rest, 0);
            s.subrange(0, i + 7) + "<redacted>"@ + redact_bearer(rest.subrange(t, rest.len() as int))
        },
    }
}

fn find_bearer_exec(s: &[char], lower_target: &[char]) -> (r: Option<usize>)
    requires
        lower_target@ == "bearer "@,
    ensures
        r is Some <==> find_bearer(s@, 0) is Some,
        r is Some ==> find_bearer(s@, 0) == Some(r->0 as int),
{
    proof {
        reveal_strlit("bearer ");
    }
    let mut i: usize = 0;
    if s.len() < 7 {
        return None;
    }
    while i <= s.len() - 7
        invariant
            lower_target@ == "bearer "@,
            "bearer "@.len() == 7,
            s@.len() >= 7,
            i <= s@.len() - 6,
            find_bearer(s@, 0) == find_bearer(s@, i as int),
        decreases s@.len() - 6 - i,
    {
        let mut k: usize = 0;
        let mut same = true;
        while k < 7
            invariant
                lower_target@ == "bearer "@,
                "bearer "@.len() == 7,
                i + 7 <= s@.len(),
                s@.len() == s.len(),
                k <= 7,
                same == (forall|m: int| 0 <= m < k ==> ascii_lower(s@[i + m]) == "bearer "@[m]),
            decreases 7 - k,
        {
            if to_ascii_lower(s[i + k]) != lower_target[k] {
                same = false;
            }
            k = k + 1;
        }
        if same {
            assert(bearer_at(s@, i as int));
            return Some(i);
        }
        assert(!bearer_at(s@, i as int));
        i = i + 1;
    }
    None
}

/// Replaces the token after every `bearer ` by `<redacted>`.
pub fn redact_bearer_tokens(text: &[char]) -> (r: Vec<char>)
    ensures
        r@ == redact_bearer(text@),
{
    let target = chars_of("bearer ");
    let mut out: Vec<char> = Vec::new();
    let mut rem = crate::text::copy_range(text, 0, text.len());
    assert(text@.subrange(0, text@.len() as int) == text@);
    while true
        invariant
            target@ == "bearer "@,
            out@ + redact_bearer(rem@) == redact_bearer(text@),
        decreases rem@.len(),
    {
        match find_bearer_exec(rem.as_slice(), target.as_slice()) {
            None => {
                push_chars(&mut out, rem.as_slice());
                return out;
            },
            Some(i) => {
                proof {
                    lemma_find_bearer_bounds(rem@, 0);
                }
                assert(i + 7 <= rem@.len());
                assert(rem@.len() == rem.len());
                let prefix_end = i + 7;
                let head = crate::text::copy_range(rem.as_slice(), 0, prefix_end);
                let rest = crate::text::copy_range(rem.as_slice(), prefix_end, rem.len());
                proof {
                    crate::text::lemma_token_end_bounds(rest@, 0);
                }
                let t = crate::text::scan_token_end(rest.as_slice(), 0, rest.len());
                let next = crate::text::copy_range(rest.as_slice(), t, rest.len());
                let ghost before = out@;
                push_chars(&mut out, head.as_slice());
                push_str(&mut out, "<redacted>");
                assert(redact_bearer(rem@) == head@ + "<redacted>"@ + redact_bearer(next@));
                assert(before + (head@ + "<redacted>"@ + redact_bearer(next@)) == out@ + redact_bearer(next@));
                rem = next;
            },
        }
    }
    out
}

/// `redact_text`: configured secrets first, then bearer tokens.
pub open spec fn redacted_text(s: Seq<char>, secrets: Seq<String>) -> Seq<char> {
    redact_bearer(redact_secrets(s, secrets))
}

/// Hides every non-empty configured secret and every bearer token in `text`.
pub fn redact_text(text: &str, secrets: &[String]) -> (r: String)
    ensures
        r@ == redacted_text(text@, secrets@),
{
    let mut current = chars_of(text);
    let marker = chars_of("<redacted>");
    let mut k: usize = 0;
    while k < secrets.len()
        invariant
            marker@ == "<redacted>"@,
            k <= secrets@.len(),
            current@ == redact_secrets(text@, secrets@.subrange(0, k as int)),
        decreases secrets@.len() - k,
    {
        let ghost prefix = secrets@.subrange(0, k as int + 1);
        assert(prefix.drop_last() == secrets@.subrange(0, k as int));
        let pat = chars_of(secrets[k].as_str());
        if pat.len() > 0 {
            current = replace_chars(current.as_slice(), pat.as_slice(), marker.as_slice());
        }
        k = k + 1;
    }
    assert(secrets@.subrange(0, secrets@.len() as int) == secrets@);
    let out = redact_bearer_tokens(current.as_slice());
    string_from_chars(out.as_slice())
}

/// Whether `p` occurs somewhere in `s`.
pub open spec fn occurs_in(s: Seq<char>, p: Seq<char>) -> bool {
    exists|j: int| 0 <= j && j + p.len() <= s.len() && #[trigger] s.subrange(j, j + p.len()) == p
}

/// A secret that `<redacted>` cannot help spell: not empty, without `<` or
/// `>`, and not found inside `<redacted>` itself.
pub open spec fn apart_from_marker(p: Seq<char>) -> bool {
    &&& p.len() > 0
    &&& forall|k: int| 0 <= k < p.len() ==> #[trigger] p[k] != '<' && p[k] != '>'
    &&& !occurs_in("<redacted>"@, p)
}

/// An occurrence of such a secret that starts inside a marker is impossible.
proof fn lemma_no_occurrence_from_marker(y: Seq<char>, rest: Seq<char>, p: Seq<char>, j: int)
    requires
        apart_from_marker(p),
        y == "<redacted>"@ + rest,
        0 <= j < 10,
        j + p.len() <= y.len(),
    ensures
        y.subrange(j, j + p.len()) != p,
{
    reveal_strlit("<redacted>");
    let marker = "<redacted>"@;
    if y.subrange(j, j + p.len()) == p {
        if j + p.len() <= 10 {
            assert(marker.subrange(j, j + p.len()) =~= p);
        } else {
            assert(p[9 - j] == y[9]);
        }
    }
}

/// Up to its first `<`, what replacing from `i` gives is `x` from `i` on.
proof fn lemma_replace_prefix(x: Seq<char>, q: Seq<char>, i: int, m: int)
    requires
        q.len() > 0,
        0 <= i <= x.len(),
        0 <= m <= replace_from(x, q, "<redacted>"@, i).len(),
        forall|k: int| 0 <= k < m ==> #[trigger] replace_from(x, q, "<redacted>"@, i)[k] != '<',
    ensures
        i + m <= x.len(),
        replace_from(x, q, "<redacted>"@, i).subrange(0, m) == x.subrange(i, i + m),
    decreases x.len() - i,
{
    reveal_strlit("<redacted>");
    let y = replace_from(x, q, "<redacted>"@, i);
    if m == 0 {
        assert(y.subrange(0, 0) =~= x.subrange(i, i));
    } else if i >= x.len() {
    } else if i + q.len() <= x.len() && x.subrange(i, i + q.len()) == q {
        assert(y[0] == '<');
    } else {
        let y2 = replace_from(x, q, "<redacted>"@, i + 1);
        assert(y == seq![x[i]] + y2);
        assert forall|k: int| 0 <= k < m - 1 implies #[trigger] y2[k] != '<' by {
            assert(y2[k] == y[k + 1]);
        }
        lemma_replace_prefix(x, q, i + 1, m - 1);
        assert(y.subrange(0, m) =~= seq![x[i]] + y2.subrange(0, m - 1));
        assert(x.subrange(i, i + m) =~= seq![x[i]] + x.subrange(i + 1, i + m));
    }
}

/// An occurrence of such a secret after replacing from `i` was already in
/// `x` from `i` on, at a place where the replaced text `q` did not match.
proof fn lemma_replace_pulls_back(x: Seq<char>, q: Seq<char>, p: Seq<char>, i: int, j: int) -> (k: int)
    requires
        q.len() > 0,
        apart_from_marker(p),
        0 <= i <= x.len(),
        0 <= j,
        j + p.len() <= replace_from(x, q, "<redacted>"@, i).len(),
        replace_from(x, q, "<redacted>"@, i).subrange(j, j + p.len()) == p,
    ensures
        i <= k,
        k + p.len() <= x.len(),
        x.subrange(k, k + p.len()) == p,
        !(k + q.len() <= x.len() && x.subrange(k, k + q.len()) == q),
    decreases x.len() - i,
{
    reveal_strlit("<redacted>");
    let y = replace_from(x, q, "<redacted>"@, i);
    let l = p.len() as int;
    if i >= x.len() {
        assert(y.len() == 0);
        assert(false);
        0
    } else if i + q.len() <= x.len() && x.subrange(i, i + q.len()) == q {
        let y2 = replace_from(x, q, "<redacted>"@, i + q.len());
        assert(y == "<redacted>"@ + y2);
        if j < 10 {
            lemma_no_occurrence_from_marker(y, y2, p, j);
            0
        } else {
            assert(y2.subrange(j - 10, j - 10 + l) =~= y.subrange(j, j + l));
            lemma_replace_pulls_back(x, q, p, i + q.len(), j - 10)
        }
    } else {
        let y2 = replace_from(x, q, "<redacted>"@, i + 1);
        assert(y == seq![x[i]] + y2);
        if j >= 1 {
            assert(y2.subrange(j - 1, j - 1 + l) =~= y.subrange(j, j + l));
            lemma_replace_pulls_back(x, q, p, i + 1, j - 1)
        } else {
            assert forall|k: int| 0 <= k < l - 1 implies #[trigger] y2[k] != '<' by {
                assert(y2[k] == y[k + 1]);
                assert(y[k + 1] == p[k + 1]);
            }
            lemma_replace_prefix(x, q, i + 1, l - 1);
            assert(y.subrange(0, l) =~= seq![x[i]] + y2.subrange(0, l - 1));
            assert(x.subrange(i, i + l) =~= seq![x[i]] + x.subrange(i + 1, i + l));
            i
        }
    }
}

/// Replacing text never makes such a secret appear, and replacing the
/// secret itself leaves none of it.
proof fn lemma_replace_all_and_secret(x: Seq<char>, q: Seq<char>, p: Seq<char>)
    requires
        apart_from_marker(p),
    ensures
        occurs_in(replace_all(x, q, "<redacted>"@), p) ==> occurs_in(x, p),
        q == p ==> !occurs_in(replace_all(x, q, "<redacted>"@), p),
{
    let y = replace_all(x, q, "<redacted>"@);
    if occurs_in(y, p) && q.len() > 0 {
        let j = choose|j: int| 0 <= j && j + p.len() <= y.len() && #[trigger] y.subrange(j, j + p.len()) == p;
        let k = lemma_replace_pulls_back(x, q, p, 0, j);
        assert(x.subrange(k, k + p.len()) == p);
    }
}

/// Redacting bearer tokens never makes such a secret appear.
proof fn lemma_bearer_pulls_back(x: Seq<char>, p: Seq<char>)
    requires
        apart_from_marker(p),
    ensures
        occurs_in(redact_bearer(x), p) ==> occurs_in(x, p),
    decreases x.len(),
{
    reveal_strlit("<redacted>");
    let y = redact_bearer(x);
    let l = p.len() as int;
    lemma_find_bearer_bounds(x, 0);
    if occurs_in(y, p) {
        match find_bearer(x, 0) {
            None => {},
            Some(i) => {
                let rest = x.subrange(i + 7, x.len() as int);
                crate::text::lemma_token_end_bounds(rest, 0);
                let t = token_end(rest, 0);
                let tail = rest.subrange(t, rest.len() as int);
                let a = x.subrange(0, i + 7);
                let b = redact_bearer(tail);
                assert(y == a + "<redacted>"@ + b);
                let j = choose|j: int| 0 <= j && j + l <= y.len() && #[trigger] y.subrange(j, j + l) == p;
                if j + l <= i + 7 {
                    assert(x.subrange(j, j + l) =~= y.subrange(j, j + l));
                } else if j < i + 7 {
                    assert(p[i + 7 - j] == y[i + 7]);
                } else if j < i + 17 {
                    let ym = y.subrange(i + 7, y.len() as int);
                    assert(ym =~= "<redacted>"@ + b);
                    lemma_no_occurrence_from_marker(ym, b, p, j - i - 7);
                    assert(ym.subrange(j - i - 7, j - i - 7 + l) =~= y.subrange(j, j + l));
                } else {
                    let j2 = j - i - 17;
                    assert(b.subrange(j2, j2 + l) =~= y.subrange(j, j + l));
                    lemma_bearer_pulls_back(tail, p);
                    let k = choose|k: int| 0 <= k && k + l <= tail.len() && #[trigger] tail.subrange(k, k + l) == p;
                    assert(x.subrange(i + 7 + t + k, i + 7 + t + k + l) =~= tail.subrange(k, k + l));
                }
            },
        }
    }
}

proof fn lemma_secrets_cleared(s: Seq<char>, secrets: Seq<String>, k: int)
    requires
        0 <= k < secrets.len(),
        apart_from_marker(secrets[k]@),
    ensures
        !occurs_in(redact_secrets(s, secrets), secrets[k]@),
    decreases secrets.len(),
{
    let p = secrets[k]@;
    let prev = redact_secrets(s, secrets.drop_last());
    lemma_replace_all_and_secret(prev, secrets.last()@, p);
    if k < secrets.len() - 1 {
        assert(secrets.drop_last()[k] == secrets[k]);
        lemma_secrets_cleared(s, secrets.drop_last(), k);
    }
}

/// No configured secret survives redaction, provided `<redacted>` cannot
/// help spell it: it is not empty, holds no `<` or `>`, and is not part of
/// `<redacted>`.
pub proof fn law_configured_secrets_do_not_survive(s: Seq<char>, secrets: Seq<String>, k: int)
    requires
        0 <= k < secrets.len(),
        apart_from_marker(secrets[k]@),
    ensures
        !occurs_in(redacted_text(s, secrets), secrets[k]@),
{
    lemma_secrets_cleared(s, secrets, k);
    lemma_bearer_pulls_back(redact_secrets(s, secrets), secrets[k]@);
}

proof fn lemma_find_bearer_first(s: Seq<char>, i: int)
    requires
        0 <= i,
    ensures
        find_bearer(s, i) is None ==> forall|j: int| i <= j ==> !#[trigger] bearer_at(s, j),
        find_bearer(s, i) matches Some(k) ==> forall|j: int| i <= j < k ==> !#[trigger] bearer_at(s, j),
    decreases s.len() - i,
{
    if i + 7 <= s.len() && !bearer_at(s, i) {
        lemma_find_bearer_first(s, i + 1);
    }
}

/// After redaction, every `bearer ` (in any ASCII case) is directly
/// followed by `<redacted>`.
pub proof fn law_bearer_tokens_are_redacted(s: Seq<char>)
    ensures
        forall|j: int|
            #[trigger] bearer_at(redact_bearer(s), j) ==> j + 17 <= redact_bearer(s).len() && redact_bearer(s).subrange(
                j + 7,
                j + 17,
            ) == "<redacted>"@,
    decreases s.len(),
{
    reveal_strlit("<redacted>");
    reveal_strlit("bearer ");
    let out = redact_bearer(s);
    let marker = "<redacted>"@;
    lemma_find_bearer_bounds(s, 0);
    lemma_find_bearer_first(s, 0);
    match find_bearer(s, 0) {
        None => {
            assert(out == s);
        },
        Some(i) => {
            let rest = s.subrange(i + 7, s.len() as int);
            crate::text::lemma_token_end_bounds(rest, 0);
            let t = token_end(rest, 0);
            let tail = rest.subrange(t, rest.len() as int);
            law_bearer_tokens_are_redacted(tail);
            let a = s.subrange(0, i + 7);
            let b = redact_bearer(tail);
            assert(out == a + marker + b);
            assert forall|j: int| #[trigger] bearer_at(out, j) implies j + 17 <= out.len() && out.subrange(j + 7, j + 17)
                == marker by {
                if j <= i {
                    assert forall|k: int| 0 <= k < 7 implies ascii_lower(#[trigger] s[j + k]) == "bearer "@[k] by {
                        assert(out[j + k] == s[j + k]);
                        assert(ascii_lower(out[j + k]) == "bearer "@[k]);
                    }
                    assert(bearer_at(s, j));
                    assert(j == i);
                    assert(out.subrange(j + 7, j + 17) =~= marker);
                } else if j < i + 7 {
                    let k0 = i + 7 - j;
                    assert(out[j + k0] == '<');
                    assert(ascii_lower(out[j + k0]) == "bearer "@[k0]);
                } else if j < i + 17 {
                    assert(ascii_lower(out[j + 0]) == "bearer "@[0]);
                    assert(out[j] == marker[j - i - 7]);
                } else {
                    let j2 = j - (i + 17);
                    assert forall|k: int| 0 <= k < 7 implies ascii_lower(#[trigger] b[j2 + k]) == "bearer "@[k] by {
                        assert(out[j + k] == b[j2 + k]);
                        assert(ascii_lower(out[j + k]) == "bearer "@[k]);
                    }
                    assert(bearer_at(b, j2));
                    assert(out.subrange(j + 7, j + 17) =~= b.subrange(j2 + 7, j2 + 17));
                }
            }
        },
    }
}


impl ServerLogSnapshot {
    /// The same snapshot with every entry's text redacted; `self` is left
    /// untouched.
    pub fn redacted(&self, secrets: &[String]) -> (r: Self)
        ensures
            r.entries@.len() == self.entries@.len(),
            r.retained_bytes == self.retained_bytes,
            r.retention_limit_bytes == self.retention_limit_bytes,
            r.evicted_entries == self.evicted_entries,
            forall|i: int|
                0 <= i < r.entries@.len() ==> {
                    let a = #[trigger] r.entries@[i];
                    let b = self.entries@[i];
                    &&& a.text@ == redacted_text(b.text@, secrets@)
                    &&& a.sequence == b.sequence
                    &&& a.observed_at_unix_ms == b.observed_at_unix_ms
                    &&& a.pid == b.pid
                    &&& a.stream == b.stream
                    &&& a.truncated == b.truncated
                },
    {
        let mut entries: Vec<ServerLogEntry> = Vec::new();
        let mut i: usize = 0;
        while i < self.entries.len()
            invariant
                i <= self.entries@.len(),
                entries@.len() == i,
                forall|j: int|
                    0 <= j < i ==> {
                        let a = #[trigger] entries@[j];
                        let b = self.entries@[j];
                        &&& a.text@ == redacted_text(b.text@, secrets@)
                        &&& a.sequence == b.sequence
                        &&& a.observed_at_unix_ms == b.observed_at_unix_ms
                        &&& a.pid == b.pid
                        &&& a.stream == b.stream
                        &&& a.truncated == b.truncated
                    },
            decreases self.entries@.len() - i,
        {
            let e = &self.entries[i];
            entries.push(
                ServerLogEntry {
                    sequence: e.sequence,
                    observed_at_unix_ms: e.observed_at_unix_ms,
                    pid: e.pid,
                    stream: e.stream,
                    text: redact_text(e.text.as_str(), secrets),
                    truncated: e.truncated,
                },
            );
            i = i + 1;
        }
        ServerLogSnapshot {
            entries,
            retained_bytes: self.retained_bytes,
            retention_limit_bytes: self.retention_limit_bytes,
            evicted_entries: self.evicted_entries,
        }
    }
}

pub open spec fn stream_name(s: ServerLogStream) -> Seq<char> {
    match s {
        ServerLogStream::Stdout => "stdout"@,
        ServerLogStream::Stderr => "stderr"@,
    }
}

/// Line-break characters written as `\n` and `\r` escapes.
pub open spec fn escape_breaks(s: Seq<char>) -> Seq<char>
    decreases s.len(),
{
    if s.len() == 0 {
        Seq::empty()
    } else {
        escape_breaks(s.drop_last()) + if s.last() == '\n' {
            seq!['\\', 'n']
        } else if s.last() == '\r' {
            seq!['\\', 'r']
        } else {
            seq![s.last()]
        }
    }
}

/// The exported line of one entry: sequence, time, pid, stream and text,
/// tab-separated, with line breaks in the text escaped.
pub open spec fn export_line_of(e: ServerLogEntry) -> Seq<char> {
    decimal(e.sequence as nat) + seq!['\t'] + decimal(e.observed_at_unix_ms as nat) + seq!['\t']
        + decimal(e.pid as nat) + seq!['\t'] + stream_name(e.stream) + seq!['\t'] + escape_breaks(
        e.text@,
    )
}

/// Renders the export line of one (already redacted) entry.
pub fn export_line(e: &ServerLogEntry) -> (r: String)
    ensures
        r@ == export_line_of(*e),
{
    let mut out: Vec<char> = Vec::new();
    let d = decimal_chars(e.sequence);
    push_chars(&mut out, d.as_slice());
    out.push('\t');
    let d = decimal_chars(e.observed_at_unix_ms);
    push_chars(&mut out, d.as_slice());
    out.push('\t');
    let d = decimal_chars(e.pid as u64);
    push_chars(&mut out, d.as_slice());
    out.push('\t');
    match e.stream {
        ServerLogStream::Stdout => push_str(&mut out, "stdout"),
        ServerLogStream::Stderr => push_str(&mut out, "stderr"),
    }
    out.push('\t');
    let ghost head = out@;
    let text = chars_of(e.text.as_str());
    let mut i: usize = 0;
    while i < text.len()
        invariant
            i <= text@.len(),
            out@ == head + escape_breaks(text@.subrange(0, i as int)),
        decreases text@.len() - i,
    {
        let ghost prefix = text@.subrange(0, i as int + 1);
        assert(prefix.drop_last() == text@.subrange(0, i as int));
        let c = text[i];
        if c == '\n' {
            out.push('\\');
            out.push('n');
        } else if c == '\r' {
            out.push('\\');
            out.push('r');
        } else {
            out.push(c);
        }
        i = i + 1;
    }
    assert(text@.subrange(0, text@.len() as int) == text@);
    string_from_chars(out.as_slice())
}

/// Lifecycle phase of the managed server.
#[derive(Debug, Clone, Copy, PartialEq, Eq, Structural)]
pub enum ServerLifecyclePhase {
    Stopped,
    Starting,
    Ready,
    Stopping,
    Failed,
    Crashed,
    Unknown,
}

#[derive(Debug, Clone, PartialEq, Eq)]
pub struct ServerLifecycleSnapshot {
    pub phase: ServerLifecyclePhase,
    pub process: Option<ManagedProcessIdentity>,
    pub last_exit: Option<ProcessExitEvidence>,
    pub detail: Option<String>,
    pub observed_at_unix_ms: u64,
}

/// The phase an exit moves the server into from `current`: a requested
/// stop, a forced kill, a cleanup, or a clean exit before readiness is a
/// stop; every other exit is a crash.
pub open spec fn exit_phase(current: ServerLifecyclePhase, e: ProcessExitEvidence) -> ServerLifecyclePhase {
    if current == ServerLifecyclePhase::Stopping {
        ServerLifecyclePhase::Stopped
    } else if e.kind == ProcessExitKind::ForceKilled || e.kind == ProcessExitKind::DropCleanup {
        ServerLifecyclePhase::Stopped
    } else if e.kind == ProcessExitKind::Natural && e.code == Some(0i32) && current
        != ServerLifecyclePhase::Ready {
        ServerLifecyclePhase::Stopped
    } else {
        ServerLifecyclePhase::Crashed
    }
}

/// The text kept for a previously managed process that outlived the app.
pub open spec fn orphan_detail() -> Seq<char> {
    "a previously managed process still exists, but this app instance does not own its Job Object/process handle"@
}

/// Truthful lifecycle of the managed server across starts, exits and app
/// restarts.
#[derive(Debug, Clone)]
pub struct ServerLifecycleTracker {
    pub snapshot: ServerLifecycleSnapshot,
}

impl Default for ServerLifecycleTracker {
    fn default() -> (r: Self)
        ensures
            r.snapshot.phase == ServerLifecyclePhase::Stopped,
            r.snapshot.process is None,
            r.snapshot.last_exit is None,
            r.snapshot.detail is None,
    {
        ServerLifecycleTracker {
            snapshot: ServerLifecycleSnapshot {
                phase: ServerLifecyclePhase::Stopped,
                process: None,
                last_exit: None,
                detail: None,
                observed_at_unix_ms: now_unix_ms(),
            },
        }
    }
}

impl ServerLifecycleTracker {
    pub fn snapshot(&self) -> (r: &ServerLifecycleSnapshot)
        ensures
            *r == self.snapshot,
    {
        &self.snapshot
    }

    pub fn mark_starting(&mut self, identity: ManagedProcessIdentity)
        ensures
            final(self).snapshot.phase == ServerLifecyclePhase::Starting,
            final(self).snapshot.process == Some(identity),
            final(self).snapshot.last_exit is None,
            final(self).snapshot.detail is None,
    {
        self.set(ServerLifecyclePhase::Starting, Some(identity), None, None);
    }

    pub fn mark_ready(&mut self)
        ensures
            final(self).snapshot.phase == ServerLifecyclePhase::Ready,
            final(self).snapshot.detail is None,
            final(self).snapshot.process == old(self).snapshot.process,
            final(self).snapshot.last_exit == old(self).snapshot.last_exit,
    {
        self.snapshot.phase = ServerLifecyclePhase::Ready;
        self.snapshot.detail = None;
        self.snapshot.observed_at_unix_ms = now_unix_ms();
    }

    pub fn mark_stopping(&mut self)
        ensures
            final(self).snapshot.phase == ServerLifecyclePhase::Stopping,
            final(self).snapshot.detail == old(self).snapshot.detail,
            final(self).snapshot.process == old(self).snapshot.process,
            final(self).snapshot.last_exit == old(self).snapshot.last_exit,
    {
        self.snapshot.phase = ServerLifecyclePhase::Stopping;
        self.snapshot.observed_at_unix_ms = now_unix_ms();
    }

    pub fn mark_failed(&mut self, detail: String)
        ensures
            final(self).snapshot.phase == ServerLifecyclePhase::Failed,
            final(self).snapshot.detail == Some(detail),
            final(self).snapshot.process == old(self).snapshot.process,
            final(self).snapshot.last_exit == old(self).snapshot.last_exit,
    {
        self.snapshot.phase = ServerLifecyclePhase::Failed;
        self.snapshot.detail = Some(detail);
        self.snapshot.observed_at_unix_ms = now_unix_ms();
    }

    /// Records an exit and the phase it leads to; a stop forgets the process.
    pub fn mark_exit(&mut self, evidence: ProcessExitEvidence)
        ensures
            final(self).snapshot.phase == exit_phase(old(self).snapshot.phase, evidence),
            final(self).snapshot.last_exit == Some(evidence),
            final(self).snapshot.detail == old(self).snapshot.detail,
            final(self).snapshot.phase == ServerLifecyclePhase::Stopped ==> final(self).snapshot.process is None,
            final(self).snapshot.phase != ServerLifecyclePhase::Stopped ==> final(self).snapshot.process == old(self).snapshot.process,
    {
        let current = self.snapshot.phase;
        let phase = if current == ServerLifecyclePhase::Stopping {
            ServerLifecyclePhase::Stopped
        } else if evidence.kind == ProcessExitKind::ForceKilled || evidence.kind
            == ProcessExitKind::DropCleanup {
            ServerLifecyclePhase::Stopped
        } else if evidence.kind == ProcessExitKind::Natural && evidence.code == Some(0i32) && current
            != ServerLifecyclePhase::Ready {
            ServerLifecyclePhase::Stopped
        } else {
            ServerLifecyclePhase::Crashed
        };
        self.snapshot.phase = phase;
        self.snapshot.last_exit = Some(evidence);
        self.snapshot.observed_at_unix_ms = now_unix_ms();
        if phase == ServerLifecyclePhase::Stopped {
            self.snapshot.process = None;
        }
    }

    /// After an app restart: a surviving process is reported as `Unknown`
    /// (it is no longer owned), a vanished one as `Stopped`.
    pub fn reconcile_after_restart(
        &mut self,
        previously_managed: Option<ManagedProcessIdentity>,
        process_still_exists: bool,
    )
        ensures
            process_still_exists ==> final(self).snapshot.phase == ServerLifecyclePhase::Unknown
                && final(self).snapshot.process == previously_managed && final(self).snapshot.last_exit is None && (final(self).snapshot.detail matches Some(d) && d@
                == orphan_detail()),
            !process_still_exists ==> final(self).snapshot.phase == ServerLifecyclePhase::Stopped
                && final(self).snapshot.process is None && final(self).snapshot.last_exit is None
                && final(self).snapshot.detail is None,
    {
        if process_still_exists {
            let d = chars_of(
                "a previously managed process still exists, but this app instance does not own its Job Object/process handle",
            );
            self.set(
                ServerLifecyclePhase::Unknown,
                previously_managed,
                None,
                Some(string_from_chars(d.as_slice())),
            );
        } else {
            self.set(ServerLifecyclePhase::Stopped, None, None, None);
        }
    }

    fn set(
        &mut self,
        phase: ServerLifecyclePhase,
        process: Option<ManagedProcessIdentity>,
        last_exit: Option<ProcessExitEvidence>,
        detail: Option<String>,
    )
        ensures
            final(self).snapshot.phase == phase,
            final(self).snapshot.process == process,
            final(self).snapshot.last_exit == last_exit,
            final(self).snapshot.detail == detail,
    {
        self.snapshot = ServerLifecycleSnapshot {
            phase,
            process,
            last_exit,
            detail,
            observed_at_unix_ms: now_unix_ms(),
        };
    }
}

/// A stop that was asked for, a forced kill or a cleanup never reads as a
/// crash; an unasked non-zero exit, or any unasked exit of a ready server
/// other than a kill, always does.
pub proof fn law_exit_classification(current: ServerLifecyclePhase, e: ProcessExitEvidence)
    ensures
        current == ServerLifecyclePhase::Stopping ==> exit_phase(current, e)
            == ServerLifecyclePhase::Stopped,
        (e.kind == ProcessExitKind::ForceKilled || e.kind == ProcessExitKind::DropCleanup)
            ==> exit_phase(current, e) == ServerLifecyclePhase::Stopped,
        (current != ServerLifecyclePhase::Stopping && e.kind == ProcessExitKind::Natural && e.code
            != Some(0i32)) ==> exit_phase(current, e) == ServerLifecyclePhase::Crashed,
        (current == ServerLifecyclePhase::Ready && e.kind == ProcessExitKind::Natural)
            ==> exit_phase(current, e) == ServerLifecyclePhase::Crashed,
        exit_phase(current, e) == ServerLifecyclePhase::Stopped || exit_phase(current, e)
            == ServerLifecyclePhase::Crashed,
{
}


} // verus!
