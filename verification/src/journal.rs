//! Source-local log journals: sequence allocation, sealing, the bounded
//! in-memory ring, tail snapshots with cursors, and the manifest that indexes
//! durable segments.  Timestamps are nanoseconds since the Unix epoch.

use vstd::prelude::*;
use vstd::string::StringSliceAdditionalSpecFns;

use crate::hex::{hex_encode, hex_name};
use crate::instant::{instant_nanos, instant_of};
use crate::scheduler::name_less;
use crate::text::{
    chars_of, decimal, ends_with, ends_with_vec, lemma_digits_order, lemma_name_less_common_prefix,
    lemma_name_less_extend, lemma_padded_u64, parse_unsigned, parse_unsigned_chars, push_char, push_str,
    slice_vec, starts_with, starts_with_vec, string_of, zero_pad, zero_padded_u64,
};

verus! {

/// Number of lines the in-memory ring keeps per source.
pub const RING_CAPACITY: usize = 10000;

/// Version written into every manifest.
pub const MANIFEST_VERSION: u32 = 1;

/// Output stream a log line came from.
#[derive(Clone, Copy, Debug, PartialEq, Eq, Structural)]
pub enum LogStream {
    Stdout,
    Stderr,
    System,
}

/// One journal entry.  `sequence` is assigned by the journal on append.
#[derive(Debug)]
pub struct LogLine {
    pub sequence: u64,
    pub timestamp: i128,
    pub stream: LogStream,
    pub line: String,
}

impl Clone for LogLine {
    fn clone(&self) -> (r: Self)
        ensures
            r == *self,
    {
        LogLine {
            sequence: self.sequence,
            timestamp: self.timestamp,
            stream: self.stream,
            line: self.line.clone(),
        }
    }
}

/// A bounded tail of a journal together with its cursor metadata.
#[derive(Debug)]
pub struct LogTail {
    pub lines: Vec<LogLine>,
    pub truncated: bool,
    pub high_watermark: u64,
    pub next_sequence: u64,
    pub earliest_retained_sequence: Option<u64>,
    pub cursor_expired: bool,
}

/// A page of log lines as served to a client: a tail together with the
/// number of lines the live stream dropped for a slow reader.
#[derive(Debug)]
pub struct LogPage {
    pub lines: Vec<LogLine>,
    pub truncated: bool,
    pub dropped_count: u64,
    pub high_watermark: u64,
    pub next_sequence: u64,
    pub earliest_retained_sequence: Option<u64>,
    pub cursor_expired: bool,
}

/// Refusals of a journal operation.
#[derive(Debug)]
pub enum LogError {
    /// The journal of the named source was sealed; it accepts no more lines.
    Sealed(String),
    /// A storage operation failed with the given message.
    Storage(String),
}

// ---------------------------------------------------------------------------
// Stream names
// ---------------------------------------------------------------------------

pub open spec fn stream_name_spec(stream: LogStream) -> Seq<char> {
    match stream {
        LogStream::Stdout => "stdout"@,
        LogStream::Stderr => "stderr"@,
        LogStream::System => "system"@,
    }
}

/// The persisted name of a stream.
pub fn stream_name(stream: LogStream) -> (name: &'static str)
    ensures
        name@ == stream_name_spec(stream),
{
    match stream {
        LogStream::Stdout => "stdout",
        LogStream::Stderr => "stderr",
        LogStream::System => "system",
    }
}

pub open spec fn parse_stream_spec(value: Seq<char>) -> LogStream {
    if value == "stderr"@ {
        LogStream::Stderr
    } else if value == "system"@ {
        LogStream::System
    } else {
        LogStream::Stdout
    }
}

/// Reads a persisted stream name; anything unknown is standard output.
pub fn parse_stream(value: &str) -> (stream: LogStream)
    ensures
        stream == parse_stream_spec(value@),
{
    let chars = crate::text::chars_of(value);
    let stderr = crate::text::chars_of("stderr");
    let system = crate::text::chars_of("system");
    if crate::text::chars_eq(&chars, &stderr) {
        LogStream::Stderr
    } else if crate::text::chars_eq(&chars, &system) {
        LogStream::System
    } else {
        LogStream::Stdout
    }
}

/// Parsing a written stream name gives the stream back.
pub proof fn lemma_stream_name_round_trip(stream: LogStream)
    ensures
        parse_stream_spec(stream_name_spec(stream)) == stream,
{
    reveal_strlit("stdout");
    reveal_strlit("stderr");
    reveal_strlit("system");
    assert("stdout"@ != "stderr"@) by {
        assert("stdout"@[4] != "stderr"@[4]);
    }
    assert("stdout"@ != "system"@) by {
        assert("stdout"@[1] != "system"@[1]);
    }
    assert("stderr"@ != "system"@) by {
        assert("stderr"@[1] != "system"@[1]);
    }
}

// ---------------------------------------------------------------------------
// Snapshots
// ---------------------------------------------------------------------------

/// Whether a line passes the `since` time filter and the `after_sequence`
/// cursor filter of a tail request.
pub open spec fn line_selected(line: LogLine, since: Option<i128>, after_sequence: Option<u64>) -> bool {
    &&& (since matches Some(t) ==> line.timestamp >= t)
    &&& (after_sequence matches Some(c) ==> line.sequence > c)
}

/// The lines of `lines` that pass both filters, in their order.
pub open spec fn selected_lines(
    lines: Seq<LogLine>,
    since: Option<i128>,
    after_sequence: Option<u64>,
) -> Seq<LogLine>
    decreases lines.len(),
{
    if lines.len() == 0 {
        Seq::empty()
    } else {
        let previous = selected_lines(lines.drop_last(), since, after_sequence);
        if line_selected(lines.last(), since, after_sequence) {
            previous.push(lines.last())
        } else {
            previous
        }
    }
}

/// Whether a page over `filtered` with `limit` is cut (a limit of 0 means
/// "no limit").
pub open spec fn page_truncated(count: nat, limit: usize) -> bool {
    limit > 0 && count > limit
}

/// The newest `limit` lines of `filtered`, or all of them when not cut.
pub open spec fn page_lines(filtered: Seq<LogLine>, limit: usize) -> Seq<LogLine> {
    if page_truncated(filtered.len(), limit) {
        filtered.skip(filtered.len() - limit)
    } else {
        filtered
    }
}

/// A cursor has expired when it predates the first retained sequence.
pub open spec fn cursor_expired_spec(after_sequence: Option<u64>, earliest: Option<u64>) -> bool {
    match (after_sequence, earliest) {
        (Some(cursor), Some(first)) => sat_inc(cursor) < first,
        _ => false,
    }
}

/// `value + 1`, saturating at `u64::MAX`.
pub open spec fn sat_inc(value: u64) -> u64 {
    if value == u64::MAX {
        value
    } else {
        (value + 1) as u64
    }
}

/// Collects the lines of `buffer` that pass both filters.
fn select(buffer: &Vec<LogLine>, since: Option<i128>, after_sequence: Option<u64>) -> (out: Vec<
    LogLine,
>)
    ensures
        out@ == selected_lines(buffer@, since, after_sequence),
{
    let mut out: Vec<LogLine> = Vec::new();
    let mut i: usize = 0;
    while i < buffer.len()
        invariant
            i <= buffer.len(),
            out@ == selected_lines(buffer@.take(i as int), since, after_sequence),
        decreases buffer.len() - i,
    {
        let line = &buffer[i];
        proof {
            assert(buffer@.take(i + 1).drop_last() == buffer@.take(i as int));
            assert(buffer@.take(i + 1).last() == buffer@[i as int]);
        }
        let keep_time = match since {
            Some(t) => line.timestamp >= t,
            None => true,
        };
        let keep_cursor = match after_sequence {
            Some(c) => line.sequence > c,
            None => true,
        };
        if keep_time && keep_cursor {
            out.push(line.clone());
        }
        i += 1;
    }
    proof {
        assert(buffer@.take(buffer.len() as int) == buffer@);
    }
    out
}

/// The tail page of `buffer` for one request: the newest `limit` lines that
/// are at or after `since` and after `after_sequence`, with the cursor fields
/// of the journal.
pub fn snapshot(
    buffer: &Vec<LogLine>,
    limit: usize,
    since: Option<i128>,
    after_sequence: Option<u64>,
    high_watermark: u64,
    earliest_retained_sequence: Option<u64>,
) -> (tail: LogTail)
    ensures
        tail.lines@ == page_lines(selected_lines(buffer@, since, after_sequence), limit),
        tail.truncated == page_truncated(
            selected_lines(buffer@, since, after_sequence).len(),
            limit,
        ),
        tail.high_watermark == high_watermark,
        tail.next_sequence == sat_inc(high_watermark),
        tail.earliest_retained_sequence == earliest_retained_sequence,
        tail.cursor_expired == cursor_expired_spec(after_sequence, earliest_retained_sequence),
{
    let cursor_expired = match (after_sequence, earliest_retained_sequence) {
        (Some(cursor), Some(earliest)) => cursor.saturating_add(1) < earliest,
        _ => false,
    };
    let filtered = select(buffer, since, after_sequence);
    let truncated = limit > 0 && filtered.len() > limit;
    let lines = if truncated {
        let start: usize = filtered.len() - limit;
        let mut out: Vec<LogLine> = Vec::new();
        let mut i: usize = start;
        while i < filtered.len()
            invariant
                start <= i <= filtered.len(),
                out@ == filtered@.subrange(start as int, i as int),
            decreases filtered.len() - i,
        {
            out.push(filtered[i].clone());
            i += 1;
        }
        out
    } else {
        filtered
    };
    LogTail {
        lines,
        truncated,
        high_watermark,
        next_sequence: high_watermark.saturating_add(1),
        earliest_retained_sequence,
        cursor_expired,
    }
}

// ---------------------------------------------------------------------------
// Policy and manifest
// ---------------------------------------------------------------------------

/// Rotation and retention limits of a durable journal.  The age limit is in
/// nanoseconds.
#[derive(Debug, Clone, Copy)]
pub struct JournalPolicy {
    pub max_segment_bytes: u64,
    pub max_segment_age: i128,
    pub max_sealed_segments: usize,
    pub max_total_bytes: u64,
}

impl JournalPolicy {
    /// The production policy: 1 MiB or 24 hours per segment, at most 32
    /// sealed segments and 32 MiB in all.
    pub fn standard() -> (policy: Self)
        ensures
            policy.max_segment_bytes == 1048576,
            policy.max_segment_age == 86400000000000i128,
            policy.max_sealed_segments == 32,
            policy.max_total_bytes == 33554432,
    {
        JournalPolicy {
            max_segment_bytes: 1048576,
            max_segment_age: 86400000000000,
            max_sealed_segments: 32,
            max_total_bytes: 33554432,
        }
    }
}

impl Default for JournalPolicy {
    fn default() -> (policy: Self)
        ensures
            policy.max_segment_bytes == 1048576,
            policy.max_segment_age == 86400000000000i128,
            policy.max_sealed_segments == 32,
            policy.max_total_bytes == 33554432,
    {
        JournalPolicy::standard()
    }
}

/// Index entry of one sealed segment file.
#[derive(Debug)]
pub struct SegmentMeta {
    pub filename: String,
    pub first_sequence: u64,
    pub last_sequence: u64,
    pub created_at: i128,
    pub sealed_at: i128,
    pub byte_len: u64,
}

impl Clone for SegmentMeta {
    fn clone(&self) -> (r: Self)
        ensures
            r == *self,
    {
        SegmentMeta {
            filename: self.filename.clone(),
            first_sequence: self.first_sequence,
            last_sequence: self.last_sequence,
            created_at: self.created_at,
            sealed_at: self.sealed_at,
            byte_len: self.byte_len,
        }
    }
}

/// The compact, atomically replaced index of a journal: sequence allocation
/// state, the active segment, the sealed segments in sequence order, and the
/// tombstones of segments whose deletion has not been confirmed yet.
#[derive(Debug)]
pub struct JournalManifest {
    pub version: u32,
    pub next_sequence: u64,
    pub high_watermark: u64,
    pub active_start_sequence: u64,
    pub active_created_at: i128,
    pub active_byte_len: u64,
    pub sealed: bool,
    pub sealed_segments: Vec<SegmentMeta>,
    pub deleted_segments: Vec<String>,
}

/// Sealed segments are kept in order of their first sequence.
pub open spec fn segments_ordered(segments: Seq<SegmentMeta>) -> bool {
    forall|i: int, j: int|
        0 <= i < j < segments.len() ==> segments[i].first_sequence <= segments[j].first_sequence
}

pub open spec fn earliest_retained_spec(m: JournalManifest) -> Option<u64> {
    if m.sealed_segments@.len() > 0 {
        Some(m.sealed_segments@[0].first_sequence)
    } else if m.high_watermark >= m.active_start_sequence {
        Some(m.active_start_sequence)
    } else {
        None
    }
}

/// `(a - b) >= limit` on timestamps, computed without overflow.
pub open spec fn elapsed_at_least(now: i128, then: i128, limit: i128) -> bool {
    now as int - then as int >= limit as int
}

pub open spec fn should_rollover_spec(m: JournalManifest, policy: JournalPolicy, now: i128) -> bool {
    m.active_byte_len > 0 && (m.active_byte_len >= policy.max_segment_bytes || elapsed_at_least(
        now,
        m.active_created_at,
        policy.max_segment_age,
    ))
}

fn elapsed_at_least_exec(now: i128, then: i128, limit: i128) -> (r: bool)
    ensures
        r == elapsed_at_least(now, then, limit),
{
    match now.checked_sub(then) {
        Some(d) => d >= limit,
        None => now > then,
    }
}

impl JournalManifest {
    /// A manifest with nothing written: the first line gets sequence 1.
    pub fn empty(now: i128) -> (m: Self)
        ensures
            m.version == MANIFEST_VERSION,
            m.next_sequence == 1,
            m.high_watermark == 0,
            m.active_start_sequence == 1,
            m.active_created_at == now,
            m.active_byte_len == 0,
            !m.sealed,
            m.sealed_segments@.len() == 0,
            m.deleted_segments@.len() == 0,
    {
        JournalManifest {
            version: MANIFEST_VERSION,
            next_sequence: 1,
            high_watermark: 0,
            active_start_sequence: 1,
            active_created_at: now,
            active_byte_len: 0,
            sealed: false,
            sealed_segments: Vec::new(),
            deleted_segments: Vec::new(),
        }
    }

    /// The first sequence still held: the first sealed segment's, else the
    /// active segment's start when it holds anything.
    pub fn earliest_retained_sequence(&self) -> (r: Option<u64>)
        ensures
            r == earliest_retained_spec(*self),
    {
        if self.sealed_segments.len() > 0 {
            Some(self.sealed_segments[0].first_sequence)
        } else if self.high_watermark >= self.active_start_sequence {
            Some(self.active_start_sequence)
        } else {
            None
        }
    }

    /// The sequence the next appended line gets, or `None` once sealed.
    pub fn next_append_sequence(&self) -> (r: Option<u64>)
        ensures
            self.sealed ==> r is None,
            !self.sealed ==> r == Some(self.next_sequence),
    {
        if self.sealed {
            None
        } else {
            Some(self.next_sequence)
        }
    }

    /// Records that the line with the allocated `sequence`, `written` bytes
    /// long, is in the active segment.
    pub fn commit_append(&mut self, sequence: u64, written: u64)
        requires
            !old(self).sealed,
            sequence == old(self).next_sequence,
        ensures
            final(self).high_watermark == sequence,
            final(self).next_sequence == sat_inc(sequence),
            final(self).active_byte_len == (if old(self).active_byte_len + written > u64::MAX {
                u64::MAX as int
            } else {
                old(self).active_byte_len + written
            }),
            final(self).version == old(self).version,
            final(self).active_start_sequence == old(self).active_start_sequence,
            final(self).active_created_at == old(self).active_created_at,
            final(self).sealed == old(self).sealed,
            final(self).sealed_segments == old(self).sealed_segments,
            final(self).deleted_segments == old(self).deleted_segments,
    {
        self.active_byte_len = self.active_byte_len.saturating_add(written);
        self.high_watermark = sequence;
        self.next_sequence = sequence.saturating_add(1);
    }

    /// Marks the journal as sealed; nothing else changes.
    pub fn seal(&mut self)
        ensures
            final(self).sealed,
            final(self).version == old(self).version,
            final(self).next_sequence == old(self).next_sequence,
            final(self).high_watermark == old(self).high_watermark,
            final(self).active_start_sequence == old(self).active_start_sequence,
            final(self).active_created_at == old(self).active_created_at,
            final(self).active_byte_len == old(self).active_byte_len,
            final(self).sealed_segments == old(self).sealed_segments,
            final(self).deleted_segments == old(self).deleted_segments,
    {
        self.sealed = true;
    }
}

/// Whether the active segment is due to be sealed before the next append:
/// it is non-empty and has reached the size or the age limit.
pub fn should_rollover(manifest: &JournalManifest, policy: &JournalPolicy, now: i128) -> (r: bool)
    ensures
        r == should_rollover_spec(*manifest, *policy, now),
{
    manifest.active_byte_len > 0 && (manifest.active_byte_len >= policy.max_segment_bytes
        || elapsed_at_least_exec(now, manifest.active_created_at, policy.max_segment_age))
}

// ---------------------------------------------------------------------------
// The per-source journal state
// ---------------------------------------------------------------------------

/// The newest lines of one source (at most `RING_CAPACITY`) and its manifest.
#[derive(Debug)]
pub struct SourceJournal {
    pub buffer: Vec<LogLine>,
    pub manifest: JournalManifest,
}

/// The ring after appending `line`: the oldest line leaves once full.
pub open spec fn ring_push(buffer: Seq<LogLine>, line: LogLine) -> Seq<LogLine> {
    if buffer.len() >= RING_CAPACITY {
        buffer.drop_first().push(line)
    } else {
        buffer.push(line)
    }
}

/// The newest `RING_CAPACITY` lines of `lines`.
pub open spec fn ring_of(lines: Seq<LogLine>) -> Seq<LogLine> {
    if lines.len() > RING_CAPACITY {
        lines.skip(lines.len() - RING_CAPACITY)
    } else {
        lines
    }
}

/// Sequences strictly increase along `lines`.
pub open spec fn strictly_increasing(lines: Seq<LogLine>) -> bool {
    forall|i: int, j: int| 0 <= i < j < lines.len() ==> lines[i].sequence < lines[j].sequence
}

/// A bounded ring of strictly increasing sequences, all allocated, ending at
/// the high-watermark, which is directly below the next sequence.
pub open spec fn journal_wf(buffer: Seq<LogLine>, high_watermark: u64, next_sequence: u64) -> bool {
    &&& buffer.len() <= RING_CAPACITY
    &&& strictly_increasing(buffer)
    &&& forall|i: int| 0 <= i < buffer.len() ==> #[trigger] buffer[i].sequence <= high_watermark
    &&& buffer.len() > 0 ==> buffer.last().sequence == high_watermark
    &&& next_sequence == high_watermark + 1
}

impl SourceJournal {
    /// Well-formedness: see `journal_wf`.
    pub open spec fn wf(&self) -> bool {
        journal_wf(self.buffer@, self.manifest.high_watermark, self.manifest.next_sequence)
    }

    /// A journal that holds nothing yet.
    pub fn new(now: i128) -> (j: Self)
        ensures
            j.wf(),
            j.buffer@.len() == 0,
            j.manifest.next_sequence == 1,
            j.manifest.high_watermark == 0,
            !j.manifest.sealed,
    {
        SourceJournal { buffer: Vec::new(), manifest: JournalManifest::empty(now) }
    }

    /// A journal recovered from its manifest and the lines of its active
    /// segment; the ring keeps the newest `RING_CAPACITY` of them.
    pub fn restore(manifest: JournalManifest, active_lines: Vec<LogLine>) -> (j: Self)
        ensures
            j.buffer@ == ring_of(active_lines@),
            j.manifest == manifest,
    {
        let n: usize = active_lines.len();
        if n <= RING_CAPACITY {
            return SourceJournal { buffer: active_lines, manifest };
        }
        let start: usize = n - RING_CAPACITY;
        let mut buffer: Vec<LogLine> = Vec::new();
        let mut i: usize = start;
        while i < n
            invariant
                start <= i <= n,
                n == active_lines@.len(),
                buffer@ == active_lines@.subrange(start as int, i as int),
            decreases n - i,
        {
            buffer.push(active_lines[i].clone());
            i += 1;
        }
        proof {
            assert(buffer@ =~= active_lines@.skip(start as int));
        }
        SourceJournal { buffer, manifest }
    }

    /// Appends `line` under the next sequence.  A sealed journal refuses with
    /// `Sealed(label)` and stays as it was.  The stored line, which is also
    /// returned, carries the allocated sequence.
    pub fn append(&mut self, line: LogLine, written: u64, label: String) -> (r: Result<
        LogLine,
        LogError,
    >)
        ensures
            old(self).manifest.sealed ==> r == Err::<LogLine, LogError>(LogError::Sealed(label))
                && *final(self) == *old(self),
            !old(self).manifest.sealed ==> {
                let stored = LogLine { sequence: old(self).manifest.next_sequence, ..line };
                &&& r == Ok::<LogLine, LogError>(stored)
                &&& final(self).buffer@ == ring_push(old(self).buffer@, stored)
                &&& final(self).manifest.high_watermark == old(self).manifest.next_sequence
                &&& final(self).manifest.next_sequence == sat_inc(old(self).manifest.next_sequence)
                &&& final(self).manifest.sealed == old(self).manifest.sealed
                &&& final(self).manifest.active_start_sequence
                    == old(self).manifest.active_start_sequence
                &&& final(self).manifest.sealed_segments == old(self).manifest.sealed_segments
            },
    {
        match self.manifest.next_append_sequence() {
            None => Err(LogError::Sealed(label)),
            Some(sequence) => {
                let stored = LogLine { sequence, ..line };
                self.manifest.commit_append(sequence, written);
                if self.buffer.len() >= RING_CAPACITY {
                    self.buffer.remove(0);
                }
                self.buffer.push(stored.clone());
                proof {
                    if old(self).buffer@.len() >= RING_CAPACITY {
                        assert(self.buffer@ =~= old(self).buffer@.drop_first().push(stored));
                    }
                }
                Ok(stored)
            },
        }
    }

    /// Seals the journal: later appends are refused.
    pub fn seal(&mut self)
        ensures
            final(self).manifest.sealed,
            final(self).buffer@ == old(self).buffer@,
            final(self).manifest.high_watermark == old(self).manifest.high_watermark,
            final(self).manifest.next_sequence == old(self).manifest.next_sequence,
            final(self).manifest.sealed_segments == old(self).manifest.sealed_segments,
            final(self).manifest.active_start_sequence
                == old(self).manifest.active_start_sequence,
    {
        self.manifest.seal();
    }

    /// The tail page of the in-memory ring for one request.
    pub fn tail(&self, limit: usize, since: Option<i128>, after_sequence: Option<u64>) -> (t:
        LogTail)
        ensures
            t.lines@ == page_lines(selected_lines(self.buffer@, since, after_sequence), limit),
            t.truncated == page_truncated(
                selected_lines(self.buffer@, since, after_sequence).len(),
                limit,
            ),
            t.high_watermark == self.manifest.high_watermark,
            t.next_sequence == sat_inc(self.manifest.high_watermark),
            t.earliest_retained_sequence == earliest_retained_spec(self.manifest),
            t.cursor_expired == cursor_expired_spec(
                after_sequence,
                earliest_retained_spec(self.manifest),
            ),
    {
        snapshot(
            &self.buffer,
            limit,
            since,
            after_sequence,
            self.manifest.high_watermark,
            self.manifest.earliest_retained_sequence(),
        )
    }
}

// ---------------------------------------------------------------------------
// Laws of the journal
// ---------------------------------------------------------------------------

/// Appending to a well-formed journal keeps it well-formed: the new line gets
/// the next sequence, which is above every sequence already held, so
/// sequences stay strictly increasing and never repeat.  (At `u64::MAX` the
/// sequence saturates and this no longer holds.)
pub proof fn lemma_append_preserves_wf(buffer: Seq<LogLine>, high_watermark: u64, next_sequence: u64, line: LogLine)
    requires
        journal_wf(buffer, high_watermark, next_sequence),
        next_sequence < u64::MAX,
    ensures
        journal_wf(
            ring_push(buffer, LogLine { sequence: next_sequence, ..line }),
            next_sequence,
            sat_inc(next_sequence),
        ),
{
    let stored = LogLine { sequence: next_sequence, ..line };
    let b2 = ring_push(buffer, stored);
    if buffer.len() >= RING_CAPACITY {
        assert forall|i: int, j: int| 0 <= i < j < b2.len() implies b2[i].sequence < b2[j].sequence by {
            if j < b2.len() - 1 {
                assert(b2[i] == buffer[i + 1]);
                assert(b2[j] == buffer[j + 1]);
            } else {
                assert(b2[i] == buffer[i + 1]);
            }
        }
        assert forall|i: int| 0 <= i < b2.len() implies #[trigger] b2[i].sequence <= next_sequence by {
            if i < b2.len() - 1 {
                assert(b2[i] == buffer[i + 1]);
            }
        }
    } else {
        assert forall|i: int, j: int| 0 <= i < j < b2.len() implies b2[i].sequence < b2[j].sequence by {
            if j < b2.len() - 1 {
                assert(b2[i] == buffer[i]);
                assert(b2[j] == buffer[j]);
            } else {
                assert(b2[i] == buffer[i]);
            }
        }
        assert forall|i: int| 0 <= i < b2.len() implies #[trigger] b2[i].sequence <= next_sequence by {
            if i < b2.len() - 1 {
                assert(b2[i] == buffer[i]);
            }
        }
    }
}

/// In a well-formed journal the line appended after a tail page carries the
/// page's `next_sequence`: a subscriber that takes the page and then follows
/// live lines sees no gap and no duplicate at the boundary.
pub proof fn lemma_next_line_follows_page(buffer: Seq<LogLine>, high_watermark: u64, next_sequence: u64)
    requires
        journal_wf(buffer, high_watermark, next_sequence),
    ensures
        next_sequence == sat_inc(high_watermark),
        next_sequence > high_watermark,
{
}

/// Every line of a page passes the request's time and cursor filters.
pub proof fn lemma_page_lines_selected(lines: Seq<LogLine>, since: Option<i128>, after_sequence: Option<u64>, limit: usize)
    ensures
        forall|i: int|
            0 <= i < page_lines(selected_lines(lines, since, after_sequence), limit).len()
                ==> line_selected(
                #[trigger] page_lines(selected_lines(lines, since, after_sequence), limit)[i],
                since,
                after_sequence,
            ),
{
    lemma_selected_all_pass(lines, since, after_sequence);
    let f = selected_lines(lines, since, after_sequence);
    let p = page_lines(f, limit);
    assert forall|i: int| 0 <= i < p.len() implies line_selected(#[trigger] p[i], since, after_sequence) by {
        if page_truncated(f.len(), limit) {
            assert(p[i] == f[i + (f.len() - limit)]);
        }
    }
}

proof fn lemma_selected_all_pass(lines: Seq<LogLine>, since: Option<i128>, after_sequence: Option<u64>)
    ensures
        forall|i: int|
            0 <= i < selected_lines(lines, since, after_sequence).len() ==> line_selected(
                #[trigger] selected_lines(lines, since, after_sequence)[i],
                since,
                after_sequence,
            ),
        selected_lines(lines, since, after_sequence).len() <= lines.len(),
    decreases lines.len(),
{
    if lines.len() > 0 {
        lemma_selected_all_pass(lines.drop_last(), since, after_sequence);
    }
}

/// A page never holds more than `limit` lines (when a limit is given), and
/// it is cut exactly when more lines matched.
pub proof fn lemma_page_bounded(filtered: Seq<LogLine>, limit: usize)
    ensures
        limit > 0 ==> page_lines(filtered, limit).len() <= limit,
        page_truncated(filtered.len(), limit) ==> page_lines(filtered, limit).len() == limit,
        !page_truncated(filtered.len(), limit) ==> page_lines(filtered, limit) == filtered,
{
}

/// Without filters and without a limit, a page is the whole ring.
pub proof fn lemma_unfiltered_page_is_buffer(lines: Seq<LogLine>)
    ensures
        page_lines(selected_lines(lines, None, None), 0) == lines,
    decreases lines.len(),
{
    if lines.len() > 0 {
        lemma_unfiltered_page_is_buffer(lines.drop_last());
        assert(lines.drop_last().push(lines.last()) =~= lines);
    }
}

/// Pages keep the order of the journal: a journal with strictly increasing
/// sequences yields pages with strictly increasing sequences (no duplicates).
pub proof fn lemma_page_strictly_increasing(lines: Seq<LogLine>, since: Option<i128>, after_sequence: Option<u64>, limit: usize)
    requires
        strictly_increasing(lines),
    ensures
        strictly_increasing(page_lines(selected_lines(lines, since, after_sequence), limit)),
{
    lemma_selected_increasing(lines, since, after_sequence);
    let f = selected_lines(lines, since, after_sequence);
    let p = page_lines(f, limit);
    if page_truncated(f.len(), limit) {
        assert forall|i: int, j: int| 0 <= i < j < p.len() implies p[i].sequence < p[j].sequence by {
            let k = f.len() - limit;
            assert(p[i] == f[i + k]);
            assert(p[j] == f[j + k]);
        }
    }
}

proof fn lemma_selected_increasing(lines: Seq<LogLine>, since: Option<i128>, after_sequence: Option<u64>)
    requires
        strictly_increasing(lines),
    ensures
        strictly_increasing(selected_lines(lines, since, after_sequence)),
        forall|i: int|
            0 <= i < selected_lines(lines, since, after_sequence).len() ==> exists|k: int|
                0 <= k < lines.len() && #[trigger] selected_lines(lines, since, after_sequence)[i]
                    == lines[k],
    decreases lines.len(),
{
    if lines.len() > 0 {
        let prefix = lines.drop_last();
        assert(strictly_increasing(prefix)) by {
            assert forall|i: int, j: int| 0 <= i < j < prefix.len() implies prefix[i].sequence
                < prefix[j].sequence by {
                assert(prefix[i] == lines[i]);
                assert(prefix[j] == lines[j]);
            }
        }
        lemma_selected_increasing(prefix, since, after_sequence);
        let p = selected_lines(prefix, since, after_sequence);
        let s = selected_lines(lines, since, after_sequence);
        assert forall|i: int| 0 <= i < p.len() implies (#[trigger] p[i]).sequence < lines.last().sequence by {
            let k = choose|k: int| 0 <= k < prefix.len() && p[i] == prefix[k];
            assert(prefix[k] == lines[k]);
        }
        assert forall|i: int| 0 <= i < s.len() implies exists|k: int|
            0 <= k < lines.len() && #[trigger] s[i] == lines[k] by {
            if i < p.len() {
                assert(s[i] == p[i]);
                let k = choose|k: int| 0 <= k < prefix.len() && p[i] == prefix[k];
                assert(prefix[k] == lines[k]);
            } else {
                assert(s[i] == lines[lines.len() - 1]);
            }
        }
        assert forall|i: int, j: int| 0 <= i < j < s.len() implies s[i].sequence < s[j].sequence by {
            if j < p.len() {
                assert(s[i] == p[i]);
                assert(s[j] == p[j]);
            } else {
                assert(s[i] == p[i]);
                assert(s[j] == lines.last());
            }
        }
    }
}

// ---------------------------------------------------------------------------
// File names
// ---------------------------------------------------------------------------

/// `<prefix>segment-<start, 20 digits>.jsonl`.
pub open spec fn segment_file_name_spec(prefix: Seq<char>, start: u64) -> Seq<char> {
    prefix + "segment-"@ + zero_pad(decimal(start as nat), 20) + ".jsonl"@
}

/// Segment file names sort like their start sequences: in character order
/// the segment that starts earlier comes first.
pub proof fn lemma_segment_names_ordered(prefix: Seq<char>, a: u64, b: u64)
    requires
        a < b,
    ensures
        name_less(segment_file_name_spec(prefix, a), segment_file_name_spec(prefix, b)),
{
    let head = prefix + "segment-"@;
    let za = zero_pad(decimal(a as nat), 20);
    let zb = zero_pad(decimal(b as nat), 20);
    lemma_padded_u64(a);
    lemma_padded_u64(b);
    lemma_digits_order(za, zb);
    lemma_name_less_extend(za, zb, ".jsonl"@, ".jsonl"@);
    lemma_name_less_common_prefix(head, za + ".jsonl"@, zb + ".jsonl"@);
    assert(segment_file_name_spec(prefix, a) =~= head + (za + ".jsonl"@));
    assert(segment_file_name_spec(prefix, b) =~= head + (zb + ".jsonl"@));
}

/// The file name a sealed segment starting at `start` gets.
pub fn segment_file_name(prefix: &str, start: u64) -> (r: String)
    ensures
        r@ == segment_file_name_spec(prefix@, start),
{
    let mut r = prefix.to_string();
    push_str(&mut r, "segment-");
    let digits = zero_padded_u64(start, 20);
    let padded = string_of(&digits);
    push_str(&mut r, padded.as_str());
    push_str(&mut r, ".jsonl");
    r
}

/// The start sequence a segment file name spells, if it is one of this
/// journal's segments (`<prefix>segment-<u64>.jsonl`).
pub open spec fn segment_start_spec(prefix: Seq<char>, name: Seq<char>) -> Option<u64> {
    let head = prefix + "segment-"@;
    if !starts_with(name, head) {
        None
    } else {
        let rest = name.skip(head.len() as int);
        if !ends_with(rest, ".jsonl"@) {
            None
        } else {
            match parse_unsigned(rest.take(rest.len() - 6), u64::MAX as nat) {
                Some(v) => Some(v as u64),
                None => None,
            }
        }
    }
}

/// Reads the start sequence back from a segment file name.
pub fn segment_start(prefix: &str, name: &str) -> (r: Option<u64>)
    ensures
        r == segment_start_spec(prefix@, name@),
{
    let mut head = prefix.to_string();
    push_str(&mut head, "segment-");
    let head_chars = chars_of(head.as_str());
    let name_chars = chars_of(name);
    if !starts_with_vec(&name_chars, &head_chars) {
        return None;
    }
    let rest = slice_vec(&name_chars, head_chars.len(), name_chars.len());
    proof {
        assert(rest@ =~= name@.skip(head@.len() as int));
    }
    let suffix = chars_of(".jsonl");
    proof {
        reveal_strlit(".jsonl");
    }
    if !ends_with_vec(&rest, &suffix) {
        return None;
    }
    let digits = slice_vec(&rest, 0, rest.len() - 6);
    proof {
        assert(digits@ =~= rest@.take(rest@.len() - 6));
    }
    match parse_unsigned_chars(digits.as_slice(), 18446744073709551615) {
        Some(v) => Some(v),
        None => None,
    }
}

/// A segment's file name reads back as its start sequence.
pub proof fn lemma_segment_name_round_trip(prefix: Seq<char>, start: u64)
    ensures
        segment_start_spec(prefix, segment_file_name_spec(prefix, start)) == Some(start),
{
    reveal_strlit(".jsonl");
    let head = prefix + "segment-"@;
    let digits = zero_pad(decimal(start as nat), 20);
    let name = segment_file_name_spec(prefix, start);
    assert(name =~= head + (digits + ".jsonl"@));
    assert(name.take(head.len() as int) =~= head);
    let rest = name.skip(head.len() as int);
    assert(rest =~= digits + ".jsonl"@);
    assert(rest.skip(rest.len() - 6) =~= ".jsonl"@);
    assert(rest.take(rest.len() - 6) =~= digits);
    crate::text::lemma_parse_zero_padded(start as nat, 20, u64::MAX as nat);
}

/// `process-<hex of the source name>`: the journal key of a process.
pub fn process_journal_key(source: &str) -> (r: String)
    ensures
        r@ == "process-"@ + hex_encode(source.spec_bytes()),
{
    let mut r = "process-".to_string();
    let h = hex_name(source);
    push_str(&mut r, h.as_str());
    r
}

pub open spec fn legacy_char(c: char) -> char {
    if ('a' <= c && c <= 'z') || ('A' <= c && c <= 'Z') || ('0' <= c && c <= '9') || c == '.' || c
        == '-' || c == '_' {
        c
    } else {
        '_'
    }
}

/// The pre-hex file-name spelling of a source: ASCII letters, digits, `.`,
/// `-` and `_` kept, everything else `_`.
pub open spec fn legacy_safe_name_spec(value: Seq<char>) -> Seq<char> {
    value.map_values(|c: char| legacy_char(c))
}

/// The legacy file-name spelling of a source name.
pub fn legacy_safe_name(value: &str) -> (r: String)
    ensures
        r@ == legacy_safe_name_spec(value@),
{
    let chars = chars_of(value);
    let mut r = String::new();
    let mut i: usize = 0;
    while i < chars.len()
        invariant
            i <= chars.len(),
            r@ == legacy_safe_name_spec(chars@.take(i as int)),
        decreases chars.len() - i,
    {
        let c = chars[i];
        let mapped = if ('a' <= c && c <= 'z') || ('A' <= c && c <= 'Z') || ('0' <= c && c <= '9')
            || c == '.' || c == '-' || c == '_' {
            c
        } else {
            '_'
        };
        push_char(&mut r, mapped);
        proof {
            assert(legacy_safe_name_spec(chars@.take(i + 1)) =~= legacy_safe_name_spec(
                chars@.take(i as int),
            ).push(mapped));
        }
        i += 1;
    }
    proof {
        assert(chars@.take(chars@.len() as int) =~= chars@);
    }
    r
}

/// How many of `known` share `safe` as their legacy spelling.
pub open spec fn legacy_sharers(known: Seq<Seq<char>>, safe: Seq<char>) -> nat
    decreases known.len(),
{
    if known.len() == 0 {
        0
    } else {
        legacy_sharers(known.drop_last(), safe) + if legacy_safe_name_spec(known.last()) == safe {
            1nat
        } else {
            0nat
        }
    }
}

/// The legacy journal file of a process, `process-<safe>.jsonl`, unless two
/// known process names share that spelling (then its history is left alone).
pub fn legacy_journal_file(source: &str, known: &Vec<String>) -> (r: Option<String>)
    ensures
        ({
            let safe = legacy_safe_name_spec(source@);
            let sharers = legacy_sharers(known@.map_values(|k: String| k@), safe);
            &&& sharers > 1 ==> r is None
            &&& sharers <= 1 ==> (r matches Some(f) && f@ == "process-"@ + safe + ".jsonl"@)
        }),
{
    let safe = legacy_safe_name(source);
    let safe_chars = chars_of(safe.as_str());
    let ghost views = known@.map_values(|k: String| k@);
    let mut count: usize = 0;
    let mut i: usize = 0;
    while i < known.len()
        invariant
            i <= known@.len(),
            views == known@.map_values(|k: String| k@),
            safe_chars@ == safe@,
            count == legacy_sharers(views.take(i as int), safe@),
            count <= i,
        decreases known.len() - i,
    {
        let other = legacy_safe_name(known[i].as_str());
        let other_chars = chars_of(other.as_str());
        proof {
            assert(views.take(i + 1).drop_last() =~= views.take(i as int));
            assert(views.take(i + 1).last() == known@[i as int]@);
        }
        let same = crate::text::chars_eq(&other_chars, &safe_chars);
        proof {
            assert(views[i as int] == known@[i as int]@);
            assert(views.take(i + 1).last() == views[i as int]);
            assert(safe_chars@ == safe@);
            assert(other_chars@ == legacy_safe_name_spec(views[i as int]));
            assert(same == (legacy_safe_name_spec(views.take(i + 1).last()) == safe@));
            assert(legacy_sharers(views.take(i + 1), safe@) == legacy_sharers(
                views.take(i as int),
                safe@,
            ) + if same {
                1nat
            } else {
                0nat
            });
        }
        if same {
            count += 1;
        }
        i += 1;
    }
    proof {
        assert(views.take(known@.len() as int) =~= views);
    }
    if count > 1 {
        None
    } else {
        let mut r = "process-".to_string();
        push_str(&mut r, safe.as_str());
        push_str(&mut r, ".jsonl");
        Some(r)
    }
}

/// The files a durable read covers: the sealed segments that are not wholly
/// before the cursor, in order, and then the active file unless the cursor
/// already reached the high watermark.
pub open spec fn durable_segments(segments: Seq<SegmentMeta>, after_sequence: Option<u64>) -> Seq<Seq<char>>
    decreases segments.len(),
{
    if segments.len() == 0 {
        Seq::empty()
    } else {
        let previous = durable_segments(segments.drop_last(), after_sequence);
        if after_sequence matches Some(cursor) && segments.last().last_sequence <= cursor {
            previous
        } else {
            previous.push(segments.last().filename@)
        }
    }
}

/// Whether a durable read reads the active file.
pub open spec fn durable_reads_active(manifest: JournalManifest, after_sequence: Option<u64>) -> bool {
    match after_sequence {
        None => true,
        Some(cursor) => manifest.high_watermark > cursor,
    }
}

/// What a durable read of a journal reads: the sealed segment files, and
/// whether to read the active file after them.
pub fn durable_read_plan(manifest: &JournalManifest, after_sequence: Option<u64>) -> (r: (Vec<String>, bool))
    ensures
        r.0@.map_values(|f: String| f@) == durable_segments(manifest.sealed_segments@, after_sequence),
        r.1 == durable_reads_active(*manifest, after_sequence),
{
    let segs = &manifest.sealed_segments;
    let mut files: Vec<String> = Vec::new();
    let mut i: usize = 0;
    while i < segs.len()
        invariant
            i <= segs@.len(),
            segs == &manifest.sealed_segments,
            files@.map_values(|f: String| f@) == durable_segments(segs@.take(i as int), after_sequence),
        decreases segs@.len() - i,
    {
        proof {
            assert(segs@.take(i + 1).drop_last() =~= segs@.take(i as int));
            assert(segs@.take(i + 1).last() == segs@[i as int]);
        }
        let skip = match after_sequence {
            Some(cursor) => segs[i].last_sequence <= cursor,
            None => false,
        };
        if !skip {
            let name = segs[i].filename.clone();
            let ghost before = files@;
            files.push(name);
            proof {
                assert(files@.map_values(|f: String| f@) =~= before.map_values(|f: String| f@).push(name@));
            }
        }
        i += 1;
    }
    proof {
        assert(segs@.take(segs@.len() as int) =~= segs@);
    }
    let active = match after_sequence {
        None => true,
        Some(cursor) => manifest.high_watermark > cursor,
    };
    (files, active)
}

// ---------------------------------------------------------------------------
// Reading journal rows
// ---------------------------------------------------------------------------

/// The fields one JSONL row of a journal holds, as the JSON parser found
/// them (`timestamp` is RFC 3339 text).
#[derive(Debug)]
pub struct JournalRow {
    pub sequence: Option<u64>,
    pub timestamp: Option<String>,
    pub stream: Option<String>,
    pub line: Option<String>,
}

/// What `chrono` reads from an RFC 3339 timestamp, taken in UTC: whole
/// seconds since the Unix epoch and the nanoseconds past them (`None` when
/// it does not parse).
pub uninterp spec fn rfc3339_parts(text: Seq<char>) -> Option<(i64, u32)>;

/// `chrono::DateTime::parse_from_rfc3339`, the result taken in UTC as
/// `timestamp()` and `timestamp_subsec_nanos()`: the contract claims only
/// that they are `rfc3339_parts` of the text.
#[verifier::external_body]
fn parse_rfc3339(text: &str) -> (r: Option<(i64, u32)>)
    ensures
        r == rfc3339_parts(text@),
{
    chrono::DateTime::parse_from_rfc3339(text).ok().map(|t| {
        let utc = t.with_timezone(&chrono::Utc);
        (utc.timestamp(), utc.timestamp_subsec_nanos())
    })
}

/// The instant of a row, when it has a timestamp that parses.
pub open spec fn row_time(row: JournalRow) -> Option<i128> {
    match row.timestamp {
        Some(t) => match rfc3339_parts(t@) {
            Some((s, n)) => Some(instant_nanos(s, n)),
            None => None,
        },
        None => None,
    }
}

fn row_time_exec(row: &JournalRow) -> (r: Option<i128>)
    ensures
        r == row_time(*row),
{
    match &row.timestamp {
        Some(t) => match parse_rfc3339(t.as_str()) {
            Some((s, n)) => Some(instant_of(s, n)),
            None => None,
        },
        None => None,
    }
}

/// The abstract value of a log line.
pub open spec fn line_view(l: LogLine) -> (u64, i128, LogStream, Seq<char>) {
    (l.sequence, l.timestamp, l.stream, l.line@)
}

/// The journal lines of `rows`, and the sequence a row without one gets:
/// rows without a timestamp that parses are skipped; a row without a sequence (legacy
/// history) continues after the highest sequence seen so far; a missing
/// stream is standard output and a missing text is empty.
pub open spec fn assemble_rows(rows: Seq<JournalRow>) -> (Seq<(u64, i128, LogStream, Seq<char>)>, u64)
    decreases rows.len(),
{
    if rows.len() == 0 {
        (Seq::empty(), 1)
    } else {
        let (lines, next) = assemble_rows(rows.drop_last());
        let row = rows.last();
        match row_time(row) {
            None => (lines, next),
            Some(t) => {
                let sequence = match row.sequence {
                    Some(v) => v,
                    None => next,
                };
                let stream = match row.stream {
                    Some(s) => parse_stream_spec(s@),
                    None => LogStream::Stdout,
                };
                let text = match row.line {
                    Some(l) => l@,
                    None => Seq::<char>::empty(),
                };
                (lines.push((sequence, t, stream, text)), if next >= sat_inc(sequence) {
                    next
                } else {
                    sat_inc(sequence)
                })
            },
        }
    }
}

/// The lines of a journal file from its parsed rows.
pub fn assemble_journal(rows: Vec<JournalRow>) -> (r: Vec<LogLine>)
    ensures
        r@.map_values(|l: LogLine| line_view(l)) == assemble_rows(rows@).0,
{
    let mut out: Vec<LogLine> = Vec::new();
    let mut next: u64 = 1;
    let mut i: usize = 0;
    while i < rows.len()
        invariant
            i <= rows@.len(),
            (out@.map_values(|l: LogLine| line_view(l)), next) == assemble_rows(rows@.take(i as int)),
        decreases rows.len() - i,
    {
        let row = &rows[i];
        proof {
            assert(rows@.take(i + 1).drop_last() =~= rows@.take(i as int));
            assert(rows@.take(i + 1).last() == rows@[i as int]);
        }
        match row_time_exec(row) {
            None => {},
            Some(t) => {
                let sequence = match row.sequence {
                    Some(v) => v,
                    None => next,
                };
                let stream = match &row.stream {
                    Some(s) => parse_stream(s.as_str()),
                    None => LogStream::Stdout,
                };
                let text = match &row.line {
                    Some(l) => l.clone(),
                    None => String::new(),
                };
                let line = LogLine { sequence, timestamp: t, stream, line: text };
                let ghost before = out@.map_values(|l: LogLine| line_view(l));
                out.push(line);
                proof {
                    assert(out@.map_values(|l: LogLine| line_view(l)) =~= before.push(
                        (sequence, t, stream, text@),
                    ));
                }
                let bumped = sequence.saturating_add(1);
                if next < bumped {
                    next = bumped;
                }
            },
        }
        i += 1;
    }
    proof {
        assert(rows@.take(rows@.len() as int) =~= rows@);
    }
    out
}

/// A row of a detached proxy's journal, which always carries every field;
/// rows missing one (or whose timestamp does not parse) are skipped.
pub fn detached_journal_line(row: &JournalRow) -> (r: Option<LogLine>)
    ensures
        (row.sequence is Some && row_time(*row) is Some && row.line is Some) <==> r is Some,
        r matches Some(l) ==> l.sequence == row.sequence->0 && l.timestamp == row_time(*row)->0
            && l.line == row.line->0 && l.stream == (match row.stream {
            Some(s) => parse_stream_spec(s@),
            None => LogStream::Stdout,
        }),
{
    match (row.sequence, row_time_exec(row), &row.line) {
        (Some(sequence), Some(timestamp), Some(line)) => {
            let stream = match &row.stream {
                Some(s) => parse_stream(s.as_str()),
                None => LogStream::Stdout,
            };
            Some(LogLine { sequence, timestamp, stream, line: line.clone() })
        },
        _ => None,
    }
}

// ---------------------------------------------------------------------------
// Rollover, retention and recovery of the manifest
// ---------------------------------------------------------------------------

/// Total bytes of `segments`.
pub open spec fn segment_bytes(segments: Seq<SegmentMeta>) -> nat
    decreases segments.len(),
{
    if segments.len() == 0 {
        0
    } else {
        segment_bytes(segments.drop_last()) + segments.last().byte_len as nat
    }
}

pub open spec fn sat_sub_u64(a: u64, b: u64) -> u64 {
    if a >= b {
        (a - b) as u64
    } else {
        0
    }
}

/// Whether the oldest sealed segment has to go: it is too old, there are
/// too many segments, or the journal is too large.
pub open spec fn must_drop_first(
    segments: Seq<SegmentMeta>,
    total: u64,
    policy: JournalPolicy,
    now: i128,
) -> bool {
    &&& segments.len() > 0
    &&& {
        ||| elapsed_at_least(now, segments[0].sealed_at, policy.max_segment_age)
        ||| segments.len() > policy.max_sealed_segments
        ||| total > policy.max_total_bytes
    }
}

/// The sealed segments retention keeps, and the journal size then counted:
/// the oldest segment is dropped while it must go.
pub open spec fn retention_result(
    segments: Seq<SegmentMeta>,
    total: u64,
    policy: JournalPolicy,
    now: i128,
) -> (Seq<SegmentMeta>, u64)
    decreases segments.len(),
{
    if must_drop_first(segments, total, policy, now) {
        retention_result(
            segments.drop_first(),
            sat_sub_u64(total, segments[0].byte_len),
            policy,
            now,
        )
    } else {
        (segments, total)
    }
}

/// The journal size retention starts from: the active segment plus every
/// sealed segment, saturating.
pub open spec fn journal_total(m: JournalManifest) -> u64 {
    if m.active_byte_len + segment_bytes(m.sealed_segments@) > u64::MAX {
        u64::MAX
    } else {
        (m.active_byte_len + segment_bytes(m.sealed_segments@)) as u64
    }
}

impl JournalManifest {
    /// How many of the oldest sealed segments retention deletes now.
    pub fn retention_count(&self, policy: &JournalPolicy, now: i128) -> (r: usize)
        requires
            segment_bytes(self.sealed_segments@) <= u64::MAX,
        ensures
            r <= self.sealed_segments@.len(),
            self.sealed_segments@.skip(r as int) == retention_result(
                self.sealed_segments@,
                journal_total(*self),
                *policy,
                now,
            ).0,
    {
        let n: usize = self.sealed_segments.len();
        let mut sum: u64 = 0;
        let mut k: usize = 0;
        while k < n
            invariant
                k <= n,
                n == self.sealed_segments@.len(),
                segment_bytes(self.sealed_segments@) <= u64::MAX,
                sum == segment_bytes(self.sealed_segments@.take(k as int)),
            decreases n - k,
        {
            proof {
                let t = self.sealed_segments@.take(k + 1);
                assert(t.drop_last() =~= self.sealed_segments@.take(k as int));
                lemma_segment_bytes_prefix(self.sealed_segments@, k + 1);
            }
            sum = sum + self.sealed_segments[k].byte_len;
            k += 1;
        }
        proof {
            assert(self.sealed_segments@.take(n as int) =~= self.sealed_segments@);
        }
        let mut total: u64 = self.active_byte_len.saturating_add(sum);
        let mut dropped: usize = 0;
        proof {
            assert(self.sealed_segments@.skip(0) =~= self.sealed_segments@);
        }
        while dropped < n
            invariant
                dropped <= n,
                n == self.sealed_segments@.len(),
                retention_result(self.sealed_segments@.skip(dropped as int), total, *policy, now)
                    == retention_result(
                    self.sealed_segments@,
                    journal_total(*self),
                    *policy,
                    now,
                ),
            decreases n - dropped,
        {
            let first = &self.sealed_segments[dropped];
            let too_old = elapsed_at_least_exec(now, first.sealed_at, policy.max_segment_age);
            let too_many = n - dropped > policy.max_sealed_segments;
            let too_large = total > policy.max_total_bytes;
            let ghost rest = self.sealed_segments@.skip(dropped as int);
            proof {
                assert(rest[0] == self.sealed_segments@[dropped as int]);
                assert(rest.drop_first() =~= self.sealed_segments@.skip(dropped + 1));
            }
            if !too_old && !too_many && !too_large {
                return dropped;
            }
            total = total.saturating_sub(first.byte_len);
            dropped += 1;
        }
        proof {
            assert(self.sealed_segments@.skip(n as int) =~= Seq::<SegmentMeta>::empty());
        }
        dropped
    }

    /// Removes the oldest sealed segment from the index and records its
    /// tombstone (committed before the file is deleted).
    pub fn begin_segment_deletion(&mut self) -> (removed: SegmentMeta)
        requires
            old(self).sealed_segments@.len() > 0,
        ensures
            removed == old(self).sealed_segments@[0],
            final(self).sealed_segments@ == old(self).sealed_segments@.drop_first(),
            final(self).deleted_segments@ == old(self).deleted_segments@.push(removed.filename),
            final(self).next_sequence == old(self).next_sequence,
            final(self).high_watermark == old(self).high_watermark,
            final(self).active_start_sequence == old(self).active_start_sequence,
            final(self).active_byte_len == old(self).active_byte_len,
            final(self).sealed == old(self).sealed,
    {
        let removed = self.sealed_segments.remove(0);
        self.deleted_segments.push(removed.filename.clone());
        proof {
            assert(old(self).sealed_segments@.remove(0) =~= old(self).sealed_segments@.drop_first());
        }
        removed
    }

    /// Forgets the tombstones of `filename` once its file is gone.
    pub fn finish_segment_deletion(&mut self, filename: &str)
        ensures
            final(self).deleted_segments@.map_values(|f: String| f@) == old(
                self,
            ).deleted_segments@.map_values(|f: String| f@).filter(|f: Seq<char>| f != filename@),
            final(self).sealed_segments == old(self).sealed_segments,
            final(self).next_sequence == old(self).next_sequence,
            final(self).high_watermark == old(self).high_watermark,
            final(self).active_start_sequence == old(self).active_start_sequence,
            final(self).active_byte_len == old(self).active_byte_len,
            final(self).sealed == old(self).sealed,
    {
        let name = chars_of(filename);
        let mut kept: Vec<String> = Vec::new();
        let ghost all = self.deleted_segments@.map_values(|f: String| f@);
        let ghost pred = |f: Seq<char>| f != filename@;
        let mut i: usize = 0;
        while i < self.deleted_segments.len()
            invariant
                i <= self.deleted_segments@.len(),
                all == self.deleted_segments@.map_values(|f: String| f@),
                name@ == filename@,
                pred == (|f: Seq<char>| f != filename@),
                kept@.map_values(|f: String| f@) == all.take(i as int).filter(pred),
            decreases self.deleted_segments.len() - i,
        {
            let current = chars_of(self.deleted_segments[i].as_str());
            let ghost before = kept@.map_values(|f: String| f@);
            proof {
                reveal_with_fuel(Seq::filter, 1);
                assert(all.take(i + 1).drop_last() =~= all.take(i as int));
                assert(all.take(i + 1).last() == self.deleted_segments@[i as int]@);
            }
            if !crate::text::chars_eq(&current, &name) {
                kept.push(self.deleted_segments[i].clone());
                proof {
                    assert(kept@.map_values(|f: String| f@) =~= before.push(
                        self.deleted_segments@[i as int]@,
                    ));
                }
            }
            i += 1;
        }
        proof {
            assert(all.take(self.deleted_segments@.len() as int) =~= all);
        }
        self.deleted_segments = kept;
    }

    /// Seals the active segment after its file was renamed to
    /// `sealed_filename` (only when it held lines, `first`..`last`), and
    /// opens an empty active segment at the next sequence.
    pub fn apply_rollover(
        &mut self,
        sealed_filename: String,
        active_first: Option<u64>,
        active_last: Option<u64>,
        now: i128,
    )
        ensures
            final(self).sealed_segments@ == (match active_last {
                Some(last) => old(self).sealed_segments@.push(
                    SegmentMeta {
                        filename: sealed_filename,
                        first_sequence: match active_first {
                            Some(f) => f,
                            None => old(self).active_start_sequence,
                        },
                        last_sequence: last,
                        created_at: old(self).active_created_at,
                        sealed_at: now,
                        byte_len: old(self).active_byte_len,
                    },
                ),
                None => old(self).sealed_segments@,
            }),
            final(self).active_start_sequence == old(self).next_sequence,
            final(self).active_created_at == now,
            final(self).active_byte_len == 0,
            final(self).next_sequence == old(self).next_sequence,
            final(self).high_watermark == old(self).high_watermark,
            final(self).sealed == old(self).sealed,
            final(self).deleted_segments == old(self).deleted_segments,
    {
        if let Some(last) = active_last {
            let first_sequence = match active_first {
                Some(f) => f,
                None => self.active_start_sequence,
            };
            self.sealed_segments.push(
                SegmentMeta {
                    filename: sealed_filename,
                    first_sequence,
                    last_sequence: last,
                    created_at: self.active_created_at,
                    sealed_at: now,
                    byte_len: self.active_byte_len,
                },
            );
        }
        self.active_start_sequence = self.next_sequence;
        self.active_created_at = now;
        self.active_byte_len = 0;
    }

    /// Recovery from the active segment's lines (`first`..`last`) and size:
    /// tombstones are cleared (their files were removed), the active segment
    /// starts at its first line, and allocation continues after its last.
    pub fn absorb_active(&mut self, first: Option<u64>, last: Option<u64>, byte_len: u64)
        ensures
            final(self).deleted_segments@.len() == 0,
            final(self).active_start_sequence == (match first {
                Some(f) => f,
                None => old(self).active_start_sequence,
            }),
            final(self).high_watermark == (match last {
                Some(l) => if old(self).high_watermark >= l {
                    old(self).high_watermark
                } else {
                    l
                },
                None => old(self).high_watermark,
            }),
            final(self).next_sequence == (match last {
                Some(l) => if old(self).next_sequence >= sat_inc(l) {
                    old(self).next_sequence
                } else {
                    sat_inc(l)
                },
                None => old(self).next_sequence,
            }),
            final(self).active_byte_len == byte_len,
            final(self).sealed_segments == old(self).sealed_segments,
            final(self).sealed == old(self).sealed,
    {
        self.deleted_segments = Vec::new();
        if let Some(f) = first {
            self.active_start_sequence = f;
        }
        if let Some(l) = last {
            if self.high_watermark < l {
                self.high_watermark = l;
            }
            let bumped = l.saturating_add(1);
            if self.next_sequence < bumped {
                self.next_sequence = bumped;
            }
        }
        self.active_byte_len = byte_len;
    }

    /// Whether the index already lists a sealed segment named `name`.
    pub fn lists_segment(&self, name: &str) -> (r: bool)
        ensures
            r == exists|i: int|
                0 <= i < self.sealed_segments@.len() && #[trigger] self.sealed_segments@[i].filename@
                    == name@,
    {
        let target = chars_of(name);
        let mut i: usize = 0;
        while i < self.sealed_segments.len()
            invariant
                i <= self.sealed_segments@.len(),
                target@ == name@,
                forall|j: int| 0 <= j < i ==> #[trigger] self.sealed_segments@[j].filename@ != name@,
            decreases self.sealed_segments.len() - i,
        {
            let other = chars_of(self.sealed_segments[i].filename.as_str());
            if crate::text::chars_eq(&other, &target) {
                return true;
            }
            i += 1;
        }
        false
    }

    /// Adopts a segment file found on disk but missing from the index (an
    /// interrupted rollover): it is listed and allocation continues after it.
    pub fn adopt_segment(&mut self, segment: SegmentMeta)
        ensures
            final(self).deleted_segments == old(self).deleted_segments,
            final(self).sealed_segments@ == old(self).sealed_segments@.push(segment),
            final(self).high_watermark == (if old(self).high_watermark >= segment.last_sequence {
                old(self).high_watermark
            } else {
                segment.last_sequence
            }),
            final(self).next_sequence == (if old(self).next_sequence >= sat_inc(
                segment.last_sequence,
            ) {
                old(self).next_sequence
            } else {
                sat_inc(segment.last_sequence)
            }),
            final(self).active_start_sequence == old(self).active_start_sequence,
            final(self).active_byte_len == old(self).active_byte_len,
            final(self).sealed == old(self).sealed,
    {
        let last = segment.last_sequence;
        self.sealed_segments.push(segment);
        if self.high_watermark < last {
            self.high_watermark = last;
        }
        let bumped = last.saturating_add(1);
        if self.next_sequence < bumped {
            self.next_sequence = bumped;
        }
    }

    /// Puts the sealed segments in order of their first sequence.
    pub fn sort_segments(&mut self)
        ensures
            final(self).deleted_segments == old(self).deleted_segments,
            segments_ordered(final(self).sealed_segments@),
            final(self).sealed_segments@.to_multiset() == old(self).sealed_segments@.to_multiset(),
            final(self).next_sequence == old(self).next_sequence,
            final(self).high_watermark == old(self).high_watermark,
            final(self).active_start_sequence == old(self).active_start_sequence,
            final(self).active_byte_len == old(self).active_byte_len,
            final(self).sealed == old(self).sealed,
    {
        let mut segments: Vec<SegmentMeta> = Vec::new();
        std::mem::swap(&mut segments, &mut self.sealed_segments);
        self.sealed_segments = sort_by_first_sequence(segments);
    }

    /// Completes recovery: without an active file the active segment starts
    /// empty at the next sequence; the manifest gets the current version.
    pub fn finish_repair(&mut self, active_exists: bool, now: i128)
        ensures
            final(self).deleted_segments == old(self).deleted_segments,
            final(self).version == MANIFEST_VERSION,
            !active_exists ==> final(self).active_start_sequence == old(self).next_sequence
                && final(self).active_created_at == now && final(self).active_byte_len == 0,
            active_exists ==> final(self).active_start_sequence == old(self).active_start_sequence
                && final(self).active_created_at == old(self).active_created_at
                && final(self).active_byte_len == old(self).active_byte_len,
            final(self).next_sequence == old(self).next_sequence,
            final(self).high_watermark == old(self).high_watermark,
            final(self).sealed_segments == old(self).sealed_segments,
            final(self).sealed == old(self).sealed,
    {
        if !active_exists {
            self.active_start_sequence = self.next_sequence;
            self.active_created_at = now;
            self.active_byte_len = 0;
        }
        self.version = MANIFEST_VERSION;
    }

    /// A manifest rebuilt from the active segment alone (no manifest file
    /// survived): its lines `first`..`last` (with the first line's time) and
    /// its size.
    pub fn rebuild(now: i128, first: Option<(u64, i128)>, last: Option<u64>, byte_len: u64) -> (m:
        Self)
        ensures
            m.version == MANIFEST_VERSION,
            m.active_start_sequence == (match first {
                Some(f) => f.0,
                None => 1,
            }),
            m.active_created_at == (match first {
                Some(f) => f.1,
                None => now,
            }),
            m.high_watermark == (match last {
                Some(l) => l,
                None => 0,
            }),
            m.next_sequence == (match last {
                Some(l) => sat_inc(l),
                None => 1,
            }),
            m.active_byte_len == byte_len,
            !m.sealed,
            m.sealed_segments@.len() == 0,
            m.deleted_segments@.len() == 0,
    {
        let mut m = JournalManifest::empty(now);
        if let Some((sequence, timestamp)) = first {
            m.active_start_sequence = sequence;
            m.active_created_at = timestamp;
        }
        if let Some(l) = last {
            m.high_watermark = l;
            m.next_sequence = l.saturating_add(1);
        }
        m.active_byte_len = byte_len;
        m
    }
}

proof fn lemma_segment_bytes_prefix(segments: Seq<SegmentMeta>, k: int)
    requires
        0 <= k <= segments.len(),
    ensures
        segment_bytes(segments.take(k)) <= segment_bytes(segments),
    decreases segments.len() - k,
{
    if k < segments.len() {
        lemma_segment_bytes_prefix(segments, k + 1);
        assert(segments.take(k + 1).drop_last() =~= segments.take(k));
    } else {
        assert(segments.take(k) =~= segments);
    }
}

/// A file found beside a journal during repair: its name, the sequence and
/// time of its first line, the sequence of its last line, and its size.
#[derive(Debug)]
pub struct FoundSegment {
    pub name: String,
    pub first: Option<(u64, i128)>,
    pub last: Option<u64>,
    pub byte_len: u64,
}

/// Whether a file found during repair is an unlisted segment of this
/// journal that holds lines (and is therefore adopted).
pub open spec fn adoptable(prefix: Seq<char>, listed: Seq<SegmentMeta>, f: FoundSegment) -> bool {
    &&& segment_start_spec(prefix, f.name@) is Some
    &&& f.last is Some
    &&& !(exists|j: int| 0 <= j < listed.len() && #[trigger] listed[j].filename@ == f.name@)
}

/// Whether the manifest lists a segment file of this name.
pub open spec fn lists_name(segments: Seq<SegmentMeta>, name: Seq<char>) -> bool {
    exists|j: int| 0 <= j < segments.len() && #[trigger] segments[j].filename@ == name
}

impl JournalManifest {
    /// Repairs a manifest after an interrupted write, given what is on disk:
    /// the first and last lines of the active file and its size, whether it
    /// exists, and the files found beside it (the tombstoned files were
    /// deleted before).  Tombstones are cleared; every unlisted segment file
    /// of this journal that holds lines is adopted; the segments end ordered
    /// by first sequence; the high watermark and next sequence never move
    /// back and pass every line of the active file and of each adopted
    /// segment; without an active file the next one starts at the next
    /// sequence.
    pub fn repair(
        &mut self,
        prefix: &str,
        active_first: Option<u64>,
        active_last: Option<u64>,
        active_byte_len: u64,
        active_exists: bool,
        found: Vec<FoundSegment>,
        now: i128,
    )
        requires
            forall|a: int, b: int| 0 <= a < b < found@.len() ==> found@[a].name@ != found@[b].name@,
        ensures
            final(self).deleted_segments@.len() == 0,
            final(self).version == MANIFEST_VERSION,
            final(self).high_watermark >= old(self).high_watermark,
            final(self).next_sequence >= old(self).next_sequence,
            active_last matches Some(l) ==> final(self).high_watermark >= l && final(self).next_sequence
                >= sat_inc(l),
            forall|k: int|
                0 <= k < found@.len() && #[trigger] adoptable(prefix@, old(self).sealed_segments@, found@[k])
                    ==> lists_name(final(self).sealed_segments@, found@[k].name@) && final(self).high_watermark
                    >= found@[k].last->0 && final(self).next_sequence >= sat_inc(found@[k].last->0),
            forall|j: int|
                0 <= j < old(self).sealed_segments@.len() ==> final(self).sealed_segments@.contains(
                    #[trigger] old(self).sealed_segments@[j],
                ),
            segments_ordered(final(self).sealed_segments@),
            !active_exists ==> final(self).active_start_sequence == final(self).next_sequence
                && final(self).active_created_at == now && final(self).active_byte_len == 0,
    {
        broadcast use vstd::seq_lib::group_to_multiset_ensures;

        let ghost before = *self;
        self.absorb_active(active_first, active_last, active_byte_len);
        let ghost after_active = *self;
        let mut i: usize = 0;
        while i < found.len()
            invariant
                i <= found@.len(),
                self.deleted_segments@.len() == 0,
                self.high_watermark >= after_active.high_watermark,
                self.next_sequence >= after_active.next_sequence,
                after_active.high_watermark >= before.high_watermark,
                after_active.next_sequence >= before.next_sequence,
                active_last matches Some(l) ==> after_active.high_watermark >= l && after_active.next_sequence
                    >= sat_inc(l),
                after_active.sealed_segments == before.sealed_segments,
                self.sealed_segments@.len() >= before.sealed_segments@.len(),
                forall|j: int|
                    0 <= j < before.sealed_segments@.len() ==> self.sealed_segments@[j]
                        == before.sealed_segments@[j],
                forall|k: int|
                    0 <= k < i && #[trigger] adoptable(prefix@, before.sealed_segments@, found@[k])
                        ==> lists_name(self.sealed_segments@, found@[k].name@) && self.high_watermark
                        >= found@[k].last->0 && self.next_sequence >= sat_inc(found@[k].last->0),
                forall|j: int|
                    before.sealed_segments@.len() <= j < self.sealed_segments@.len() ==> exists|k: int|
                        0 <= k < i && #[trigger] self.sealed_segments@[j].filename@ == found@[k].name@,
                forall|a: int, b: int| 0 <= a < b < found@.len() ==> found@[a].name@ != found@[b].name@,
            decreases found@.len() - i,
        {
            let f = &found[i];
            let start = segment_start(prefix, f.name.as_str());
            let listed = self.lists_segment(f.name.as_str());
            if start.is_some() && !listed && f.last.is_some() {
                let last = f.last.unwrap();
                let (first_sequence, created_at) = match f.first {
                    Some((q, t)) => (q, t),
                    None => (start.unwrap(), now),
                };
                let segment = SegmentMeta {
                    filename: f.name.clone(),
                    first_sequence,
                    last_sequence: last,
                    created_at,
                    sealed_at: now,
                    byte_len: f.byte_len,
                };
                let ghost prev = self.sealed_segments@;
                self.adopt_segment(segment);
                proof {
                    let n = prev.len() as int;
                    assert(self.sealed_segments@[n].filename@ == found@[i as int].name@);
                    assert forall|k: int|
                        0 <= k < i + 1 && #[trigger] adoptable(prefix@, before.sealed_segments@, found@[k])
                        implies lists_name(self.sealed_segments@, found@[k].name@) && self.high_watermark
                        >= found@[k].last->0 && self.next_sequence >= sat_inc(found@[k].last->0) by {
                        if k < i {
                            assert(lists_name(prev, found@[k].name@));
                            let j = choose|j: int| 0 <= j < prev.len() && #[trigger] prev[j].filename@
                                == found@[k].name@;
                            assert(self.sealed_segments@[j] == prev[j]);
                        }
                    }
                    assert forall|j: int|
                        before.sealed_segments@.len() <= j < self.sealed_segments@.len() implies exists|k: int|
                        0 <= k < i + 1 && #[trigger] self.sealed_segments@[j].filename@ == found@[k].name@ by {
                        if j < n {
                            assert(self.sealed_segments@[j] == prev[j]);
                            let k = choose|k: int| 0 <= k < i && #[trigger] prev[j].filename@ == found@[k].name@;
                            assert(self.sealed_segments@[j].filename@ == found@[k].name@);
                        } else {
                            assert(self.sealed_segments@[j].filename@ == found@[i as int].name@);
                        }
                    }
                }
            } else {
                proof {
                    if adoptable(prefix@, before.sealed_segments@, found@[i as int]) && listed {
                        let j = choose|j: int| 0 <= j < self.sealed_segments@.len()
                            && #[trigger] self.sealed_segments@[j].filename@ == found@[i as int].name@;
                        if j < before.sealed_segments@.len() {
                            assert(before.sealed_segments@[j].filename@ == found@[i as int].name@);
                        } else {
                            let k = choose|k: int| 0 <= k < i && #[trigger] self.sealed_segments@[j].filename@
                                == found@[k].name@;
                            assert(found@[k].name@ != found@[i as int].name@);
                        }
                    }
                }
            }
            i += 1;
        }
        let ghost unsorted = self.sealed_segments@;
        self.sort_segments();
        proof {
            assert forall|k: int|
                0 <= k < found@.len() && #[trigger] adoptable(prefix@, before.sealed_segments@, found@[k])
                implies lists_name(self.sealed_segments@, found@[k].name@) by {
                let j = choose|j: int| 0 <= j < unsorted.len() && #[trigger] unsorted[j].filename@
                    == found@[k].name@;
                assert(unsorted.contains(unsorted[j]));
                assert(self.sealed_segments@.to_multiset().count(unsorted[j]) > 0);
                assert(self.sealed_segments@.contains(unsorted[j]));
                let m = choose|m: int| 0 <= m < self.sealed_segments@.len() && self.sealed_segments@[m]
                    == unsorted[j];
                assert(self.sealed_segments@[m].filename@ == found@[k].name@);
            }
            assert forall|j: int| 0 <= j < before.sealed_segments@.len() implies self.sealed_segments@.contains(
                #[trigger] before.sealed_segments@[j],
            ) by {
                assert(unsorted[j] == before.sealed_segments@[j]);
                assert(unsorted.contains(unsorted[j]));
                assert(self.sealed_segments@.to_multiset().count(unsorted[j]) > 0);
            }
        }
        self.finish_repair(active_exists, now);
    }
}


/// Stable insertion sort of segments by first sequence.
pub fn sort_by_first_sequence(segments: Vec<SegmentMeta>) -> (r: Vec<SegmentMeta>)
    ensures
        segments_ordered(r@),
        r@.to_multiset() == segments@.to_multiset(),
{
    broadcast use vstd::seq_lib::to_multiset_insert, vstd::seq_lib::to_multiset_build;

    let mut out: Vec<SegmentMeta> = Vec::new();
    let mut i: usize = 0;
    proof {
        assert(segments@.take(0) =~= Seq::<SegmentMeta>::empty());
        assert(out@ =~= Seq::<SegmentMeta>::empty());
    }
    while i < segments.len()
        invariant
            i <= segments@.len(),
            segments_ordered(out@),
            out@.to_multiset() == segments@.take(i as int).to_multiset(),
        decreases segments.len() - i,
    {
        let item = segments[i].clone();
        let key = item.first_sequence;
        let mut p: usize = 0;
        while p < out.len() && out[p].first_sequence <= key
            invariant
                p <= out@.len(),
                forall|j: int| 0 <= j < p ==> out@[j].first_sequence <= key,
            decreases out.len() - p,
        {
            p += 1;
        }
        let ghost before = out@;
        out.insert(p, item);
        proof {
            assert(out@ == before.insert(p as int, item));
            assert forall|a: int, b: int| 0 <= a < b < out@.len() implies out@[a].first_sequence
                <= out@[b].first_sequence by {
                if b < p {
                    assert(out@[a] == before[a]);
                    assert(out@[b] == before[b]);
                } else if b == p {
                    assert(out@[a] == before[a]);
                } else if a < p {
                    assert(out@[a] == before[a]);
                    assert(out@[b] == before[b - 1]);
                    if p < before.len() {
                        assert(before[p as int].first_sequence > key);
                        assert(before[a].first_sequence <= before[p as int].first_sequence);
                    }
                } else if a == p {
                    assert(out@[b] == before[b - 1]);
                    assert(before[p as int].first_sequence > key);
                    assert(before[p as int].first_sequence <= before[b - 1].first_sequence);
                } else {
                    assert(out@[a] == before[a - 1]);
                    assert(out@[b] == before[b - 1]);
                }
            }
            assert(segments@.take(i + 1) =~= segments@.take(i as int).push(segments@[i as int]));
            vstd::seq_lib::to_multiset_insert(before, p as int, item);
            vstd::seq_lib::to_multiset_build(segments@.take(i as int), segments@[i as int]);
            assert(item == segments@[i as int]);
        }
        i += 1;
    }
    proof {
        assert(segments@.take(segments@.len() as int) =~= segments@);
    }
    out
}

// ---------------------------------------------------------------------------
// Law of retention
// ---------------------------------------------------------------------------

/// After retention, the journal is within its limits: either no sealed
/// segment is left, or the oldest one left is younger than the age limit,
/// at most `max_sealed_segments` remain, and the counted size is within
/// `max_total_bytes`.  Retention only ever drops the oldest segments.
pub proof fn lemma_retention_within_limits(
    segments: Seq<SegmentMeta>,
    total: u64,
    policy: JournalPolicy,
    now: i128,
)
    ensures
        ({
            let (kept, kept_total) = retention_result(segments, total, policy, now);
            &&& !must_drop_first(kept, kept_total, policy, now)
            &&& kept.len() > 0 ==> {
                &&& !elapsed_at_least(now, kept[0].sealed_at, policy.max_segment_age)
                &&& kept.len() <= policy.max_sealed_segments
                &&& kept_total <= policy.max_total_bytes
            }
            &&& exists|k: int| 0 <= k <= segments.len() && kept == segments.skip(k)
        }),
    decreases segments.len(),
{
    if must_drop_first(segments, total, policy, now) {
        lemma_retention_within_limits(
            segments.drop_first(),
            sat_sub_u64(total, segments[0].byte_len),
            policy,
            now,
        );
        let (kept, _) = retention_result(segments, total, policy, now);
        let k = choose|k: int|
            0 <= k <= segments.drop_first().len() && kept == segments.drop_first().skip(k);
        assert(segments.drop_first().skip(k) =~= segments.skip(k + 1));
    } else {
        assert(segments.skip(0) =~= segments);
    }
}


/// A tail page honours its cursor and its time filter: every line it holds
/// has a sequence above the cursor and a timestamp not before `since`; and
/// every buffered line above the cursor and not before `since` is among the
/// lines the page is cut from (so an uncut page holds it).
pub proof fn lemma_tail_page_honours_cursor(
    lines: Seq<LogLine>,
    since: Option<i128>,
    after_sequence: Option<u64>,
    limit: usize,
)
    ensures
        forall|i: int|
            #![trigger page_lines(selected_lines(lines, since, after_sequence), limit)[i]]
            0 <= i < page_lines(selected_lines(lines, since, after_sequence), limit).len() ==> {
                &&& (after_sequence matches Some(c) ==> page_lines(
                    selected_lines(lines, since, after_sequence),
                    limit,
                )[i].sequence > c)
                &&& (since matches Some(t) ==> page_lines(
                    selected_lines(lines, since, after_sequence),
                    limit,
                )[i].timestamp >= t)
            },
        forall|j: int|
            #![trigger lines[j]]
            0 <= j < lines.len() && (after_sequence matches Some(c) ==> lines[j].sequence > c) && (
            since matches Some(t) ==> lines[j].timestamp >= t) ==> selected_lines(
                lines,
                since,
                after_sequence,
            ).contains(lines[j]),
{
    lemma_page_lines_selected(lines, since, after_sequence, limit);
    lemma_selected_complete(lines, since, after_sequence);
    let p = page_lines(selected_lines(lines, since, after_sequence), limit);
    assert forall|i: int| #![trigger p[i]] 0 <= i < p.len() implies {
        &&& (after_sequence matches Some(c) ==> p[i].sequence > c)
        &&& (since matches Some(t) ==> p[i].timestamp >= t)
    } by {
        assert(line_selected(p[i], since, after_sequence));
    }
    assert forall|j: int|
        #![trigger lines[j]]
        0 <= j < lines.len() && (after_sequence matches Some(c) ==> lines[j].sequence > c) && (
        since matches Some(t) ==> lines[j].timestamp >= t) implies selected_lines(
        lines,
        since,
        after_sequence,
    ).contains(lines[j]) by {
        assert(line_selected(lines[j], since, after_sequence));
    }
}

proof fn lemma_selected_complete(lines: Seq<LogLine>, since: Option<i128>, after_sequence: Option<u64>)
    ensures
        forall|j: int|
            0 <= j < lines.len() && line_selected(#[trigger] lines[j], since, after_sequence)
                ==> selected_lines(lines, since, after_sequence).contains(lines[j]),
    decreases lines.len(),
{
    if lines.len() > 0 {
        let rest = lines.drop_last();
        lemma_selected_complete(rest, since, after_sequence);
        let prev = selected_lines(rest, since, after_sequence);
        assert forall|j: int|
            0 <= j < lines.len() && line_selected(#[trigger] lines[j], since, after_sequence)
                implies selected_lines(lines, since, after_sequence).contains(lines[j]) by {
            if j < lines.len() - 1 {
                assert(rest[j] == lines[j]);
                let k = choose|k: int| 0 <= k < prev.len() && prev[k] == lines[j];
                if line_selected(lines.last(), since, after_sequence) {
                    assert(prev.push(lines.last())[k] == lines[j]);
                }
            } else {
                assert(selected_lines(lines, since, after_sequence) == prev.push(lines.last()));
                assert(prev.push(lines.last())[prev.len() as int] == lines[j]);
            }
        }
    }
}

/// The active segment rolls over exactly when it holds something and has
/// reached the size limit or the age limit; once due, it stays due later.
pub proof fn lemma_rollover_by_size_or_age(m: JournalManifest, policy: JournalPolicy, now: i128, later: i128)
    ensures
        should_rollover_spec(m, policy, now) <==> (m.active_byte_len > 0 && (m.active_byte_len
            >= policy.max_segment_bytes || now as int - m.active_created_at as int
            >= policy.max_segment_age as int)),
        should_rollover_spec(m, policy, now) && now <= later ==> should_rollover_spec(m, policy, later),
{
}

/// The journal size counted after the `k` oldest sealed segments are
/// dropped: the starting size less their bytes, not below zero.
pub open spec fn counted_after(segments: Seq<SegmentMeta>, total: u64, k: int) -> int {
    if total as int >= segment_bytes(segments.take(k)) as int {
        total as int - segment_bytes(segments.take(k)) as int
    } else {
        0
    }
}

proof fn lemma_segment_bytes_first(segments: Seq<SegmentMeta>)
    requires
        segments.len() > 0,
    ensures
        segment_bytes(segments) == segments[0].byte_len as nat + segment_bytes(segments.drop_first()),
    decreases segments.len(),
{
    if segments.len() > 1 {
        lemma_segment_bytes_first(segments.drop_last());
        assert(segments.drop_last().drop_first() =~= segments.drop_first().drop_last());
        assert(segments.drop_last()[0] == segments[0]);
        assert(segments.drop_first().last() == segments.last());
        assert(segment_bytes(segments.drop_first()) == segment_bytes(segments.drop_first().drop_last())
            + segments.drop_first().last().byte_len as nat);
    } else {
        assert(segments.drop_first().len() == 0);
        assert(segments.drop_last().len() == 0);
        assert(segment_bytes(segments.drop_first()) == 0);
        assert(segment_bytes(segments.drop_last()) == 0);
        assert(segments.last() == segments[0]);
    }
}

/// Retention drops the fewest oldest segments: it drops some number `r` of
/// the oldest ones; the size it counts afterwards is the starting size less
/// their bytes (not below zero); with `r - 1` dropped the journal still
/// broke the age, count or size limit; and what is kept breaks none.
pub proof fn lemma_retention_drops_fewest(segments: Seq<SegmentMeta>, total: u64, policy: JournalPolicy, now: i128)
    ensures
        ({
            let (kept, kept_total) = retention_result(segments, total, policy, now);
            let r = segments.len() - kept.len();
            &&& 0 <= r <= segments.len()
            &&& kept == segments.skip(r)
            &&& kept_total as int == counted_after(segments, total, r)
            &&& r > 0 ==> {
                ||| now as int - segments[r - 1].sealed_at as int >= policy.max_segment_age as int
                ||| segments.len() - (r - 1) > policy.max_sealed_segments as int
                ||| counted_after(segments, total, r - 1) > policy.max_total_bytes as int
            }
            &&& kept.len() > 0 ==> {
                &&& now as int - (kept[0].sealed_at as int) < policy.max_segment_age as int
                &&& kept.len() <= policy.max_sealed_segments
                &&& kept_total <= policy.max_total_bytes
            }
        }),
    decreases segments.len(),
{
    assert(segments.take(0) =~= Seq::<SegmentMeta>::empty());
    assert(segments.skip(0) =~= segments);
    if must_drop_first(segments, total, policy, now) {
        let rest = segments.drop_first();
        let t2 = sat_sub_u64(total, segments[0].byte_len);
        lemma_retention_drops_fewest(rest, t2, policy, now);
        let (kept, kept_total) = retention_result(segments, total, policy, now);
        let r = segments.len() - kept.len();
        let r2 = rest.len() - kept.len();
        assert(r == r2 + 1);
        assert(rest.skip(r2) =~= segments.skip(r));
        // counted_after over the rest relates to counted_after over all
        assert forall|k: int| 0 <= k <= rest.len() implies counted_after(rest, t2, k) == counted_after(
            segments,
            total,
            k + 1,
        ) by {
            let pre = segments.take(k + 1);
            assert(pre.drop_first() =~= rest.take(k));
            assert(pre[0] == segments[0]);
            lemma_segment_bytes_first(pre);
        }
        if r2 > 0 {
            assert(rest[r2 - 1] == segments[r - 1]);
        } else {
            assert(r == 1);
            assert(counted_after(segments, total, 0) == total as int);
        }
    } else {
        let (kept, kept_total) = retention_result(segments, total, policy, now);
        assert(kept == segments);
        assert(counted_after(segments, total, 0) == total as int);
    }
}


/// A page is the newest lines that matched: all of them without a limit;
/// with a limit, the last `min(limit, matched)` of them in order, and it is
/// marked cut exactly when more than `limit` matched.
pub proof fn lemma_page_is_newest(filtered: Seq<LogLine>, limit: usize)
    ensures
        limit == 0 ==> page_lines(filtered, limit) == filtered && !page_truncated(filtered.len(), limit),
        limit > 0 ==> {
            &&& page_lines(filtered, limit).len() == (if filtered.len() < limit {
                filtered.len() as int
            } else {
                limit as int
            })
            &&& page_lines(filtered, limit) == filtered.subrange(
                filtered.len() - page_lines(filtered, limit).len(),
                filtered.len() as int,
            )
            &&& page_truncated(filtered.len(), limit) <==> filtered.len() > limit
        },
{
    if limit > 0 {
        assert(page_lines(filtered, limit) =~= filtered.subrange(
            filtered.len() - page_lines(filtered, limit).len(),
            filtered.len() as int,
        ));
    }
}

/// A cursor has expired exactly when the line right after it is no longer
/// retained: the earliest retained sequence lies beyond `cursor + 1`.
/// Without a cursor, or with nothing retained, nothing has expired.
pub proof fn lemma_cursor_expiry(after_sequence: Option<u64>, earliest: Option<u64>)
    ensures
        cursor_expired_spec(after_sequence, earliest) <==> (after_sequence matches Some(c) && earliest
            matches Some(first) && c as int + 1 < first as int),
{
}

} // verus!
