//! Reading the logs of a detached process: its legacy raw log files, the
//! journal files its log proxy writes (sealed segments listed in a manifest
//! plus the active file), and following the active file as it grows.

use vstd::prelude::*;
use vstd::string::StringSliceAdditionalSpecFns;

use crate::hex::{hex_encode, hex_name};
use crate::journal::{legacy_safe_name, legacy_safe_name_spec, LogLine, LogStream, LogTail};
use crate::text::{
    chars_of, decode_lossy, find_char, lemma_find_char_bounds, lines_of, push_str, split_lines,
    string_of, trim_end_char, trim_end_char_vec, slice_vec, utf8_lossy,
};

verus! {

// ---------------------------------------------------------------------------
// Legacy raw log files
// ---------------------------------------------------------------------------

/// A line of a legacy raw log file: no sequence, the epoch as its time.
pub open spec fn legacy_line(text: Seq<char>, stream: LogStream) -> (u64, i128, LogStream, Seq<char>) {
    (0, 0, stream, text)
}

pub open spec fn line_views(lines: Seq<LogLine>) -> Seq<(u64, i128, LogStream, Seq<char>)> {
    lines.map_values(|l: LogLine| (l.sequence, l.timestamp, l.stream, l.line@))
}

/// The last `limit` of `items` (all of them for a limit of 0).
pub open spec fn last_n<T>(items: Seq<T>, limit: usize) -> Seq<T> {
    if limit == 0 || items.len() <= limit {
        items
    } else {
        items.skip(items.len() - limit)
    }
}

/// The lines of a legacy raw log file's contents, the last `limit` of them
/// (all for 0), each without sequence and with the epoch as its time.
pub fn legacy_log_lines(contents: &str, limit: usize, stream: LogStream) -> (r: Vec<LogLine>)
    ensures
        line_views(r@) == last_n(lines_of(contents@), limit).map_values(
            |t: Seq<char>| legacy_line(t, stream),
        ),
{
    let chars = chars_of(contents);
    let lines = split_lines(&chars);
    let ghost all = lines_of(contents@);
    let start: usize = if limit == 0 || lines.len() <= limit {
        0
    } else {
        lines.len() - limit
    };
    proof {
        assert(lines@.map_values(|l: Vec<char>| l@) == all);
        assert(all.skip(start as int) == last_n(all, limit));
    }
    let mut out: Vec<LogLine> = Vec::new();
    let mut i: usize = start;
    while i < lines.len()
        invariant
            start <= i <= lines@.len(),
            lines@.map_values(|l: Vec<char>| l@) == all,
            line_views(out@) == all.subrange(start as int, i as int).map_values(
                |t: Seq<char>| legacy_line(t, stream),
            ),
        decreases lines@.len() - i,
    {
        let text = string_of(&lines[i]);
        let line = LogLine { sequence: 0, timestamp: 0, stream, line: text };
        let ghost before = out@;
        out.push(line);
        proof {
            assert(all[i as int] == lines@[i as int]@);
            assert(all.subrange(start as int, i + 1) =~= all.subrange(start as int, i as int).push(all[i as int]));
            assert(line_views(out@) =~= line_views(before).push((0u64, 0i128, stream, text@)));
            assert(line_views(out@) =~= all.subrange(start as int, i + 1).map_values(
                |t: Seq<char>| legacy_line(t, stream),
            ));
        }
        i += 1;
    }
    proof {
        assert(all.subrange(start as int, all.len() as int) =~= all.skip(start as int));
    }
    out
}

/// The tail shown for a detached process that has only legacy raw log
/// files: its standard output lines, then its standard error lines, the
/// last `lines` of them (all for 0); there is no cursor.
pub fn legacy_tail(stdout: Vec<LogLine>, stderr: Vec<LogLine>, lines: usize) -> (tail: LogTail)
    ensures
        tail.lines@ == last_n(stdout@ + stderr@, lines),
        tail.truncated == (lines > 0 && stdout@.len() + stderr@.len() > lines),
        tail.high_watermark == 0,
        tail.next_sequence == 1,
        tail.earliest_retained_sequence is None,
        !tail.cursor_expired,
{
    let mut all = stdout;
    let mut rest = stderr;
    let ghost first = all@;
    let ghost second = rest@;
    all.append(&mut rest);
    let truncated = lines > 0 && all.len() > lines;
    let kept = if truncated {
        let cut = all.len() - lines;
        let kept = all.split_off(cut);
        proof {
            assert(kept@ =~= (first + second).skip(cut as int));
        }
        kept
    } else {
        all
    };
    LogTail {
        lines: kept,
        truncated,
        high_watermark: 0,
        next_sequence: 1,
        earliest_retained_sequence: None,
        cursor_expired: false,
    }
}

// ---------------------------------------------------------------------------
// Journals written by a detached log proxy
// ---------------------------------------------------------------------------

/// A sealed journal segment as the proxy's manifest lists it.
#[derive(Debug, Clone)]
pub struct DetachedSegment {
    pub filename: String,
    pub first_sequence: u64,
    pub last_sequence: u64,
}

/// The manifest a detached log proxy keeps beside its active journal file.
#[derive(Debug, Clone)]
pub struct DetachedManifest {
    pub high_watermark: u64,
    pub active_start_sequence: u64,
    pub sealed_segments: Vec<DetachedSegment>,
}

/// A sealed segment is read unless all of it precedes the reader's cursor.
pub open spec fn segment_wanted(seg: DetachedSegment, after_sequence: Option<u64>) -> bool {
    !(after_sequence matches Some(cursor) && seg.last_sequence <= cursor)
}

/// The file names of the wanted segments, in the manifest's order.
pub open spec fn wanted_files(segs: Seq<DetachedSegment>, after_sequence: Option<u64>) -> Seq<Seq<char>>
    decreases segs.len(),
{
    if segs.len() == 0 {
        Seq::empty()
    } else {
        let previous = wanted_files(segs.drop_last(), after_sequence);
        if segment_wanted(segs.last(), after_sequence) {
            previous.push(segs.last().filename@)
        } else {
            previous
        }
    }
}

/// The sealed segments to read for a cursor, in the manifest's order.
pub fn segments_to_read(manifest: &DetachedManifest, after_sequence: Option<u64>) -> (r: Vec<String>)
    ensures
        r@.map_values(|f: String| f@) == wanted_files(manifest.sealed_segments@, after_sequence),
{
    let segs = &manifest.sealed_segments;
    let mut r: Vec<String> = Vec::new();
    let mut i: usize = 0;
    while i < segs.len()
        invariant
            i <= segs@.len(),
            segs == &manifest.sealed_segments,
            r@.map_values(|f: String| f@) == wanted_files(segs@.take(i as int), after_sequence),
        decreases segs@.len() - i,
    {
        proof {
            assert(segs@.take(i + 1).drop_last() =~= segs@.take(i as int));
            assert(segs@.take(i + 1).last() == segs@[i as int]);
        }
        let wanted = match after_sequence {
            Some(cursor) => !(segs[i].last_sequence <= cursor),
            None => true,
        };
        if wanted {
            let name = segs[i].filename.clone();
            let ghost before = r@;
            r.push(name);
            proof {
                assert(r@.map_values(|f: String| f@) =~= before.map_values(|f: String| f@).push(name@));
            }
        }
        i += 1;
    }
    proof {
        assert(segs@.take(segs@.len() as int) =~= segs@);
    }
    r
}

/// Sequences strictly increase.
pub open spec fn ascending(lines: Seq<LogLine>) -> bool {
    forall|a: int, b: int| 0 <= a < b < lines.len() ==> #[trigger] lines[a].sequence < #[trigger] lines[b].sequence
}

/// Some line of `lines` has sequence `q`.
pub open spec fn has_sequence(lines: Seq<LogLine>, q: u64) -> bool
    decreases lines.len(),
{
    lines.len() > 0 && (lines[0].sequence == q || has_sequence(lines.drop_first(), q))
}

/// `x` placed before the first line with a greater sequence.
pub open spec fn insert_by_sequence(lines: Seq<LogLine>, x: LogLine) -> Seq<LogLine>
    decreases lines.len(),
{
    if lines.len() == 0 {
        seq![x]
    } else if x.sequence < lines[0].sequence {
        seq![x] + lines
    } else {
        seq![lines[0]] + insert_by_sequence(lines.drop_first(), x)
    }
}

/// The lines keyed by sequence, the first line read for each sequence
/// kept, listed in sequence order.
pub open spec fn merge_lines(lines: Seq<LogLine>) -> Seq<LogLine>
    decreases lines.len(),
{
    if lines.len() == 0 {
        Seq::empty()
    } else {
        let merged = merge_lines(lines.drop_last());
        if has_sequence(merged, lines.last().sequence) {
            merged
        } else {
            insert_by_sequence(merged, lines.last())
        }
    }
}

proof fn lemma_has_sequence(lines: Seq<LogLine>, q: u64)
    ensures
        has_sequence(lines, q) <==> exists|k: int| 0 <= k < lines.len() && #[trigger] lines[k].sequence == q,
    decreases lines.len(),
{
    if lines.len() > 0 {
        lemma_has_sequence(lines.drop_first(), q);
        if has_sequence(lines.drop_first(), q) {
            let k = choose|k: int| 0 <= k < lines.drop_first().len() && #[trigger] lines.drop_first()[k].sequence == q;
            assert(lines[k + 1].sequence == q);
        }
        if exists|k: int| 0 <= k < lines.len() && #[trigger] lines[k].sequence == q {
            let k = choose|k: int| 0 <= k < lines.len() && #[trigger] lines[k].sequence == q;
            if k > 0 {
                assert(lines.drop_first()[k - 1].sequence == q);
            }
        }
    }
}

proof fn lemma_insert_by_sequence_at(lines: Seq<LogLine>, x: LogLine, p: int)
    requires
        0 <= p <= lines.len(),
        forall|j: int| 0 <= j < p ==> #[trigger] lines[j].sequence < x.sequence,
        p < lines.len() ==> lines[p].sequence > x.sequence,
    ensures
        insert_by_sequence(lines, x) == lines.insert(p, x),
    decreases p,
{
    if lines.len() == 0 {
        assert(insert_by_sequence(lines, x) =~= lines.insert(p, x));
    } else if p == 0 {
        assert(insert_by_sequence(lines, x) =~= lines.insert(p, x));
    } else {
        let t = lines.drop_first();
        assert forall|j: int| 0 <= j < p - 1 implies #[trigger] t[j].sequence < x.sequence by {
            assert(t[j] == lines[j + 1]);
        }
        if p < lines.len() {
            assert(t[p - 1] == lines[p]);
        }
        lemma_insert_by_sequence_at(t, x, p - 1);
        assert(insert_by_sequence(lines, x) =~= lines.insert(p, x));
    }
}

/// Line `i` is the first of `lines` with its sequence.
pub open spec fn first_of_sequence(lines: Seq<LogLine>, i: int) -> bool {
    0 <= i < lines.len() && forall|j: int| 0 <= j < i ==> #[trigger] lines[j].sequence != lines[i].sequence
}

proof fn lemma_first_occurrence(lines: Seq<LogLine>, j: int)
    requires
        0 <= j < lines.len(),
    ensures
        exists|i: int| 0 <= i <= j && #[trigger] first_of_sequence(lines, i) && lines[i].sequence == lines[j].sequence,
    decreases j,
{
    if !first_of_sequence(lines, j) {
        let k = choose|k: int| 0 <= k < j && #[trigger] lines[k].sequence == lines[j].sequence;
        lemma_first_occurrence(lines, k);
    }
}

proof fn lemma_insert_members(m: Seq<LogLine>, x: LogLine)
    ensures
        forall|y: LogLine| #[trigger] insert_by_sequence(m, x).contains(y) <==> (m.contains(y) || y == x),
    decreases m.len(),
{
    let u = insert_by_sequence(m, x);
    if m.len() == 0 {
        assert(u =~= seq![x]);
        assert forall|y: LogLine| #[trigger] u.contains(y) <==> (m.contains(y) || y == x) by {
            if u.contains(y) {
                let k = choose|k: int| 0 <= k < u.len() && u[k] == y;
                assert(k == 0);
            }
            if y == x {
                assert(u[0] == y);
            }
        }
    } else if x.sequence < m[0].sequence {
        assert(u =~= seq![x] + m);
        assert forall|y: LogLine| #[trigger] u.contains(y) <==> (m.contains(y) || y == x) by {
            if u.contains(y) {
                let k = choose|k: int| 0 <= k < u.len() && u[k] == y;
                if k > 0 {
                    assert(m[k - 1] == y);
                }
            }
            if m.contains(y) {
                let k = choose|k: int| 0 <= k < m.len() && m[k] == y;
                assert(u[k + 1] == y);
            }
            if y == x {
                assert(u[0] == y);
            }
        }
    } else {
        let t = m.drop_first();
        lemma_insert_members(t, x);
        let v = insert_by_sequence(t, x);
        assert(u =~= seq![m[0]] + v);
        assert forall|y: LogLine| #[trigger] u.contains(y) <==> (m.contains(y) || y == x) by {
            if u.contains(y) {
                let k = choose|k: int| 0 <= k < u.len() && u[k] == y;
                if k == 0 {
                    assert(m[0] == y);
                } else {
                    assert(v[k - 1] == y);
                    assert(v.contains(y));
                    if t.contains(y) {
                        let j = choose|j: int| 0 <= j < t.len() && t[j] == y;
                        assert(m[j + 1] == y);
                    }
                }
            }
            if m.contains(y) {
                let k = choose|k: int| 0 <= k < m.len() && m[k] == y;
                if k == 0 {
                    assert(u[0] == y);
                } else {
                    assert(t[k - 1] == y);
                    assert(t.contains(y));
                    assert(insert_by_sequence(t, x).contains(y));
                    let j = choose|j: int| 0 <= j < v.len() && v[j] == y;
                    assert(u[j + 1] == y);
                }
            }
            if y == x {
                assert(insert_by_sequence(t, x).contains(x));
                let j = choose|j: int| 0 <= j < v.len() && v[j] == x;
                assert(u[j + 1] == y);
            }
        }
    }
}

/// A merged read holds exactly the first line read of each sequence.
pub proof fn lemma_merge_keeps_first_lines(s: Seq<LogLine>)
    ensures
        forall|y: LogLine| #[trigger] merge_lines(s).contains(y) <==> exists|i: int| #[trigger] first_of_sequence(s, i) && s[i] == y,
    decreases s.len(),
{
    if s.len() == 0 {
        assert forall|y: LogLine| #[trigger] merge_lines(s).contains(y) <==> exists|i: int| #[trigger] first_of_sequence(s, i) && s[i] == y by {
            assert(merge_lines(s) =~= Seq::<LogLine>::empty());
        }
    } else {
        let d = s.drop_last();
        let x = s.last();
        let n = d.len() as int;
        lemma_merge_keeps_first_lines(d);
        let m = merge_lines(d);
        assert forall|i: int| 0 <= i < n implies #[trigger] first_of_sequence(s, i) == first_of_sequence(d, i) && s[i] == d[i] by {
            assert forall|j: int| 0 <= j < i implies s[j] == d[j] by {}
        }
        assert(s[n] == x);
        lemma_has_sequence(m, x.sequence);
        if has_sequence(m, x.sequence) {
            let k = choose|k: int| 0 <= k < m.len() && #[trigger] m[k].sequence == x.sequence;
            assert(m.contains(m[k]));
            let i0 = choose|i: int| #[trigger] first_of_sequence(d, i) && d[i] == m[k];
            assert(s[i0].sequence == x.sequence);
            assert(!first_of_sequence(s, n));
            assert forall|y: LogLine| #[trigger] merge_lines(s).contains(y) <==> exists|i: int| #[trigger] first_of_sequence(s, i) && s[i] == y by {
                if m.contains(y) {
                    let i = choose|i: int| #[trigger] first_of_sequence(d, i) && d[i] == y;
                    assert(first_of_sequence(s, i) && s[i] == y);
                }
                if exists|i: int| #[trigger] first_of_sequence(s, i) && s[i] == y {
                    let i = choose|i: int| #[trigger] first_of_sequence(s, i) && s[i] == y;
                    assert(i < n);
                    assert(first_of_sequence(d, i) && d[i] == y);
                }
            }
        } else {
            lemma_insert_members(m, x);
            assert forall|j: int| 0 <= j < n implies #[trigger] s[j].sequence != s[n].sequence by {
                if s[j].sequence == x.sequence {
                    assert(d[j] == s[j]);
                    lemma_first_occurrence(d, j);
                    let j0 = choose|j0: int| 0 <= j0 <= j && #[trigger] first_of_sequence(d, j0) && d[j0].sequence
                        == d[j].sequence;
                    assert(m.contains(d[j0]));
                    let k = choose|k: int| 0 <= k < m.len() && m[k] == d[j0];
                    assert(m[k].sequence == x.sequence);
                }
            }
            assert(first_of_sequence(s, n));
            assert forall|y: LogLine| #[trigger] merge_lines(s).contains(y) <==> exists|i: int| #[trigger] first_of_sequence(s, i) && s[i] == y by {
                if m.contains(y) {
                    let i = choose|i: int| #[trigger] first_of_sequence(d, i) && d[i] == y;
                    assert(first_of_sequence(s, i) && s[i] == y);
                }
                if y == x {
                    assert(first_of_sequence(s, n) && s[n] == y);
                }
                if exists|i: int| #[trigger] first_of_sequence(s, i) && s[i] == y {
                    let i = choose|i: int| #[trigger] first_of_sequence(s, i) && s[i] == y;
                    if i < n {
                        assert(first_of_sequence(d, i) && d[i] == y);
                    }
                }
            }
        }
    }
}

/// Merges the lines read from the sealed segments and then the active
/// file: one line per sequence, the first one read, in sequence order.
pub fn merge_by_sequence(lines: &Vec<LogLine>) -> (out: Vec<LogLine>)
    ensures
        out@ == merge_lines(lines@),
        ascending(out@),
{
    let mut out: Vec<LogLine> = Vec::new();
    let mut i: usize = 0;
    while i < lines.len()
        invariant
            i <= lines@.len(),
            out@ == merge_lines(lines@.take(i as int)),
            ascending(out@),
        decreases lines@.len() - i,
    {
        let q = lines[i].sequence;
        proof {
            assert(lines@.take(i + 1).drop_last() =~= lines@.take(i as int));
            assert(lines@.take(i + 1).last() == lines@[i as int]);
            lemma_has_sequence(out@, q);
        }
        let mut p: usize = 0;
        while p < out.len() && out[p].sequence < q
            invariant
                p <= out@.len(),
                forall|j: int| 0 <= j < p ==> #[trigger] out@[j].sequence < q,
            decreases out@.len() - p,
        {
            p += 1;
        }
        if p < out.len() && out[p].sequence == q {
        } else {
            proof {
                assert forall|k: int| 0 <= k < out@.len() implies #[trigger] out@[k].sequence != q by {
                    if k > p {
                        assert(out@[p as int].sequence < out@[k].sequence);
                    }
                }
                lemma_insert_by_sequence_at(out@, lines@[i as int], p as int);
            }
            let line = lines[i].clone();
            let ghost before = out@;
            out.insert(p, line);
            proof {
                assert forall|a: int, b: int| 0 <= a < b < out@.len() implies #[trigger] out@[a].sequence
                    < #[trigger] out@[b].sequence by {
                    if b < p {
                        assert(out@[a] == before[a] && out@[b] == before[b]);
                    } else if b == p {
                        assert(out@[a] == before[a]);
                    } else if a == p {
                        assert(out@[b] == before[b - 1]);
                        if b - 1 > p {
                            assert(before[p as int].sequence < before[b - 1].sequence);
                        }
                    } else if a < p {
                        assert(out@[a] == before[a] && out@[b] == before[b - 1]);
                    } else {
                        assert(out@[a] == before[a - 1] && out@[b] == before[b - 1]);
                    }
                }
            }
        }
        i += 1;
    }
    proof {
        assert(lines@.take(lines@.len() as int) =~= lines@);
    }
    out
}

/// The high watermark a merged read shows: its last sequence, but not
/// below what the manifest confirms up to the reader's cursor, so that a
/// reader never sees its cursor move back, nor a sequence it has not read.
pub open spec fn observed_high_watermark(merged: Seq<LogLine>, manifest_high: u64, after_sequence: Option<u64>) -> u64 {
    let last: u64 = if merged.len() > 0 {
        merged.last().sequence
    } else {
        0
    };
    let cursor: u64 = match after_sequence {
        Some(c) => c,
        None => 0,
    };
    let confirmed: u64 = if manifest_high < cursor {
        manifest_high
    } else {
        cursor
    };
    if last < confirmed {
        confirmed
    } else {
        last
    }
}

/// The first sequence a detached journal still holds: the first sealed
/// segment's, else the active file's once it holds any line.
pub open spec fn detached_earliest(m: DetachedManifest) -> Option<u64> {
    if m.sealed_segments@.len() > 0 {
        Some(m.sealed_segments@[0].first_sequence)
    } else if m.high_watermark >= m.active_start_sequence {
        Some(m.active_start_sequence)
    } else {
        None
    }
}

/// How many times a reader looks at the journal files before it accepts
/// what it saw.
pub const DETACHED_READ_ATTEMPTS: u32 = 8;

/// What one look at a detached journal gives.
pub struct DetachedRead {
    /// The lines, one per sequence, in sequence order.
    pub lines: Vec<LogLine>,
    pub high_watermark: u64,
    pub earliest_retained_sequence: Option<u64>,
    /// Whether the look is accepted: the rows reach the manifest's high
    /// watermark, or this was the last attempt; otherwise the reader reads
    /// the manifest and the files again.
    pub settled: bool,
}

/// The outcome of look `attempt` (counted from 0) at a detached journal:
/// the lines read from the wanted segments and then the active file.
pub fn detached_read(
    manifest: &DetachedManifest,
    after_sequence: Option<u64>,
    read: &Vec<LogLine>,
    attempt: u32,
) -> (r: DetachedRead)
    ensures
        r.lines@ == merge_lines(read@),
        ascending(r.lines@),
        r.high_watermark == observed_high_watermark(r.lines@, manifest.high_watermark, after_sequence),
        r.earliest_retained_sequence == detached_earliest(*manifest),
        r.settled == (r.high_watermark >= manifest.high_watermark || attempt + 1 >= DETACHED_READ_ATTEMPTS),
{
    let lines = merge_by_sequence(read);
    let last: u64 = if lines.len() > 0 {
        lines[lines.len() - 1].sequence
    } else {
        0
    };
    let cursor: u64 = match after_sequence {
        Some(c) => c,
        None => 0,
    };
    let confirmed = if manifest.high_watermark < cursor {
        manifest.high_watermark
    } else {
        cursor
    };
    let high = if last < confirmed {
        confirmed
    } else {
        last
    };
    let earliest = if manifest.sealed_segments.len() > 0 {
        Some(manifest.sealed_segments[0].first_sequence)
    } else if manifest.high_watermark >= manifest.active_start_sequence {
        Some(manifest.active_start_sequence)
    } else {
        None
    };
    let settled = high >= manifest.high_watermark || attempt >= DETACHED_READ_ATTEMPTS - 1;
    DetachedRead { lines, high_watermark: high, earliest_retained_sequence: earliest, settled }
}

/// The highest sequence of `lines` (0 for none).
pub open spec fn max_sequence(lines: Seq<LogLine>) -> u64
    decreases lines.len(),
{
    if lines.len() == 0 {
        0
    } else {
        let previous = max_sequence(lines.drop_last());
        if lines.last().sequence > previous {
            lines.last().sequence
        } else {
            previous
        }
    }
}

/// A journal without a manifest: its lines as read, their highest sequence
/// as the high watermark, and the first line's sequence as the earliest.
pub fn unmanifested_read(lines: Vec<LogLine>) -> (r: (Vec<LogLine>, u64, Option<u64>))
    ensures
        r.0@ == lines@,
        r.1 == max_sequence(lines@),
        r.2 == (if lines@.len() > 0 {
            Some(lines@[0].sequence)
        } else {
            None::<u64>
        }),
{
    let mut high: u64 = 0;
    let mut i: usize = 0;
    while i < lines.len()
        invariant
            i <= lines@.len(),
            high == max_sequence(lines@.take(i as int)),
        decreases lines@.len() - i,
    {
        proof {
            assert(lines@.take(i + 1).drop_last() =~= lines@.take(i as int));
            assert(lines@.take(i + 1).last() == lines@[i as int]);
        }
        if lines[i].sequence > high {
            high = lines[i].sequence;
        }
        i += 1;
    }
    proof {
        assert(lines@.take(lines@.len() as int) =~= lines@);
    }
    let earliest = if lines.len() > 0 {
        Some(lines[0].sequence)
    } else {
        None
    };
    (lines, high, earliest)
}

// ---------------------------------------------------------------------------
// Following a growing journal file
// ---------------------------------------------------------------------------

/// The complete lines at the front of `text`, each without its `'\n'` and
/// the `'\r'`s before it, and what remains after the last `'\n'`.
pub open spec fn complete_lines(text: Seq<char>) -> (Seq<Seq<char>>, Seq<char>)
    decreases text.len(),
{
    match find_char(text, '\n') {
        Some(i) => {
            proof {
                lemma_find_char_bounds(text, '\n');
            }
            let rest = complete_lines(text.skip(i + 1));
            (seq![trim_end_char(text.take(i), '\r')] + rest.0, rest.1)
        },
        None => (Seq::empty(), text),
    }
}

/// What a follower does after looking at the file's length.
#[derive(Debug, Clone, Copy, PartialEq, Eq, Structural)]
pub enum FollowStep {
    /// Nothing was appended.
    Idle,
    /// Read the file from this byte offset to its end.
    ReadFrom(u64),
}

/// Follows a journal file by byte offset: it reads what was appended since
/// its last look, and hands out each line once it is complete.  A file that
/// shrank was replaced; it is then read again from its start.
pub struct FileFollower {
    offset: u64,
    partial: String,
}

impl FileFollower {
    pub closed spec fn offset(&self) -> u64 {
        self.offset
    }

    /// The text read after the last complete line.
    pub closed spec fn partial(&self) -> Seq<char> {
        self.partial@
    }

    /// A follower that starts reading at `offset`.
    pub fn new(offset: u64) -> (f: Self)
        ensures
            f.offset() == offset,
            f.partial() == Seq::<char>::empty(),
    {
        FileFollower { offset, partial: String::new() }
    }

    /// The file is `len` bytes long: whether to read, and from where.
    pub fn observe_len(&mut self, len: u64) -> (step: FollowStep)
        ensures
            len < old(self).offset() ==> final(self).offset() == 0 && final(self).partial() == Seq::<char>::empty(),
            len >= old(self).offset() ==> *final(self) == *old(self),
            step == (if len == final(self).offset() {
                FollowStep::Idle
            } else {
                FollowStep::ReadFrom(final(self).offset())
            }),
    {
        if len < self.offset {
            self.offset = 0;
            self.partial = String::new();
        }
        if len == self.offset {
            FollowStep::Idle
        } else {
            FollowStep::ReadFrom(self.offset)
        }
    }

    /// The bytes appended since the offset were read: the offset moves past
    /// them, they join the pending text as UTF-8 (invalid sequences
    /// replaced), and the complete lines are handed out.
    pub fn absorb(&mut self, appended: &[u8]) -> (lines: Vec<String>)
        ensures
            final(self).offset() == (if old(self).offset() + appended@.len() > u64::MAX {
                u64::MAX as int
            } else {
                old(self).offset() + appended@.len()
            }),
            lines@.map_values(|l: String| l@) == complete_lines(old(self).partial() + utf8_lossy(appended@)).0,
            final(self).partial() == complete_lines(old(self).partial() + utf8_lossy(appended@)).1,
    {
        let count = appended.len() as u64;
        self.offset = self.offset.saturating_add(count);
        let text = decode_lossy(appended);
        let mut pending = self.partial.clone();
        push_str(&mut pending, text.as_str());
        let chars = chars_of(pending.as_str());
        let ghost whole = chars@;
        let mut lines: Vec<String> = Vec::new();
        let mut start: usize = 0;
        let mut i: usize = 0;
        proof {
            assert(whole.skip(0) =~= whole);
            assert(lines@.map_values(|l: String| l@) + complete_lines(whole).0 =~= complete_lines(whole).0);
        }
        while i < chars.len()
            invariant
                start <= i <= chars@.len(),
                whole == chars@,
                complete_lines(whole) == (lines@.map_values(|l: String| l@) + complete_lines(whole.skip(
                    start as int,
                )).0, complete_lines(whole.skip(start as int)).1),
                forall|j: int| start <= j < i ==> chars@[j] != '\n',
            decreases chars@.len() - i,
        {
            if chars[i] == '\n' {
                let piece = slice_vec(&chars, start, i);
                let trimmed = trim_end_char_vec(&piece, '\r');
                let line = string_of(&trimmed);
                proof {
                    let rest = whole.skip(start as int);
                    let k = (i - start) as int;
                    assert(rest[k] == '\n');
                    assert forall|j: int| 0 <= j < k implies rest[j] != '\n' by {
                        assert(rest[j] == whole[start + j]);
                    }
                    lemma_first_newline(rest, k);
                    assert(rest.take(k) =~= piece@);
                    assert(rest.skip(k + 1) =~= whole.skip(i + 1));
                }
                let ghost before = lines@;
                lines.push(line);
                proof {
                    assert(lines@.map_values(|l: String| l@) =~= before.map_values(|l: String| l@).push(line@));
                    let rest = whole.skip(start as int);
                    assert(complete_lines(rest).0 =~= seq![line@] + complete_lines(whole.skip(i + 1)).0);
                    assert(lines@.map_values(|l: String| l@) + complete_lines(whole.skip(i + 1)).0 =~= before.map_values(
                        |l: String| l@,
                    ) + complete_lines(rest).0);
                }
                start = i + 1;
            }
            i += 1;
        }
        let rest = slice_vec(&chars, start, chars.len());
        proof {
            let tail = whole.skip(start as int);
            assert(rest@ =~= tail);
            assert forall|j: int| 0 <= j < tail.len() implies tail[j] != '\n' by {
                assert(tail[j] == whole[start + j]);
            }
            lemma_no_newline(tail);
            assert(lines@.map_values(|l: String| l@) + Seq::<Seq<char>>::empty() =~= lines@.map_values(|l: String| l@));
        }
        self.partial = string_of(&rest);
        lines
    }
}

proof fn lemma_first_newline(s: Seq<char>, k: int)
    requires
        0 <= k < s.len(),
        s[k] == '\n',
        forall|j: int| 0 <= j < k ==> s[j] != '\n',
    ensures
        find_char(s, '\n') == Some(k),
    decreases k,
{
    if k > 0 {
        lemma_first_newline(s.drop_first(), k - 1);
    }
}

proof fn lemma_no_newline(s: Seq<char>)
    requires
        forall|j: int| 0 <= j < s.len() ==> s[j] != '\n',
    ensures
        find_char(s, '\n') is None,
    decreases s.len(),
{
    if s.len() > 0 {
        lemma_no_newline(s.drop_first());
    }
}

/// Text that grew in two steps splits into the same lines as when read at
/// once: the lines of the first step, then those completed by the second.
pub proof fn lemma_complete_lines_chunked(t: Seq<char>, b: Seq<char>)
    ensures
        complete_lines(t + b) == (complete_lines(t).0 + complete_lines(complete_lines(t).1 + b).0,
            complete_lines(complete_lines(t).1 + b).1),
    decreases t.len(),
{
    match find_char(t, '\n') {
        Some(i) => {
            lemma_find_char_bounds(t, '\n');
            let tb = t + b;
            assert forall|j: int| 0 <= j < i implies tb[j] != '\n' by {
                assert(tb[j] == t[j]);
            }
            assert(tb[i] == t[i]);
            lemma_first_newline(tb, i);
            assert(tb.take(i) =~= t.take(i));
            assert(tb.skip(i + 1) =~= t.skip(i + 1) + b);
            lemma_complete_lines_chunked(t.skip(i + 1), b);
            let rest = complete_lines(t.skip(i + 1));
            let later = complete_lines(rest.1 + b);
            assert(seq![trim_end_char(t.take(i), '\r')] + (rest.0 + later.0) =~= (seq![trim_end_char(
                t.take(i),
                '\r',
            )] + rest.0) + later.0);
        },
        None => {
            assert(Seq::<Seq<char>>::empty() + complete_lines(t + b).0 =~= complete_lines(t + b).0);
        },
    }
}

// ---------------------------------------------------------------------------
// File names
// ---------------------------------------------------------------------------

/// The journal file of a detached process: `direct-<hex of its name>.jsonl`.
pub fn detached_journal_file(process_name: &str) -> (r: String)
    ensures
        r@ == "direct-"@ + hex_encode(process_name.spec_bytes()) + ".jsonl"@,
{
    let mut r = "direct-".to_string();
    let h = hex_name(process_name);
    push_str(&mut r, h.as_str());
    push_str(&mut r, ".jsonl");
    r
}

/// The legacy raw log files of a detached process, standard output then
/// standard error: `direct-<legacy spelling>.stdout.log` and `.stderr.log`.
pub fn legacy_detached_log_files(process_name: &str) -> (r: (String, String))
    ensures
        r.0@ == "direct-"@ + legacy_safe_name_spec(process_name@) + ".stdout.log"@,
        r.1@ == "direct-"@ + legacy_safe_name_spec(process_name@) + ".stderr.log"@,
{
    let name = legacy_safe_name(process_name);
    let mut out = "direct-".to_string();
    push_str(&mut out, name.as_str());
    let mut err = out.clone();
    push_str(&mut out, ".stdout.log");
    push_str(&mut err, ".stderr.log");
    (out, err)
}

} // verus!
