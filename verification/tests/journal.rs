use msv_supervisor::journal::{
    assemble_journal, detached_journal_line, durable_read_plan, legacy_journal_file,
    legacy_safe_name, parse_stream, process_journal_key, segment_file_name, segment_start,
    snapshot, stream_name, FoundSegment, JournalManifest, JournalRow, LogError, LogLine, LogStream, SegmentMeta,
    SourceJournal, RING_CAPACITY,
};

fn line(text: &str) -> LogLine {
    LogLine { sequence: 0, timestamp: 1_000, stream: LogStream::Stdout, line: text.to_string() }
}

#[test]
fn sequences_are_monotonic_and_seal_refuses_late_appends() {
    let mut journal = SourceJournal::new(0);
    let first = journal.append(line("same"), 5, "p".to_string()).unwrap();
    let second = journal.append(line("same"), 5, "p".to_string()).unwrap();
    assert_eq!(first.sequence, 1);
    assert_eq!(second.sequence, 2);
    assert_eq!(journal.manifest.high_watermark, 2);
    journal.seal();
    match journal.append(line("late"), 5, "p".to_string()) {
        Err(LogError::Sealed(label)) => assert_eq!(label, "p"),
        other => panic!("expected a sealed refusal, got {other:?}"),
    }
    assert_eq!(journal.buffer.len(), 2);
    assert_eq!(journal.manifest.next_sequence, 3);
}

#[test]
fn tail_pages_by_cursor_without_content_deduplication() {
    let mut journal = SourceJournal::new(0);
    for _ in 0..5 {
        journal.append(line("repeat"), 7, "p".to_string()).unwrap();
    }
    let tail = journal.tail(2, None, Some(2));
    let sequences: Vec<u64> = tail.lines.iter().map(|l| l.sequence).collect();
    assert_eq!(sequences, vec![4, 5]);
    assert!(tail.truncated);
    assert_eq!(tail.high_watermark, 5);
    assert_eq!(tail.next_sequence, 6);
    let all = journal.tail(0, None, None);
    assert_eq!(all.lines.len(), 5);
    assert!(!all.truncated);
    assert!(all.lines.iter().all(|l| l.line == "repeat"));
}

#[test]
fn tail_filters_by_time() {
    let mut journal = SourceJournal::new(0);
    journal
        .append(LogLine { sequence: 0, timestamp: 10, stream: LogStream::Stderr, line: "old".into() }, 1, "p".into())
        .unwrap();
    journal
        .append(LogLine { sequence: 0, timestamp: 20, stream: LogStream::Stdout, line: "new".into() }, 1, "p".into())
        .unwrap();
    let tail = journal.tail(10, Some(15), None);
    assert_eq!(tail.lines.len(), 1);
    assert_eq!(tail.lines[0].line, "new");
}

#[test]
fn ring_keeps_the_newest_lines() {
    let mut journal = SourceJournal::new(0);
    for _ in 0..(RING_CAPACITY + 3) {
        journal.append(line("x"), 1, "p".to_string()).unwrap();
    }
    assert_eq!(journal.buffer.len(), RING_CAPACITY);
    assert_eq!(journal.buffer[0].sequence, 4);
    assert_eq!(journal.buffer[RING_CAPACITY - 1].sequence, (RING_CAPACITY + 3) as u64);
}

#[test]
fn segment_names_read_back() {
    let name = segment_file_name("process-61.", 42);
    assert_eq!(name, "process-61.segment-00000000000000000042.jsonl");
    assert_eq!(segment_start("process-61.", &name), Some(42));
    assert_eq!(segment_start("process-62.", &name), None);
    assert_eq!(segment_start("process-61.", "process-61.segment-x.jsonl"), None);
}

#[test]
fn stream_names_round_trip() {
    for stream in [LogStream::Stdout, LogStream::Stderr, LogStream::System] {
        assert_eq!(parse_stream(stream_name(stream)), stream);
    }
    assert_eq!(parse_stream("anything"), LogStream::Stdout);
}

#[test]
fn journal_keys_and_legacy_names() {
    assert_eq!(process_journal_key("a/b"), "process-612f62");
    assert_eq!(legacy_safe_name("my app/1.0"), "my_app_1.0");
    let known = vec!["a b".to_string(), "a_b".to_string()];
    assert_eq!(legacy_journal_file("a b", &known), None);
    let single = vec!["web".to_string()];
    assert_eq!(legacy_journal_file("web", &single), Some("process-web.jsonl".to_string()));
}

#[test]
fn journal_rows_are_assembled_in_order() {
    let rows = vec![
        JournalRow {
            sequence: Some(3),
            timestamp: Some("2024-01-01T00:00:00Z".into()),
            stream: Some("stderr".into()),
            line: Some("a".into()),
        },
        JournalRow { sequence: None, timestamp: None, stream: None, line: Some("skipped".into()) },
        JournalRow { sequence: Some(9), timestamp: Some("yesterday".into()), stream: None, line: Some("bad time".into()) },
        JournalRow { sequence: None, timestamp: Some("2024-01-01T01:00:00.5+01:00".into()), stream: None, line: None },
    ];
    let lines = assemble_journal(rows);
    assert_eq!(lines.len(), 2);
    assert_eq!(lines[0].sequence, 3);
    assert_eq!(lines[0].timestamp, 1_704_067_200_000_000_000);
    assert_eq!(lines[0].stream, LogStream::Stderr);
    assert_eq!(lines[1].sequence, 4);
    assert_eq!(lines[1].timestamp, 1_704_067_200_500_000_000);
    assert_eq!(lines[1].line, "");
    let incomplete = JournalRow { sequence: Some(1), timestamp: None, stream: None, line: Some("x".into()) };
    assert!(detached_journal_line(&incomplete).is_none());
    let complete = JournalRow {
        sequence: Some(1),
        timestamp: Some("1970-01-01T00:00:01Z".into()),
        stream: Some("system".into()),
        line: Some("x".into()),
    };
    let line = detached_journal_line(&complete).unwrap();
    assert_eq!((line.sequence, line.timestamp, line.stream), (1, 1_000_000_000, LogStream::System));
}

fn segment(name: &str, first: u64, last: u64) -> SegmentMeta {
    SegmentMeta {
        filename: name.to_string(),
        first_sequence: first,
        last_sequence: last,
        created_at: 0,
        sealed_at: 0,
        byte_len: 10,
    }
}

#[test]
fn durable_reads_skip_what_the_cursor_has_seen() {
    let mut manifest = JournalManifest::empty(0);
    manifest.sealed_segments = vec![segment("a", 1, 10), segment("b", 11, 20)];
    manifest.high_watermark = 25;
    manifest.active_start_sequence = 21;
    assert_eq!(durable_read_plan(&manifest, None), (vec!["a".to_string(), "b".to_string()], true));
    assert_eq!(durable_read_plan(&manifest, Some(10)), (vec!["b".to_string()], true));
    assert_eq!(durable_read_plan(&manifest, Some(24)), (Vec::<String>::new(), true));
    assert_eq!(durable_read_plan(&manifest, Some(25)), (Vec::<String>::new(), false));
}

#[test]
fn sequences_are_durable_monotonic_and_seal_prevents_recreation() {
    let mut journal = SourceJournal::new(0);
    let mut durable = Vec::new();
    for _ in 0..10_001 {
        durable.push(journal.append(line("same"), 5, "run".to_string()).unwrap());
    }
    let page = snapshot(&durable, 10_001, None, None, journal.manifest.high_watermark, None);
    assert_eq!(page.high_watermark, 10_001);
    assert_eq!(page.lines.len(), 10_001);
    assert_eq!(page.lines.first().unwrap().sequence, 1);
    journal.seal();
    assert!(journal.append(line("late"), 5, "run".to_string()).is_err());
    let restarted = SourceJournal::restore(journal.manifest, durable);
    assert_eq!(restarted.tail(0, None, None).high_watermark, 10_001);
    assert_eq!(restarted.buffer.len(), RING_CAPACITY);
}

#[test]
fn run_cursor_recovers_past_the_memory_window_before_applying_limit() {
    let mut journal = SourceJournal::new(0);
    let mut durable = Vec::new();
    for sequence in 1..=10_001 {
        durable.push(journal.append(line(&format!("line-{sequence}")), 5, "run".to_string()).unwrap());
    }
    let (segments, active) = durable_read_plan(&journal.manifest, Some(0));
    assert!(segments.is_empty());
    assert!(active);
    let page = snapshot(&durable, 3, None, Some(0), journal.manifest.high_watermark, None);
    assert_eq!(page.lines.iter().map(|line| line.sequence).collect::<Vec<_>>(), vec![9_999, 10_000, 10_001]);
    assert!(page.truncated);
    assert_eq!((page.high_watermark, page.next_sequence), (10_001, 10_002));
}

#[test]
fn subscribe_snapshot_boundary_has_no_duplicate_sequences() {
    let mut journal = SourceJournal::new(0);
    journal.append(line("before"), 5, "process".to_string()).unwrap();
    let page = journal.tail(100, None, None);
    let live = journal
        .append(LogLine { stream: LogStream::Stderr, ..line("after") }, 5, "process".to_string())
        .unwrap();
    assert_eq!(page.high_watermark, 1);
    assert_eq!(page.lines[0].sequence, 1);
    assert_eq!(live.sequence, 2);
}

#[test]
fn legacy_collision_is_quarantined_and_singleton_history_migrates_once() {
    let colliding = vec!["a/b".to_string(), "a?b".to_string()];
    assert_eq!(legacy_journal_file("a/b", &colliding), None);
    let singleton = vec!["a/b".to_string()];
    assert_eq!(legacy_journal_file("a/b", &singleton), Some("process-a_b.jsonl".to_string()));
    let historic = assemble_journal(vec![JournalRow {
        sequence: Some(1),
        timestamp: Some("2026-01-01T00:00:00Z".into()),
        stream: Some("stdout".into()),
        line: Some("historic".into()),
    }]);
    assert_eq!(historic.iter().map(|line| line.line.as_str()).collect::<Vec<_>>(), vec!["historic"]);
    let manifest = JournalManifest::rebuild(0, Some((1, historic[0].timestamp)), Some(1), 80);
    let mut journal = SourceJournal::restore(manifest, historic);
    let appended = journal.append(line("new"), 5, "a/b".to_string()).unwrap();
    assert_eq!(appended.sequence, 2);
    assert_eq!(journal.tail(0, None, None).lines.len(), 2);
}

#[test]
fn segment_names_sort_like_their_starts() {
    let starts = [0u64, 9, 10, 99, 100, 12_345, u64::MAX];
    for pair in starts.windows(2) {
        assert!(segment_file_name("p-", pair[0]) < segment_file_name("p-", pair[1]));
    }
}

#[test]
fn row_times_keep_nanoseconds() {
    let row = JournalRow {
        sequence: Some(3),
        timestamp: Some("1970-01-01T00:00:01.000000001Z".into()),
        stream: Some("stdout".into()),
        line: Some("x".into()),
    };
    assert_eq!(detached_journal_line(&row).unwrap().timestamp, 1_000_000_001);
    let before_epoch = JournalRow {
        sequence: Some(4),
        timestamp: Some("1969-12-31T23:59:59.5Z".into()),
        stream: None,
        line: Some("y".into()),
    };
    assert_eq!(detached_journal_line(&before_epoch).unwrap().timestamp, -500_000_000);
}

fn meta(name: &str, first: u64, last: u64) -> SegmentMeta {
    SegmentMeta { filename: name.into(), first_sequence: first, last_sequence: last, created_at: 0, sealed_at: 0, byte_len: 10 }
}

#[test]
fn repair_adopts_unlisted_segments_and_never_moves_back() {
    let mut m = JournalManifest::empty(0);
    m.next_sequence = 5;
    m.high_watermark = 4;
    m.sealed_segments = vec![meta("p-segment-00000000000000000003.jsonl", 3, 4)];
    m.deleted_segments = vec!["p-segment-00000000000000000001.jsonl".into()];
    let found = vec![
        FoundSegment { name: "p-segment-00000000000000000003.jsonl".into(), first: Some((3, 7)), last: Some(4), byte_len: 10 },
        FoundSegment { name: "p-segment-00000000000000000009.jsonl".into(), first: Some((9, 70)), last: Some(12), byte_len: 20 },
        FoundSegment { name: "p-segment-00000000000000000001.jsonl".into(), first: None, last: None, byte_len: 0 },
        FoundSegment { name: "q-segment-00000000000000000020.jsonl".into(), first: Some((20, 1)), last: Some(30), byte_len: 5 },
        FoundSegment { name: "p-notes.txt".into(), first: Some((40, 1)), last: Some(41), byte_len: 5 },
    ];
    m.repair("p-", Some(13), Some(14), 99, true, found, 1_000);
    assert!(m.deleted_segments.is_empty());
    let names: Vec<&str> = m.sealed_segments.iter().map(|s| s.filename.as_str()).collect();
    assert_eq!(names, ["p-segment-00000000000000000003.jsonl", "p-segment-00000000000000000009.jsonl"]);
    assert_eq!(m.sealed_segments[1].first_sequence, 9);
    assert_eq!(m.sealed_segments[1].created_at, 70);
    assert_eq!(m.sealed_segments[1].sealed_at, 1_000);
    assert_eq!(m.high_watermark, 14);
    assert_eq!(m.next_sequence, 15);
    assert_eq!(m.active_start_sequence, 13);
    assert_eq!(m.active_byte_len, 99);
}

#[test]
fn repair_without_active_file_starts_at_next_sequence() {
    let mut m = JournalManifest::empty(0);
    m.next_sequence = 8;
    m.high_watermark = 7;
    m.repair("p-", None, None, 0, false, Vec::new(), 5);
    assert_eq!(m.active_start_sequence, 8);
    assert_eq!(m.active_created_at, 5);
    assert_eq!(m.active_byte_len, 0);
    assert_eq!(m.next_sequence, 8);
}
