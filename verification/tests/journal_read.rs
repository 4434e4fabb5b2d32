use msv_supervisor::journal::{LogLine, LogStream};
use msv_supervisor::journal_read::{
    detached_journal_file, detached_read, legacy_detached_log_files, legacy_log_lines, legacy_tail,
    merge_by_sequence, segments_to_read,
    unmanifested_read, DetachedManifest, DetachedSegment, FileFollower, FollowStep,
};

fn line(sequence: u64, text: &str) -> LogLine {
    LogLine { sequence, timestamp: 10, stream: LogStream::Stdout, line: text.to_string() }
}

fn texts(lines: &[LogLine]) -> Vec<(u64, String)> {
    lines.iter().map(|l| (l.sequence, l.line.clone())).collect()
}

#[test]
fn legacy_lines_have_no_sequence_or_time() {
    let lines = legacy_log_lines("one\r\ntwo\n\nthree", 0, LogStream::Stderr);
    let got: Vec<(u64, i128, LogStream, String)> =
        lines.iter().map(|l| (l.sequence, l.timestamp, l.stream, l.line.clone())).collect();
    assert_eq!(
        got,
        vec![
            (0, 0, LogStream::Stderr, "one".to_string()),
            (0, 0, LogStream::Stderr, "two".to_string()),
            (0, 0, LogStream::Stderr, String::new()),
            (0, 0, LogStream::Stderr, "three".to_string()),
        ]
    );
    let last_two = legacy_log_lines("a\nb\nc\n", 2, LogStream::Stdout);
    assert_eq!(texts(&last_two), vec![(0, "b".to_string()), (0, "c".to_string())]);
    assert!(legacy_log_lines("", 0, LogStream::Stdout).is_empty());
}

#[test]
fn legacy_tail_keeps_the_newest_lines_without_a_cursor() {
    let out = legacy_log_lines("o1\no2\n", 0, LogStream::Stdout);
    let err = legacy_log_lines("e1\n", 0, LogStream::Stderr);
    let tail = legacy_tail(out, err, 2);
    assert_eq!(texts(&tail.lines), vec![(0, "o2".to_string()), (0, "e1".to_string())]);
    assert!(tail.truncated);
    assert_eq!(tail.high_watermark, 0);
    assert_eq!(tail.next_sequence, 1);
    assert_eq!(tail.earliest_retained_sequence, None);
    assert!(!tail.cursor_expired);
    let all = legacy_tail(legacy_log_lines("x\n", 0, LogStream::Stdout), Vec::new(), 0);
    assert_eq!(all.lines.len(), 1);
    assert!(!all.truncated);
}

fn manifest(high: u64, active_start: u64, segments: &[(&str, u64, u64)]) -> DetachedManifest {
    DetachedManifest {
        high_watermark: high,
        active_start_sequence: active_start,
        sealed_segments: segments
            .iter()
            .map(|(f, a, b)| DetachedSegment {
                filename: f.to_string(),
                first_sequence: *a,
                last_sequence: *b,
            })
            .collect(),
    }
}

#[test]
fn segments_before_the_cursor_are_not_read() {
    let m = manifest(30, 21, &[("s1", 1, 10), ("s2", 11, 20)]);
    assert_eq!(segments_to_read(&m, None), vec!["s1", "s2"]);
    assert_eq!(segments_to_read(&m, Some(10)), vec!["s2"]);
    assert_eq!(segments_to_read(&m, Some(20)), Vec::<String>::new());
}

#[test]
fn merge_keeps_the_first_line_of_each_sequence_in_order() {
    let read = vec![line(3, "seg-3"), line(1, "seg-1"), line(3, "active-3"), line(2, "active-2")];
    let merged = merge_by_sequence(&read);
    assert_eq!(
        texts(&merged),
        vec![(1, "seg-1".to_string()), (2, "active-2".to_string()), (3, "seg-3".to_string())]
    );
    assert!(merge_by_sequence(&Vec::new()).is_empty());
}

#[test]
fn a_read_behind_the_manifest_is_retried_until_the_last_attempt() {
    let m = manifest(5, 1, &[]);
    let behind = detached_read(&m, None, &vec![line(1, "a"), line(2, "b")], 0);
    assert_eq!(behind.high_watermark, 2);
    assert_eq!(behind.earliest_retained_sequence, Some(1));
    assert!(!behind.settled);
    let last = detached_read(&m, None, &vec![line(1, "a"), line(2, "b")], 7);
    assert!(last.settled);
    let caught_up = detached_read(&m, None, &vec![line(5, "e")], 0);
    assert!(caught_up.settled);
}

#[test]
fn the_watermark_never_falls_below_a_confirmed_cursor() {
    let m = manifest(9, 8, &[("s", 4, 7)]);
    let r = detached_read(&m, Some(9), &Vec::new(), 0);
    assert_eq!(r.high_watermark, 9);
    assert!(r.settled);
    assert_eq!(r.earliest_retained_sequence, Some(4));
    let cursor_ahead = detached_read(&m, Some(12), &Vec::new(), 0);
    assert_eq!(cursor_ahead.high_watermark, 9);
    let empty_active = detached_read(&manifest(0, 1, &[]), None, &Vec::new(), 0);
    assert_eq!(empty_active.earliest_retained_sequence, None);
    assert_eq!(empty_active.high_watermark, 0);
    assert!(empty_active.settled);
}

#[test]
fn a_journal_without_manifest_reports_what_it_holds() {
    let (lines, high, earliest) = unmanifested_read(vec![line(4, "x"), line(9, "y"), line(7, "z")]);
    assert_eq!(lines.len(), 3);
    assert_eq!(high, 9);
    assert_eq!(earliest, Some(4));
    let (none, zero, nothing) = unmanifested_read(Vec::new());
    assert!(none.is_empty());
    assert_eq!(zero, 0);
    assert_eq!(nothing, None);
}

#[test]
fn follower_reads_only_what_was_appended() {
    let mut follower = FileFollower::new(10);
    assert_eq!(follower.observe_len(10), FollowStep::Idle);
    assert_eq!(follower.observe_len(23), FollowStep::ReadFrom(10));
    assert_eq!(follower.absorb(b"{\"a\":1}\r\n{\"b\""), vec!["{\"a\":1}".to_string()]);
    assert_eq!(follower.observe_len(23), FollowStep::Idle);
    assert_eq!(follower.absorb(b":2}\n"), vec!["{\"b\":2}".to_string()]);
    assert_eq!(follower.observe_len(27), FollowStep::Idle);
}

#[test]
fn follower_starts_over_when_the_file_shrinks() {
    let mut follower = FileFollower::new(0);
    assert_eq!(follower.observe_len(4), FollowStep::ReadFrom(0));
    assert!(follower.absorb(b"half").is_empty());
    assert_eq!(follower.observe_len(2), FollowStep::ReadFrom(0));
    assert_eq!(follower.absorb(b"x\n"), vec!["x".to_string()]);
    assert_eq!(follower.observe_len(0), FollowStep::Idle);
}

#[test]
fn follower_replaces_invalid_utf8() {
    let mut follower = FileFollower::new(0);
    assert_eq!(follower.absorb(&[0x61, 0xff, 0x0a]), vec!["a\u{fffd}".to_string()]);
}

#[test]
fn detached_file_names() {
    assert_eq!(detached_journal_file("web"), "direct-776562.jsonl");
    assert_eq!(detached_journal_file(""), "direct-.jsonl");
    assert_eq!(
        legacy_detached_log_files("my app/1"),
        ("direct-my_app_1.stdout.log".to_string(), "direct-my_app_1.stderr.log".to_string())
    );
}

#[test]
fn file_follower_emits_only_new_complete_lines() {
    let existing = b"old line\n";
    let mut follower = FileFollower::new(existing.len() as u64);
    assert_eq!(follower.observe_len(existing.len() as u64), FollowStep::Idle);
    let appended = b"new line\n";
    let grown = (existing.len() + appended.len()) as u64;
    assert_eq!(follower.observe_len(grown), FollowStep::ReadFrom(existing.len() as u64));
    assert_eq!(follower.absorb(appended), vec!["new line".to_string()]);
}
