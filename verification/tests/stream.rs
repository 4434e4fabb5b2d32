use msv_supervisor::journal::{LogLine, LogStream};
use msv_supervisor::stream::LogFollow;

fn page(sequences: &[u64]) -> Vec<LogLine> {
    sequences
        .iter()
        .map(|s| LogLine { sequence: *s, timestamp: 0, stream: LogStream::Stdout, line: "x".into() })
        .collect()
}

#[test]
fn snapshot_boundary_has_no_duplicate_sequences() {
    let mut follow = LogFollow::after_page(&page(&[98, 99, 100]), 100);
    let forwarded: Vec<u64> = [99u64, 100, 101, 101, 0, 102, 50, 0]
        .into_iter()
        .filter(|s| follow.accept(*s))
        .collect();
    assert_eq!(forwarded, vec![101, 0, 102, 0]);
    assert_eq!(follow.last_sequence, 102);
}

#[test]
fn empty_page_resumes_from_the_high_watermark() {
    let mut follow = LogFollow::after_page(&page(&[]), 7);
    assert_eq!(follow.last_sequence, 0);
    assert!(!follow.accept(7));
    assert!(follow.accept(8));
}
