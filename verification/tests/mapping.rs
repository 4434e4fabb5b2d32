use msv_supervisor::api::LogStreamDto;
use msv_supervisor::journal::{LogLine, LogPage, LogStream};
use msv_supervisor::mapping::{log_line_to_dto, log_page_to_dto, log_stream_to_dto};

const NOW_NANOS: i128 = 1_700_000_000_000_000_000;

#[test]
fn log_response_exposes_durable_cursor_fields() {
    let response = log_page_to_dto(LogPage {
        lines: vec![LogLine {
            sequence: 7,
            timestamp: NOW_NANOS,
            stream: LogStream::Stdout,
            line: "same line".into(),
        }],
        truncated: true,
        dropped_count: 3,
        high_watermark: 7,
        next_sequence: 8,
        earliest_retained_sequence: None,
        cursor_expired: false,
    });

    assert_eq!(response.lines[0].sequence, 7);
    assert!(response.truncated);
    assert_eq!(response.high_watermark, 7);
    assert_eq!(response.next_sequence, 8);
}

#[test]
fn cursor_pages_preserve_repeated_lines_without_content_deduplication() {
    let page = LogPage {
        lines: (1..=10_001)
            .map(|sequence| LogLine {
                sequence,
                timestamp: NOW_NANOS,
                stream: LogStream::Stdout,
                line: "repeat".into(),
            })
            .collect(),
        truncated: false,
        dropped_count: 0,
        high_watermark: 10_001,
        next_sequence: 10_002,
        earliest_retained_sequence: Some(1),
        cursor_expired: false,
    };

    let dto = log_page_to_dto(page);
    let recovered: Vec<_> = dto
        .lines
        .iter()
        .filter(|line| line.sequence > 10_000)
        .collect();
    assert_eq!(recovered.len(), 1);
    assert_eq!(recovered[0].sequence, 10_001);
    assert_eq!(recovered[0].line, "repeat");
}

#[test]
fn log_line_mapping_keeps_every_field() {
    let line = LogLine {
        sequence: 42,
        timestamp: -5,
        stream: LogStream::Stderr,
        line: "boom".into(),
    };
    let dto = log_line_to_dto(&line);
    assert_eq!(dto.sequence, 42);
    assert_eq!(dto.timestamp, -5);
    assert_eq!(dto.stream, LogStreamDto::Stderr);
    assert_eq!(dto.line, "boom");
    assert_eq!(log_stream_to_dto(LogStream::System), LogStreamDto::System);
    assert_eq!(log_stream_to_dto(LogStream::Stdout), LogStreamDto::Stdout);
}

#[test]
fn page_mapping_keeps_order_and_all_cursor_fields() {
    let page = LogPage {
        lines: vec![
            LogLine { sequence: 3, timestamp: 10, stream: LogStream::System, line: "a".into() },
            LogLine { sequence: 4, timestamp: 11, stream: LogStream::Stdout, line: "a".into() },
        ],
        truncated: false,
        dropped_count: 9,
        high_watermark: 4,
        next_sequence: 5,
        earliest_retained_sequence: Some(2),
        cursor_expired: true,
    };
    let dto = log_page_to_dto(page);
    assert_eq!(dto.lines.len(), 2);
    assert_eq!(dto.lines[0].sequence, 3);
    assert_eq!(dto.lines[1].sequence, 4);
    assert_eq!(dto.dropped_count, 9);
    assert_eq!(dto.earliest_retained_sequence, Some(2));
    assert!(dto.cursor_expired);
}
