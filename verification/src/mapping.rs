//! Conversion of journal pages into their wire records.

use vstd::prelude::*;

use crate::api::{LogLineDto, LogStreamDto, LogsResponseDto};
use crate::journal::{LogLine, LogPage, LogStream};

verus! {

/// The wire stream of a journal stream.
pub open spec fn stream_dto(s: LogStream) -> LogStreamDto {
    match s {
        LogStream::Stdout => LogStreamDto::Stdout,
        LogStream::Stderr => LogStreamDto::Stderr,
        LogStream::System => LogStreamDto::System,
    }
}

/// Whether `dto` carries exactly the fields of `line`.
pub open spec fn line_dto_matches(dto: LogLineDto, line: LogLine) -> bool {
    &&& dto.sequence == line.sequence
    &&& dto.timestamp == line.timestamp
    &&& dto.stream == stream_dto(line.stream)
    &&& dto.line@ == line.line@
}

/// The wire stream of a journal stream.
pub fn log_stream_to_dto(s: LogStream) -> (r: LogStreamDto)
    ensures
        r == stream_dto(s),
{
    match s {
        LogStream::Stdout => LogStreamDto::Stdout,
        LogStream::Stderr => LogStreamDto::Stderr,
        LogStream::System => LogStreamDto::System,
    }
}

/// The wire record of one journal line.
pub fn log_line_to_dto(line: &LogLine) -> (r: LogLineDto)
    ensures
        line_dto_matches(r, *line),
{
    LogLineDto {
        sequence: line.sequence,
        timestamp: line.timestamp,
        stream: log_stream_to_dto(line.stream),
        line: line.line.clone(),
    }
}

/// The wire record of a page: every line converted in order, with no line
/// merged or dropped, and the cursor fields carried over unchanged.
pub fn log_page_to_dto(page: LogPage) -> (r: LogsResponseDto)
    ensures
        r.lines.len() == page.lines.len(),
        forall|i: int| 0 <= i < page.lines.len() ==> line_dto_matches(#[trigger] r.lines@[i], page.lines@[i]),
        r.truncated == page.truncated,
        r.dropped_count == page.dropped_count,
        r.high_watermark == page.high_watermark,
        r.next_sequence == page.next_sequence,
        r.earliest_retained_sequence == page.earliest_retained_sequence,
        r.cursor_expired == page.cursor_expired,
{
    let mut lines: Vec<LogLineDto> = Vec::new();
    let mut i: usize = 0;
    while i < page.lines.len()
        invariant
            i <= page.lines.len(),
            lines.len() == i,
            forall|j: int| 0 <= j < i ==> line_dto_matches(#[trigger] lines@[j], page.lines@[j]),
        decreases page.lines.len() - i,
    {
        let dto = log_line_to_dto(&page.lines[i]);
        lines.push(dto);
        i = i + 1;
    }
    LogsResponseDto {
        lines,
        truncated: page.truncated,
        dropped_count: page.dropped_count,
        high_watermark: page.high_watermark,
        next_sequence: page.next_sequence,
        earliest_retained_sequence: page.earliest_retained_sequence,
        cursor_expired: page.cursor_expired,
    }
}

} // verus!
