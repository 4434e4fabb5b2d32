//! The envelope of pushed events, and the control frames of the live log
//! stream.

use vstd::prelude::*;

verus! {

/// JSON values are carried through as they are.
#[verifier::external_type_specification]
#[verifier::external_body]
pub struct ExJsonValue(serde_json::Value);

/// One pushed event: its stable type key, when it happened (nanoseconds
/// since the Unix epoch) and its event-specific JSON payload.
#[derive(Debug)]
pub struct EventEnvelope {
    pub event_type: String,
    pub timestamp: i128,
    pub payload: serde_json::Value,
}

impl EventEnvelope {
    /// An event of `event_type` stamped `now`.
    pub fn new(event_type: String, payload: serde_json::Value, now: i128) -> (e: Self)
        ensures
            e.event_type@ == event_type@,
            e.timestamp == now,
            e.payload == payload,
    {
        EventEnvelope { event_type, timestamp: now, payload }
    }
}

/// Type tag of the frame that reports dropped lines (`log.dropped`).
#[derive(Debug, Clone, Copy, PartialEq, Eq, Structural)]
pub enum LogDroppedType {
    LogDropped,
}

/// How many lines a subscriber missed.
#[derive(Debug, Clone, Copy, PartialEq, Eq, Structural)]
pub struct LogDroppedPayload {
    pub count: u64,
}

/// Frame inserted into a log stream when lines were dropped.
#[derive(Debug, Clone, Copy, PartialEq, Eq, Structural)]
pub struct LogDroppedFrame {
    pub frame_type: LogDroppedType,
    pub payload: LogDroppedPayload,
}

} // verus!
