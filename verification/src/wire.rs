//! The shared public envelope of published events: a stable type key, the
//! time the event happened (or, for an event without one, the time it is
//! sent), its payload fields and, when it has one, its durable event id.
//! Every transport that forwards events uses this one mapping, so event ids
//! and timestamps stay the same across transports.

use vstd::prelude::*;

use crate::api::ProcessStateDto;
use crate::instant::{instant_parts, split_instant};
use crate::repr::{format_uuid, uuid_text};

verus! {

/// A published supervisor event, with identifiers as 128-bit UUIDs.
#[derive(Debug)]
pub enum WireEvent {
    ProcessStateChanged {
        name: String,
        from: ProcessStateDto,
        to: ProcessStateDto,
        definition_id: u128,
        instance_id: Option<u128>,
        generation: u64,
    },
    /// `guard` is the guard's status record, already in its wire form.
    ProcessGuardChanged { name: String, definition_id: u128, guard: serde_json::Value },
    JobRunScheduled { name: String, run_id: u128 },
    JobRunStarted { name: String, run_id: u128 },
    JobRunSucceeded { name: String, run_id: u128, exit_code: Option<i32> },
    JobRunFailed { name: String, run_id: u128, exit_code: Option<i32> },
    JobRunTimedOut { name: String, run_id: u128 },
    JobRunCancelled { name: String, run_id: u128 },
    JobRunSkipped { name: String, run_id: u128, reason: String },
}

/// One payload value.
#[derive(Debug)]
pub enum WireValue {
    Text(String),
    Unsigned(u64),
    Signed(i64),
    Null,
    /// A value that is already in its wire form.
    Json(serde_json::Value),
}

/// The envelope of one event: `type`, `timestamp` (nanoseconds since the
/// Unix epoch, written out by `rfc3339_timestamp`), the payload's fields in order, and `event_id` when known.
#[derive(Debug)]
pub struct WireEnvelope {
    pub event_type: String,
    pub timestamp: i128,
    pub payload: Vec<(String, WireValue)>,
    pub event_id: Option<String>,
}

pub enum ValueView {
    Text(Seq<char>),
    Unsigned(u64),
    Signed(i64),
    Null,
    Json(serde_json::Value),
}

pub open spec fn value_view(v: WireValue) -> ValueView {
    match v {
        WireValue::Text(t) => ValueView::Text(t@),
        WireValue::Unsigned(n) => ValueView::Unsigned(n),
        WireValue::Signed(n) => ValueView::Signed(n),
        WireValue::Null => ValueView::Null,
        WireValue::Json(j) => ValueView::Json(j),
    }
}

pub open spec fn payload_view(p: Seq<(String, WireValue)>) -> Seq<(Seq<char>, ValueView)> {
    p.map_values(|f: (String, WireValue)| (f.0@, value_view(f.1)))
}

/// The wire spelling of a process state.
pub open spec fn state_text(s: ProcessStateDto) -> Seq<char> {
    match s {
        ProcessStateDto::Starting => "starting"@,
        ProcessStateDto::Running => "running"@,
        ProcessStateDto::Stopping => "stopping"@,
        ProcessStateDto::Crashed => "crashed"@,
        ProcessStateDto::Stopped => "stopped"@,
    }
}

/// The stable type key of an event.
pub open spec fn event_type_key(e: WireEvent) -> Seq<char> {
    match e {
        WireEvent::ProcessStateChanged { .. } => "process.state_changed"@,
        WireEvent::ProcessGuardChanged { .. } => "process.guard_changed"@,
        WireEvent::JobRunScheduled { .. } => "job.run_scheduled"@,
        WireEvent::JobRunStarted { .. } => "job.run_started"@,
        WireEvent::JobRunSucceeded { .. } => "job.run_succeeded"@,
        WireEvent::JobRunFailed { .. } => "job.run_failed"@,
        WireEvent::JobRunTimedOut { .. } => "job.run_timed_out"@,
        WireEvent::JobRunCancelled { .. } => "job.run_cancelled"@,
        WireEvent::JobRunSkipped { .. } => "job.run_skipped"@,
    }
}

pub open spec fn exit_value(code: Option<i32>) -> ValueView {
    match code {
        Some(c) => ValueView::Signed(c as i64),
        None => ValueView::Null,
    }
}

/// The payload fields of an event, in order.
pub open spec fn event_payload(e: WireEvent) -> Seq<(Seq<char>, ValueView)> {
    match e {
        WireEvent::ProcessStateChanged { name, from, to, definition_id, instance_id, generation } => seq![
            ("name"@, ValueView::Text(name@)),
            ("from"@, ValueView::Text(state_text(from))),
            ("to"@, ValueView::Text(state_text(to))),
            ("definition_id"@, ValueView::Text(uuid_text(definition_id))),
            (
                "instance_id"@,
                match instance_id {
                    Some(i) => ValueView::Text(uuid_text(i)),
                    None => ValueView::Null,
                },
            ),
            ("generation"@, ValueView::Unsigned(generation)),
        ],
        WireEvent::ProcessGuardChanged { name, definition_id, guard } => seq![
            ("name"@, ValueView::Text(name@)),
            ("definition_id"@, ValueView::Text(uuid_text(definition_id))),
            ("guard"@, ValueView::Json(guard)),
        ],
        WireEvent::JobRunSucceeded { name, run_id, exit_code } => seq![
            ("name"@, ValueView::Text(name@)),
            ("run_id"@, ValueView::Text(uuid_text(run_id))),
            ("exit_code"@, exit_value(exit_code)),
        ],
        WireEvent::JobRunFailed { name, run_id, exit_code } => seq![
            ("name"@, ValueView::Text(name@)),
            ("run_id"@, ValueView::Text(uuid_text(run_id))),
            ("exit_code"@, exit_value(exit_code)),
        ],
        WireEvent::JobRunSkipped { name, run_id, reason } => seq![
            ("name"@, ValueView::Text(name@)),
            ("run_id"@, ValueView::Text(uuid_text(run_id))),
            ("reason"@, ValueView::Text(reason@)),
        ],
        WireEvent::JobRunScheduled { name, run_id } => run_fields(name@, run_id),
        WireEvent::JobRunStarted { name, run_id } => run_fields(name@, run_id),
        WireEvent::JobRunTimedOut { name, run_id } => run_fields(name@, run_id),
        WireEvent::JobRunCancelled { name, run_id } => run_fields(name@, run_id),
    }
}

pub open spec fn run_fields(name: Seq<char>, run_id: u128) -> Seq<(Seq<char>, ValueView)> {
    seq![("name"@, ValueView::Text(name)), ("run_id"@, ValueView::Text(uuid_text(run_id)))]
}

/// What `chrono` writes for an instant given as whole seconds and
/// nanoseconds past them (`None` when no date-time holds it).
pub uninterp spec fn rfc3339_text(seconds: i64, nanos: u32) -> Option<Seq<char>>;

/// `chrono::DateTime::from_timestamp(seconds, nanos)` written with
/// `to_rfc3339`: the contract claims only that the result is
/// `rfc3339_text` of the arguments.
#[verifier::external_body]
fn format_rfc3339(seconds: i64, nanos: u32) -> (r: Option<String>)
    ensures
        match r {
            Some(t) => rfc3339_text(seconds, nanos) == Some(t@),
            None => rfc3339_text(seconds, nanos) is None,
        },
{
    chrono::DateTime::from_timestamp(seconds, nanos).map(|t| t.to_rfc3339())
}

/// The RFC 3339 text of an instant given in nanoseconds since the Unix
/// epoch, as `chrono` writes it (`None` when no date-time holds it).
pub fn rfc3339_timestamp(t: i128) -> (r: Option<String>)
    ensures
        match instant_parts(t) {
            Some((s, n)) => match r {
                Some(x) => rfc3339_text(s, n) == Some(x@),
                None => rfc3339_text(s, n) is None,
            },
            None => r is None,
        },
{
    match split_instant(t) {
        Some((s, n)) => format_rfc3339(s, n),
        None => None,
    }
}

/// The wire spelling of a process state.
pub fn state_wire_text(s: ProcessStateDto) -> (r: &'static str)
    ensures
        r@ == state_text(s),
{
    match s {
        ProcessStateDto::Starting => "starting",
        ProcessStateDto::Running => "running",
        ProcessStateDto::Stopping => "stopping",
        ProcessStateDto::Crashed => "crashed",
        ProcessStateDto::Stopped => "stopped",
    }
}

fn field(name: &str, value: WireValue) -> (r: (String, WireValue))
    ensures
        r.0@ == name@,
        r.1 == value,
{
    (name.to_string(), value)
}

fn uuid_value(id: u128) -> (r: WireValue)
    ensures
        value_view(r) == ValueView::Text(uuid_text(id)),
{
    WireValue::Text(format_uuid(id))
}

fn exit_wire(code: Option<i32>) -> (r: WireValue)
    ensures
        value_view(r) == exit_value(code),
{
    match code {
        Some(c) => WireValue::Signed(c as i64),
        None => WireValue::Null,
    }
}

/// The envelope of a published event: its type key and payload, stamped
/// with when it happened (`now` only for an event that does not say), and
/// carrying its durable id when it has one.
pub fn event_wire(e: WireEvent, occurred_at: Option<i128>, now: i128, event_id: Option<u128>) -> (w: WireEnvelope)
    ensures
        w.event_type@ == event_type_key(e),
        payload_view(w.payload@) == event_payload(e),
        w.timestamp == (match occurred_at {
            Some(t) => t,
            None => now,
        }),
        match event_id {
            Some(id) => w.event_id matches Some(t) && t@ == uuid_text(id),
            None => w.event_id is None,
        },
{
    let ghost ev = e;
    let mut payload: Vec<(String, WireValue)> = Vec::new();
    let event_type: &str;
    match e {
        WireEvent::ProcessStateChanged { name, from, to, definition_id, instance_id, generation } => {
            event_type = "process.state_changed";
            payload.push(field("name", WireValue::Text(name)));
            payload.push(field("from", WireValue::Text(state_wire_text(from).to_string())));
            payload.push(field("to", WireValue::Text(state_wire_text(to).to_string())));
            payload.push(field("definition_id", uuid_value(definition_id)));
            let instance = match instance_id {
                Some(i) => uuid_value(i),
                None => WireValue::Null,
            };
            payload.push(field("instance_id", instance));
            payload.push(field("generation", WireValue::Unsigned(generation)));
        },
        WireEvent::ProcessGuardChanged { name, definition_id, guard } => {
            event_type = "process.guard_changed";
            payload.push(field("name", WireValue::Text(name)));
            payload.push(field("definition_id", uuid_value(definition_id)));
            payload.push(field("guard", WireValue::Json(guard)));
        },
        WireEvent::JobRunScheduled { name, run_id } => {
            event_type = "job.run_scheduled";
            payload.push(field("name", WireValue::Text(name)));
            payload.push(field("run_id", uuid_value(run_id)));
        },
        WireEvent::JobRunStarted { name, run_id } => {
            event_type = "job.run_started";
            payload.push(field("name", WireValue::Text(name)));
            payload.push(field("run_id", uuid_value(run_id)));
        },
        WireEvent::JobRunSucceeded { name, run_id, exit_code } => {
            event_type = "job.run_succeeded";
            payload.push(field("name", WireValue::Text(name)));
            payload.push(field("run_id", uuid_value(run_id)));
            payload.push(field("exit_code", exit_wire(exit_code)));
        },
        WireEvent::JobRunFailed { name, run_id, exit_code } => {
            event_type = "job.run_failed";
            payload.push(field("name", WireValue::Text(name)));
            payload.push(field("run_id", uuid_value(run_id)));
            payload.push(field("exit_code", exit_wire(exit_code)));
        },
        WireEvent::JobRunTimedOut { name, run_id } => {
            event_type = "job.run_timed_out";
            payload.push(field("name", WireValue::Text(name)));
            payload.push(field("run_id", uuid_value(run_id)));
        },
        WireEvent::JobRunCancelled { name, run_id } => {
            event_type = "job.run_cancelled";
            payload.push(field("name", WireValue::Text(name)));
            payload.push(field("run_id", uuid_value(run_id)));
        },
        WireEvent::JobRunSkipped { name, run_id, reason } => {
            event_type = "job.run_skipped";
            payload.push(field("name", WireValue::Text(name)));
            payload.push(field("run_id", uuid_value(run_id)));
            payload.push(field("reason", WireValue::Text(reason)));
        },
    }
    proof {
        assert(payload_view(payload@) =~= event_payload(ev));
    }
    let timestamp = match occurred_at {
        Some(t) => t,
        None => now,
    };
    let id = match event_id {
        Some(i) => Some(format_uuid(i)),
        None => None,
    };
    WireEnvelope { event_type: event_type.to_string(), timestamp, payload, event_id: id }
}

} // verus!
