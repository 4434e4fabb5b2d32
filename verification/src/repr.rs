//! Stored forms of a job's trigger and of what started a run, as the state
//! store keeps them.  Instants are nanoseconds since the Unix epoch; ids are
//! UUIDs as 128-bit numbers, stored as their hyphenated text.

use vstd::prelude::*;

use crate::hex::hex_digit;
use crate::paging::{parse_uuid, uuid_parse};
use vstd::arithmetic::power::pow;
use crate::scheduler::{ScheduleTrigger, TriggerView};

verus! {

/// A trigger as it is stored.
#[derive(Debug)]
pub enum TriggerRepr {
    Cron { expr: String },
    Interval { every_sec: u64 },
    OneShot { at: i128 },
    DependsOn { jobs: Vec<String> },
}

impl View for TriggerRepr {
    type V = TriggerView;

    open spec fn view(&self) -> TriggerView {
        match self {
            TriggerRepr::Cron { expr } => TriggerView::Cron(expr@),
            TriggerRepr::Interval { every_sec } => TriggerView::Interval(*every_sec),
            TriggerRepr::OneShot { at } => TriggerView::OneShot(*at),
            TriggerRepr::DependsOn { jobs } => TriggerView::DependsOn(jobs@.map_values(|j: String| j@)),
        }
    }
}

/// The stored form of a trigger.
pub fn trigger_repr(trigger: &ScheduleTrigger) -> (r: TriggerRepr)
    ensures
        r@ == trigger@,
{
    match trigger.clone() {
        ScheduleTrigger::Cron(expr) => TriggerRepr::Cron { expr },
        ScheduleTrigger::Interval(every_sec) => TriggerRepr::Interval { every_sec },
        ScheduleTrigger::OneShot(at) => TriggerRepr::OneShot { at },
        ScheduleTrigger::DependsOn(jobs) => TriggerRepr::DependsOn { jobs },
    }
}

/// The trigger a stored form holds.
pub fn trigger_of_repr(stored: TriggerRepr) -> (t: ScheduleTrigger)
    ensures
        t@ == stored@,
{
    match stored {
        TriggerRepr::Cron { expr } => ScheduleTrigger::Cron(expr),
        TriggerRepr::Interval { every_sec } => ScheduleTrigger::Interval(every_sec),
        TriggerRepr::OneShot { at } => ScheduleTrigger::OneShot(at),
        TriggerRepr::DependsOn { jobs } => ScheduleTrigger::DependsOn(jobs),
    }
}

/// What started a job run.
#[derive(Debug, Clone, Copy, PartialEq, Eq, Structural)]
pub enum RunTrigger {
    Schedule,
    Scheduled { trigger_id: u128, schedule_revision: u64, scheduled_at: i128, attempt: u16 },
    Manual,
    Dependency { upstream_run_id: u128 },
}

/// What started a run, as it is stored (ids as text).
#[derive(Debug)]
pub enum TriggeredByRepr {
    Schedule,
    Scheduled { trigger_id: String, schedule_revision: u64, scheduled_at: i128, attempt: u16 },
    Manual,
    Dependency { upstream_run_id: String },
}

pub enum TriggeredByView {
    Schedule,
    Scheduled { trigger_id: Seq<char>, schedule_revision: u64, scheduled_at: i128, attempt: u16 },
    Manual,
    Dependency { upstream_run_id: Seq<char> },
}

impl View for TriggeredByRepr {
    type V = TriggeredByView;

    open spec fn view(&self) -> TriggeredByView {
        match self {
            TriggeredByRepr::Schedule => TriggeredByView::Schedule,
            TriggeredByRepr::Scheduled { trigger_id, schedule_revision, scheduled_at, attempt } => TriggeredByView::Scheduled {
                trigger_id: trigger_id@,
                schedule_revision: *schedule_revision,
                scheduled_at: *scheduled_at,
                attempt: *attempt,
            },
            TriggeredByRepr::Manual => TriggeredByView::Manual,
            TriggeredByRepr::Dependency { upstream_run_id } => TriggeredByView::Dependency {
                upstream_run_id: upstream_run_id@,
            },
        }
    }
}

/// Hexadecimal digit `i` (from the most significant) of a UUID.
pub open spec fn uuid_digit(id: u128, i: nat) -> char {
    hex_digit(((id as nat) / pow(16, (31 - i) as nat) as nat) % 16)
}

/// The lowercase hexadecimal digits `from..to` of a UUID.
pub open spec fn uuid_digits(id: u128, from: nat, to: nat) -> Seq<char> {
    Seq::new((to - from) as nat, |k: int| uuid_digit(id, (from + k) as nat))
}

/// The hyphenated text of a UUID, as the `uuid` crate writes it: its 32
/// lowercase hexadecimal digits, most significant first, grouped 8-4-4-4-12.
pub open spec fn uuid_text(id: u128) -> Seq<char> {
    uuid_digits(id, 0, 8) + "-"@ + uuid_digits(id, 8, 12) + "-"@ + uuid_digits(id, 12, 16) + "-"@
        + uuid_digits(id, 16, 20) + "-"@ + uuid_digits(id, 20, 32)
}

/// `uuid::Uuid::from_u128(id).to_string()`: the contract claims that the
/// result is `uuid_text(id)` and that `uuid::Uuid::parse_str` reads it back
/// as `id`.
#[verifier::external_body]
pub(crate) fn format_uuid(id: u128) -> (r: String)
    ensures
        r@ == uuid_text(id),
        uuid_parse(r@) == Some(id),
{
    uuid::Uuid::from_u128(id).to_string()
}

/// The stored form of what started a run.
pub open spec fn stored_trigger(t: RunTrigger) -> TriggeredByView {
    match t {
        RunTrigger::Schedule => TriggeredByView::Schedule,
        RunTrigger::Scheduled { trigger_id, schedule_revision, scheduled_at, attempt } => TriggeredByView::Scheduled {
            trigger_id: uuid_text(trigger_id),
            schedule_revision,
            scheduled_at,
            attempt,
        },
        RunTrigger::Manual => TriggeredByView::Manual,
        RunTrigger::Dependency { upstream_run_id } => TriggeredByView::Dependency {
            upstream_run_id: uuid_text(upstream_run_id),
        },
    }
}

/// An id read from its stored text; text that is no UUID reads as the nil
/// id.
pub open spec fn id_or_nil(text: Seq<char>) -> u128 {
    match uuid_parse(text) {
        Some(id) => id,
        None => 0,
    }
}

/// What started a run, read from its stored form.
pub open spec fn loaded_trigger(r: TriggeredByView) -> RunTrigger {
    match r {
        TriggeredByView::Schedule => RunTrigger::Schedule,
        TriggeredByView::Scheduled { trigger_id, schedule_revision, scheduled_at, attempt } => RunTrigger::Scheduled {
            trigger_id: id_or_nil(trigger_id),
            schedule_revision,
            scheduled_at,
            attempt,
        },
        TriggeredByView::Manual => RunTrigger::Manual,
        TriggeredByView::Dependency { upstream_run_id } => RunTrigger::Dependency {
            upstream_run_id: id_or_nil(upstream_run_id),
        },
    }
}

/// The stored form of what started a run; reading it back gives the same.
pub fn triggered_by_repr(t: &RunTrigger) -> (r: TriggeredByRepr)
    ensures
        r@ == stored_trigger(*t),
        loaded_trigger(r@) == *t,
{
    match t {
        RunTrigger::Schedule => TriggeredByRepr::Schedule,
        RunTrigger::Scheduled { trigger_id, schedule_revision, scheduled_at, attempt } => TriggeredByRepr::Scheduled {
            trigger_id: format_uuid(*trigger_id),
            schedule_revision: *schedule_revision,
            scheduled_at: *scheduled_at,
            attempt: *attempt,
        },
        RunTrigger::Manual => TriggeredByRepr::Manual,
        RunTrigger::Dependency { upstream_run_id } => TriggeredByRepr::Dependency {
            upstream_run_id: format_uuid(*upstream_run_id),
        },
    }
}

fn id_or_nil_exec(text: &str) -> (r: u128)
    ensures
        r == id_or_nil(text@),
{
    match parse_uuid(text) {
        Some(id) => id,
        None => 0,
    }
}

impl TriggeredByRepr {
    /// What started the run.
    pub fn into_domain(self) -> (t: RunTrigger)
        ensures
            t == loaded_trigger(self@),
    {
        match self {
            TriggeredByRepr::Schedule => RunTrigger::Schedule,
            TriggeredByRepr::Scheduled { trigger_id, schedule_revision, scheduled_at, attempt } => RunTrigger::Scheduled {
                trigger_id: id_or_nil_exec(trigger_id.as_str()),
                schedule_revision,
                scheduled_at,
                attempt,
            },
            TriggeredByRepr::Manual => RunTrigger::Manual,
            TriggeredByRepr::Dependency { upstream_run_id } => RunTrigger::Dependency {
                upstream_run_id: id_or_nil_exec(upstream_run_id.as_str()),
            },
        }
    }
}

} // verus!
