//! Persisted codes of the state store: the text of run states, transient
//! cleanup stages and job-deletion stages (unknown text reads as the first
//! stage), the keyset cursors of the observability pages
//! (`<timestamp>|<id>`), and which completed runs a job's retention prunes.

use vstd::prelude::*;

use crate::api::JobRunStateDto;
use crate::instant::valid_instant;
use crate::text::{chars_of, find_char, lemma_find_char_bounds, push_str, slice_vec, str_eq, string_of};

verus! {

pub open spec fn run_state_code(s: JobRunStateDto) -> Seq<char> {
    match s {
        JobRunStateDto::Pending => "pending"@,
        JobRunStateDto::Running => "running"@,
        JobRunStateDto::Succeeded => "succeeded"@,
        JobRunStateDto::Failed => "failed"@,
        JobRunStateDto::TimedOut => "timed_out"@,
        JobRunStateDto::Cancelled => "cancelled"@,
        JobRunStateDto::Skipped => "skipped"@,
    }
}

/// The stored text of a run state.
pub fn run_state_to_str(s: JobRunStateDto) -> (r: &'static str)
    ensures
        r@ == run_state_code(s),
{
    match s {
        JobRunStateDto::Pending => "pending",
        JobRunStateDto::Running => "running",
        JobRunStateDto::Succeeded => "succeeded",
        JobRunStateDto::Failed => "failed",
        JobRunStateDto::TimedOut => "timed_out",
        JobRunStateDto::Cancelled => "cancelled",
        JobRunStateDto::Skipped => "skipped",
    }
}

pub open spec fn run_state_of(text: Seq<char>) -> JobRunStateDto {
    if text == "running"@ {
        JobRunStateDto::Running
    } else if text == "succeeded"@ {
        JobRunStateDto::Succeeded
    } else if text == "failed"@ {
        JobRunStateDto::Failed
    } else if text == "timed_out"@ {
        JobRunStateDto::TimedOut
    } else if text == "cancelled"@ {
        JobRunStateDto::Cancelled
    } else if text == "skipped"@ {
        JobRunStateDto::Skipped
    } else {
        JobRunStateDto::Pending
    }
}

/// The run state a stored text names (unknown text is `Pending`).
pub fn str_to_run_state(text: &str) -> (r: JobRunStateDto)
    ensures
        r == run_state_of(text@),
{
    if str_eq(text, "running") {
        JobRunStateDto::Running
    } else if str_eq(text, "succeeded") {
        JobRunStateDto::Succeeded
    } else if str_eq(text, "failed") {
        JobRunStateDto::Failed
    } else if str_eq(text, "timed_out") {
        JobRunStateDto::TimedOut
    } else if str_eq(text, "cancelled") {
        JobRunStateDto::Cancelled
    } else if str_eq(text, "skipped") {
        JobRunStateDto::Skipped
    } else {
        JobRunStateDto::Pending
    }
}

/// Every run state reads back from its stored text.
pub proof fn lemma_run_state_round_trip(s: JobRunStateDto)
    ensures
        run_state_of(run_state_code(s)) == s,
{
    reveal_strlit("pending");
    reveal_strlit("running");
    reveal_strlit("succeeded");
    reveal_strlit("failed");
    reveal_strlit("timed_out");
    reveal_strlit("cancelled");
    reveal_strlit("skipped");
    assert("pending"@[0] != "running"@[0]);
    assert("pending"@.len() != "succeeded"@.len());
    assert("pending"@.len() != "failed"@.len());
    assert("pending"@.len() != "timed_out"@.len());
    assert("pending"@.len() != "cancelled"@.len());
    assert("pending"@[1] != "skipped"@[1]);
    assert("running"@.len() != "succeeded"@.len());
    assert("running"@.len() != "failed"@.len());
    assert("running"@.len() != "timed_out"@.len());
    assert("running"@.len() != "cancelled"@.len());
    assert("running"@[0] != "skipped"@[0]);
    assert("succeeded"@[0] != "timed_out"@[0]);
    assert("succeeded"@[0] != "cancelled"@[0]);
    assert("succeeded"@.len() != "failed"@.len());
    assert("succeeded"@.len() != "skipped"@.len());
    assert("failed"@.len() != "timed_out"@.len());
    assert("failed"@.len() != "cancelled"@.len());
    assert("failed"@.len() != "skipped"@.len());
    assert("timed_out"@[0] != "cancelled"@[0]);
    assert("timed_out"@.len() != "skipped"@.len());
    assert("cancelled"@.len() != "skipped"@.len());
}

/// Where an interrupted transient run's cleanup resumes.
#[derive(Debug, Clone, Copy, PartialEq, Eq, Structural)]
pub enum TransientCleanupStage {
    TerminateGroup,
    WaitLeader,
    JoinPumps,
    SealLog,
    PersistTerminal,
}

pub open spec fn cleanup_stage_code(s: TransientCleanupStage) -> Seq<char> {
    match s {
        TransientCleanupStage::TerminateGroup => "terminate_group"@,
        TransientCleanupStage::WaitLeader => "wait_leader"@,
        TransientCleanupStage::JoinPumps => "join_pumps"@,
        TransientCleanupStage::SealLog => "seal_log"@,
        TransientCleanupStage::PersistTerminal => "persist_terminal"@,
    }
}

/// The stored text of a cleanup stage.
pub fn cleanup_stage_to_str(s: TransientCleanupStage) -> (r: &'static str)
    ensures
        r@ == cleanup_stage_code(s),
{
    match s {
        TransientCleanupStage::TerminateGroup => "terminate_group",
        TransientCleanupStage::WaitLeader => "wait_leader",
        TransientCleanupStage::JoinPumps => "join_pumps",
        TransientCleanupStage::SealLog => "seal_log",
        TransientCleanupStage::PersistTerminal => "persist_terminal",
    }
}

pub open spec fn cleanup_stage_of(text: Seq<char>) -> TransientCleanupStage {
    if text == "wait_leader"@ {
        TransientCleanupStage::WaitLeader
    } else if text == "join_pumps"@ {
        TransientCleanupStage::JoinPumps
    } else if text == "seal_log"@ {
        TransientCleanupStage::SealLog
    } else if text == "persist_terminal"@ {
        TransientCleanupStage::PersistTerminal
    } else {
        TransientCleanupStage::TerminateGroup
    }
}

/// The cleanup stage a stored text names (unknown text is the first).
pub fn str_to_cleanup_stage(text: &str) -> (r: TransientCleanupStage)
    ensures
        r == cleanup_stage_of(text@),
{
    if str_eq(text, "wait_leader") {
        TransientCleanupStage::WaitLeader
    } else if str_eq(text, "join_pumps") {
        TransientCleanupStage::JoinPumps
    } else if str_eq(text, "seal_log") {
        TransientCleanupStage::SealLog
    } else if str_eq(text, "persist_terminal") {
        TransientCleanupStage::PersistTerminal
    } else {
        TransientCleanupStage::TerminateGroup
    }
}

/// Every cleanup stage reads back from its stored text.
pub proof fn lemma_cleanup_stage_round_trip(s: TransientCleanupStage)
    ensures
        cleanup_stage_of(cleanup_stage_code(s)) == s,
{
    reveal_strlit("terminate_group");
    reveal_strlit("wait_leader");
    reveal_strlit("join_pumps");
    reveal_strlit("seal_log");
    reveal_strlit("persist_terminal");
    assert("terminate_group"@[0] != "wait_leader"@[0]);
    assert("terminate_group"@[0] != "join_pumps"@[0]);
    assert("terminate_group"@[0] != "seal_log"@[0]);
    assert("terminate_group"@[0] != "persist_terminal"@[0]);
    assert("wait_leader"@[0] != "join_pumps"@[0]);
    assert("wait_leader"@[0] != "seal_log"@[0]);
    assert("wait_leader"@[0] != "persist_terminal"@[0]);
    assert("join_pumps"@[0] != "seal_log"@[0]);
    assert("join_pumps"@[0] != "persist_terminal"@[0]);
    assert("seal_log"@[0] != "persist_terminal"@[0]);
}

/// How far the deletion of a job has come.
#[derive(Debug, Clone, Copy, PartialEq, Eq, Structural)]
pub enum JobDeletionStage {
    Prepared,
    DispatchFrozen,
    SchedulerUnregistered,
    RollbackRequired,
    CancellationStarted,
    RunsDraining,
    RowsDeleted,
    LogsCleaning,
    Completed,
}

pub open spec fn deletion_stage_code(s: JobDeletionStage) -> Seq<char> {
    match s {
        JobDeletionStage::Prepared => "prepared"@,
        JobDeletionStage::DispatchFrozen => "dispatch_frozen"@,
        JobDeletionStage::SchedulerUnregistered => "scheduler_unregistered"@,
        JobDeletionStage::RollbackRequired => "rollback_required"@,
        JobDeletionStage::CancellationStarted => "cancellation_started"@,
        JobDeletionStage::RunsDraining => "runs_draining"@,
        JobDeletionStage::RowsDeleted => "rows_deleted"@,
        JobDeletionStage::LogsCleaning => "logs_cleaning"@,
        JobDeletionStage::Completed => "completed"@,
    }
}

/// The stored text of a deletion stage.
pub fn deletion_stage_to_str(s: JobDeletionStage) -> (r: &'static str)
    ensures
        r@ == deletion_stage_code(s),
{
    match s {
        JobDeletionStage::Prepared => "prepared",
        JobDeletionStage::DispatchFrozen => "dispatch_frozen",
        JobDeletionStage::SchedulerUnregistered => "scheduler_unregistered",
        JobDeletionStage::RollbackRequired => "rollback_required",
        JobDeletionStage::CancellationStarted => "cancellation_started",
        JobDeletionStage::RunsDraining => "runs_draining",
        JobDeletionStage::RowsDeleted => "rows_deleted",
        JobDeletionStage::LogsCleaning => "logs_cleaning",
        JobDeletionStage::Completed => "completed",
    }
}

pub open spec fn deletion_stage_of(text: Seq<char>) -> JobDeletionStage {
    if text == "dispatch_frozen"@ {
        JobDeletionStage::DispatchFrozen
    } else if text == "scheduler_unregistered"@ {
        JobDeletionStage::SchedulerUnregistered
    } else if text == "rollback_required"@ {
        JobDeletionStage::RollbackRequired
    } else if text == "cancellation_started"@ {
        JobDeletionStage::CancellationStarted
    } else if text == "runs_draining"@ {
        JobDeletionStage::RunsDraining
    } else if text == "rows_deleted"@ {
        JobDeletionStage::RowsDeleted
    } else if text == "logs_cleaning"@ {
        JobDeletionStage::LogsCleaning
    } else if text == "completed"@ {
        JobDeletionStage::Completed
    } else {
        JobDeletionStage::Prepared
    }
}

/// The deletion stage a stored text names (unknown text is `Prepared`).
pub fn str_to_deletion_stage(text: &str) -> (r: JobDeletionStage)
    ensures
        r == deletion_stage_of(text@),
{
    if str_eq(text, "dispatch_frozen") {
        JobDeletionStage::DispatchFrozen
    } else if str_eq(text, "scheduler_unregistered") {
        JobDeletionStage::SchedulerUnregistered
    } else if str_eq(text, "rollback_required") {
        JobDeletionStage::RollbackRequired
    } else if str_eq(text, "cancellation_started") {
        JobDeletionStage::CancellationStarted
    } else if str_eq(text, "runs_draining") {
        JobDeletionStage::RunsDraining
    } else if str_eq(text, "rows_deleted") {
        JobDeletionStage::RowsDeleted
    } else if str_eq(text, "logs_cleaning") {
        JobDeletionStage::LogsCleaning
    } else if str_eq(text, "completed") {
        JobDeletionStage::Completed
    } else {
        JobDeletionStage::Prepared
    }
}

/// Every deletion stage reads back from its stored text.
pub proof fn lemma_deletion_stage_round_trip(s: JobDeletionStage)
    ensures
        deletion_stage_of(deletion_stage_code(s)) == s,
{
    reveal_strlit("prepared");
    reveal_strlit("dispatch_frozen");
    reveal_strlit("scheduler_unregistered");
    reveal_strlit("rollback_required");
    reveal_strlit("cancellation_started");
    reveal_strlit("runs_draining");
    reveal_strlit("rows_deleted");
    reveal_strlit("logs_cleaning");
    reveal_strlit("completed");
    assert("prepared"@.len() == 8 && "dispatch_frozen"@.len() == 15);
    assert("scheduler_unregistered"@.len() == 22 && "rollback_required"@.len() == 17);
    assert("cancellation_started"@.len() == 20 && "runs_draining"@.len() == 13);
    assert("rows_deleted"@.len() == 12 && "logs_cleaning"@.len() == 13);
    assert("completed"@.len() == 9);
    assert("runs_draining"@[0] != "logs_cleaning"@[0]);
}

/// Observability page sizes are clamped into 1..=500.
pub fn page_limit(limit: usize) -> (r: usize)
    ensures
        r == (if limit < 1 {
            1
        } else if limit > 500 {
            500
        } else {
            limit
        }),
{
    if limit < 1 {
        1
    } else if limit > 500 {
        500
    } else {
        limit
    }
}

/// The keyset position a cursor names: what precedes and what follows its
/// first `|`; a cursor without one is refused.
pub open spec fn cursor_position(cursor: Seq<char>) -> Option<(Seq<char>, Seq<char>)> {
    match find_char(cursor, '|') {
        Some(i) => Some((cursor.take(i), cursor.skip(i + 1))),
        None => None,
    }
}

/// Reads an observability cursor (`None`: the first page).
pub fn cursor(given: Option<&str>) -> (r: Result<Option<(String, String)>, String>)
    ensures
        given is None ==> r matches Ok(None),
        given matches Some(c) ==> match r {
            Ok(Some((at, id))) => cursor_position(c@) == Some((at@, id@)),
            Ok(None) => false,
            Err(m) => cursor_position(c@) is None && m@ == "observability cursor is invalid or expired"@,
        },
{
    let value = match given {
        None => {
            return Ok(None);
        },
        Some(v) => v,
    };
    let chars = chars_of(value);
    let mut i: usize = 0;
    while i < chars.len()
        invariant
            i <= chars@.len(),
            chars@ == value@,
            given == Some(value),
            forall|j: int| 0 <= j < i ==> chars@[j] != '|',
        decreases chars@.len() - i,
    {
        if chars[i] == '|' {
            let at = slice_vec(&chars, 0, i);
            let id = slice_vec(&chars, i + 1, chars.len());
            proof {
                lemma_find_char_bounds(value@, '|');
                lemma_first_bar(value@, i as int);
                assert(at@ =~= value@.take(i as int));
                assert(id@ =~= value@.skip(i + 1));
            }
            return Ok(Some((string_of(&at), string_of(&id))));
        }
        i += 1;
    }
    proof {
        lemma_find_char_bounds(value@, '|');
    }
    Err("observability cursor is invalid or expired".to_string())
}

proof fn lemma_first_bar(s: Seq<char>, i: int)
    requires
        0 <= i < s.len(),
        s[i] == '|',
        forall|j: int| 0 <= j < i ==> s[j] != '|',
    ensures
        find_char(s, '|') == Some(i),
    decreases i,
{
    if i > 0 {
        lemma_first_bar(s.drop_first(), i - 1);
    }
}

/// The high watermark of a page: the key of its last record, as a cursor.
pub fn page_high_watermark(keys: &Vec<(String, String)>) -> (r: Option<String>)
    ensures
        keys@.len() == 0 ==> r is None,
        keys@.len() > 0 ==> (r matches Some(c) && c@ == keys@.last().0@ + "|"@ + keys@.last().1@),
{
    if keys.len() == 0 {
        return None;
    }
    let (at, id) = &keys[keys.len() - 1];
    let mut c = at.clone();
    push_str(&mut c, "|");
    push_str(&mut c, id.as_str());
    Some(c)
}

/// A page's high watermark reads back as the key of its last record when
/// the timestamp part holds no `|`.
pub proof fn lemma_cursor_round_trip(at: Seq<char>, id: Seq<char>)
    requires
        forall|j: int| 0 <= j < at.len() ==> at[j] != '|',
    ensures
        cursor_position(at + "|"@ + id) == Some((at, id)),
{
    reveal_strlit("|");
    let c = at + "|"@ + id;
    lemma_first_bar(c, at.len() as int);
    assert(c.take(at.len() as int) =~= at);
    assert(c.skip(at.len() as int + 1) =~= id);
}


/// A completed run as the pruning of a job's history sees it; times are
/// nanoseconds since the Unix epoch.
#[derive(Debug, Clone)]
pub struct RunRetentionRow {
    pub run_id: String,
    pub scheduled_at: i128,
    pub ended_at: Option<i128>,
}

/// The time a completed run is aged by: its end, or its schedule when it
/// never recorded one.
pub open spec fn retention_time(row: RunRetentionRow) -> i128 {
    match row.ended_at {
        Some(e) => e,
        None => row.scheduled_at,
    }
}

/// Whether the run at `position` (newest first) is pruned: it lies beyond
/// the newest `max_runs`, or it is older than the cutoff.
pub open spec fn pruned_at(position: int, row: RunRetentionRow, max_runs: Option<u32>, older_than: Option<i128>) -> bool {
    ||| (max_runs matches Some(limit) && position >= limit)
    ||| (older_than matches Some(cutoff) && retention_time(row) < cutoff)
}

/// The run ids pruned among the first `n` rows, in row order.
pub open spec fn pruned_ids(rows: Seq<RunRetentionRow>, n: nat, max_runs: Option<u32>, older_than: Option<i128>) -> Seq<Seq<char>>
    decreases n,
{
    if n == 0 {
        Seq::empty()
    } else {
        let before = pruned_ids(rows, (n - 1) as nat, max_runs, older_than);
        if pruned_at(n - 1, rows[n - 1], max_runs, older_than) {
            before.push(rows[n - 1].run_id@)
        } else {
            before
        }
    }
}

/// The completed runs of a job to delete, given its completed runs newest
/// first: those beyond the newest `max_runs` and those older than the
/// cutoff.  With neither limit nothing is pruned.
pub fn runs_to_prune(rows: &Vec<RunRetentionRow>, max_runs: Option<u32>, older_than: Option<i128>) -> (r: Vec<String>)
    ensures
        r@.map_values(|id: String| id@) == pruned_ids(rows@, rows@.len(), max_runs, older_than),
{
    let mut removed: Vec<String> = Vec::new();
    if max_runs.is_none() && older_than.is_none() {
        proof {
            lemma_nothing_pruned_without_limits(rows@, rows@.len());
        }
        assert(removed@.map_values(|id: String| id@) =~= Seq::<Seq<char>>::empty());
        return removed;
    }
    let mut i: usize = 0;
    while i < rows.len()
        invariant
            i <= rows@.len(),
            removed@.map_values(|id: String| id@) == pruned_ids(rows@, i as nat, max_runs, older_than),
        decreases rows@.len() - i,
    {
        let row = &rows[i];
        let retention: i128 = match row.ended_at {
            Some(e) => e,
            None => row.scheduled_at,
        };
        let exceeds_count = match max_runs {
            Some(limit) => i as u64 >= limit as u64,
            None => false,
        };
        let exceeds_age = match older_than {
            Some(cutoff) => retention < cutoff,
            None => false,
        };
        if exceeds_count || exceeds_age {
            let ghost before = removed@;
            removed.push(row.run_id.clone());
            assert(removed@.map_values(|id: String| id@) =~= before.map_values(|id: String| id@).push(
                rows@[i as int].run_id@,
            ));
        }
        i += 1;
    }
    removed
}

proof fn lemma_nothing_pruned_without_limits(rows: Seq<RunRetentionRow>, n: nat)
    ensures
        pruned_ids(rows, n, None, None) == Seq::<Seq<char>>::empty(),
    decreases n,
{
    if n > 0 {
        lemma_nothing_pruned_without_limits(rows, (n - 1) as nat);
    }
}

/// With a count limit alone, pruning removes exactly the runs beyond the
/// newest `limit`, oldest last.
pub proof fn lemma_count_limit_keeps_newest(rows: Seq<RunRetentionRow>, limit: u32)
    ensures
        pruned_ids(rows, rows.len(), Some(limit), None) == (if rows.len() <= limit {
            Seq::<Seq<char>>::empty()
        } else {
            rows.skip(limit as int).map_values(|row: RunRetentionRow| row.run_id@)
        }),
{
    lemma_count_prefix(rows, rows.len(), limit);
}

proof fn lemma_count_prefix(rows: Seq<RunRetentionRow>, n: nat, limit: u32)
    requires
        n <= rows.len(),
    ensures
        pruned_ids(rows, n, Some(limit), None) == (if n <= limit {
            Seq::<Seq<char>>::empty()
        } else {
            rows.subrange(limit as int, n as int).map_values(|row: RunRetentionRow| row.run_id@)
        }),
    decreases n,
{
    if n > 0 {
        lemma_count_prefix(rows, (n - 1) as nat, limit);
        if n > limit {
            let f = |row: RunRetentionRow| row.run_id@;
            if n - 1 <= limit {
                assert(rows.subrange(limit as int, n as int).map_values(f) =~= seq![rows[n - 1].run_id@]);
            } else {
                assert(rows.subrange(limit as int, n as int).map_values(f) =~= rows.subrange(
                    limit as int,
                    n - 1,
                ).map_values(f).push(rows[n - 1].run_id@));
            }
        }
    }
    if n == rows.len() && n > limit {
        assert(rows.subrange(limit as int, n as int) =~= rows.skip(limit as int));
    }
}


/// Length of a metric bucket, in nanoseconds.
pub const MINUTE_NANOS: i128 = 60000000000;

/// Raw metric samples are kept for a day.
pub const RAW_METRIC_RETENTION_NANOS: i128 = 86400000000000;

/// Minute aggregates, and completed events, deliveries and alerts, are kept
/// for thirty days.
pub const RECORD_RETENTION_NANOS: i128 = 2592000000000000;

/// At most this many completed records of each kind are kept.
pub const COMPLETED_RECORD_LIMIT: i64 = 10000;

/// The start of the UTC minute that holds `at`.
pub open spec fn minute_floor(at: int) -> int {
    at - at % (MINUTE_NANOS as int)
}

/// The instants before which the store's maintenance deletes records.
#[derive(Debug, Clone, Copy, PartialEq, Eq, Structural)]
pub struct RetentionCutoffs {
    /// Raw samples before this minute boundary are folded into minute
    /// aggregates and deleted.
    pub sealed_metrics: i128,
    /// Minute aggregates that start before this are deleted.
    pub minute_metrics: i128,
    /// Completed events, deliveries and resolved alerts before this are
    /// deleted.
    pub completed_records: i128,
}

/// The start of the UTC minute that holds `at`.
pub fn minute_start(at: i128) -> (r: i128)
    requires
        valid_instant(at as int),
    ensures
        r == minute_floor(at as int),
        r <= at < r + MINUTE_NANOS,
        r % MINUTE_NANOS == 0,
{
    if at >= 0 {
        let r = at - at % MINUTE_NANOS;
        assert(r == minute_floor(at as int)) by (nonlinear_arith)
            requires
                at >= 0,
                r == at - at % 60000000000i128,
                MINUTE_NANOS == 60000000000,
        {
        }
        r
    } else {
        let back: i128 = -(at + 1);
        let q: i128 = back / MINUTE_NANOS;
        let r = -(q + 1) * MINUTE_NANOS;
        assert(r == minute_floor(at as int) && r <= at < r + MINUTE_NANOS && r % MINUTE_NANOS == 0)
            by (nonlinear_arith)
            requires
                at < 0,
                back == -(at + 1),
                q == back / 60000000000i128,
                r == -(q + 1) * 60000000000i128,
                MINUTE_NANOS == 60000000000,
        {
        }
        r
    }
}

/// The maintenance cutoffs at `now`: raw samples are sealed up to the
/// minute boundary at or before a day ago, so a minute is aggregated only
/// once all of it has left the raw window; minute aggregates and completed
/// records go after thirty days.
pub fn retention_cutoffs(now: i128) -> (r: RetentionCutoffs)
    requires
        valid_instant(now as int),
        valid_instant(now - RECORD_RETENTION_NANOS),
    ensures
        r.sealed_metrics == minute_floor(now - RAW_METRIC_RETENTION_NANOS),
        r.minute_metrics == now - RECORD_RETENTION_NANOS,
        r.completed_records == now - RECORD_RETENTION_NANOS,
{
    let sealed = minute_start(now - RAW_METRIC_RETENTION_NANOS);
    RetentionCutoffs {
        sealed_metrics: sealed,
        minute_metrics: now - RECORD_RETENTION_NANOS,
        completed_records: now - RECORD_RETENTION_NANOS,
    }
}

/// Sealing never splits a minute: every raw sample before the sealed cutoff
/// lies in a minute that ends at or before it, and the cutoff trails the
/// day-old boundary by less than a minute.
pub proof fn lemma_sealed_minutes_are_whole(now: int, sample_at: int)
    requires
        sample_at < minute_floor(now - RAW_METRIC_RETENTION_NANOS),
    ensures
        minute_floor(sample_at) + MINUTE_NANOS <= minute_floor(now - RAW_METRIC_RETENTION_NANOS),
        minute_floor(now - RAW_METRIC_RETENTION_NANOS) <= now - RAW_METRIC_RETENTION_NANOS,
        now - RAW_METRIC_RETENTION_NANOS < minute_floor(now - RAW_METRIC_RETENTION_NANOS) + MINUTE_NANOS,
{
    let c = now - RAW_METRIC_RETENTION_NANOS;
    let fc = minute_floor(c);
    let fs = minute_floor(sample_at);
    assert(fc % 60000000000 == 0 && fs % 60000000000 == 0 && fs <= sample_at && fc <= c && c < fc + 60000000000)
        by (nonlinear_arith)
        requires
            fc == c - c % 60000000000,
            fs == sample_at - sample_at % 60000000000,
    {
    }
    assert(fs + 60000000000 <= fc) by (nonlinear_arith)
        requires
            fs % 60000000000 == 0,
            fc % 60000000000 == 0,
            fs <= sample_at,
            sample_at < fc,
    {
    }
}

} // verus!
