//! Decisions of the state store's schema migration: whether a column must
//! be added (and the statement that adds it), whether `jobs` carries the
//! unique `(name, id)` index and `job_runs` the foreign key onto it, and
//! what the run-identity migration has left to do.

use vstd::prelude::*;

use crate::text::{push_str, str_eq};

verus! {

/// Whether a table already has the named column, given the names its
/// `table_info` lists.
pub fn column_exists(columns: &Vec<String>, column: &str) -> (r: bool)
    ensures
        r == exists|i: int| 0 <= i < columns@.len() && #[trigger] columns@[i]@ == column@,
{
    let mut i: usize = 0;
    while i < columns.len()
        invariant
            i <= columns@.len(),
            forall|j: int| 0 <= j < i ==> #[trigger] columns@[j]@ != column@,
        decreases columns@.len() - i,
    {
        if str_eq(columns[i].as_str(), column) {
            return true;
        }
        i += 1;
    }
    false
}

/// The statement that adds a column to a table.
pub fn add_column_statement(table: &str, column: &str, definition: &str) -> (r: String)
    ensures
        r@ == "ALTER TABLE "@ + table@ + " ADD COLUMN "@ + column@ + " "@ + definition@,
{
    let mut s = String::new();
    push_str(&mut s, "ALTER TABLE ");
    push_str(&mut s, table);
    push_str(&mut s, " ADD COLUMN ");
    push_str(&mut s, column);
    push_str(&mut s, " ");
    push_str(&mut s, definition);
    proof {
        assert(Seq::<char>::empty() + "ALTER TABLE "@ =~= "ALTER TABLE "@);
    }
    s
}

/// An index of `jobs` as `index_list` and `index_info` describe it.
#[derive(Debug, Clone)]
pub struct IndexInfo {
    pub unique: bool,
    pub columns: Vec<String>,
}

/// Whether an index is the unique index over exactly `(name, id)`.
pub open spec fn identity_index(index: IndexInfo) -> bool {
    &&& index.unique
    &&& index.columns@.len() == 2
    &&& index.columns@[0]@ == "name"@
    &&& index.columns@[1]@ == "id"@
}

/// Whether `jobs` has a unique index over exactly `(name, id)`.
pub fn has_identity_index(indexes: &Vec<IndexInfo>) -> (r: bool)
    ensures
        r == exists|i: int| 0 <= i < indexes@.len() && identity_index(#[trigger] indexes@[i]),
{
    let mut i: usize = 0;
    while i < indexes.len()
        invariant
            i <= indexes@.len(),
            forall|j: int| 0 <= j < i ==> !identity_index(#[trigger] indexes@[j]),
        decreases indexes@.len() - i,
    {
        let index = &indexes[i];
        if index.unique && index.columns.len() == 2 && str_eq(index.columns[0].as_str(), "name")
            && str_eq(index.columns[1].as_str(), "id") {
            return true;
        }
        i += 1;
    }
    false
}

/// One row of `foreign_key_list(job_runs)`.
#[derive(Debug, Clone)]
pub struct ForeignKeyRow {
    pub table: String,
    pub seq: i64,
    pub from: String,
    pub to: String,
}

/// The column pair that position `seq` of the foreign key onto `jobs` maps,
/// when several rows name it the last one.
pub open spec fn jobs_key_column(rows: Seq<ForeignKeyRow>, seq: i64) -> Option<(Seq<char>, Seq<char>)>
    decreases rows.len(),
{
    if rows.len() == 0 {
        None
    } else {
        let last = rows.last();
        if last.table@ == "jobs"@ && last.seq == seq {
            Some((last.from@, last.to@))
        } else {
            jobs_key_column(rows.drop_last(), seq)
        }
    }
}

/// Whether `job_runs` references `jobs` by `(job_name, id)` → `(name, id)`.
pub open spec fn identity_foreign_key(rows: Seq<ForeignKeyRow>) -> bool {
    &&& jobs_key_column(rows, 0) == Some(("job_name"@, "name"@))
    &&& jobs_key_column(rows, 1) == Some(("job_id"@, "id"@))
}

/// Whether `job_runs` carries the foreign key onto the identity of `jobs`.
pub fn has_identity_foreign_key(rows: &Vec<ForeignKeyRow>) -> (r: bool)
    ensures
        r == identity_foreign_key(rows@),
{
    let mut first_ok = false;
    let mut second_ok = false;
    let mut i: usize = 0;
    while i < rows.len()
        invariant
            i <= rows@.len(),
            first_ok == (jobs_key_column(rows@.take(i as int), 0) == Some(("job_name"@, "name"@))),
            second_ok == (jobs_key_column(rows@.take(i as int), 1) == Some(("job_id"@, "id"@))),
        decreases rows@.len() - i,
    {
        let row = &rows[i];
        proof {
            assert(rows@.take(i + 1).drop_last() =~= rows@.take(i as int));
            assert(rows@.take(i + 1).last() == rows@[i as int]);
        }
        if str_eq(row.table.as_str(), "jobs") {
            if row.seq == 0 {
                first_ok = str_eq(row.from.as_str(), "job_name") && str_eq(row.to.as_str(), "name");
            } else if row.seq == 1 {
                second_ok = str_eq(row.from.as_str(), "job_id") && str_eq(row.to.as_str(), "id");
            }
        }
        i += 1;
    }
    proof {
        assert(rows@.take(rows@.len() as int) =~= rows@);
    }
    first_ok && second_ok
}

/// What the run-identity migration of `job_runs` has left to do.
#[derive(Debug, Clone, Copy, PartialEq, Eq, Structural)]
pub enum RunIdentityMigration {
    /// The table already references jobs by identity: only the schema
    /// version is recorded.
    RecordVersion,
    /// Rebuild the table keeping each run's recorded job id; runs whose
    /// `(name, id)` parent is gone are set aside.
    RebuildKeepingJobId,
    /// Rebuild the table taking the job id from the job of the same name;
    /// runs without such a job are set aside.
    RebuildFromJobName,
}

/// The run-identity migration that a schema calls for.
pub fn run_identity_migration(has_job_id: bool, has_identity_index: bool, has_identity_foreign_key: bool) -> (r:
    RunIdentityMigration)
    ensures
        r == (if has_job_id && has_identity_index && has_identity_foreign_key {
            RunIdentityMigration::RecordVersion
        } else if has_job_id {
            RunIdentityMigration::RebuildKeepingJobId
        } else {
            RunIdentityMigration::RebuildFromJobName
        }),
{
    if has_job_id && has_identity_index && has_identity_foreign_key {
        RunIdentityMigration::RecordVersion
    } else if has_job_id {
        RunIdentityMigration::RebuildKeepingJobId
    } else {
        RunIdentityMigration::RebuildFromJobName
    }
}

} // verus!
