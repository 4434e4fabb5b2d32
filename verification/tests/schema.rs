use msv_supervisor::schema::{
    add_column_statement, column_exists, has_identity_foreign_key, has_identity_index,
    run_identity_migration, ForeignKeyRow, IndexInfo, RunIdentityMigration,
};

fn names(values: &[&str]) -> Vec<String> {
    values.iter().map(|v| v.to_string()).collect()
}

fn fk(table: &str, seq: i64, from: &str, to: &str) -> ForeignKeyRow {
    ForeignKeyRow { table: table.to_string(), seq, from: from.to_string(), to: to.to_string() }
}

#[test]
fn existing_columns_are_found_by_exact_name() {
    let columns = names(&["name", "command", "restart_enabled"]);
    assert!(column_exists(&columns, "restart_enabled"));
    assert!(!column_exists(&columns, "restart"));
    assert!(!column_exists(&Vec::new(), "name"));
}

#[test]
fn add_column_statement_spells_the_alter_table() {
    assert_eq!(
        add_column_statement("jobs", "log_retention_max_runs", "INTEGER"),
        "ALTER TABLE jobs ADD COLUMN log_retention_max_runs INTEGER"
    );
}

#[test]
fn identity_index_must_be_unique_over_name_then_id() {
    let good = IndexInfo { unique: true, columns: names(&["name", "id"]) };
    let not_unique = IndexInfo { unique: false, columns: names(&["name", "id"]) };
    let reversed = IndexInfo { unique: true, columns: names(&["id", "name"]) };
    let wider = IndexInfo { unique: true, columns: names(&["name", "id", "command"]) };
    assert!(has_identity_index(&vec![reversed.clone(), good]));
    assert!(!has_identity_index(&vec![not_unique, reversed, wider]));
    assert!(!has_identity_index(&Vec::new()));
}

#[test]
fn identity_foreign_key_needs_both_positions_onto_jobs() {
    let rows = vec![fk("jobs", 0, "job_name", "name"), fk("jobs", 1, "job_id", "id")];
    assert!(has_identity_foreign_key(&rows));
    let name_only = vec![fk("jobs", 0, "job_name", "name")];
    assert!(!has_identity_foreign_key(&name_only));
    let other_table = vec![fk("processes", 0, "job_name", "name"), fk("processes", 1, "job_id", "id")];
    assert!(!has_identity_foreign_key(&other_table));
    // A later row for the same position replaces an earlier one.
    let overwritten = vec![
        fk("jobs", 0, "job_name", "name"),
        fk("jobs", 1, "job_id", "id"),
        fk("jobs", 1, "job_name", "id"),
    ];
    assert!(!has_identity_foreign_key(&overwritten));
}

#[test]
fn run_identity_migration_follows_the_schema() {
    assert_eq!(run_identity_migration(true, true, true), RunIdentityMigration::RecordVersion);
    assert_eq!(run_identity_migration(true, false, true), RunIdentityMigration::RebuildKeepingJobId);
    assert_eq!(run_identity_migration(true, true, false), RunIdentityMigration::RebuildKeepingJobId);
    assert_eq!(run_identity_migration(false, true, true), RunIdentityMigration::RebuildFromJobName);
}
