use tracklog::db::migrations::{apply_migration_if_needed, initialize_database, MigrationLog};

#[test]
fn initial_schema_is_applied_once() {
    let mut log = MigrationLog { applied: Vec::new() };
    assert!(initialize_database(&mut log, "2024-01-01T00:00:00Z"));
    assert_eq!(log.applied.len(), 1);
    assert_eq!(log.applied[0].version, 1);
    assert_eq!(log.applied[0].name, "initial_schema");
    assert_eq!(log.applied[0].applied_at, "2024-01-01T00:00:00Z");
    assert!(!initialize_database(&mut log, "2024-02-01T00:00:00Z"));
    assert_eq!(log.applied.len(), 1);
    assert_eq!(log.applied[0].applied_at, "2024-01-01T00:00:00Z");
}

#[test]
fn later_versions_are_recorded_after() {
    let mut log = MigrationLog { applied: Vec::new() };
    assert!(apply_migration_if_needed(&mut log, 2, "tags", "t1"));
    assert!(log.is_applied(2));
    assert!(!log.is_applied(1));
    assert!(initialize_database(&mut log, "t2"));
    assert!(!apply_migration_if_needed(&mut log, 2, "tags", "t3"));
    let versions: Vec<i64> = log.applied.iter().map(|m| m.version).collect();
    assert_eq!(versions, vec![2, 1]);
}
