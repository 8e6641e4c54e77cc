use spectre_automation::instance::{
    info_path, lock_path, probe_step, schema_step, InstanceInfo, ProbeAction, ProbeEvent,
    ProbeStep, Schema, SchemaEvent, SchemaQuery, SchemaStep, Stand, LAST_MIGRATION_SQL,
    TABLE_COUNT_SQL,
};
use spectre_automation::paths::PathStyle;

#[test]
fn service_files_are_looked_for_next_to_the_database() {
    let db = "/data/spectre-terminal/exchanges.db";
    assert_eq!(lock_path(db, PathStyle::Unix), "/data/spectre-terminal/instance.lock");
    assert_eq!(info_path(db, PathStyle::Unix), "/data/spectre-terminal/instance.json");
}

#[test]
fn bare_database_name_stays_in_the_current_directory() {
    assert_eq!(lock_path("exchanges.db", PathStyle::Unix), "instance.lock");
}

#[test]
fn database_at_the_root_or_without_a_name() {
    assert_eq!(lock_path("/exchanges.db", PathStyle::Unix), "/instance.lock");
    assert_eq!(lock_path("/", PathStyle::Unix), "./instance.lock");
    assert_eq!(lock_path("", PathStyle::Unix), "./instance.lock");
    assert_eq!(lock_path("data//exchanges.db", PathStyle::Unix), "data/instance.lock");
    assert_eq!(lock_path(r"C:\data\exchanges.db", PathStyle::Unix), "instance.lock");
}

#[test]
fn one_more_migration_is_a_different_stand() {
    let before = Schema::Applied {
        count: 42,
        version: "m040".to_string(),
        name: "seed_signal_level_hotkey".to_string(),
    };
    let after = Schema::Applied {
        count: 43,
        version: "m041".to_string(),
        name: "add_alerts_table".to_string(),
    };

    assert_eq!(before.differs_from(&after), Some(true));
    assert_eq!(before.differs_from(&before.clone()), Some(false));
}

#[test]
fn unreadable_state_is_never_called_equal() {
    let unknown = Schema::Unknown("нет прав".to_string());
    assert_eq!(unknown.differs_from(&Schema::Fresh), None);
    assert_eq!(Schema::Fresh.differs_from(&unknown), None);
    assert_eq!(unknown.differs_from(&unknown.clone()), None);
    assert_eq!(Schema::Fresh.differs_from(&Schema::Absent), Some(true));
}

#[test]
fn schema_lines_for_the_user() {
    let applied = Schema::Applied {
        count: 42,
        version: "m040".to_string(),
        name: "seed_signal_level_hotkey".to_string(),
    };
    assert_eq!(applied.describe(), "миграций: 42, последняя m040 (seed_signal_level_hotkey)");
    assert_eq!(Schema::Fresh.describe(), "миграций нет — терминал эту базу ещё не открывал");
    assert_eq!(Schema::Absent.describe(), "базы нет — замер пойдёт с чистого стейта");
    assert_eq!(Schema::Unknown("нет прав".to_string()).describe(), "прочитать не удалось (нет прав)");
    let negative = Schema::Applied { count: -7, version: "v".to_string(), name: "n".to_string() };
    assert_eq!(negative.describe(), "миграций: -7, последняя v (n)");
}

#[test]
fn lock_decides_and_the_record_only_names() {
    let p = "/d/instance.lock";
    assert!(matches!(probe_step(ProbeEvent::LockFileMissing, p), ProbeStep::Done(Stand::Free)));
    assert!(matches!(probe_step(ProbeEvent::LockFileOpened, p), ProbeStep::Next(ProbeAction::TryLock)));
    assert!(matches!(probe_step(ProbeEvent::LockTaken, p), ProbeStep::Done(Stand::Free)));
    assert!(matches!(probe_step(ProbeEvent::LockHeld, p), ProbeStep::Next(ProbeAction::ReadRecord)));
    assert!(matches!(probe_step(ProbeEvent::RecordRead(None), p), ProbeStep::Done(Stand::Busy(None))));
    let info = InstanceInfo { pid: 1404, http_port: Some(59428) };
    match probe_step(ProbeEvent::RecordRead(Some(info)), p) {
        ProbeStep::Done(Stand::Busy(Some(got))) => assert_eq!(got, info),
        _ => panic!("a held lock with a record must be busy"),
    }
    match probe_step(ProbeEvent::OpenFailed("Permission denied".to_string()), p) {
        ProbeStep::Done(Stand::Unknown(m)) => assert_eq!(m, "/d/instance.lock: Permission denied"),
        _ => panic!("a failed open must be unknown"),
    }
    match probe_step(ProbeEvent::LockFailed("unsupported".to_string()), p) {
        ProbeStep::Done(Stand::Unknown(m)) => assert_eq!(m, "/d/instance.lock: unsupported"),
        _ => panic!("a failed lock must be unknown"),
    }
}

#[test]
fn schema_reading_steps() {
    let db = "/d/exchanges.db";
    assert!(matches!(schema_step(SchemaEvent::DatabaseFound(false), db), SchemaStep::Done(Schema::Absent)));
    assert!(matches!(schema_step(SchemaEvent::DatabaseFound(true), db), SchemaStep::Next(SchemaQuery::Open)));
    assert!(matches!(schema_step(SchemaEvent::Opened, db), SchemaStep::Next(SchemaQuery::CountTable)));
    assert!(matches!(schema_step(SchemaEvent::TableCount(0), db), SchemaStep::Done(Schema::Fresh)));
    assert!(matches!(schema_step(SchemaEvent::TableCount(1), db), SchemaStep::Next(SchemaQuery::ReadLast)));
    assert!(matches!(schema_step(SchemaEvent::NoMigrations, db), SchemaStep::Done(Schema::Fresh)));
    match schema_step(
        SchemaEvent::LastMigration { count: 3, version: "m040".to_string(), name: "seed".to_string() },
        db,
    ) {
        SchemaStep::Done(s) => assert_eq!(
            s,
            Schema::Applied { count: 3, version: "m040".to_string(), name: "seed".to_string() }
        ),
        _ => panic!("the last migration is the answer"),
    }
    match schema_step(SchemaEvent::Failed("file is not a database".to_string()), db) {
        SchemaStep::Done(s) => assert_eq!(
            s,
            Schema::Unknown("/d/exchanges.db: file is not a database".to_string())
        ),
        _ => panic!("a failed read is unknown"),
    }
}

#[test]
fn windows_service_files_keep_the_drive() {
    assert_eq!(lock_path(r"C:\data\exchanges.db", PathStyle::Windows), r"C:\data\instance.lock");
    assert_eq!(info_path(r"C:\data\exchanges.db", PathStyle::Windows), r"C:\data\instance.json");
    assert_eq!(lock_path(r"C:\exchanges.db", PathStyle::Windows), r"C:\instance.lock");
    assert_eq!(lock_path(r"C:exchanges.db", PathStyle::Windows), r"C:instance.lock");
}

#[test]
fn a_trailing_dot_names_the_directory_itself() {
    assert_eq!(lock_path("a/b/.", PathStyle::Unix), "a/instance.lock");
    assert_eq!(lock_path("a/b/./", PathStyle::Unix), "a/instance.lock");
}

#[test]
fn schema_reads_name_their_statements() {
    assert_eq!(SchemaQuery::Open.statement(), None);
    assert_eq!(SchemaQuery::CountTable.statement(), Some(TABLE_COUNT_SQL));
    assert_eq!(SchemaQuery::ReadLast.statement(), Some(LAST_MIGRATION_SQL));
    assert!(LAST_MIGRATION_SQL.contains("ORDER BY rowid DESC LIMIT 1"));
    assert!(TABLE_COUNT_SQL.contains("name = '_migrations'"));
}
