//! Key-value storage, alarms and the schema, the statements run by SQLite.
use cells::storage;
use cells::storage::{
    AlarmFinish, AlarmState, BatchPlan, Cells, CursorAction, CursorEvent, FirstStep, IngestAction,
    IngestEvent, ListPrepared, ListStep, Sequence, SqlExecMode, SqlPlan, SqlValue, StoredValue,
    TransactionFailure, TransactionStep,
};
use cells::storage_plans;
use cells::storage_plans::{ListOptions, SqlLimit};
use rusqlite::types::Value;
use rusqlite::Connection;

/// Cells whose databases are open.
fn opened() -> Cells<u8> {
    let mut cells = Cells::new();
    storage::open(&mut cells, "s");
    storage::open(&mut cells, "other");
    cells
}

fn texts(items: &[&str]) -> Vec<String> {
    items.iter().map(|item| item.to_string()).collect()
}

fn sqlite_value(value: &SqlValue) -> Value {
    match value {
        SqlValue::Null => Value::Null,
        SqlValue::Integer(n) => Value::Integer(*n),
        SqlValue::Real(t) => Value::Real(t.parse().unwrap()),
        SqlValue::Text(t) => Value::Text(t.clone()),
        SqlValue::Blob(b) => Value::Blob(b.clone()),
    }
}

fn execute(connection: &Connection, plan: &SqlPlan) -> usize {
    let values: Vec<Value> = plan.parameters.iter().map(sqlite_value).collect();
    connection.execute(&plan.sql, rusqlite::params_from_iter(values)).unwrap()
}

fn rows(connection: &Connection, plan: &SqlPlan) -> Vec<(String, String)> {
    let values: Vec<Value> = plan.parameters.iter().map(sqlite_value).collect();
    let mut statement = connection.prepare(&plan.sql).unwrap();
    let found = statement
        .query_map(rusqlite::params_from_iter(values), |row| Ok((row.get(0)?, row.get(1)?)))
        .unwrap();
    found.map(|row| row.unwrap()).collect()
}

fn first(connection: &Connection, plan: &SqlPlan) -> Option<Value> {
    let values: Vec<Value> = plan.parameters.iter().map(sqlite_value).collect();
    let mut statement = connection.prepare(&plan.sql).unwrap();
    let mut found = statement.query(rusqlite::params_from_iter(values)).unwrap();
    found.next().unwrap().map(|row| row.get(0).unwrap())
}

fn table_names(connection: &Connection) -> Vec<String> {
    let mut statement = connection
        .prepare(
            "SELECT name FROM sqlite_schema WHERE type='table' \
             AND name NOT LIKE 'sqlite_%' ORDER BY name",
        )
        .unwrap();
    let found = statement.query_map([], |row| row.get::<_, String>(0)).unwrap();
    found.map(|row| row.unwrap()).collect()
}

fn migrate(connection: &Connection) {
    for sql in storage_plans::schema(&table_names(connection)) {
        connection.execute_batch(&sql).unwrap();
    }
    let columns: Vec<String> = {
        let mut statement = connection.prepare("PRAGMA table_info(_cf_ALARM)").unwrap();
        let found = statement.query_map([], |row| row.get::<_, String>(1)).unwrap();
        found.map(|row| row.unwrap()).collect()
    };
    for sql in storage_plans::alarm_columns(&columns) {
        connection.execute_batch(&sql).unwrap();
    }
}

#[test]
fn legacy_tables_are_renamed_in_place() {
    let connection = Connection::open_in_memory().expect("open");
    connection
        .execute_batch(
            "CREATE TABLE kv (scope TEXT, k TEXT, v TEXT, PRIMARY KEY(scope,k));
             CREATE TABLE alarms (scope TEXT PRIMARY KEY, at_ms INTEGER);
             CREATE TABLE cell_metadata (scope TEXT PRIMARY KEY, actor_name TEXT);
             INSERT INTO kv VALUES('s','k','v');",
        )
        .expect("legacy schema");
    migrate(&connection);
    assert_eq!(table_names(&connection), ["_cf_ALARM", "_cf_KV", "_cf_METADATA"]);
    let kept: String = connection
        .query_row("SELECT v FROM _cf_KV WHERE k='k'", [], |row| row.get(0))
        .expect("the row survives the rename");
    assert_eq!(kept, "v");
    migrate(&connection);
    let kept_again: String = connection
        .query_row("SELECT v FROM _cf_KV WHERE k='k'", [], |row| row.get(0))
        .expect("still there");
    assert_eq!(kept_again, "v");
}

#[test]
fn earlier_alarm_tables_get_their_columns() {
    let connection = Connection::open_in_memory().unwrap();
    connection
        .execute_batch("CREATE TABLE alarms (scope TEXT PRIMARY KEY, at_ms INTEGER)")
        .unwrap();
    migrate(&connection);
    connection
        .execute("INSERT INTO _cf_ALARM(scope,at_ms) VALUES('s',7)", [])
        .unwrap();
    let row: (i64, i64) = connection
        .query_row("SELECT generation,counted_retry FROM _cf_ALARM", [], |row| {
            Ok((row.get(0)?, row.get(1)?))
        })
        .unwrap();
    assert_eq!(row, (0, 0));
    assert!(storage_plans::alarm_columns(&texts(&["generation", "counted_retry"])).is_empty());
}

#[test]
fn keys_are_written_read_and_deleted() {
    let connection = Connection::open_in_memory().unwrap();
    migrate(&connection);
    execute(
        &connection,
        &storage_plans::put_serialized(&opened(), "s", "k", vec![1, 2, 3]).unwrap(),
    );
    assert_eq!(
        first(&connection, &storage_plans::get_stored(&opened(), "s", "k").unwrap()),
        Some(Value::Blob(vec![1, 2, 3]))
    );
    let empty = storage_plans::put_serialized(&opened(), "s", "empty", vec![]).unwrap();
    execute(&connection, &empty);
    assert_eq!(
        first(&connection, &storage_plans::get_stored(&opened(), "s", "empty").unwrap()),
        Some(Value::Blob(vec![]))
    );
    execute(&connection, &storage_plans::put(&opened(), "s", "k", "t").unwrap());
    assert_eq!(
        first(&connection, &storage_plans::get_stored(&opened(), "s", "k").unwrap()),
        Some(Value::Text("t".into()))
    );
    assert_eq!(first(&connection, &storage_plans::get_stored(&opened(), "other", "k").unwrap()), None);
    let delete = storage_plans::delete(&opened(), "s", "k").unwrap();
    assert!(storage_plans::deleted(execute(&connection, &delete) as u64));
    assert!(!storage_plans::deleted(execute(&connection, &delete) as u64));
    assert_eq!(
        first(&connection, &storage_plans::get_stored(&opened(), "s", "empty").unwrap()),
        Some(Value::Blob(vec![]))
    );
    execute(&connection, &storage_plans::put(&opened(), "s", "k", "t").unwrap());
    assert_eq!(execute(&connection, &storage_plans::delete(&opened(), "s", "k").unwrap()), 1);
    assert_eq!(execute(&connection, &storage_plans::delete(&opened(), "s", "k").unwrap()), 0);
}

#[test]
fn several_keys_are_written_read_and_deleted() {
    let connection = Connection::open_in_memory().unwrap();
    migrate(&connection);
    for plan in storage_plans::put_many_serialized(&opened(), "s",
        vec![("b".into(), vec![2]), ("a".into(), vec![1])],
    ).unwrap() {
        execute(&connection, &plan);
    }
    for plan in storage_plans::put_many(&opened(), "s", vec![("c".into(), "text".into())]).unwrap() {
        execute(&connection, &plan);
    }
    let read = storage_plans::get_many_stored(&opened(), "s", &texts(&["c", "a", "b", "a", "none"])).unwrap();
    let keys: Vec<&str> = read.iter().map(|(key, _)| key.as_str()).collect();
    assert_eq!(keys, ["a", "b", "c", "none"]);
    let values: Vec<Option<Value>> = read.iter().map(|(_, plan)| first(&connection, plan)).collect();
    assert_eq!(
        values,
        [
            Some(Value::Blob(vec![1])),
            Some(Value::Blob(vec![2])),
            Some(Value::Text("text".into())),
            None
        ]
    );
    let gone: usize = storage_plans::delete_many(&opened(), "s", &texts(&["a", "c", "none"])).unwrap()
        .iter()
        .map(|plan| execute(&connection, plan))
        .sum();
    assert_eq!(gone, 2);
}

#[test]
fn keys_are_listed_by_prefix_and_bounds() {
    let connection = Connection::open_in_memory().unwrap();
    migrate(&connection);
    for key in ["a", "ab", "abc", "abd", "b", "ab\u{10FFFF}z", "ac"] {
        execute(&connection, &storage_plans::put(&opened(), "s", key, "v").unwrap());
    }
    let listed = |options: ListOptions| -> Vec<String> {
        rows(&connection, &storage_plans::list_query(&opened(), "s", &options).unwrap())
            .into_iter()
            .map(|row| row.0)
            .collect()
    };
    let none = || ListOptions {
        begin: None,
        end: None,
        start_after: None,
        prefix: None,
        limit: None,
        reverse: false,
    };
    assert_eq!(
        listed(ListOptions { prefix: Some("ab".into()), ..none() }),
        ["ab", "abc", "abd", "ab\u{10FFFF}z"]
    );
    assert_eq!(
        listed(ListOptions { begin: Some("ab".into()), end: Some("abd".into()), ..none() }),
        ["ab", "abc"]
    );
    assert_eq!(
        listed(ListOptions { start_after: Some("abd".into()), limit: Some(1), ..none() }),
        ["ab\u{10FFFF}z"]
    );
    assert_eq!(listed(ListOptions { reverse: true, limit: Some(2), ..none() }), ["b", "ac"]);
}

#[test]
fn prefixes_have_their_upper_bounds() {
    assert_eq!(storage_plans::prefix_upper_bound("ab"), Some("ac".to_string()));
    assert_eq!(storage_plans::prefix_upper_bound("a\u{D7FF}"), Some("a\u{E000}".to_string()));
    assert_eq!(storage_plans::prefix_upper_bound("a\u{10FFFF}"), Some("b".to_string()));
    assert_eq!(storage_plans::prefix_upper_bound("\u{10FFFF}"), None);
    assert_eq!(storage_plans::prefix_upper_bound(""), None);
}

#[test]
fn structured_values_are_no_legacy_text() {
    let read = storage_plans::get_many(vec![("k".into(), StoredValue::LegacyJson("1".into()))]);
    assert_eq!(read, Ok(vec![("k".to_string(), "1".to_string())]));
    let refused = storage_plans::list_with_options(vec![
        ("k".into(), StoredValue::LegacyJson("1".into())),
        ("l".into(), StoredValue::V8(vec![1])),
    ]);
    assert_eq!(
        refused,
        Err("structured-clone value cannot be read as legacy JSON".to_string())
    );
}

#[test]
fn actor_names_are_written_once() {
    let connection = Connection::open_in_memory().unwrap();
    migrate(&connection);
    execute(&connection, &storage_plans::write_actor_name(&opened(), "s", "first").unwrap());
    execute(&connection, &storage_plans::write_actor_name(&opened(), "s", "second").unwrap());
    assert_eq!(
        first(&connection, &storage_plans::get_actor_name(&opened(), "s").unwrap()),
        Some(Value::Text("first".into()))
    );
    assert_eq!(storage_plans::set_actor_name("s", "first", Some("first")), Ok(()));
    assert_eq!(
        storage_plans::set_actor_name("s", "second", Some("first")),
        Err("actor name conflicts with persisted identity for s".to_string())
    );
    assert!(storage_plans::set_actor_name("s", "first", None).is_err());
}

#[test]
fn everything_is_deleted_but_the_name() {
    let connection = Connection::open_in_memory().unwrap();
    migrate(&connection);
    connection.execute_batch("CREATE TABLE mine (x); INSERT INTO mine VALUES(1)").unwrap();
    execute(&connection, &storage_plans::put(&opened(), "s", "k", "v").unwrap());
    execute(&connection, &storage_plans::write_actor_name(&opened(), "s", "name").unwrap());
    connection.execute("INSERT INTO _cf_ALARM(scope,at_ms) VALUES('s',7)", []).unwrap();
    for sql in storage_plans::delete_all_with_alarm(&opened(), "s", &table_names(&connection), false).unwrap() {
        connection.execute_batch(&sql).unwrap();
    }
    migrate(&connection);
    let count = |sql: &str| -> i64 { connection.query_row(sql, [], |row| row.get(0)).unwrap() };
    assert_eq!(count("SELECT count(*) FROM _cf_KV"), 0);
    assert_eq!(count("SELECT count(*) FROM _cf_ALARM"), 1);
    assert_eq!(count("SELECT count(*) FROM _cf_METADATA"), 1);
    assert!(!table_names(&connection).contains(&"mine".to_string()));
    for sql in storage_plans::delete_all_with_alarm(&opened(), "s", &table_names(&connection), true).unwrap() {
        connection.execute_batch(&sql).unwrap();
    }
    migrate(&connection);
    assert_eq!(count("SELECT count(*) FROM _cf_ALARM"), 0);
    assert_eq!(
        storage_plans::delete_all_with_alarm(&opened(), "s", &texts(&["_LiteStream_seq", "a\"b"]), true).unwrap(),
        ["DROP TABLE IF EXISTS \"a\"\"b\";"]
    );
}

#[test]
fn sql_limits_are_the_documented_ones() {
    assert_eq!(SqlLimit::Length.value(), 2_200_000);
    assert_eq!(SqlLimit::SqlLength.value(), 100_000);
    assert_eq!(SqlLimit::VdbeOp.value(), 25_000);
    assert_eq!(SqlLimit::FunctionArg.value(), 127);
    assert_eq!(SqlLimit::Attached.value(), 0);
}

#[test]
fn due_alarms_are_found_and_cleared() {
    let connection = Connection::open_in_memory().unwrap();
    migrate(&connection);
    connection
        .execute("INSERT INTO _cf_ALARM(scope,at_ms,retry) VALUES('s',100,2)", [])
        .unwrap();
    assert_eq!(first(&connection, &storage_plans::due_alarm_entry(&opened(), "s", 99).unwrap()), None);
    assert_eq!(
        first(&connection, &storage_plans::due_alarm_entry(&opened(), "s", 100).unwrap()),
        Some(Value::Integer(100))
    );
    execute(&connection, &storage::bump_alarm_with_policy("s", Some(500), true));
    let row: (i64, i64, i64) = connection
        .query_row("SELECT at_ms,retry,counted_retry FROM _cf_ALARM", [], |row| {
            Ok((row.get(0)?, row.get(1)?, row.get(2)?))
        })
        .unwrap();
    assert_eq!(row, (500, 3, 1));
    assert_eq!(execute(&connection, &storage_plans::clear_alarm_if_due(&opened(), "s", 499).unwrap()), 0);
    assert_eq!(execute(&connection, &storage_plans::clear_alarm_if_due(&opened(), "s", 500).unwrap()), 1);
    assert_eq!(storage::due_alarm(Some((100, 2)), 99), None);
    assert_eq!(storage::due_alarm(Some((100, 2)), 100), Some(2));
    assert_eq!(storage_plans::persisted_alarm((5, -3, 4294967297, -1)), (5, -3, 1, u32::MAX));
}

#[test]
fn a_running_alarm_is_hidden_and_consumed() {
    let mut cells: Cells<u8> = Cells::new();
    storage::open(&mut cells, "s");
    storage::begin_alarm_handler(&mut cells, "s", 100, Some((100, 1)));
    assert_eq!(storage::get_alarm(&cells, "s", Some((100, 1))), None);
    assert_eq!(storage::active_alarm_scheduled_time(&cells, "s"), Some(100));
    assert_eq!(storage::get_alarm(&cells, "s", Some((900, 2))), Some(900));
    assert!(matches!(
        storage::finish_alarm_handler(&mut cells, "s", true, Some((100, 1))),
        AlarmFinish::Consume(100)
    ));
    assert!(matches!(
        storage::finish_alarm_handler(&mut cells, "s", true, Some((100, 1))),
        AlarmFinish::Leave
    ));
    storage::begin_alarm_handler(&mut cells, "s", 100, Some((100, 1)));
    assert!(matches!(
        storage::finish_alarm_handler(&mut cells, "s", false, Some((100, 1))),
        AlarmFinish::Retry
    ));
    storage::begin_alarm_handler(&mut cells, "s", 100, Some((100, 1)));
    assert!(matches!(
        storage::finish_alarm_handler(&mut cells, "s", true, Some((900, 2))),
        AlarmFinish::Leave
    ));
}

#[test]
fn alarms_are_published_when_their_transaction_ends() {
    let mut cells: Cells<u8> = Cells::new();
    storage::open(&mut cells, "s");
    assert_eq!(
        storage::set_alarm(&mut cells, "s", Ok(()), AlarmState::InTransaction),
        Ok(None)
    );
    assert!(storage::take_alarm_moves(&mut cells).is_empty());
    assert_eq!(
        storage::transaction_ran(
            &mut cells,
            "s",
            "commit",
            false,
            Ok(()),
            AlarmState::Committed(70)
        ),
        Ok(Some(70))
    );
    assert_eq!(storage::take_alarm_moves(&mut cells), [("s".to_string(), 70)]);
    assert!(storage::take_alarm_moves(&mut cells).is_empty());
    assert_eq!(
        storage::set_alarm(&mut cells, "s", Err("disk".into()), AlarmState::Gone),
        Err("disk".to_string())
    );
}

#[test]
fn transactions_run_their_statements() {
    let mut cells: Cells<u8> = Cells::new();
    let begun =
        storage::transaction_control(&mut cells, "s", "start", false, "sp", AlarmState::Gone);
    assert!(matches!(begun, TransactionStep::Answer(Err(_))));
    storage::open(&mut cells, "s");
    match storage::transaction_control(&mut cells, "s", "start", false, "sp", AlarmState::Gone) {
        TransactionStep::Run(sql) => assert_eq!(sql, "BEGIN IMMEDIATE"),
        TransactionStep::Answer(_) => panic!("a transaction begins"),
    }
    let refused =
        storage::transaction_control(&mut cells, "s", "start", true, "sp", AlarmState::Gone);
    assert!(matches!(
        refused,
        TransactionStep::Answer(Err(error)) if error == "invalid storage transaction savepoint"
    ));
    let unknown =
        storage::transaction_control(&mut cells, "s", "pause", false, "", AlarmState::Gone);
    assert!(matches!(
        unknown,
        TransactionStep::Answer(Err(error)) if error == "invalid storage transaction action"
    ));
    match storage::transaction_control(
        &mut cells,
        "s",
        "rollback",
        true,
        "cells_tx_7",
        AlarmState::Gone,
    ) {
        TransactionStep::Run(sql) => {
            assert_eq!(sql, "ROLLBACK TO cells_tx_7; RELEASE cells_tx_7")
        }
        TransactionStep::Answer(_) => panic!("a nested transaction ends"),
    }
}

#[test]
fn batches_run_as_one() {
    let mut cells: Cells<u8> = Cells::new();
    let mut savepoints = Sequence::new();
    assert_eq!(
        storage::batch_plan(&cells, &mut savepoints, "s", 2, true).err(),
        Some("no db for s".to_string())
    );
    storage::open(&mut cells, "s");
    assert!(matches!(
        storage::batch_plan(&cells, &mut savepoints, "s", 0, true),
        Ok(BatchPlan::Nothing)
    ));
    assert!(matches!(
        storage::batch_plan(&cells, &mut savepoints, "s", 2, true),
        Ok(BatchPlan::Transaction)
    ));
    match storage::batch_plan(&cells, &mut savepoints, "s", 2, false) {
        Ok(BatchPlan::Savepoint { begin, release, undo }) => {
            assert!(begin.starts_with("SAVEPOINT cells_batch_"));
            assert!(release.starts_with("RELEASE cells_batch_"));
            assert!(undo.starts_with("ROLLBACK TO cells_batch_"));
        }
        _ => panic!("a batch within a transaction is a savepoint"),
    }
}

#[test]
fn the_first_critical_error_stands() {
    let mut cells: Cells<u8> = Cells::new();
    storage::open(&mut cells, "s");
    assert_eq!(storage::require_sql_healthy(&cells, "s"), Ok(()));
    let first = storage::sqlite_operation_failure(&mut cells, "s", "step", "disk I/O error", true);
    let again = storage::sqlite_operation_failure(&mut cells, "s", "step", "other", true);
    assert!(first.contains("disk I/O error"));
    assert!(again.contains("disk I/O error") || again.contains("other"));
    let held = storage::sql_critical_error(&cells, "s").unwrap();
    assert!(held.contains("disk I/O error"));
    assert_eq!(storage::require_sql_healthy(&cells, "s"), Err(held));
    storage::open(&mut cells, "s");
    assert_eq!(storage::sql_critical_error(&cells, "s"), None);
}

#[test]
fn closing_a_cell_leaves_the_others() {
    let mut cells: Cells<u8> = Cells::new();
    storage::open(&mut cells, "a");
    storage::open(&mut cells, "b");
    storage::close(&mut cells, "a");
    assert!(!cells.is_open("a"));
    assert!(cells.is_open("b"));
}

#[test]
fn scripts_are_ingested_statement_by_statement() {
    assert!(matches!(storage::sql_ingest(&IngestEvent::Empty), IngestAction::Stop));
    assert!(matches!(
        storage::sql_ingest(&IngestEvent::Prepared { complete: true }),
        IngestAction::Run
    ));
    assert!(matches!(
        storage::sql_ingest(&IngestEvent::Prepared { complete: false }),
        IngestAction::Stop
    ));
}

#[test]
fn queries_run_their_statements_in_turn() {
    let mut cells = opened();
    let query = "SELECT 1; SELECT ?; \n";
    let begun = storage::begin_cursor(&mut cells, "s", query, None).ok().unwrap();
    let mut course = begun.course;
    assert!(begun.statement.is_none() && !begun.reused);
    assert!(matches!(begun.action, CursorAction::Prepare { from: 0 }));
    let prepared = CursorEvent::Prepared { parameters: 0, used: 9 };
    assert!(matches!(
        course.step(&mut cells, "s", query, 1, prepared),
        CursorAction::RunPrefix
    ));
    assert!(matches!(
        course.step(&mut cells, "s", query, 1, CursorEvent::PrefixDone),
        CursorAction::Prepare { from: 9 }
    ));
    let prepared = CursorEvent::Prepared { parameters: 1, used: 10 };
    assert!(matches!(course.step(&mut cells, "s", query, 1, prepared), CursorAction::Bind));
    assert!(matches!(
        course.step(&mut cells, "s", query, 1, CursorEvent::Bound),
        CursorAction::Step
    ));
    assert!(course.saw_prefix && !course.placed);
}

#[test]
fn statements_come_back_to_their_place() {
    let mut cells = opened();
    let mut ids = Sequence::new();
    let query = "SELECT ?";
    let mut course = storage::begin_cursor(&mut cells, "s", query, None).ok().unwrap().course;
    course.step(&mut cells, "s", query, 1, CursorEvent::Prepared { parameters: 1, used: 8 });
    course.step(&mut cells, "s", query, 1, CursorEvent::Bound);
    assert!(course.placed);
    let done = FirstStep::Done { changes: 0, reusable: true };
    let start = storage::sql_cursor_start(&mut cells, &mut ids, "s", query, 7, true, 0, done);
    assert_eq!((start.id, start.finalize), (0, None));
    let again = storage::begin_cursor(&mut cells, "s", query, None).ok().unwrap();
    assert_eq!((again.statement, again.reused), (Some(7), true));
    assert!(matches!(again.action, CursorAction::Count));
    let mut course = again.course;
    assert!(matches!(
        course.step(&mut cells, "s", query, 0, CursorEvent::Counted(1)),
        CursorAction::Fail(error) if error == "Wrong number of parameter bindings for SQL query."
    ));
    let fresh = storage::begin_cursor(&mut cells, "s", query, None).ok().unwrap();
    assert!(fresh.statement.is_none());
    assert!(!fresh.course.busy);
}

#[test]
fn queries_fail_where_their_statements_do() {
    let mut cells = opened();
    let fails = |cells: &mut Cells<u8>, query: &str, events: Vec<CursorEvent>| {
        let mut course = storage::begin_cursor(cells, "s", query, None).ok().unwrap().course;
        let mut last = String::new();
        for event in events {
            if let CursorAction::Fail(error) = course.step(cells, "s", query, 0, event) {
                last = error;
            }
        }
        last
    };
    let failed = |poisons| CursorEvent::Failed { detail: "disk full".into(), poisons };
    let last = || CursorEvent::Prepared { parameters: 0, used: 8 };
    assert_eq!(
        fails(&mut cells, " -- x", vec![CursorEvent::Empty]),
        "SQL code did not contain a statement"
    );
    assert_eq!(
        fails(&mut cells, "SELECT ?; SELECT 1", vec![CursorEvent::Prepared {
            parameters: 1,
            used: 9,
        }]),
        "Wrong number of parameter bindings for SQL query."
    );
    assert_eq!(fails(&mut cells, "SELECT", vec![failed(false)]), "prepare SQL cursor: disk full");
    assert_eq!(
        fails(&mut cells, "SELECT 1; SELECT 2", vec![last(), failed(false)]),
        "step SQL prefix: disk full"
    );
    assert_eq!(
        fails(&mut cells, "SELECT 1", vec![last(), CursorEvent::Unbound("x".into())]),
        "bind sync KV cursor: x"
    );
    assert_eq!(storage::sql_critical_error(&cells, "s"), None);
    assert_eq!(
        fails(&mut cells, "SELECT 1", vec![last(), CursorEvent::Bound, failed(true)]),
        "step SQL cursor: disk full"
    );
    let critical = "step SQL cursor: disk full".to_string();
    assert_eq!(storage::sql_critical_error(&cells, "s"), Some(critical.clone()));
    assert_eq!(
        storage::begin_cursor(&mut cells, "s", "SELECT 1", None).err(),
        Some(critical)
    );
    let mut closed: Cells<u8> = Cells::new();
    assert_eq!(
        storage::begin_cursor(&mut closed, "s", "q", Some("nul byte".into())).err(),
        Some("nul byte".to_string())
    );
    assert_eq!(
        storage::begin_cursor(&mut closed, "s", "q", None).err(),
        Some("no db for s".to_string())
    );
}

#[test]
fn failed_transactions_are_classed() {
    let mut cells = opened();
    let sqlite = || TransactionFailure::Sqlite {
        words: "database is locked".into(),
        detail: "locked".into(),
        poisons: true,
    };
    let ran = |cells: &mut Cells<u8>, action: &str, failure: TransactionFailure| {
        let state = AlarmState::InTransaction;
        storage::transaction_ran(cells, "s", action, false, Err(failure), state).unwrap_err()
    };
    assert_eq!(ran(&mut cells, "start", sqlite()), "database is locked");
    assert_eq!(ran(&mut cells, "commit", TransactionFailure::Other("x".into())), "x");
    assert_eq!(storage::sql_critical_error(&cells, "s"), None);
    assert_eq!(ran(&mut cells, "commit", sqlite()), "control storage transaction: locked");
    assert_eq!(
        storage::sql_critical_error(&cells, "s"),
        Some("control storage transaction: locked".to_string())
    );
}

#[test]
fn alarms_are_what_the_database_says() {
    assert_eq!(storage::alarm_state(None, Some(3)), AlarmState::Gone);
    assert_eq!(storage::alarm_state(Some(false), Some(3)), AlarmState::InTransaction);
    assert_eq!(storage::alarm_state(Some(true), Some(3)), AlarmState::Committed(3));
    assert_eq!(storage::alarm_state(Some(true), None), AlarmState::Committed(-1));
}

#[test]
fn listings_end_with_their_rows() {
    let mut cells = opened();
    let mut ids = Sequence::new();
    let failed = ListPrepared::Unprepared("x".into());
    assert_eq!(
        storage::sync_list_opened(&mut cells, &mut ids, "s", failed),
        Err("prepare sync KV cursor: x".to_string())
    );
    let id =
        storage::sync_list_opened(&mut cells, &mut ids, "s", ListPrepared::Statement(4)).unwrap();
    assert_eq!(storage::sync_list_next(&cells, id).ok().unwrap().statement, 4);
    let row = ListStep::Row { key: "k".into(), value: SqlValue::Integer(-5) };
    assert!(matches!(
        storage::sync_list_stepped(&mut cells, id, row),
        Ok(Some((key, StoredValue::LegacyJson(text)))) if key == "k" && text == "-5"
    ));
    assert!(matches!(storage::sync_list_stepped(&mut cells, id, ListStep::Done), Ok(None)));
    assert!(storage::sync_list_next(&cells, id).is_err());
    assert_eq!(
        storage::sync_list_stepped(&mut cells, id, ListStep::Failed("x".into())).err(),
        Some("step sync KV cursor: x".to_string())
    );
}

/// Whether SQLite finds another statement behind the first.
fn has_more(connection: &Connection, query: &str) -> bool {
    match connection.prepare(query) {
        Ok(_) => false,
        Err(rusqlite::Error::MultipleStatement) => true,
        Err(error) => panic!("{error}"),
    }
}

#[test]
fn statements_and_scripts_are_told_apart() {
    let mut cells: Cells<u8> = Cells::new();
    assert_eq!(
        storage::sql_exec(&cells, "s", 0, false).err(),
        Some("no db for s".to_string())
    );
    storage::open(&mut cells, "s");
    let connection = Connection::open_in_memory().unwrap();
    let mode = |query: &str, binds: usize| {
        storage::sql_exec(&cells, "s", binds, has_more(&connection, query)).unwrap()
    };
    assert_eq!(mode("SELECT ?", 1), SqlExecMode::Statement);
    assert_eq!(mode("SELECT ';;'", 0), SqlExecMode::Statement);
    assert_eq!(mode("SELECT 1; -- the end;;", 0), SqlExecMode::Statement);
    assert_eq!(mode("SELECT 1; SELECT 2", 0), SqlExecMode::Batch);
    assert_eq!(mode("SELECT 1; SELECT ?", 1), SqlExecMode::Statement);
    let row: String = connection.query_row("SELECT ';;'", [], |row| row.get(0)).unwrap();
    assert_eq!(row, ";;");
}

#[test]
fn closed_cells_refuse_their_keys() {
    let mut cells = opened();
    assert!(storage_plans::get_stored(&cells, "s", "k").is_ok());
    storage::close(&mut cells, "s");
    let refusal = "no db for s".to_string();
    let read = storage_plans::get_stored(&cells, "s", "k");
    assert_eq!(read.err(), Some(refusal.clone()));
    let write = storage_plans::put_serialized(&cells, "s", "k", vec![1]);
    assert!(storage_plans::put(&cells, "s", "k", "v").is_none());
    assert_eq!(write.err(), Some(refusal.clone()));
    assert_eq!(storage_plans::delete(&cells, "s", "k").err(), Some(refusal.clone()));
    assert_eq!(storage_plans::delete_many(&cells, "s", &vec![]).err(), Some(refusal.clone()));
    assert_eq!(storage_plans::get_many_stored(&cells, "s", &vec![]).err(), Some(refusal.clone()));
    assert_eq!(storage_plans::put_many(&cells, "s", vec![]).err(), Some(refusal.clone()));
    assert_eq!(storage_plans::get_actor_name(&cells, "s").err(), Some(refusal.clone()));
    let all = storage_plans::delete_all_with_alarm(&cells, "s", &vec![], true);
    assert_eq!(all.err(), Some(refusal));
    assert!(storage_plans::due_alarm_entry(&cells, "s", 1).is_none());
    assert!(storage_plans::get_stored(&cells, "other", "k").is_ok());
    assert_eq!(storage::write_position(&cells, "s", 1, 2), None);
    assert_eq!(storage::write_position(&cells, "other", 1, 2), Some(3));
}
