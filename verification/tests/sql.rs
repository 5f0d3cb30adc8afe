//! What user SQL may do, and the statements kept for it.
use cells::sql_policy;
use cells::sql_policy::{Authorization, SqlAction, SqlContext, SqlPrepares};
use cells::statement_cache::{SqlStatementCache, SqlStatementCacheLookup};

fn ask(user_sql: bool, action: SqlAction) -> bool {
    let mut prepares = SqlPrepares { count: 0 };
    let context = SqlContext { action, database_name: Some("main".into()), accessor: None };
    let verdict = sql_policy::authorize_sql(&mut prepares, user_sql, &context);
    assert_eq!(prepares.count, 1);
    verdict == Authorization::Allow
}

#[test]
fn reserved_tables_cannot_be_read() {
    assert!(!ask(
        true,
        SqlAction::Read { table_name: "_cf_KV".into(), column_name: "v".into() }
    ));
    assert!(!ask(true, SqlAction::Delete { table_name: "_CF_kv".into() }));
    assert!(ask(true, SqlAction::Read { table_name: "mine".into(), column_name: "v".into() }));
    assert!(ask(true, SqlAction::Select));
}

#[test]
fn transactions_belong_to_the_engine() {
    assert!(!ask(true, SqlAction::Transaction));
    assert!(!ask(true, SqlAction::Savepoint { savepoint_name: "sp".into() }));
    assert!(!ask(true, SqlAction::Attach { filename: "other.db".into() }));
}

#[test]
fn pragmas_are_limited() {
    assert!(sql_policy::allowed_sql_pragma(true, "table_info", Some("mine")));
    assert!(!sql_policy::allowed_sql_pragma(true, "table_info", Some("_cf_KV")));
    assert!(!sql_policy::allowed_sql_pragma(true, "journal_mode", Some("DELETE")));
    assert!(sql_policy::allowed_sql_pragma(true, "defer_foreign_keys", Some("on")));
    assert!(!sql_policy::allowed_sql_pragma(true, "defer_foreign_keys", Some("maybe")));
    assert!(sql_policy::valid_sql_boolean("TRUE"));
    assert!(!sql_policy::valid_sql_boolean("2x"));
    assert!(sql_policy::valid_sql_i32("-5"));
    assert!(!sql_policy::valid_sql_i32("2147483648"));
    assert!(sql_policy::is_reserved_sql_name(true, "_cf_anything"));
    assert!(!sql_policy::is_reserved_sql_name(false, "_cf_anything"));
}

#[test]
fn statements_are_cached_and_reused() {
    let mut cache: SqlStatementCache<u32> = SqlStatementCache::new();
    assert!(matches!(cache.take("SELECT 1"), SqlStatementCacheLookup::Miss));
    assert!(cache.register("SELECT 1"));
    assert!(matches!(cache.take("SELECT 1"), SqlStatementCacheLookup::Busy));
    assert_eq!(cache.recycle("SELECT 1", 7), None);
    assert!(matches!(
        cache.take("SELECT 1"),
        SqlStatementCacheLookup::Hit { statement: 7, .. }
    ));
    assert!(matches!(cache.take("SELECT 1"), SqlStatementCacheLookup::Busy));
    cache.discard("SELECT 1");
    assert!(cache.is_empty());
    assert_eq!(cache.recycle("SELECT 1", 7), Some(7));
}

#[test]
fn the_least_recent_statement_makes_room() {
    let mut cache: SqlStatementCache<u32> = SqlStatementCache::new();
    let long = |tag: &str| format!("SELECT '{}{}'", tag, "x".repeat(300_000));
    for (n, tag) in ["a", "b", "c"].iter().enumerate() {
        let query = long(tag);
        if cache.register(&query) {
            cache.recycle(&query, n as u32);
        }
    }
    cache.take(&long("a"));
    let (_, size, _) = cache.stats();
    cache.register(&long("d"));
    let (_, after, _) = cache.stats();
    assert!(size <= 1_048_576 && after <= 1_048_576);
}

#[test]
fn white_space_round_a_setting_is_left_out() {
    assert!(sql_policy::valid_sql_boolean("\u{3000}'on'\u{a0}\t"));
    assert!(sql_policy::valid_sql_boolean("\u{2028}OFF\u{85}"));
    assert!(!sql_policy::valid_sql_boolean("\u{200b}on"));
    assert!(!sql_policy::valid_sql_boolean("\u{feff}on"));
}
