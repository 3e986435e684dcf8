use sqlite_es::wiring::{
    connected_pool, default_sqlites_pool_settings, postgres_aggregate_cqrs_source,
    postgres_snapshot_cqrs_source, sqlite_cqrs_source, SourceOfTruth,
};

#[test]
fn default_pool_has_one_connection() {
    let settings = default_sqlites_pool_settings("sqlite://aum-es.db");
    assert_eq!(settings.max_connections, 1);
    assert_eq!(settings.connection_string, "sqlite://aum-es.db");
}

#[test]
fn connection_string_goes_on_unchanged() {
    for given in ["", "sqlite::memory:", " sqlite://a b.db?mode=rwc ", "SQLite://Caf\u{e9}.db"] {
        let settings = default_sqlites_pool_settings(given);
        assert_eq!(settings.connection_string, given);
        assert_eq!(settings.max_connections, 1);
    }
}

#[test]
fn connected_pool_is_the_pool_answered() {
    let answer: Result<u32, String> = Ok(7);
    assert_eq!(connected_pool(answer), 7);
    let answer: Result<String, u8> = Ok("pool".to_string());
    assert_eq!(connected_pool(answer), "pool");
}

#[test]
fn each_store_has_its_source_of_truth() {
    assert_eq!(sqlite_cqrs_source(), SourceOfTruth::Events);
    assert_eq!(postgres_aggregate_cqrs_source(), SourceOfTruth::Aggregate);
    assert_ne!(sqlite_cqrs_source(), postgres_aggregate_cqrs_source());
}

#[test]
fn snapshot_size_is_used_as_given() {
    for size in [0usize, 1, 5, 1000, usize::MAX] {
        assert_eq!(postgres_snapshot_cqrs_source(size), SourceOfTruth::Snapshots { size });
    }
    assert_ne!(postgres_snapshot_cqrs_source(2), postgres_snapshot_cqrs_source(3));
}
