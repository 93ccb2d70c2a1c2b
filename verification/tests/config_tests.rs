use mysql_executor::config::{
    default_max_concurrent, default_pool_size, default_timeout, Config, DatabaseConfig, ExecutionConfig,
};

fn config_with(intervals: Vec<(String, u64)>) -> Config {
    Config {
        database: DatabaseConfig {
            host: "localhost".to_string(),
            port: 3306,
            username: "root".to_string(),
            password: "test".to_string(),
            database: "testdb".to_string(),
            pool_size: 10,
            timeout_seconds: 300,
        },
        execution: ExecutionConfig {
            scan_directory: "./sql".to_string(),
            max_concurrent_files: 4,
            file_intervals: intervals,
        },
    }
}

#[test]
fn test_get_interval_for_file_with_path_variations() {
    let config = config_with(vec![
        ("reports/daily.sql".to_string(), 1440),
        ("queries/hourly.sql".to_string(), 60),
        ("simple.sql".to_string(), 30),
    ]);

    assert_eq!(config.get_interval_for_file("reports/daily.sql"), Some(1440));
    assert_eq!(config.get_interval_for_file("queries/hourly.sql"), Some(60));
    assert_eq!(config.get_interval_for_file("simple.sql"), Some(30));
    assert_eq!(config.get_interval_for_file("nonexistent.sql"), None);
    assert_eq!(config.get_interval_for_file("reports/other.sql"), None);
}

#[test]
fn test_default_values_functions() {
    assert_eq!(default_pool_size(), 10);
    assert_eq!(default_timeout(), 300);
    assert_eq!(default_max_concurrent(), 4);
}

#[test]
fn test_default_config_contents() {
    let config = Config::default_config();
    assert_eq!(config.database.host, "localhost");
    assert_eq!(config.database.port, 3306);
    assert_eq!(config.database.username, "root");
    assert_eq!(config.database.password, "password");
    assert_eq!(config.database.database, "test");
    assert_eq!(config.database.pool_size, 10);
    assert_eq!(config.database.timeout_seconds, 300);
    assert_eq!(config.execution.scan_directory, "./sql");
    assert_eq!(config.execution.max_concurrent_files, 4);
    assert!(config.execution.file_intervals.is_empty());
}

#[test]
fn test_interval_lookup_empty_table() {
    let config = config_with(vec![]);
    assert_eq!(config.get_interval_for_file(""), None);
    assert_eq!(config.get_interval_for_file("a.sql"), None);
}
