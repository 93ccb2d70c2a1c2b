use mysql_executor::config::{Config, DatabaseConfig, ExecutionConfig};
use mysql_executor::database::DatabaseError;
use mysql_executor::executor::{
    build_execution_result, choose_config_path, should_skip_file, ExecutionResult, ExecutionSummary,
    ExecutorError,
};
use mysql_executor::json_writer::JsonWriterError;
use mysql_executor::scanner::{ScannerError, SqlFile};

fn create_test_config_with_intervals(scan_dir: &str, intervals: Vec<(String, u64)>) -> Config {
    Config {
        database: DatabaseConfig {
            host: "localhost".to_string(),
            port: 3306,
            username: "test".to_string(),
            password: "test".to_string(),
            database: "test".to_string(),
            pool_size: 5,
            timeout_seconds: 30,
        },
        execution: ExecutionConfig {
            scan_directory: scan_dir.to_string(),
            max_concurrent_files: 2,
            file_intervals: intervals,
        },
    }
}

#[test]
fn test_execution_result_success() {
    let result = ExecutionResult {
        file_path: "test.sql".to_string(),
        success: true,
        error_message: None,
        execution_time_ms: 100,
        json_updated: true,
    };

    assert!(result.success);
    assert!(result.json_updated);
    assert!(result.error_message.is_none());
    assert_eq!(result.execution_time_ms, 100);
}

#[test]
fn test_execution_result_failure() {
    let result = ExecutionResult {
        file_path: "test.sql".to_string(),
        success: false,
        error_message: Some("连接失败".to_string()),
        execution_time_ms: 50,
        json_updated: false,
    };

    assert!(!result.success);
    assert!(!result.json_updated);
    assert_eq!(result.error_message, Some("连接失败".to_string()));
}

#[test]
fn test_execution_result_skipped() {
    let result = ExecutionResult {
        file_path: "test.sql".to_string(),
        success: true,
        error_message: None,
        execution_time_ms: 5,
        json_updated: false,
    };

    assert!(result.success);
    assert!(!result.json_updated); // skipped because of the interval
}

#[test]
fn test_executor_error_from_scanner_error() {
    let scanner_err = ScannerError::DirectoryNotFound("/test".to_string());
    let executor_err: ExecutorError = scanner_err.into();
    assert!(matches!(executor_err, ExecutorError::ScannerError(_)));
}

#[test]
fn test_executor_error_from_database_error() {
    let db_err = DatabaseError::ConnectionError("test".to_string());
    let executor_err: ExecutorError = db_err.into();
    assert!(matches!(executor_err, ExecutorError::DatabaseError(_)));
}

#[test]
fn test_executor_error_from_json_writer_error() {
    let json_err = JsonWriterError::AtomicWriteError("test".to_string());
    let executor_err: ExecutorError = json_err.into();
    assert!(matches!(executor_err, ExecutorError::JsonWriterError(_)));
}

#[test]
fn test_config_interval_lookup() {
    let intervals = vec![
        ("reports/daily.sql".to_string(), 1440u64),
        ("queries/hourly.sql".to_string(), 60u64),
    ];

    let config = create_test_config_with_intervals("./sql", intervals);

    assert_eq!(config.get_interval_for_file("reports/daily.sql"), Some(1440));
    assert_eq!(config.get_interval_for_file("queries/hourly.sql"), Some(60));
    assert_eq!(config.get_interval_for_file("other.sql"), None);
}

#[test]
fn test_executor_error_display() {
    let err = ExecutorError::ConfigError("无效配置".to_string());
    assert!(err.to_string().contains("无效配置"));

    let err = ExecutorError::ScannerError(ScannerError::DirectoryNotFound("/test".to_string()));
    assert!(err.to_string().contains("扫描器错误"));
}

#[test]
fn test_executor_error_display_texts() {
    assert_eq!(
        ExecutorError::DatabaseError(DatabaseError::Timeout(30)).to_string(),
        "数据库错误: 查询超时: 超过 30 秒"
    );
    assert_eq!(
        ExecutorError::ScannerError(ScannerError::DirectoryNotFound("/x".to_string())).to_string(),
        "扫描器错误: 目录未找到: /x"
    );
    assert_eq!(
        ExecutorError::JsonWriterError(JsonWriterError::LockError("busy".to_string())).to_string(),
        "JSON 写入器错误: 获取文件锁失败: busy"
    );
    assert_eq!(ExecutorError::ConfigError("c".to_string()).to_string(), "配置错误: c");
}

fn sql_file(relative: &str) -> SqlFile {
    SqlFile {
        absolute_path: format!("/data/{}", relative),
        relative_path: relative.to_string(),
        json_path: format!("/data/{}.json", relative),
    }
}

#[test]
fn test_should_skip_file_decisions() {
    let config = create_test_config_with_intervals("./sql", vec![("daily.sql".to_string(), 1440)]);
    let daily = sql_file("daily.sql");
    let other = sql_file("other.sql");
    // no JSON output: never skipped
    assert!(!should_skip_file(&config, &daily, false, Some(0)));
    // no interval configured: always runs
    assert!(!should_skip_file(&config, &other, true, Some(0)));
    // modification time unknown: runs
    assert!(!should_skip_file(&config, &daily, true, None));
    // within the interval: skipped
    assert!(should_skip_file(&config, &daily, true, Some(1440 * 60 - 1)));
    // interval elapsed: runs
    assert!(!should_skip_file(&config, &daily, true, Some(1440 * 60)));
}

#[test]
fn test_should_skip_file_huge_interval() {
    let config = create_test_config_with_intervals("./sql", vec![("a.sql".to_string(), u64::MAX)]);
    assert!(should_skip_file(&config, &sql_file("a.sql"), true, Some(u64::MAX)));
}

#[test]
fn test_build_execution_result_cases() {
    let skipped = build_execution_result("a.sql".to_string(), 5, Ok((0, false)), true);
    assert!(skipped.success && !skipped.json_updated && skipped.error_message.is_none());
    assert_eq!(skipped.execution_time_ms, 5);

    let ok = build_execution_result("a.sql".to_string(), 9, Ok((120, true)), false);
    assert!(ok.success && ok.json_updated);
    assert_eq!(ok.execution_time_ms, 120);

    let failed = build_execution_result(
        "a.sql".to_string(),
        9,
        Err(ExecutorError::ConfigError("boom".to_string())),
        false,
    );
    assert!(!failed.success && !failed.json_updated);
    assert_eq!(failed.error_message, Some("配置错误: boom".to_string()));
    assert_eq!(failed.execution_time_ms, 9);
    assert_eq!(failed.file_path, "a.sql");
}

#[test]
fn test_execution_summary_counts() {
    let results = vec![
        build_execution_result("a.sql".to_string(), 1, Ok((1, true)), false),
        build_execution_result("b.sql".to_string(), 1, Ok((0, false)), true),
        build_execution_result("c.sql".to_string(), 1, Err(ExecutorError::ConfigError("x".to_string())), false),
    ];
    let summary = ExecutionSummary::of(&results);
    assert_eq!(summary, ExecutionSummary { total: 3, succeeded: 2, failed: 1, json_updated: 1 });
}

#[test]
fn test_choose_config_path_priority() {
    assert_eq!(choose_config_path(Some("a.toml".to_string()), Some("b.toml".to_string())), "a.toml");
    assert_eq!(choose_config_path(None, Some("b.toml".to_string())), "b.toml");
    assert_eq!(choose_config_path(None, None), "config/config.toml");
}

use mysql_executor::executor::{FileProcess, ProcessAction, ProcessEvent, ProcessPhase};

#[test]
fn test_file_process_success_path() {
    let config = create_test_config_with_intervals("./sql", vec![]);
    let mut p = FileProcess::new(sql_file("a.sql"));
    let a = p.step(&config, ProcessEvent::Started { json_exists: true, elapsed_secs: Some(1) }, 0);
    assert!(matches!(a, ProcessAction::ReadContent));
    let a = p.step(&config, ProcessEvent::ContentRead(Ok(())), 1);
    assert!(matches!(a, ProcessAction::ExecuteSql));
    let a = p.step(&config, ProcessEvent::Executed(Ok(42)), 2);
    assert!(matches!(a, ProcessAction::WriteJson));
    assert_eq!(p.current_phase(), ProcessPhase::AwaitWrite { execution_time_ms: 42 });
    match p.step(&config, ProcessEvent::Written(Ok(())), 50) {
        ProcessAction::Finished(r) => {
            assert!(r.success && r.json_updated);
            assert_eq!(r.execution_time_ms, 42);
            assert_eq!(r.file_path, "a.sql");
        }
        _ => panic!("expected a result"),
    }
    assert_eq!(p.current_phase(), ProcessPhase::Done);
}

#[test]
fn test_file_process_skip_and_failures() {
    let config = create_test_config_with_intervals("./sql", vec![("a.sql".to_string(), 10)]);
    let mut p = FileProcess::new(sql_file("a.sql"));
    match p.step(&config, ProcessEvent::Started { json_exists: true, elapsed_secs: Some(30) }, 3) {
        ProcessAction::Finished(r) => assert!(r.success && !r.json_updated && r.execution_time_ms == 3),
        _ => panic!("expected a skip"),
    }

    let mut p = FileProcess::new(sql_file("a.sql"));
    p.step(&config, ProcessEvent::Started { json_exists: false, elapsed_secs: None }, 0);
    p.step(&config, ProcessEvent::ContentRead(Ok(())), 0);
    match p.step(&config, ProcessEvent::Executed(Err(DatabaseError::QueryError("syntax".to_string()))), 7) {
        ProcessAction::Finished(r) => {
            assert!(!r.success && !r.json_updated);
            assert_eq!(r.error_message, Some("数据库错误: 查询执行错误: syntax".to_string()));
            assert_eq!(r.execution_time_ms, 7);
        }
        _ => panic!("expected a failure"),
    }

    let mut p = FileProcess::new(sql_file("b.sql"));
    p.step(&config, ProcessEvent::Started { json_exists: false, elapsed_secs: None }, 0);
    match p.step(&config, ProcessEvent::ContentRead(Err(ScannerError::ReadError("b.sql: gone".to_string()))), 1) {
        ProcessAction::Finished(r) => {
            assert!(!r.success && !r.json_updated);
            assert_eq!(r.error_message, Some("扫描器错误: 读取 SQL 文件失败: b.sql: gone".to_string()));
        }
        _ => panic!("expected a failure"),
    }
}

#[test]
fn test_file_process_write_failure_keeps_output() {
    let config = create_test_config_with_intervals("./sql", vec![]);
    let mut p = FileProcess::new(sql_file("c.sql"));
    p.step(&config, ProcessEvent::Started { json_exists: true, elapsed_secs: Some(5) }, 0);
    p.step(&config, ProcessEvent::ContentRead(Ok(())), 1);
    p.step(&config, ProcessEvent::Executed(Ok(12)), 2);
    match p.step(&config, ProcessEvent::Written(Err(JsonWriterError::AtomicWriteError("busy".to_string()))), 20) {
        ProcessAction::Finished(r) => {
            assert!(!r.success && !r.json_updated);
            assert_eq!(r.error_message, Some("JSON 写入器错误: 原子写入失败: busy".to_string()));
            assert_eq!(r.execution_time_ms, 20);
            assert_eq!(r.file_path, "c.sql");
        }
        _ => panic!("expected a failure"),
    }
    assert_eq!(p.current_phase(), ProcessPhase::Done);
}
