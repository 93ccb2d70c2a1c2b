use mysql_executor::scanner::{Scanner, ScannerError, SqlFile};

#[test]
fn test_sql_file_json_path() {
    let base = "/nonexistent_base_for_tests/dir";
    let sql_path = format!("{}/test.sql", base);

    let sql_file = SqlFile::new(sql_path.clone(), base);

    assert_eq!(sql_file.json_path, format!("{}/test.json", base));
    assert!(!sql_file.json_exists());
}

#[test]
fn test_sql_file_relative_paths() {
    let f = SqlFile::new("/srv/sql/reports/daily.sql".to_string(), "/srv/sql");
    assert_eq!(f.relative_path, "reports/daily.sql");
    assert_eq!(f.absolute_path, "/srv/sql/reports/daily.sql");
    assert_eq!(f.json_path, "/srv/sql/reports/daily.json");
    // a file outside the base keeps its full path
    let g = SqlFile::new("/other/x.SQL".to_string(), "/srv/sql");
    assert_eq!(g.relative_path, "/other/x.SQL");
    assert_eq!(g.json_path, "/other/x.json");
}

#[test]
fn test_scanner_missing_directory() {
    let result = Scanner::new("/nonexistent/directory/for/scanner");
    assert!(matches!(result, Err(ScannerError::DirectoryNotFound(p)) if p == "/nonexistent/directory/for/scanner"));
}

#[test]
fn test_scanner_existing_directory_and_filter() {
    let scanner = Scanner::new("/").expect("the root directory exists");
    assert_eq!(scanner.base_directory(), "/");
    let found = vec![
        "/sql/test1.sql".to_string(),
        "/sql/test2.SQL".to_string(),
        "/sql/not_sql.txt".to_string(),
        "/sql/subdir/test3.sql".to_string(),
        "/sql/.sql".to_string(),
        "/sql/noext".to_string(),
    ];
    let files = scanner.collect_sql_files(&found);
    let names: Vec<&str> = files.iter().map(|f| f.absolute_path.as_str()).collect();
    assert_eq!(names, vec!["/sql/test1.sql", "/sql/test2.SQL", "/sql/subdir/test3.sql"]);
    assert_eq!(files[2].relative_path, "sql/subdir/test3.sql");
    assert!(Scanner::is_sql_file("a.Sql"));
    assert!(!Scanner::is_sql_file("a.sqlx"));
}

#[test]
fn test_scanner_error_display() {
    assert_eq!(ScannerError::DirectoryNotFound("/d".to_string()).to_string(), "目录未找到: /d");
    assert_eq!(ScannerError::ReadError("f".to_string()).to_string(), "读取 SQL 文件失败: f");
    let io: ScannerError = std::io::Error::new(std::io::ErrorKind::Other, "boom").into();
    assert!(io.to_string().starts_with("IO 错误: "));
}

#[test]
fn test_sql_file_paths_under_relative_scan_directory() {
    let f = SqlFile::new("./sql/reports/daily.sql".to_string(), "./sql");
    assert_eq!(f.relative_path, "reports/daily.sql");
    assert_eq!(f.json_path, "./sql/reports/daily.json");
    let g = SqlFile::new("sql/a.b.sql".to_string(), "sql");
    assert_eq!(g.relative_path, "a.b.sql");
    assert_eq!(g.json_path, "sql/a.b.json");
}

#[test]
fn test_scanner_needs_a_directory() {
    assert!(Scanner::for_directory("/srv/sql", true).is_ok());
    assert!(matches!(
        Scanner::for_directory("/srv/sql", false),
        Err(ScannerError::DirectoryNotFound(p)) if p == "/srv/sql"
    ));
    // a regular file is not a scan directory
    let file = "/etc/hostname";
    if std::path::Path::new(file).is_file() {
        assert!(matches!(Scanner::new(file), Err(ScannerError::DirectoryNotFound(p)) if p == file));
    }
}
