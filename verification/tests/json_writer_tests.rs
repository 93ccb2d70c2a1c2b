use mysql_executor::database::{ColumnInfo, JsonValue, QueryResults, ResultSet};
use mysql_executor::json_doc::JsonDoc;
use mysql_executor::json_writer::{JsonWriter, JsonWriterError, Timestamp};

fn create_test_results() -> QueryResults {
    QueryResults {
        result_sets: vec![ResultSet {
            columns: vec![
                ColumnInfo {
                    name: "id".to_string(),
                    column_type: "INT".to_string(),
                    is_enum: false,
                    is_set: false,
                    is_binary: false,
                    is_json: false,
                    is_geometry: false,
                },
                ColumnInfo {
                    name: "name".to_string(),
                    column_type: "VARCHAR".to_string(),
                    is_enum: false,
                    is_set: false,
                    is_binary: false,
                    is_json: false,
                    is_geometry: false,
                },
            ],
            rows: vec![vec![JsonValue::Int(1), JsonValue::String("test".to_string())]],
            affected_rows: 0,
            truncated: false,
            total_rows: 1,
        }],
        mysql_version: Some("8.0.35".to_string()),
    }
}

fn now() -> Timestamp {
    Timestamp { seconds: 1_700_000_000, nanos: 0 }
}

#[test]
fn test_convert_to_json_output() {
    let results = create_test_results();
    let output = JsonWriter::convert_to_json_output(&results, "test.sql", 100, now());

    assert_eq!(output.metadata.source_file, "test.sql");
    assert_eq!(output.metadata.execution_duration_ms, 100);
    assert_eq!(output.result_sets.len(), 1);
}

#[test]
fn test_convert_result_set() {
    let rs = ResultSet {
        columns: vec![
            ColumnInfo { name: "col1".to_string(), column_type: "INT".to_string(), is_enum: false, is_set: false, is_binary: false, is_json: false, is_geometry: false },
            ColumnInfo { name: "col2".to_string(), column_type: "VARCHAR".to_string(), is_enum: false, is_set: false, is_binary: false, is_json: false, is_geometry: false },
        ],
        rows: vec![
            vec![JsonValue::Int(1), JsonValue::String("a".to_string())],
            vec![JsonValue::Int(2), JsonValue::String("b".to_string())],
        ],
        affected_rows: 5,
        truncated: false,
        total_rows: 2,
    };

    let json_rs = JsonWriter::convert_result_set(0, &rs);

    assert_eq!(json_rs.index, 0);
    assert_eq!(json_rs.columns.len(), 2);
    assert_eq!(json_rs.row_count, 2);
    assert_eq!(json_rs.affected_rows, 5);
    assert!(!json_rs.truncated);
}

#[test]
fn test_convert_result_set_rows_by_column_name() {
    let rs = ResultSet {
        columns: vec![
            ColumnInfo { name: "id".to_string(), column_type: "INT".to_string(), is_enum: false, is_set: false, is_binary: false, is_json: false, is_geometry: false },
        ],
        rows: vec![vec![JsonValue::Int(7), JsonValue::Int(8)]],
        affected_rows: 0,
        truncated: true,
        total_rows: 12,
    };
    let json_rs = JsonWriter::convert_result_set(3, &rs);
    assert_eq!(json_rs.index, 3);
    assert_eq!(json_rs.columns[0].name, "id");
    assert_eq!(json_rs.columns[0].data_type, "INT");
    assert_eq!(json_rs.rows[0], vec![("id".to_string(), JsonDoc::Int(7))]);
    assert!(json_rs.truncated);
    assert_eq!(json_rs.total_rows, Some(12));
}

#[test]
fn test_metadata_total_affected_rows() {
    let column = || ColumnInfo {
        name: "id".to_string(),
        column_type: "INT".to_string(),
        is_enum: false,
        is_set: false,
        is_binary: false,
        is_json: false,
        is_geometry: false,
    };
    let results = QueryResults {
        result_sets: vec![
            ResultSet {
                columns: vec![column()],
                rows: vec![vec![JsonValue::Int(1)]],
                affected_rows: 10,
                truncated: false,
                total_rows: 1,
            },
            ResultSet {
                columns: vec![column()],
                rows: vec![vec![JsonValue::Int(2)], vec![JsonValue::Int(3)]],
                affected_rows: 20,
                truncated: false,
                total_rows: 2,
            },
        ],
        mysql_version: Some("8.0.35".to_string()),
    };

    let output = JsonWriter::convert_to_json_output(&results, "affected.sql", 50, now());

    // totals over all result sets
    assert_eq!(output.metadata.total_affected_rows, 30); // 10 + 20
    assert_eq!(output.metadata.total_rows, 3); // 1 + 2
    assert_eq!(output.metadata.total_result_sets, 2);
    assert_eq!(output.result_sets[1].index, 1);
    assert_eq!(output.metadata.mysql_version, Some("8.0.35".to_string()));
    assert_eq!(output.metadata.execution_time, now());
}

#[test]
fn test_json_writer_error_display() {
    assert_eq!(JsonWriterError::LockError("x".to_string()).to_string(), "获取文件锁失败: x");
    assert_eq!(JsonWriterError::AtomicWriteError("y".to_string()).to_string(), "原子写入失败: y");
    let io = JsonWriterError::from(std::io::Error::new(std::io::ErrorKind::Other, "disk"));
    assert!(io.to_string().starts_with("IO 错误: "));
    let parse_err = serde_json::from_str::<serde_json::Value>("{").unwrap_err();
    let ser = JsonWriterError::from(parse_err);
    assert!(ser.to_string().starts_with("序列化错误: "));
}

fn plain_column(name: &str, column_type: &str) -> ColumnInfo {
    ColumnInfo {
        name: name.to_string(),
        column_type: column_type.to_string(),
        is_enum: false,
        is_set: false,
        is_binary: false,
        is_json: false,
        is_geometry: false,
    }
}

#[test]
fn test_row_object_last_column_of_a_name_wins() {
    let rs = ResultSet {
        columns: vec![plain_column("a", "INT"), plain_column("b", "INT"), plain_column("a", "INT")],
        rows: vec![vec![JsonValue::Int(1), JsonValue::Int(2), JsonValue::Int(3)]],
        affected_rows: 0,
        truncated: false,
        total_rows: 1,
    };
    let json_rs = JsonWriter::convert_result_set(0, &rs);
    assert_eq!(json_rs.columns.len(), 3);
    assert_eq!(
        json_rs.rows[0],
        vec![("a".to_string(), JsonDoc::Int(3)), ("b".to_string(), JsonDoc::Int(2))]
    );
}

#[test]
fn test_output_document_of_test_results() {
    let output = JsonWriter::convert_to_json_output(&create_test_results(), "test/query.sql", 150, now());
    assert_eq!(output.metadata.source_file, "test/query.sql");
    assert_eq!(output.metadata.execution_duration_ms, 150);
    assert_eq!(output.metadata.mysql_version, Some("8.0.35".to_string()));
    assert_eq!(output.metadata.total_result_sets, 1);
    assert_eq!(output.result_sets[0].row_count, 1);
    assert_eq!(
        output.result_sets[0].rows[0],
        vec![("id".to_string(), JsonDoc::Int(1)), ("name".to_string(), JsonDoc::String("test".to_string()))]
    );
}

#[test]
fn test_output_with_empty_result_set() {
    let results = QueryResults {
        result_sets: vec![ResultSet {
            columns: vec![plain_column("id", "INT")],
            rows: vec![],
            affected_rows: 0,
            truncated: false,
            total_rows: 0,
        }],
        mysql_version: Some("8.0.35".to_string()),
    };
    let output = JsonWriter::convert_to_json_output(&results, "empty.sql", 10, now());
    assert_eq!(output.result_sets[0].row_count, 0);
    assert!(output.result_sets[0].rows.is_empty());
    assert_eq!(output.metadata.total_rows, 0);
}

#[test]
fn test_output_with_multiple_result_sets() {
    let results = QueryResults {
        result_sets: vec![
            ResultSet {
                columns: vec![plain_column("id", "INT")],
                rows: vec![vec![JsonValue::Int(1)]],
                affected_rows: 0,
                truncated: false,
                total_rows: 1,
            },
            ResultSet {
                columns: vec![plain_column("name", "VARCHAR")],
                rows: vec![vec![JsonValue::String("test".to_string())]],
                affected_rows: 0,
                truncated: false,
                total_rows: 1,
            },
        ],
        mysql_version: Some("8.0.35".to_string()),
    };
    let output = JsonWriter::convert_to_json_output(&results, "multi.sql", 20, now());
    assert_eq!(output.metadata.total_result_sets, 2);
    assert_eq!(output.result_sets.len(), 2);
    assert_eq!(output.result_sets[0].index, 0);
    assert_eq!(output.result_sets[1].index, 1);
}

#[test]
fn test_output_with_all_data_types() {
    let mut bytes_col = plain_column("bytes_val", "BLOB");
    bytes_col.is_binary = true;
    let results = QueryResults {
        result_sets: vec![ResultSet {
            columns: vec![
                plain_column("null_val", "NULL"),
                plain_column("bool_val", "TINYINT"),
                plain_column("int_val", "INT"),
                plain_column("uint_val", "INT UNSIGNED"),
                plain_column("float_val", "DOUBLE"),
                plain_column("string_val", "VARCHAR"),
                plain_column("date_val", "DATE"),
                plain_column("time_val", "TIME"),
                plain_column("datetime_val", "DATETIME"),
                bytes_col,
            ],
            rows: vec![vec![
                JsonValue::Null,
                JsonValue::Bool(true),
                JsonValue::Int(-42),
                JsonValue::UInt(42),
                JsonValue::Float(3.14159f64.to_bits()),
                JsonValue::String("hello".to_string()),
                JsonValue::Date("2024-01-15".to_string()),
                JsonValue::Time("14:30:00.000000".to_string()),
                JsonValue::DateTime("2024-01-15 14:30:00.000000".to_string()),
                JsonValue::Bytes(vec![0x48, 0x65, 0x6c, 0x6c, 0x6f]),
            ]],
            affected_rows: 0,
            truncated: false,
            total_rows: 1,
        }],
        mysql_version: Some("8.0.35".to_string()),
    };
    let output = JsonWriter::convert_to_json_output(&results, "types.sql", 30, now());
    let row = &output.result_sets[0].rows[0];
    let get = |key: &str| row.iter().find(|(k, _)| k == key).map(|(_, v)| v).unwrap();
    assert_eq!(get("null_val"), &JsonDoc::Null);
    assert_eq!(get("bool_val"), &JsonDoc::Bool(true));
    assert_eq!(get("int_val"), &JsonDoc::Int(-42));
    assert_eq!(get("uint_val"), &JsonDoc::UInt(42));
    assert_eq!(get("float_val"), &JsonDoc::Float(3.14159f64.to_bits()));
    assert_eq!(get("string_val"), &JsonDoc::String("hello".to_string()));
    assert_eq!(get("date_val"), &JsonDoc::String("2024-01-15".to_string()));
    assert_eq!(get("time_val"), &JsonDoc::String("14:30:00.000000".to_string()));
    assert_eq!(get("datetime_val"), &JsonDoc::String("2024-01-15 14:30:00.000000".to_string()));
    assert_eq!(get("bytes_val"), &JsonDoc::String("SGVsbG8=".to_string()));
    assert_eq!(row.len(), 10);
}

#[test]
fn test_output_with_truncated_result_set() {
    let results = QueryResults {
        result_sets: vec![ResultSet {
            columns: vec![plain_column("id", "INT")],
            rows: vec![vec![JsonValue::Int(1)], vec![JsonValue::Int(2)]],
            affected_rows: 0,
            truncated: true,
            total_rows: 10000,
        }],
        mysql_version: Some("8.0.35".to_string()),
    };
    let output = JsonWriter::convert_to_json_output(&results, "truncated.sql", 100, now());
    assert!(output.result_sets[0].truncated);
    assert_eq!(output.result_sets[0].total_rows, Some(10000));
    assert_eq!(output.result_sets[0].row_count, 2);
}
