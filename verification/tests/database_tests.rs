use mysql_executor::database::{
    convert_mysql_value_to_json, try_wkb_to_wkt, ColumnInfo, DatabaseError, JsonValue, QueryResults,
    ResultSet, ResultSetBuilder, Value, WktPoint,
};
use mysql_executor::database::{column_kind_of, geometry_cell, json_column_cell, ColumnKind};
use mysql_executor::json_doc::JsonDoc;

fn plain_column(name: &str, column_type: &str) -> ColumnInfo {
    ColumnInfo {
        name: name.to_string(),
        column_type: column_type.to_string(),
        is_enum: false,
        is_set: false,
        is_binary: false,
        is_json: false,
        is_geometry: false,
    }
}

fn object_member<'a>(doc: &'a JsonDoc, key: &str) -> Option<&'a JsonDoc> {
    match doc {
        JsonDoc::Object(members) => members.iter().rev().find(|(k, _)| k == key).map(|(_, v)| v),
        _ => None,
    }
}

fn string_doc(s: &str) -> JsonDoc {
    JsonDoc::String(s.to_string())
}

#[test]
fn test_json_value_null() {
    let value = JsonValue::Null;
    assert_eq!(value.to_serde_value(), JsonDoc::Null);
}

#[test]
fn test_json_value_bool() {
    let value_true = JsonValue::Bool(true);
    let value_false = JsonValue::Bool(false);
    assert_eq!(value_true.to_serde_value(), JsonDoc::Bool(true));
    assert_eq!(value_false.to_serde_value(), JsonDoc::Bool(false));
}

#[test]
fn test_json_value_int() {
    let value = JsonValue::Int(42);
    assert_eq!(value.to_serde_value(), JsonDoc::Int(42));

    let negative = JsonValue::Int(-100);
    assert_eq!(negative.to_serde_value(), JsonDoc::Int(-100));

    let large = JsonValue::Int(i64::MAX);
    assert_eq!(large.to_serde_value(), JsonDoc::Int(i64::MAX));
}

#[test]
fn test_json_value_uint() {
    let value = JsonValue::UInt(42);
    assert_eq!(value.to_serde_value(), JsonDoc::UInt(42u64));

    let large = JsonValue::UInt(u64::MAX);
    assert_eq!(large.to_serde_value(), JsonDoc::UInt(u64::MAX));
}

#[test]
fn test_json_value_float() {
    let value = JsonValue::Float(3.14159f64.to_bits());
    let result = value.to_serde_value();
    assert!(matches!(result, JsonDoc::Float(_)));

    // NaN becomes null
    let nan = JsonValue::Float(f64::NAN.to_bits());
    assert_eq!(nan.to_serde_value(), JsonDoc::Null);

    // infinity becomes null
    let inf = JsonValue::Float(f64::INFINITY.to_bits());
    assert_eq!(inf.to_serde_value(), JsonDoc::Null);
}

#[test]
fn test_json_value_float_keeps_bits() {
    let bits = (-2.5f64).to_bits();
    assert_eq!(JsonValue::Float(bits).to_serde_value(), JsonDoc::Float(bits));
    assert_eq!(JsonValue::Float(f64::NEG_INFINITY.to_bits()).to_serde_value(), JsonDoc::Null);
    assert_eq!(JsonValue::Float(f64::MAX.to_bits()).to_serde_value(), JsonDoc::Float(f64::MAX.to_bits()));
}

#[test]
fn test_json_value_string() {
    let value = JsonValue::String("hello world".to_string());
    assert_eq!(value.to_serde_value(), string_doc("hello world"));

    let empty = JsonValue::String("".to_string());
    assert_eq!(empty.to_serde_value(), string_doc(""));

    let unicode = JsonValue::String("你好世界".to_string());
    assert_eq!(unicode.to_serde_value(), string_doc("你好世界"));
}

#[test]
fn test_json_value_bytes() {
    let value = JsonValue::Bytes(vec![0x48, 0x65, 0x6c, 0x6c, 0x6f]); // "Hello"
    let result = value.to_serde_value();
    assert!(matches!(result, JsonDoc::String(_)));
    // base64 encoded
    assert_eq!(result, string_doc("SGVsbG8="));
}

#[test]
fn test_json_value_date() {
    let value = JsonValue::Date("2024-01-15".to_string());
    assert_eq!(value.to_serde_value(), string_doc("2024-01-15"));
}

#[test]
fn test_json_value_time() {
    let value = JsonValue::Time("14:30:00.000000".to_string());
    assert_eq!(value.to_serde_value(), string_doc("14:30:00.000000"));
}

#[test]
fn test_json_value_datetime() {
    let value = JsonValue::DateTime("2024-01-15 14:30:00.000000".to_string());
    assert_eq!(value.to_serde_value(), string_doc("2024-01-15 14:30:00.000000"));
}

#[test]
fn test_convert_mysql_value_none() {
    let col = ColumnInfo {
        name: "test".to_string(),
        column_type: "VARCHAR".to_string(),
        is_enum: false,
        is_set: false,
        is_binary: false,
        is_json: false,
        is_geometry: false,
    };
    let result = convert_mysql_value_to_json(None, &col);
    assert!(matches!(result, JsonValue::Null));
}

#[test]
fn test_convert_mysql_value_null() {
    let col = ColumnInfo {
        name: "test".to_string(),
        column_type: "VARCHAR".to_string(),
        is_enum: false,
        is_set: false,
        is_binary: false,
        is_json: false,
        is_geometry: false,
    };
    let result = convert_mysql_value_to_json(Some(Value::NULL), &col);
    assert!(matches!(result, JsonValue::Null));
}

#[test]
fn test_convert_mysql_value_int() {
    let col = ColumnInfo {
        name: "test".to_string(),
        column_type: "INT".to_string(),
        is_enum: false,
        is_set: false,
        is_binary: false,
        is_json: false,
        is_geometry: false,
    };
    let result = convert_mysql_value_to_json(Some(Value::Int(42)), &col);
    assert!(matches!(result, JsonValue::Int(42)));
}

#[test]
fn test_convert_mysql_value_uint() {
    let col = ColumnInfo {
        name: "test".to_string(),
        column_type: "INT UNSIGNED".to_string(),
        is_enum: false,
        is_set: false,
        is_binary: false,
        is_json: false,
        is_geometry: false,
    };
    let result = convert_mysql_value_to_json(Some(Value::UInt(42)), &col);
    assert!(matches!(result, JsonValue::UInt(42)));
}

#[test]
fn test_convert_mysql_value_float() {
    let col = ColumnInfo {
        name: "test".to_string(),
        column_type: "FLOAT".to_string(),
        is_enum: false,
        is_set: false,
        is_binary: false,
        is_json: false,
        is_geometry: false,
    };
    // a FLOAT reaches the library widened to f64
    let result = convert_mysql_value_to_json(Some(Value::Float((3.14f32 as f64).to_bits())), &col);
    if let JsonValue::Float(bits) = result {
        let f = f64::from_bits(bits);
        assert!((f - 3.14).abs() < 0.001);
    } else {
        panic!("期望 Float");
    }
}

#[test]
fn test_convert_mysql_value_double() {
    let col = ColumnInfo {
        name: "test".to_string(),
        column_type: "DOUBLE".to_string(),
        is_enum: false,
        is_set: false,
        is_binary: false,
        is_json: false,
        is_geometry: false,
    };
    let result = convert_mysql_value_to_json(Some(Value::Double(3.14159f64.to_bits())), &col);
    if let JsonValue::Float(bits) = result {
        let f = f64::from_bits(bits);
        assert!((f - 3.14159).abs() < 0.00001);
    } else {
        panic!("期望 Float");
    }
}

#[test]
fn test_convert_mysql_value_bytes_utf8() {
    let col = ColumnInfo {
        name: "test".to_string(),
        column_type: "VARCHAR".to_string(),
        is_enum: false,
        is_set: false,
        is_binary: false,
        is_json: false,
        is_geometry: false,
    };
    let result = convert_mysql_value_to_json(Some(Value::Bytes(b"hello".to_vec())), &col);
    assert!(matches!(result, JsonValue::String(s) if s == "hello"));
}

#[test]
fn test_convert_mysql_value_bytes_binary() {
    let col = ColumnInfo {
        name: "test".to_string(),
        column_type: "BLOB".to_string(),
        is_enum: false,
        is_set: false,
        is_binary: true,
        is_json: false,
        is_geometry: false,
    };
    let result = convert_mysql_value_to_json(Some(Value::Bytes(vec![0xFF, 0xFE, 0x00])), &col);
    assert!(matches!(result, JsonValue::Bytes(_)));
}

#[test]
fn test_convert_mysql_value_invalid_utf8_text() {
    let col = plain_column("test", "VARCHAR");
    let result = convert_mysql_value_to_json(Some(Value::Bytes(vec![0xFF, 0xFE, 0x00])), &col);
    assert!(matches!(result, JsonValue::Bytes(b) if b == vec![0xFF, 0xFE, 0x00]));
}

#[test]
fn test_convert_mysql_value_date() {
    let col = ColumnInfo {
        name: "test".to_string(),
        column_type: "DATE".to_string(),
        is_enum: false,
        is_set: false,
        is_binary: false,
        is_json: false,
        is_geometry: false,
    };
    let result = convert_mysql_value_to_json(Some(Value::Date(2024, 1, 15, 0, 0, 0, 0)), &col);
    assert!(matches!(result, JsonValue::Date(s) if s == "2024-01-15"));
}

#[test]
fn test_convert_mysql_value_date_padding() {
    let col = plain_column("test", "DATE");
    let result = convert_mysql_value_to_json(Some(Value::Date(5, 3, 7, 0, 0, 0, 0)), &col);
    assert!(matches!(result, JsonValue::Date(s) if s == "0005-03-07"));
    let result = convert_mysql_value_to_json(Some(Value::Date(2024, 12, 31, 0, 0, 0, 1)), &col);
    assert!(matches!(result, JsonValue::DateTime(s) if s == "2024-12-31 00:00:00.000001"));
}

#[test]
fn test_convert_mysql_value_datetime() {
    let col = ColumnInfo {
        name: "test".to_string(),
        column_type: "DATETIME".to_string(),
        is_enum: false,
        is_set: false,
        is_binary: false,
        is_json: false,
        is_geometry: false,
    };
    let result = convert_mysql_value_to_json(Some(Value::Date(2024, 1, 15, 14, 30, 45, 123456)), &col);
    assert!(matches!(result, JsonValue::DateTime(s) if s == "2024-01-15 14:30:45.123456"));
}

#[test]
fn test_convert_mysql_value_time() {
    let col = ColumnInfo {
        name: "test".to_string(),
        column_type: "TIME".to_string(),
        is_enum: false,
        is_set: false,
        is_binary: false,
        is_json: false,
        is_geometry: false,
    };
    let result = convert_mysql_value_to_json(Some(Value::Time(false, 0, 14, 30, 45, 0)), &col);
    assert!(matches!(result, JsonValue::Time(s) if s == "14:30:45.000000"));
}

#[test]
fn test_convert_mysql_value_time_negative() {
    let col = ColumnInfo {
        name: "test".to_string(),
        column_type: "TIME".to_string(),
        is_enum: false,
        is_set: false,
        is_binary: false,
        is_json: false,
        is_geometry: false,
    };
    let result = convert_mysql_value_to_json(Some(Value::Time(true, 0, 14, 30, 45, 0)), &col);
    assert!(matches!(result, JsonValue::Time(s) if s == "-14:30:45.000000"));
}

#[test]
fn test_convert_mysql_value_time_with_days() {
    let col = ColumnInfo {
        name: "test".to_string(),
        column_type: "TIME".to_string(),
        is_enum: false,
        is_set: false,
        is_binary: false,
        is_json: false,
        is_geometry: false,
    };
    let result = convert_mysql_value_to_json(Some(Value::Time(false, 2, 10, 30, 0, 0)), &col);
    // 2 days * 24 hours + 10 hours = 58 hours
    assert!(matches!(result, JsonValue::Time(s) if s == "58:30:00.000000"));
}

#[test]
fn test_convert_mysql_value_time_many_hours() {
    let col = plain_column("test", "TIME");
    let result = convert_mysql_value_to_json(Some(Value::Time(false, 34, 22, 59, 59, 999999)), &col);
    assert!(matches!(result, JsonValue::Time(s) if s == "838:59:59.999999"));
    let result = convert_mysql_value_to_json(Some(Value::Time(false, 0, 1, 2, 3, 40)), &col);
    assert!(matches!(result, JsonValue::Time(s) if s == "01:02:03.000040"));
}

#[test]
fn test_convert_mysql_value_enum() {
    let col = ColumnInfo {
        name: "status".to_string(),
        column_type: "ENUM".to_string(),
        is_enum: true,
        is_set: false,
        is_binary: false,
        is_json: false,
        is_geometry: false,
    };
    let result = convert_mysql_value_to_json(Some(Value::Bytes(b"active".to_vec())), &col);
    assert!(matches!(&result, JsonValue::Enum(s) if s == "active"));

    // serialized form
    let json = result.to_serde_value();
    assert_eq!(object_member(&json, "_type"), Some(&string_doc("enum")));
    assert_eq!(object_member(&json, "value"), Some(&string_doc("active")));
}

#[test]
fn test_convert_mysql_value_set() {
    let col = ColumnInfo {
        name: "tags".to_string(),
        column_type: "SET".to_string(),
        is_enum: false,
        is_set: true,
        is_binary: false,
        is_json: false,
        is_geometry: false,
    };
    let result = convert_mysql_value_to_json(Some(Value::Bytes(b"tag1,tag2,tag3".to_vec())), &col);
    if let JsonValue::SetValues(values) = &result {
        assert_eq!(values, &vec!["tag1".to_string(), "tag2".to_string(), "tag3".to_string()]);
    } else {
        panic!("期望 Set");
    }

    // serialized form
    let json = result.to_serde_value();
    assert_eq!(object_member(&json, "_type"), Some(&string_doc("set")));
    assert_eq!(
        object_member(&json, "values"),
        Some(&JsonDoc::Array(vec![string_doc("tag1"), string_doc("tag2"), string_doc("tag3")]))
    );
}

#[test]
fn test_convert_mysql_value_set_empty() {
    let col = ColumnInfo {
        name: "tags".to_string(),
        column_type: "SET".to_string(),
        is_enum: false,
        is_set: true,
        is_binary: false,
        is_json: false,
        is_geometry: false,
    };
    let result = convert_mysql_value_to_json(Some(Value::Bytes(b"".to_vec())), &col);
    if let JsonValue::SetValues(values) = &result {
        assert!(values.is_empty());
    } else {
        panic!("期望 Set");
    }
}

#[test]
fn test_convert_mysql_value_set_empty_members() {
    let mut col = plain_column("tags", "SET");
    col.is_set = true;
    let result = convert_mysql_value_to_json(Some(Value::Bytes(b"a,,b,".to_vec())), &col);
    if let JsonValue::SetValues(values) = &result {
        assert_eq!(values, &vec!["a".to_string(), "".to_string(), "b".to_string(), "".to_string()]);
    } else {
        panic!("expected members");
    }
}

#[test]
fn test_convert_mysql_value_json() {
    let col = ColumnInfo {
        name: "data".to_string(),
        column_type: "JSON".to_string(),
        is_enum: false,
        is_set: false,
        is_binary: false,
        is_json: true,
        is_geometry: false,
    };
    let json_str = r#"{"name":"test","value":123}"#;
    let result = convert_mysql_value_to_json(Some(Value::Bytes(json_str.as_bytes().to_vec())), &col);
    if let JsonValue::Json(text) = &result {
        let json_val: serde_json::Value = serde_json::from_str(text).unwrap();
        assert_eq!(json_val["name"], "test");
        assert_eq!(json_val["value"], 123);
    } else {
        panic!("期望 Json");
    }

    // serialized form
    let json = result.to_serde_value();
    assert_eq!(object_member(&json, "_type"), Some(&string_doc("json")));
}

#[test]
fn test_convert_mysql_value_json_invalid_text() {
    let mut col = plain_column("data", "JSON");
    col.is_json = true;
    let result = convert_mysql_value_to_json(Some(Value::Bytes(b"{not json".to_vec())), &col);
    assert!(matches!(result, JsonValue::String(s) if s == "{not json"));
}

#[test]
fn test_convert_mysql_value_geometry_point() {
    let col = ColumnInfo {
        name: "location".to_string(),
        column_type: "GEOMETRY".to_string(),
        is_enum: false,
        is_set: false,
        is_binary: false,
        is_json: false,
        is_geometry: true,
    };
    // WKB for POINT(1.0 2.0) - little endian
    let mut wkb = vec![0x01]; // byte order: little endian
    wkb.extend_from_slice(&1u32.to_le_bytes()); // type: Point
    wkb.extend_from_slice(&1.0f64.to_le_bytes()); // x
    wkb.extend_from_slice(&2.0f64.to_le_bytes()); // y

    let result = convert_mysql_value_to_json(Some(Value::Bytes(wkb)), &col);
    if let JsonValue::Geometry { wkb_base64, wkt } = &result {
        assert!(!wkb_base64.is_empty());
        let point = wkt.expect("a point");
        let text = format!("POINT({} {})", f64::from_bits(point.x), f64::from_bits(point.y));
        assert_eq!(text, "POINT(1 2)");
    } else {
        panic!("期望 Geometry");
    }

    // serialized form
    let json = result.to_serde_value();
    assert_eq!(object_member(&json, "_type"), Some(&string_doc("geometry")));
    assert!(matches!(object_member(&json, "wkb_base64"), Some(JsonDoc::String(_))));
    assert!(matches!(object_member(&json, "wkt"), Some(JsonDoc::WktPoint(_, _))));
}

#[test]
fn test_try_wkb_to_wkt_big_endian_and_others() {
    let mut wkb = vec![0x00];
    wkb.extend_from_slice(&1u32.to_be_bytes());
    wkb.extend_from_slice(&(-3.5f64).to_be_bytes());
    wkb.extend_from_slice(&0.25f64.to_be_bytes());
    assert_eq!(
        try_wkb_to_wkt(&wkb),
        Some(WktPoint { x: (-3.5f64).to_bits(), y: 0.25f64.to_bits() })
    );
    // too short
    assert_eq!(try_wkb_to_wkt(&wkb[..20]), None);
    // a line string, not a point
    let mut line = vec![0x01];
    line.extend_from_slice(&2u32.to_le_bytes());
    line.extend_from_slice(&[0u8; 16]);
    assert_eq!(try_wkb_to_wkt(&line), None);
}

#[test]
fn test_geometry_without_point_has_null_wkt() {
    let mut col = plain_column("shape", "GEOMETRY");
    col.is_geometry = true;
    let result = convert_mysql_value_to_json(Some(Value::Bytes(vec![1, 2, 3])), &col);
    assert!(matches!(&result, JsonValue::Geometry { wkb_base64, wkt: None } if wkb_base64 == "AQID"));
    assert_eq!(object_member(&result.to_serde_value(), "wkt"), Some(&JsonDoc::Null));
}

#[test]
fn test_column_info() {
    let col = ColumnInfo {
        name: "test_column".to_string(),
        column_type: "INT".to_string(),
        is_enum: false,
        is_set: false,
        is_binary: false,
        is_json: false,
        is_geometry: false,
    };
    assert_eq!(col.name, "test_column");
    assert_eq!(col.column_type, "INT");
    assert!(!col.is_enum);
}

#[test]
fn test_result_set() {
    let rs = ResultSet {
        columns: vec![ColumnInfo {
            name: "id".to_string(),
            column_type: "INT".to_string(),
            is_enum: false,
            is_set: false,
            is_binary: false,
            is_json: false,
            is_geometry: false,
        }],
        rows: vec![vec![JsonValue::Int(1)]],
        affected_rows: 0,
        truncated: false,
        total_rows: 1,
    };
    assert_eq!(rs.columns.len(), 1);
    assert_eq!(rs.rows.len(), 1);
    assert!(!rs.truncated);
}

#[test]
fn test_query_results_new() {
    let results = QueryResults::new();
    assert!(results.result_sets.is_empty());
    assert!(results.mysql_version.is_none());
}

#[test]
fn test_query_results_default() {
    let results = QueryResults::default();
    assert!(results.result_sets.is_empty());
    assert!(results.mysql_version.is_none());
}

#[test]
fn test_builder_truncates_at_threshold() {
    let columns = vec![plain_column("id", "INT")];
    let mut builder = ResultSetBuilder::new(columns, 7, 2);
    for i in 0..5i64 {
        builder.accept_row(vec![Some(Value::Int(i))]);
    }
    assert_eq!(builder.rows_seen(), 5);
    let rs = builder.finish();
    assert_eq!(rs.rows.len(), 2);
    assert!(matches!(rs.rows[0][0], JsonValue::Int(0)));
    assert!(matches!(rs.rows[1][0], JsonValue::Int(1)));
    assert!(rs.truncated);
    assert_eq!(rs.total_rows, 5);
    assert_eq!(rs.affected_rows, 7);
}

#[test]
fn test_builder_below_threshold_and_missing_cells() {
    let columns = vec![plain_column("a", "INT"), plain_column("b", "VARCHAR")];
    let mut builder = ResultSetBuilder::new(columns, 0, 10);
    builder.accept_row(vec![Some(Value::Int(1))]);
    builder.accept_row(vec![Some(Value::Int(2)), Some(Value::Bytes(b"x".to_vec())), Some(Value::Int(9))]);
    let rs = builder.finish();
    assert!(!rs.truncated);
    assert_eq!(rs.total_rows, 2);
    assert_eq!(rs.rows.len(), 2);
    assert_eq!(rs.rows[0].len(), 2);
    assert!(matches!(rs.rows[0][1], JsonValue::Null));
    assert_eq!(rs.rows[1].len(), 2);
    assert!(matches!(&rs.rows[1][1], JsonValue::String(s) if s == "x"));
}

#[test]
fn test_builder_exactly_at_threshold_not_truncated() {
    let mut builder = ResultSetBuilder::new(vec![plain_column("a", "INT")], 0, 2);
    builder.accept_row(vec![Some(Value::Int(1))]);
    builder.accept_row(vec![Some(Value::Int(2))]);
    let rs = builder.finish();
    assert!(!rs.truncated);
    assert_eq!(rs.rows.len(), 2);
    assert_eq!(rs.total_rows, 2);
}

#[test]
fn test_database_error_classification() {
    assert!(matches!(
        DatabaseError::from_error_message("ERROR 1045 (28000): Access denied for user".to_string()),
        DatabaseError::AccessDenied(s) if s == "ERROR 1045 (28000): Access denied for user"
    ));
    assert!(matches!(
        DatabaseError::from_error_message("code 1142 for table".to_string()),
        DatabaseError::AccessDenied(_)
    ));
    assert!(matches!(
        DatabaseError::from_error_message("read timed out".to_string()),
        DatabaseError::Timeout(0)
    ));
    assert!(matches!(
        DatabaseError::from_error_message("access denied after timeout".to_string()),
        DatabaseError::AccessDenied(_)
    ));
    assert!(matches!(
        DatabaseError::from_error_message("You have an error in your SQL syntax".to_string()),
        DatabaseError::QueryError(s) if s == "You have an error in your SQL syntax"
    ));
}

#[test]
fn test_database_error_display() {
    assert_eq!(DatabaseError::ConnectionError("x".to_string()).to_string(), "连接错误: x");
    assert_eq!(DatabaseError::QueryError("bad".to_string()).to_string(), "查询执行错误: bad");
    assert_eq!(DatabaseError::PoolError("p".to_string()).to_string(), "连接池错误: p");
    assert_eq!(DatabaseError::AccessDenied("no".to_string()).to_string(), "访问被拒绝: no");
    assert_eq!(DatabaseError::Timeout(300).to_string(), "查询超时: 超过 300 秒");
    assert_eq!(DatabaseError::Timeout(0).to_string(), "查询超时: 超过 0 秒");
}

#[test]
fn test_database_error_from_mysql_error() {
    let denied = mysql::Error::MySqlError(mysql::MySqlError {
        state: "28000".to_string(),
        message: "Access denied for user 'x'@'localhost'".to_string(),
        code: 1045,
    });
    match DatabaseError::from_mysql_error(&denied) {
        DatabaseError::AccessDenied(m) => {
            assert_eq!(m, "MySqlError { ERROR 1045 (28000): Access denied for user 'x'@'localhost' }")
        }
        other => panic!("expected AccessDenied, got {:?}", other),
    }

    let slow = mysql::Error::IoError(std::io::Error::new(std::io::ErrorKind::Other, "read timed out"));
    assert!(matches!(DatabaseError::from_mysql_error(&slow), DatabaseError::Timeout(0)));

    let syntax = mysql::Error::MySqlError(mysql::MySqlError {
        state: "42000".to_string(),
        message: "You have an error in your SQL syntax".to_string(),
        code: 1064,
    });
    match DatabaseError::from_mysql_error(&syntax) {
        DatabaseError::QueryError(m) => {
            assert_eq!(m, "MySqlError { ERROR 1064 (42000): You have an error in your SQL syntax }")
        }
        other => panic!("expected QueryError, got {:?}", other),
    }
}

fn text_cell(column_type: &str, binary: bool, text: &str) -> JsonValue {
    let mut col = plain_column("c", column_type);
    col.is_binary = binary;
    convert_mysql_value_to_json(Some(Value::Bytes(text.as_bytes().to_vec())), &col)
}

#[test]
fn test_text_protocol_integers() {
    assert!(matches!(text_cell("MYSQL_TYPE_LONGLONG", true, "123"), JsonValue::Int(123)));
    assert!(matches!(text_cell("MYSQL_TYPE_LONG", true, "-5"), JsonValue::Int(-5)));
    assert!(matches!(
        text_cell("MYSQL_TYPE_LONGLONG", true, "-9223372036854775808"),
        JsonValue::Int(i64::MIN)
    ));
    assert!(matches!(
        text_cell("MYSQL_TYPE_LONGLONG", true, "18446744073709551615"),
        JsonValue::UInt(u64::MAX)
    ));
    assert!(matches!(text_cell("INT", false, "7"), JsonValue::Int(7)));
    // text that is not an integer keeps the rule for the column's flags
    assert!(matches!(text_cell("INT", false, "12a"), JsonValue::String(s) if s == "12a"));
    assert!(matches!(text_cell("MYSQL_TYPE_LONG", true, "99999999999999999999"), JsonValue::Bytes(_)));
    let json = text_cell("MYSQL_TYPE_LONGLONG", true, "123");
    assert_eq!(json.to_serde_value(), JsonDoc::Int(123));
}

#[test]
fn test_text_protocol_decimals() {
    assert!(matches!(text_cell("MYSQL_TYPE_NEWDECIMAL", true, "12.50"), JsonValue::Decimal(s) if s == "12.50"));
    assert!(matches!(text_cell("MYSQL_TYPE_DOUBLE", true, "-1.5e-7"), JsonValue::Decimal(s) if s == "-1.5e-7"));
    assert_eq!(
        text_cell("DECIMAL", false, "0.25").to_serde_value(),
        JsonDoc::Number("0.25".to_string())
    );
    // not JSON number syntax
    assert!(matches!(text_cell("DECIMAL", false, "01.5"), JsonValue::String(s) if s == "01.5"));
    assert!(matches!(text_cell("DECIMAL", false, "1."), JsonValue::String(s) if s == "1."));
}

#[test]
fn test_text_protocol_dates_and_times() {
    assert!(matches!(text_cell("MYSQL_TYPE_DATE", true, "2024-01-15"), JsonValue::Date(s) if s == "2024-01-15"));
    assert!(matches!(
        text_cell("MYSQL_TYPE_DATETIME", true, "2024-01-15 14:30:45"),
        JsonValue::DateTime(s) if s == "2024-01-15 14:30:45.000000"
    ));
    assert!(matches!(
        text_cell("MYSQL_TYPE_TIMESTAMP", true, "2024-01-15 00:00:00.123"),
        JsonValue::DateTime(s) if s == "2024-01-15 00:00:00.123000"
    ));
    assert!(matches!(
        text_cell("MYSQL_TYPE_DATETIME", true, "2024-01-15 00:00:00"),
        JsonValue::DateTime(s) if s == "2024-01-15 00:00:00.000000"
    ));
    assert!(matches!(text_cell("MYSQL_TYPE_TIME", true, "-838:59:59"), JsonValue::Time(s) if s == "-838:59:59.000000"));
    assert!(matches!(text_cell("TIME", false, "5:07:09.5"), JsonValue::Time(s) if s == "05:07:09.500000"));
    assert!(matches!(text_cell("DATE", false, "2024-1-15"), JsonValue::String(s) if s == "2024-1-15"));
}

#[test]
fn test_binary_datetime_at_midnight_keeps_its_time() {
    let col = plain_column("d", "DATETIME");
    let result = convert_mysql_value_to_json(Some(Value::Date(2024, 1, 15, 0, 0, 0, 0)), &col);
    assert!(matches!(result, JsonValue::DateTime(s) if s == "2024-01-15 00:00:00.000000"));
}

#[test]
fn test_column_kinds() {
    assert_eq!(column_kind_of("MYSQL_TYPE_LONG"), ColumnKind::Integer);
    assert_eq!(column_kind_of("BIGINT"), ColumnKind::Integer);
    assert_eq!(column_kind_of("MYSQL_TYPE_NEWDECIMAL"), ColumnKind::Number);
    assert_eq!(column_kind_of("MYSQL_TYPE_DATE"), ColumnKind::Date);
    assert_eq!(column_kind_of("MYSQL_TYPE_TIMESTAMP"), ColumnKind::DateTime);
    assert_eq!(column_kind_of("MYSQL_TYPE_TIME"), ColumnKind::Time);
    assert_eq!(column_kind_of("MYSQL_TYPE_VAR_STRING"), ColumnKind::Other);
}

#[test]
fn test_json_column_cell_by_parse_result() {
    assert!(matches!(json_column_cell("[1,2]".to_string(), true), JsonValue::Json(s) if s == "[1,2]"));
    assert!(matches!(json_column_cell("[1,".to_string(), false), JsonValue::String(s) if s == "[1,"));
}

#[test]
fn test_geometry_cell_keeps_base64_and_point() {
    let mut wkb = vec![0x01];
    wkb.extend_from_slice(&1u32.to_le_bytes());
    wkb.extend_from_slice(&1.0f64.to_le_bytes());
    wkb.extend_from_slice(&2.0f64.to_le_bytes());
    match geometry_cell("QUJD".to_string(), &wkb) {
        JsonValue::Geometry { wkb_base64, wkt } => {
            assert_eq!(wkb_base64, "QUJD");
            assert_eq!(wkt, Some(WktPoint { x: 1.0f64.to_bits(), y: 2.0f64.to_bits() }));
        }
        other => panic!("expected Geometry, got {:?}", other),
    }
    assert!(matches!(geometry_cell(String::new(), &[0u8; 3]), JsonValue::Geometry { wkt: None, .. }));
}
