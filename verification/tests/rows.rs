//! Reading rows by column, and JSON texts.
use aicacia_db::codec::EngineRowCodec;
use aicacia_db::float::FloatOp;
use aicacia_db::json_ops::{json_extract, json_merge, json_valid};
use aicacia_db::query::EngineResult;
use aicacia_db::row_deserialize_error::{
    engine_type_label, value_label, value_type_label, RowDeserializeError,
};
use aicacia_db::row_deserializer::{
    position_of, read_any, read_bool, read_bytes, read_double, read_sequence, read_signed,
    read_signed_32, read_text, read_unsigned, ResultColumn, RowReader, Visit,
};
use aicacia_db::schema::{ColumnSchema, TableSchema};
use aicacia_db::value::{EngineRow, EngineType, EngineValue};

fn float_unit(op: FloatOp) -> u64 {
    match op {
        FloatOp::Sum(a, b) => (f64::from_bits(a) + f64::from_bits(b)).to_bits(),
        FloatOp::Difference(a, b) => (f64::from_bits(a) - f64::from_bits(b)).to_bits(),
        FloatOp::Product(a, b) => (f64::from_bits(a) * f64::from_bits(b)).to_bits(),
        FloatOp::Quotient(a, b) => (f64::from_bits(a) / f64::from_bits(b)).to_bits(),
        FloatOp::OfInteger(i) => (i as f64).to_bits(),
        FloatOp::OfCount(n) => (n as f64).to_bits(),
        FloatOp::ToInteger(a) => (f64::from_bits(a) as i64) as u64,
    }
}

#[derive(Debug, PartialEq)]
struct TestUser {
    id: i64,
    name: String,
}

#[derive(Debug, PartialEq)]
struct TestUserOptional {
    id: i64,
    name: String,
    email: Option<String>,
}

#[derive(Debug, PartialEq)]
struct TestProduct {
    price: f64,
    quantity: i64,
}

fn signed(reader: &RowReader<'_>, column: &str) -> Result<i64, RowDeserializeError> {
    match read_signed(reader.value(column)?)? {
        Visit::Signed(i) => Ok(i),
        _ => Err(RowDeserializeError::missing_required_field(column)),
    }
}

fn text(reader: &RowReader<'_>, column: &str) -> Result<String, RowDeserializeError> {
    match read_text(reader.value(column)?)? {
        Visit::Text(s) => Ok(s),
        _ => Err(RowDeserializeError::missing_required_field(column)),
    }
}

fn optional_text(
    reader: &RowReader<'_>,
    column: &str,
) -> Result<Option<String>, RowDeserializeError> {
    match read_text(reader.value(column)?)? {
        Visit::Text(s) => Ok(Some(s)),
        _ => Ok(None),
    }
}

fn double(reader: &RowReader<'_>, column: &str) -> Result<f64, RowDeserializeError> {
    match read_double(reader.value(column)?, &float_unit)? {
        Visit::Double(bits) => Ok(f64::from_bits(bits)),
        _ => Err(RowDeserializeError::missing_required_field(column)),
    }
}

fn read_user(reader: &RowReader<'_>) -> Result<TestUser, RowDeserializeError> {
    Ok(TestUser {
        id: signed(reader, "id")?,
        name: text(reader, "name")?,
    })
}

fn read_product(reader: &RowReader<'_>) -> Result<TestProduct, RowDeserializeError> {
    Ok(TestProduct {
        price: double(reader, "price")?,
        quantity: signed(reader, "quantity")?,
    })
}

fn table(name: &str, columns: Vec<(&str, EngineType)>, primary_key: Vec<usize>) -> TableSchema {
    TableSchema {
        name: name.to_string(),
        columns: columns
            .into_iter()
            .map(|(name, data_type)| ColumnSchema {
                name: name.to_string(),
                data_type,
            })
            .collect(),
        primary_key,
    }
}

fn create_user_schema() -> TableSchema {
    table(
        "users",
        vec![("id", EngineType::Integer), ("name", EngineType::Text)],
        vec![0],
    )
}

fn create_product_schema() -> TableSchema {
    table(
        "products",
        vec![("price", EngineType::Float), ("quantity", EngineType::Integer)],
        vec![],
    )
}

#[test]
fn test_basic_deserialization() {
    let schema = create_user_schema();
    let row = vec![
        EngineValue::Integer(1),
        EngineValue::Text("Alice".to_string()),
    ];

    let user = read_user(&RowReader::for_table(&schema, &row)).unwrap();
    assert_eq!(
        user,
        TestUser {
            id: 1,
            name: "Alice".to_string()
        }
    );
}

#[test]
fn test_case_insensitive_column_matching() {
    let schema = table(
        "users",
        vec![("ID", EngineType::Integer), ("NAME", EngineType::Text)],
        vec![0],
    );

    let row = vec![
        EngineValue::Integer(1),
        EngineValue::Text("Bob".to_string()),
    ];

    let user = read_user(&RowReader::for_table(&schema, &row)).unwrap();
    assert_eq!(
        user,
        TestUser {
            id: 1,
            name: "Bob".to_string()
        }
    );
}

#[test]
fn test_type_mismatch_error() {
    let schema = create_user_schema();
    let row = vec![
        EngineValue::Text("not_an_int".to_string()),
        EngineValue::Text("Alice".to_string()),
    ];

    let result = read_user(&RowReader::for_table(&schema, &row));
    assert!(result.is_err());
    assert_eq!(
        result.unwrap_err().message(),
        "Deserialization error: type mismatch"
    );
}

#[test]
fn test_column_not_found() {
    let schema = table("users", vec![("id", EngineType::Integer)], vec![0]);

    let row = vec![EngineValue::Integer(1)];

    let result = read_user(&RowReader::for_table(&schema, &row));
    assert!(result.is_err());
    let message = result.unwrap_err().message();
    assert!(message.contains("name") || message.contains("not found"));
    assert_eq!(message, "Column 'name' not found in schema");
}

#[test]
fn test_float_deserialization() {
    let schema = create_product_schema();
    let row = vec![
        EngineValue::Float(19.99f64.to_bits()),
        EngineValue::Integer(100),
    ];

    let product = read_product(&RowReader::for_table(&schema, &row)).unwrap();
    assert_eq!(
        product,
        TestProduct {
            price: 19.99,
            quantity: 100
        }
    );
}

#[test]
fn test_integer_to_float_coercion() {
    let schema = create_product_schema();
    let row = vec![EngineValue::Integer(20), EngineValue::Integer(100)];

    let product = read_product(&RowReader::for_table(&schema, &row)).unwrap();
    assert_eq!(
        product,
        TestProduct {
            price: 20.0,
            quantity: 100
        }
    );
}

#[test]
fn test_null_with_option() {
    let schema = table(
        "users",
        vec![
            ("id", EngineType::Integer),
            ("name", EngineType::Text),
            ("email", EngineType::Text),
        ],
        vec![0],
    );
    let row = vec![
        EngineValue::Integer(1),
        EngineValue::Text("Alice".to_string()),
        EngineValue::Null,
    ];

    let reader = RowReader::for_table(&schema, &row);
    let user = TestUserOptional {
        id: signed(&reader, "id").unwrap(),
        name: text(&reader, "name").unwrap(),
        email: optional_text(&reader, "email").unwrap(),
    };
    assert_eq!(
        user,
        TestUserOptional {
            id: 1,
            name: "Alice".to_string(),
            email: None
        }
    );
}

#[test]
fn test_blob_deserialization() {
    let schema = table("files", vec![("data", EngineType::Blob)], vec![]);
    let data = vec![1, 2, 3, 4, 5];
    let row = vec![EngineValue::Blob(data.clone())];

    let reader = RowReader::for_table(&schema, &row);
    assert_eq!(read_sequence(reader.value("data").unwrap()), Ok(data));
}

#[test]
fn test_uuid_deserialization() {
    let schema = table("items", vec![("id", EngineType::Uuid)], vec![0]);
    let uuid_bytes = [1u8; 16];
    let row = vec![EngineValue::Uuid(uuid_bytes)];

    let reader = RowReader::for_table(&schema, &row);
    assert_eq!(
        read_sequence(reader.value("id").unwrap()),
        Ok(uuid_bytes.to_vec())
    );
}

#[test]
fn test_serde_rename_attributes() {
    let schema = table(
        "users",
        vec![
            ("user_id", EngineType::Integer),
            ("user_name", EngineType::Text),
        ],
        vec![0],
    );
    let row = vec![
        EngineValue::Integer(1),
        EngineValue::Text("Alice".to_string()),
    ];

    let reader = RowReader::for_table(&schema, &row);
    assert_eq!(signed(&reader, "user_id"), Ok(1));
    assert_eq!(text(&reader, "user_name"), Ok("Alice".to_string()));
}

fn two_users() -> Vec<EngineRow> {
    vec![
        vec![
            EngineValue::Integer(1),
            EngineValue::Text("Alice".to_string()),
        ],
        vec![
            EngineValue::Integer(2),
            EngineValue::Text("Bob".to_string()),
        ],
    ]
}

#[test]
fn test_engine_result_into_typed() {
    let schema = create_user_schema();
    let result = EngineResult::new(two_users());
    let users: Vec<TestUser> = result
        .rows
        .iter()
        .map(|row| read_user(&RowReader::for_table(&schema, row)).unwrap())
        .collect();

    assert_eq!(users.len(), 2);
    assert_eq!(
        users[0],
        TestUser {
            id: 1,
            name: "Alice".to_string()
        }
    );
    assert_eq!(
        users[1],
        TestUser {
            id: 2,
            name: "Bob".to_string()
        }
    );
}

#[test]
fn test_engine_result_typed_rows() {
    let schema = create_user_schema();
    let result = EngineResult::new(two_users());
    let users: Vec<TestUser> = result
        .rows
        .iter()
        .map(|row| read_user(&RowReader::for_table(&schema, row)).unwrap())
        .collect();

    assert_eq!(users.len(), 2);
}

#[test]
fn test_empty_result() {
    let schema = create_user_schema();
    let result = EngineResult::new(vec![]);
    let users: Vec<TestUser> = result
        .rows
        .iter()
        .map(|row| read_user(&RowReader::for_table(&schema, row)).unwrap())
        .collect();
    assert!(users.is_empty());
}

#[test]
fn test_named_rows() {
    let rows = vec![vec![
        EngineValue::Integer(1),
        EngineValue::Text("Alice".to_string()),
    ]];
    let columns = vec![
        ResultColumn::new("id", Some("users".to_string()), Some(0)),
        ResultColumn::new("name", Some("users".to_string()), Some(1)),
    ];

    let named: Vec<RowReader<'_>> = rows
        .iter()
        .map(|row| RowReader::for_columns(&columns, row))
        .collect();

    assert_eq!(named.len(), 1);
    assert_eq!(named[0].value("id"), Ok(&EngineValue::Integer(1)));
    assert_eq!(
        named[0].value("name"),
        Ok(&EngineValue::Text("Alice".to_string()))
    );
}

#[test]
fn test_into_typed_named() {
    let rows = two_users();
    let columns = vec![
        ResultColumn::new("id", Some("users".to_string()), Some(0)),
        ResultColumn::new("name", Some("users".to_string()), Some(1)),
    ];

    let users: Vec<TestUser> = rows
        .iter()
        .map(|row| read_user(&RowReader::for_columns(&columns, row)).unwrap())
        .collect();

    assert_eq!(users.len(), 2);
    assert_eq!(users[0].id, 1);
    assert_eq!(users[0].name, "Alice");
    assert_eq!(users[1].id, 2);
    assert_eq!(users[1].name, "Bob");
}

#[test]
fn rows_that_are_too_short_are_refused() {
    let schema = create_user_schema();
    let row = vec![EngineValue::Integer(1)];
    let reader = RowReader::for_table(&schema, &row);
    assert_eq!(reader.get_column_index("NaMe"), Ok(1));
    assert_eq!(
        reader.value("name").unwrap_err().message(),
        "Schema error: row index out of bounds"
    );
    assert_eq!(
        position_of(&vec!["a".to_string(), "b".to_string()], "b"),
        Some(1)
    );
    assert_eq!(position_of(&vec!["a".to_string()], "A"), None);
}

#[test]
fn values_are_read_as_the_types_asked_for() {
    let one = EngineValue::Integer(1);
    let minus = EngineValue::Integer(-1);
    let big = EngineValue::Integer(i32::MAX as i64 + 1);
    let yes = EngineValue::Text("true".into());
    let no = EngineValue::Text("yes".into());
    let uuid = EngineValue::Uuid([3; 16]);
    assert_eq!(read_any(&one), Visit::Signed(1));
    assert_eq!(read_any(&EngineValue::Null), Visit::Missing);
    assert_eq!(
        read_any(&EngineValue::Json("[]".into())),
        Visit::Text("[]".into())
    );
    assert_eq!(read_bool(&one), Ok(Visit::Bool(true)));
    assert_eq!(read_bool(&EngineValue::Integer(0)), Ok(Visit::Bool(false)));
    assert_eq!(read_bool(&yes), Ok(Visit::Bool(true)));
    assert_eq!(read_bool(&no), Ok(Visit::Bool(false)));
    assert!(read_bool(&uuid).is_err());
    assert_eq!(read_signed_32(&minus), Ok(Visit::Signed32(-1)));
    assert_eq!(
        read_signed_32(&big).unwrap_err().message(),
        "Deserialization error: i32 out of range"
    );
    assert_eq!(read_unsigned(&one), Ok(Visit::Unsigned(1)));
    assert_eq!(
        read_unsigned(&minus).unwrap_err().message(),
        "Deserialization error: negative value for u64"
    );
    assert_eq!(read_bytes(&uuid), Ok(Visit::Bytes(vec![3; 16])));
    assert!(read_bytes(&one).is_err());
    assert_eq!(
        read_sequence(&one).unwrap_err().message(),
        "Deserialization error: not a sequence"
    );
}

#[test]
fn errors_of_reading_say_what_is_wrong() {
    assert_eq!(
        RowDeserializeError::type_mismatch("age", "integer", "text(\"x\")").message(),
        "Column 'age' expects integer, but got: text(\"x\")"
    );
    assert_eq!(
        RowDeserializeError::missing_required_field("age").message(),
        "Required field 'age' is NULL or missing"
    );
    assert_eq!(
        value_label(&EngineValue::Integer(-3), ""),
        "integer(-3)".to_string()
    );
    assert_eq!(
        value_label(&EngineValue::Float(1.5f64.to_bits()), "1.5"),
        "float(1.5)".to_string()
    );
    assert_eq!(value_label(&EngineValue::Null, ""), "NULL".to_string());
    assert_eq!(value_type_label(&EngineValue::Blob(vec![])), "blob");
    assert_eq!(engine_type_label(&EngineType::Uuid), "uuid");
}

fn json_of(value: EngineValue) -> String {
    match value {
        EngineValue::Json(s) => s,
        _ => panic!("expected Json variant"),
    }
}

#[test]
fn test_json_valid() {
    assert!(json_valid("{}"));
    assert!(json_valid("[]"));
    assert!(json_valid(r#"{"key": "value"}"#));
    assert!(!json_valid("{invalid}"));
    assert!(!json_valid(""));
}

#[test]
fn test_json_extract_simple_field() {
    let json = r#"{"name": "Alice", "age": 30}"#;
    let result = json_extract(json, "$.name").unwrap();
    assert_eq!(json_of(result), r#""Alice""#);
}

#[test]
fn test_json_extract_missing_field() {
    let json = r#"{"name": "Alice"}"#;
    let result = json_extract(json, "$.missing").unwrap();
    assert_eq!(json_of(result), "null");
}

#[test]
fn test_json_extract_array_index() {
    let json = r#"{"items": [10, 20, 30]}"#;
    let result = json_extract(json, "$.items[1]").unwrap();
    assert_eq!(json_of(result), "20");
}

#[test]
fn test_json_merge_objects() {
    let left = r#"{"a": 1, "b": 2}"#;
    let right = r#"{"b": 3, "c": 4}"#;
    let result = json_merge(left, right).unwrap();

    let parsed: serde_json::Value = serde_json::from_str(&json_of(result)).unwrap();
    assert_eq!(parsed["a"], 1);
    assert_eq!(parsed["b"], 3); // right overwrites left
    assert_eq!(parsed["c"], 4);
}

#[test]
fn test_json_merge_non_object_fails() {
    let left = r#"[1, 2, 3]"#;
    let right = r#"[4, 5, 6]"#;
    assert!(json_merge(left, right).is_err());
    assert_eq!(
        json_merge(left, right),
        Err("both JSON values must be objects to merge".to_string())
    );
}

#[test]
fn test_json_operations_extract_and_merge() {
    let user1 = r#"{"name": "Alice", "email": "alice@example.com"}"#;
    let user2 = r#"{"email": "alice.updated@example.com", "status": "active"}"#;

    let name_result = json_extract(user1, "$.name").expect("extract failed");
    assert_eq!(json_of(name_result), r#""Alice""#);

    let merged = json_merge(user1, user2).expect("merge failed");
    let parsed: serde_json::Value =
        serde_json::from_str(&json_of(merged)).expect("invalid JSON");
    assert_eq!(parsed["name"], "Alice");
    assert_eq!(parsed["email"], "alice.updated@example.com");
    assert_eq!(parsed["status"], "active");
}

#[test]
fn test_json_validation() {
    let valid_json = r#"{"key": "value"}"#;
    let invalid_json = r#"{ bad json }"#;

    assert!(json_valid(valid_json));
    assert!(!json_valid(invalid_json));
}

#[test]
fn test_json_extract_nested_paths() {
    let json = r#"{"user": {"profile": {"name": "Alice"}}}"#;

    let result = json_extract(json, "$.user.profile.name").expect("extract failed");
    assert_eq!(json_of(result), r#""Alice""#);
}

#[test]
fn test_json_extract_array_elements() {
    let json = r#"{"items": [{"id": 1}, {"id": 2}, {"id": 3}]}"#;

    let result = json_extract(json, "$.items[1]").expect("extract failed");
    let parsed: serde_json::Value =
        serde_json::from_str(&json_of(result)).expect("invalid JSON");
    assert_eq!(parsed["id"], 2);
}

#[test]
fn test_json_roundtrip_preserves_structure() {
    let complex_json = r#"{
    "users": [
      {"id": 1, "name": "Alice", "tags": ["admin", "user"]},
      {"id": 2, "name": "Bob", "tags": ["user"]}
    ],
    "metadata": {
      "created": "2024-05-18",
      "count": 2
    }
  }"#;

    // Normalize (parse and re-serialize)
    let parsed: serde_json::Value = serde_json::from_str(complex_json).expect("parse failed");
    let normalized = parsed.to_string();

    let value = EngineValue::Json(normalized.clone());

    let encoded = EngineRowCodec::encode(&vec![value.clone()]);
    let decoded = EngineRowCodec::decode_checked(&encoded).expect("decode failed");

    assert_eq!(decoded[0], value);

    if let EngineValue::Json(s) = &decoded[0] {
        let reparsed: serde_json::Value = serde_json::from_str(s).expect("parse failed");
        assert_eq!(reparsed["users"].as_array().unwrap().len(), 2);
        assert_eq!(reparsed["users"][0]["name"], "Alice");
    }
}

#[test]
fn json_paths_at_the_edges() {
    let json = r#"{"a": {"b": [[1, 2], {"c": 3}]}, "x.y": 4, "n": 1.50}"#;
    let at = |path: &str| json_of(json_extract(json, path).unwrap());
    assert_eq!(at("$.a.b"), r#"[[1,2],{"c":3}]"#);
    assert_eq!(at("a"), at("$.a"));
    assert_eq!(at("$$..a"), at("$.a"));
    // A bracket anywhere makes the text before it one name.
    assert_eq!(at("$.a.b[0]"), "null");
    assert_eq!(at("$.x.y"), "null");
    assert_eq!(at("$.n"), "1.5");
    assert_eq!(at("$.a[0]"), "null");
    assert_eq!(at("$"), at(""));

    let list = r#"[[1, 2], {"c": 3}]"#;
    let item = |path: &str| json_of(json_extract(list, path).unwrap());
    assert_eq!(item("$[0][1]"), "2");
    assert_eq!(item("[1]"), r#"{"c":3}"#);
    assert_eq!(item("[0]and more"), "[1,2]");
    assert_eq!(item("[9]"), "null");
    assert_eq!(item("[x]"), "null");
    assert_eq!(item("[0"), "null");

    assert!(json_extract("{", "$.a")
        .unwrap_err()
        .starts_with("invalid JSON: "));
    assert!(json_merge("{", "{}")
        .unwrap_err()
        .starts_with("invalid JSON (left): "));
    assert!(json_merge("{}", "{")
        .unwrap_err()
        .starts_with("invalid JSON (right): "));
}
