//! Trees in memory, transactions on them, and the engine's stores over them.
use aicacia_db::codec::{DecodeError, EngineKeyCodec, EngineRowCodec};
use aicacia_db::in_memory::{InMemoryBTree, InMemoryNamedBTree};
use aicacia_db::order::Comparison;
use aicacia_db::ordered_map::KeyBound;
use aicacia_db::query::{QualifiedColumn, QualifiedOperand, QualifiedPredicate};
use aicacia_db::schema::{ColumnSchema, IndexSchema, TableSchema};
use aicacia_db::store::{commit, EngineStore, IndexStore, RowStore, SchemaStore};
use aicacia_db::store_facade::{EngineStoreFacade, StoreFacade};
use aicacia_db::store_helpers::{
    fetch_rows_by_primary_keys, lookup_index_row_pks, lookup_index_rows,
    lookup_primary_keys_by_index_predicate, materialize_rows_by_primary_keys,
};
use aicacia_db::value::{EngineKey, EngineRow, EngineType, EngineValue, PrimaryKey};

#[test]
fn in_memory_btree_transaction_commit_and_rollback() {
    let mut store: InMemoryBTree<u64, u64> = InMemoryBTree::new();
    store.insert(1, 100).expect("insert initial value into store");
    let mut tx = store.transaction().expect("start transaction");
    tx.insert(2, 200).expect("insert value in transaction");
    tx.remove(&1).expect("remove failed");
    tx.commit().expect("commit transaction");

    assert_eq!(store.get(&1).expect("get failed"), None);
    assert_eq!(store.get(&2).expect("get failed"), Some(200));
}

#[test]
fn transaction_range_merges_pending_changes() {
    let mut store: InMemoryBTree<u64, u64> = InMemoryBTree::new();
    store.insert(1, 100).expect("insert initial value into store");
    store.insert(3, 300).expect("insert second value into store");

    let mut tx = store.transaction().expect("start transaction");
    tx.insert(2, 200).expect("insert value in transaction");
    tx.remove(&3).expect("remove failed");

    let values = tx
        .range(&KeyBound::Included(0), &KeyBound::Excluded(10))
        .expect("range item failed");

    assert_eq!(values, Vec::from([(1, 100), (2, 200)]));
}

#[test]
fn transaction_get_honors_pending_delete() {
    let mut store: InMemoryBTree<u64, u64> = InMemoryBTree::new();
    store.insert(1, 100).expect("insert initial value into store");

    let mut tx = store.transaction().expect("start transaction");
    tx.remove(&1).expect("remove failed");

    assert_eq!(tx.get(&1).expect("get failed"), None);
}

#[test]
fn rollback_leaves_the_tree_as_it_was() {
    let mut store: InMemoryBTree<u64, u64> = InMemoryBTree::new();
    store.insert(1, 100).expect("insert");
    let mut tx = store.transaction().expect("begin");
    tx.insert(1, 101).expect("overwrite");
    tx.insert(2, 200).expect("insert");
    assert_eq!(tx.get(&1).expect("get"), Some(101));
    tx.rollback().expect("rollback");

    assert_eq!(store.get(&1).expect("get"), Some(100));
    assert_eq!(store.get(&2).expect("get"), None);
}

#[test]
fn ranges_honour_their_bounds() {
    let mut store: InMemoryBTree<u64, u64> = InMemoryBTree::new();
    for key in [5u64, 1, 4, 2, 3] {
        store.insert(key, key * 10).expect("insert");
    }
    let keys = |entries: Vec<(u64, u64)>| entries.into_iter().map(|e| e.0).collect::<Vec<u64>>();
    assert_eq!(
        keys(store.range(&KeyBound::Excluded(1), &KeyBound::Included(4)).unwrap()),
        vec![2, 3, 4]
    );
    assert_eq!(
        keys(store.range(&KeyBound::Unbounded, &KeyBound::Excluded(3)).unwrap()),
        vec![1, 2]
    );
    assert_eq!(
        keys(store.range(&KeyBound::Unbounded, &KeyBound::Unbounded).unwrap()),
        vec![1, 2, 3, 4, 5]
    );
}

#[test]
fn get_tree_returns_shared_isolated_trees() {
    let mut provider: InMemoryNamedBTree<u64, u64> = InMemoryNamedBTree::new();
    let first = provider.get_tree("first").expect("first tree");
    let first_again = provider.get_tree("first").expect("first again");
    let second = provider.get_tree("second").expect("second tree");

    first.insert(&mut provider, 1, 10).expect("insert first");

    assert_eq!(
        first_again.get(&provider, &1).expect("get first again"),
        Some(10)
    );
    assert_eq!(second.get(&provider, &1).expect("get second"), None);
}

#[test]
fn named_transaction_commits_across_trees() {
    let mut provider: InMemoryNamedBTree<u64, u64> = InMemoryNamedBTree::new();
    let mut tx = provider.begin_transaction().expect("begin");

    tx.insert("first", 1, 10).expect("insert first");
    tx.insert("second", 1, 20).expect("insert second");
    tx.commit().expect("commit");

    let first = provider.get_tree("first").expect("first tree");
    let second = provider.get_tree("second").expect("second tree");

    assert_eq!(first.get(&provider, &1).expect("get first"), Some(10));
    assert_eq!(second.get(&provider, &1).expect("get second"), Some(20));
}

#[test]
fn named_tree_transaction_is_scoped_to_one_tree() {
    let mut provider: InMemoryNamedBTree<u64, u64> = InMemoryNamedBTree::new();
    let first = provider.get_tree("first").expect("first tree");
    let second = provider.get_tree("second").expect("second tree");
    let mut tx = first.transaction().expect("begin tree tx");

    tx.insert(1, 10).expect("insert");
    tx.commit(&mut provider).expect("commit");

    assert_eq!(first.get(&provider, &1).expect("get first"), Some(10));
    assert_eq!(second.get(&provider, &1).expect("get second"), None);
}

#[test]
fn facade_point_ops_inmemory() {
    let backend: InMemoryBTree<u64, u64> = InMemoryBTree::new();
    let mut facade = StoreFacade::new(backend);

    facade.insert::<u64, u64>(1, 100).expect("insert");
    assert_eq!(facade.get::<u64, u64>(&1).expect("get failed"), Some(100));

    let removed = facade.remove::<u64, u64>(&1).expect("remove failed");
    assert_eq!(removed, Some(100));
}

#[test]
fn facade_range_inmemory() {
    let backend: InMemoryBTree<u64, u64> = InMemoryBTree::new();
    let mut facade = StoreFacade::new(backend);

    facade.insert::<u64, u64>(1, 100).expect("insert");
    facade.insert::<u64, u64>(2, 200).expect("insert");
    facade.insert::<u64, u64>(3, 300).expect("insert");

    let items: Vec<(u64, u64)> = facade
        .range(&KeyBound::Included(1), &KeyBound::Excluded(3))
        .expect("range failed");

    assert_eq!(items, vec![(1u64, 100u64), (2u64, 200u64)]);
}

#[test]
fn engine_store_facade_insert_and_get_row() {
    let store: InMemoryNamedBTree<EngineKey, EngineRow> = InMemoryNamedBTree::new();
    let mut facade = EngineStoreFacade::new(store);

    let pk = EngineKey::from_values(vec![EngineValue::Integer(1)]);
    let row = vec![EngineValue::Integer(1), EngineValue::Text("Alice".into())];

    facade
        .insert_table_row("users", pk.clone(), row.clone())
        .expect("insert table row");

    let got = facade.get_table_row("users", &pk).expect("get table row");

    assert_eq!(got, Some(row));
}

#[test]
fn engine_store_facade_collect_table_rows() {
    let store: InMemoryNamedBTree<EngineKey, EngineRow> = InMemoryNamedBTree::new();
    let mut facade = EngineStoreFacade::new(store);

    let pk1 = EngineKey::from_values(vec![EngineValue::Integer(1)]);
    let row1 = vec![EngineValue::Integer(1), EngineValue::Text("Alice".into())];

    let pk2 = EngineKey::from_values(vec![EngineValue::Integer(2)]);
    let row2 = vec![EngineValue::Integer(2), EngineValue::Text("Bob".into())];

    facade
        .insert_table_row("users", pk1.clone(), row1.clone())
        .expect("insert 1");

    facade
        .insert_table_row("users", pk2.clone(), row2.clone())
        .expect("insert 2");

    let rows = facade
        .collect_table_rows("users", None)
        .expect("collect rows");

    assert!(rows.contains(&(pk1, row1)));
    assert!(rows.contains(&(pk2, row2)));
}

#[test]
fn engine_store_facade_deletes_a_row_with_its_entries() {
    let store: InMemoryNamedBTree<EngineKey, EngineRow> = InMemoryNamedBTree::new();
    let mut facade = EngineStoreFacade::new(store);
    let pk = EngineKey::from_values(vec![EngineValue::Integer(1)]);
    let row = vec![EngineValue::Integer(1), EngineValue::Text("Alice".into())];
    facade
        .insert_table_row("users", pk.clone(), row.clone())
        .expect("insert");

    let bad_index = IndexSchema {
        name: "far".into(),
        table_name: "users".into(),
        column_indices: vec![7],
        unique: false,
    };
    assert!(facade.delete_row("users", &pk, &row, &vec![bad_index]).is_err());
    assert_eq!(facade.get_table_row("users", &pk).unwrap(), Some(row.clone()));

    facade
        .delete_row("users", &pk, &row, &vec![])
        .expect("delete");
    assert_eq!(facade.get_table_row("users", &pk).unwrap(), None);
}

fn sample_table_schema() -> TableSchema {
    TableSchema {
        name: "users".into(),
        columns: vec![
            ColumnSchema {
                name: "id".into(),
                data_type: EngineType::Integer,
            },
            ColumnSchema {
                name: "name".into(),
                data_type: EngineType::Text,
            },
        ],
        primary_key: vec![0],
    }
}

#[test]
fn load_catalog_returns_table_and_index_schemas() {
    let store: InMemoryNamedBTree<EngineKey, EngineRow> = InMemoryNamedBTree::new();
    let mut tx = store.engine_transaction();

    let table_schema = sample_table_schema();
    tx.insert_table_schema(&table_schema)
        .expect("insert table schema");

    let index_schema = IndexSchema {
        name: "users_name_idx".into(),
        table_name: "users".into(),
        column_indices: vec![1],
        unique: true,
    };
    tx.insert_index_schema(&index_schema)
        .expect("insert index schema");

    let (tables, indexes) = tx.load_catalog().expect("load catalog");
    assert_eq!(tables, vec![table_schema]);
    assert_eq!(indexes, vec![index_schema]);
}

#[test]
fn index_lookup_and_row_materialization_are_separate() {
    let mut store: InMemoryNamedBTree<EngineKey, EngineRow> = InMemoryNamedBTree::new();
    let mut tx = store.engine_transaction();

    let row = vec![EngineValue::Integer(1), EngineValue::Text("Alice".into())];
    let primary_key = PrimaryKey::from_values(vec![EngineValue::Uuid([1_u8; 16])]);

    tx.insert_table_row("users", primary_key.clone(), row.clone())
        .expect("insert row");

    let index_schema = IndexSchema {
        name: "users_name_idx".into(),
        table_name: "users".into(),
        column_indices: vec![1],
        unique: true,
    };
    let index_key = index_schema.key_for(&row).expect("build index key");
    tx.insert_index_entry(&index_schema, &index_key, &primary_key)
        .expect("insert index entry");

    let changes = tx.into_changes();
    commit(&mut store, changes).expect("commit");

    let tx2 = store.engine_transaction();
    let predicate = QualifiedPredicate::Equals(
        QualifiedOperand::Column(QualifiedColumn {
            table: "users".into(),
            column_index: 1,
        }),
        QualifiedOperand::Value(EngineValue::Text("Alice".into())),
    );
    let row_pks = lookup_index_row_pks(&tx2, &index_schema, &predicate).expect("lookup pks");
    let rows =
        materialize_rows_by_primary_keys(&tx2, "users", &row_pks).expect("materialize rows");

    assert_eq!(rows, vec![row.clone()]);

    let keys = lookup_primary_keys_by_index_predicate(&tx2, &index_schema, &predicate).unwrap();
    assert_eq!(keys, vec![primary_key]);
    assert_eq!(
        fetch_rows_by_primary_keys(&tx2, "users", &keys).unwrap(),
        vec![row.clone()]
    );
    assert_eq!(
        lookup_index_rows(&tx2, "users", &index_schema, &predicate).unwrap(),
        vec![row]
    );
    let other = QualifiedPredicate::IsNull(QualifiedColumn {
        table: "users".into(),
        column_index: 1,
    });
    let refused = lookup_index_rows(&tx2, "users", &index_schema, &other).unwrap_err();
    assert_eq!(
        refused.message(),
        "schema mismatch: predicate does not match index key"
    );
}

#[test]
fn engine_key_round_trips() {
    let value = EngineKey::from_values(vec![
        EngineValue::Integer(1),
        EngineValue::Text("Alice".into()),
    ]);

    let encoded = EngineKeyCodec::encode(&value);
    let decoded = EngineKeyCodec::decode_checked(&encoded).expect("decode failed");

    assert_eq!(decoded, value);
}

#[test]
fn engine_row_round_trips() {
    let value = vec![
        EngineValue::Integer(1),
        EngineValue::Text("Alice".into()),
        EngineValue::Blob(vec![1, 2, 3]),
    ];

    let encoded = EngineRowCodec::encode(&value);
    let decoded = EngineRowCodec::decode_checked(&encoded).expect("decode failed");

    assert_eq!(decoded, value);
}

#[test]
fn key_compare_matches_engine_key_ordering() {
    let left = EngineKey::from_values(vec![EngineValue::Integer(2)]);
    let right = EngineKey::from_values(vec![EngineValue::Float(3.0f64.to_bits())]);

    let left_bytes = EngineKeyCodec::encode(&left);
    let right_bytes = EngineKeyCodec::encode(&right);

    assert_eq!(
        EngineKeyCodec::compare(&left_bytes, &right_bytes),
        left.compare(&right)
    );
    assert_eq!(left.compare(&left), Comparison::Equal);
}

#[test]
fn rows_of_every_kind_of_value_round_trip() {
    let row = vec![
        EngineValue::Null,
        EngineValue::Integer(i64::MIN),
        EngineValue::Float((-0.0f64).to_bits()),
        EngineValue::Float(f64::NAN.to_bits()),
        EngineValue::Text("gr\u{fc}n \u{1f980}".into()),
        EngineValue::Uuid([7; 16]),
        EngineValue::Blob(vec![]),
        EngineValue::Json("{\"a\":1}".into()),
    ];
    let bytes = EngineRowCodec::encode(&row);
    assert_eq!(EngineRowCodec::decode_checked(&bytes), Ok(row.clone()));
    assert_eq!(EngineRowCodec::decode(&bytes), row);

    let mut longer = bytes.clone();
    longer.push(0);
    assert_eq!(
        EngineRowCodec::decode_checked(&longer),
        Err(DecodeError::TrailingBytes)
    );
    assert_eq!(
        EngineRowCodec::decode_checked(&bytes[..bytes.len() - 1]),
        Err(DecodeError::Truncated)
    );
    assert_eq!(
        EngineRowCodec::decode_checked(&[]),
        Err(DecodeError::Truncated)
    );
}

#[test]
fn test_json_type_codec_roundtrip() {
    let json_str = r#"{"name": "Alice", "age": 30, "active": true}"#;
    let value = EngineValue::Json(json_str.to_string());

    let encoded = EngineRowCodec::encode(&vec![value.clone()]);
    let decoded = EngineRowCodec::decode_checked(&encoded).expect("failed to decode");

    assert_eq!(decoded.len(), 1);
    assert_eq!(decoded[0], value);
}

#[test]
fn test_json_null_value_codec_roundtrip() {
    let values = vec![
        EngineValue::Json(r#"{"x": null}"#.to_string()),
        EngineValue::Null,
    ];

    let encoded = EngineRowCodec::encode(&values);
    let decoded = EngineRowCodec::decode_checked(&encoded).expect("failed to decode");

    assert_eq!(decoded, values);
}

#[test]
fn test_json_mixed_types_codec_roundtrip() {
    let values = vec![
        EngineValue::Integer(42),
        EngineValue::Text("hello".to_string()),
        EngineValue::Json(r#"{"key": "value"}"#.to_string()),
        EngineValue::Null,
        EngineValue::Float(3.5f64.to_bits()),
    ];

    let encoded = EngineRowCodec::encode(&values);
    let decoded = EngineRowCodec::decode_checked(&encoded).expect("failed to decode");

    assert_eq!(decoded, values);
}
