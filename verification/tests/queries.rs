//! The database as its users see it: selections, aggregates, subqueries, and
//! what a store promises of its transactions.
use aicacia_db::backend_contract::BackendCapability;
use aicacia_db::engine::EngineDatabase;
use aicacia_db::float::FloatOp;
use aicacia_db::in_memory::InMemoryNamedBTree;
use aicacia_db::query::{
    Aggregate, EngineQuery, HavingPredicate, OrderBy, QualifiedColumn, QualifiedOperand,
    QualifiedPredicate, RefOrAgg, SelectOptions, SortDirection, UpdateAssignment, UpdateValueExpr,
};
use aicacia_db::schema::{ColumnSchema, TableSchema};
use aicacia_db::store::EngineStore;
use aicacia_db::value::{EngineKey, EngineRow, EngineType, EngineValue};

fn float_unit(op: FloatOp) -> u64 {
    match op {
        FloatOp::Sum(a, b) => (f64::from_bits(a) + f64::from_bits(b)).to_bits(),
        FloatOp::Difference(a, b) => (f64::from_bits(a) - f64::from_bits(b)).to_bits(),
        FloatOp::Product(a, b) => (f64::from_bits(a) * f64::from_bits(b)).to_bits(),
        FloatOp::Quotient(a, b) => (f64::from_bits(a) / f64::from_bits(b)).to_bits(),
        FloatOp::OfInteger(i) => (i as f64).to_bits(),
        FloatOp::OfCount(n) => (n as f64).to_bits(),
        FloatOp::ToInteger(a) => (f64::from_bits(a) as i64) as u64,
    }
}

fn make_db_with_items() -> EngineDatabase<InMemoryNamedBTree<EngineKey, EngineRow>, fn(FloatOp) -> u64> {
    let store: InMemoryNamedBTree<EngineKey, EngineRow> = InMemoryNamedBTree::new();
    let mut db = EngineDatabase::new(store, float_unit as fn(FloatOp) -> u64);
    db.register_table(TableSchema {
        name: "items".into(),
        columns: vec![
            ColumnSchema {
                name: "id".into(),
                data_type: EngineType::Integer,
            },
            ColumnSchema {
                name: "name".into(),
                data_type: EngineType::Text,
            },
            ColumnSchema {
                name: "score".into(),
                data_type: EngineType::Integer,
            },
        ],
        primary_key: vec![0],
    })
    .expect("register table");

    for (id, name, score) in [
        (1i64, "Alice", 80i64),
        (2, "Bob", 90),
        (3, "Carol", 70),
        (4, "Dave", 90),
        (5, "Eve", 80),
    ] {
        db.execute(&EngineQuery::Insert {
            table: "items".into(),
            row: vec![
                EngineValue::Integer(id),
                EngineValue::Text(name.into()),
                EngineValue::Integer(score),
            ],
        })
        .expect("insert");
    }
    db
}

fn qcol(table: &str, col: usize) -> QualifiedColumn {
    QualifiedColumn {
        table: table.into(),
        column_index: col,
    }
}

#[test]
fn engine_works_with_mock_btree() {
    let store: InMemoryNamedBTree<EngineKey, EngineRow> = InMemoryNamedBTree::new();
    let mut db = EngineDatabase::new(store, float_unit as fn(FloatOp) -> u64);

    let schema = TableSchema {
        name: "items".into(),
        columns: vec![
            ColumnSchema {
                name: "id".into(),
                data_type: EngineType::Integer,
            },
            ColumnSchema {
                name: "name".into(),
                data_type: EngineType::Text,
            },
        ],
        primary_key: vec![0],
    };

    db.register_table(schema).expect("register table");

    db.execute(&EngineQuery::Insert {
        table: "items".into(),
        row: vec![EngineValue::Integer(1), EngineValue::Text("One".into())],
    })
    .expect("insert");

    let res = db
        .execute(&EngineQuery::select_simple(
            "items".into(),
            vec![1],
            Some(QualifiedPredicate::Equals(
                QualifiedOperand::Column(QualifiedColumn {
                    table: "items".into(),
                    column_index: 0,
                }),
                QualifiedOperand::Value(EngineValue::Integer(1)),
            )),
        ))
        .expect("select");

    assert_eq!(res.rows.len(), 1);
    assert_eq!(res.rows[0], vec![EngineValue::Text("One".into())]);
}

#[test]
fn order_by_asc_with_limit_and_offset() {
    let mut db = make_db_with_items();
    let res = db
        .execute(&EngineQuery::Select {
            table: "items".into(),
            projection: vec![qcol("items", 0), qcol("items", 2)],
            predicate: None,
            options: Box::new(SelectOptions {
                order_by: vec![OrderBy {
                    expr: qcol("items", 2),
                    direction: SortDirection::Asc,
                }],
                limit: Some(2),
                offset: Some(1),
                ..Default::default()
            }),
        })
        .expect("select");

    // Scores sorted asc: 70, 80, 80, 90, 90 — skip 1 (score=70 → Carol id=3), take 2
    // After offset=1 we get the two score=80 rows (id=1 Alice, id=5 Eve) in some order
    assert_eq!(res.rows.len(), 2);
    for row in &res.rows {
        assert_eq!(row[1], EngineValue::Integer(80));
    }
}

#[test]
fn order_by_desc() {
    let mut db = make_db_with_items();
    let res = db
        .execute(&EngineQuery::Select {
            table: "items".into(),
            projection: vec![qcol("items", 2)],
            predicate: None,
            options: Box::new(SelectOptions {
                order_by: vec![OrderBy {
                    expr: qcol("items", 2),
                    direction: SortDirection::Desc,
                }],
                limit: Some(1),
                ..Default::default()
            }),
        })
        .expect("select");

    assert_eq!(res.rows.len(), 1);
    assert_eq!(res.rows[0][0], EngineValue::Integer(90));
}

#[test]
fn distinct_removes_duplicates() {
    let mut db = make_db_with_items();
    let res = db
        .execute(&EngineQuery::Select {
            table: "items".into(),
            projection: vec![qcol("items", 2)],
            predicate: None,
            options: Box::new(SelectOptions {
                distinct: true,
                ..Default::default()
            }),
        })
        .expect("select");

    // scores: 70, 80, 90 — three distinct values
    assert_eq!(res.rows.len(), 3);
}

#[test]
fn count_star_returns_row_count() {
    let mut db = make_db_with_items();
    let res = db
        .execute(&EngineQuery::Select {
            table: "items".into(),
            projection: vec![],
            predicate: None,
            options: Box::new(SelectOptions {
                aggregates: vec![Aggregate::Count(None)],
                ..Default::default()
            }),
        })
        .expect("select");

    assert_eq!(res.rows.len(), 1);
    assert_eq!(res.rows[0][0], EngineValue::Integer(5));
}

#[test]
fn sum_column_aggregation() {
    let mut db = make_db_with_items();
    let res = db
        .execute(&EngineQuery::Select {
            table: "items".into(),
            projection: vec![],
            predicate: None,
            options: Box::new(SelectOptions {
                aggregates: vec![Aggregate::Sum(qcol("items", 2))],
                ..Default::default()
            }),
        })
        .expect("select");

    // 80 + 90 + 70 + 90 + 80 = 410
    assert_eq!(res.rows.len(), 1);
    assert_eq!(res.rows[0][0], EngineValue::Float(410.0f64.to_bits()));
}

#[test]
fn avg_column_aggregation() {
    let mut db = make_db_with_items();
    let res = db
        .execute(&EngineQuery::Select {
            table: "items".into(),
            projection: vec![],
            predicate: None,
            options: Box::new(SelectOptions {
                aggregates: vec![Aggregate::Avg(qcol("items", 2))],
                ..Default::default()
            }),
        })
        .expect("select");

    assert_eq!(res.rows.len(), 1);
    assert_eq!(res.rows[0][0], EngineValue::Float(82.0f64.to_bits()));
}

#[test]
fn min_max_aggregation() {
    let mut db = make_db_with_items();
    let res = db
        .execute(&EngineQuery::Select {
            table: "items".into(),
            projection: vec![],
            predicate: None,
            options: Box::new(SelectOptions {
                aggregates: vec![
                    Aggregate::Min(qcol("items", 2)),
                    Aggregate::Max(qcol("items", 2)),
                ],
                ..Default::default()
            }),
        })
        .expect("select");

    assert_eq!(res.rows.len(), 1);
    assert_eq!(res.rows[0][0], EngineValue::Integer(70));
    assert_eq!(res.rows[0][1], EngineValue::Integer(90));
}

#[test]
fn group_by_score_count() {
    let mut db = make_db_with_items();
    let res = db
        .execute(&EngineQuery::Select {
            table: "items".into(),
            projection: vec![],
            predicate: None,
            options: Box::new(SelectOptions {
                group_by: vec![qcol("items", 2)],
                aggregates: vec![Aggregate::Count(None)],
                ..Default::default()
            }),
        })
        .expect("select");

    // Groups: 70→1, 80→2, 90→2
    assert_eq!(res.rows.len(), 3);
    let mut rows = res.rows.clone();
    rows.sort_by_key(|r| match &r[0] {
        EngineValue::Integer(i) => *i,
        _ => 0,
    });
    assert_eq!(
        rows[0],
        vec![EngineValue::Integer(70), EngineValue::Integer(1)]
    );
    assert_eq!(
        rows[1],
        vec![EngineValue::Integer(80), EngineValue::Integer(2)]
    );
    assert_eq!(
        rows[2],
        vec![EngineValue::Integer(90), EngineValue::Integer(2)]
    );
}

#[test]
fn group_by_having_filters_groups() {
    let mut db = make_db_with_items();
    let res = db
        .execute(&EngineQuery::Select {
            table: "items".into(),
            projection: vec![],
            predicate: None,
            options: Box::new(SelectOptions {
                group_by: vec![qcol("items", 2)],
                aggregates: vec![Aggregate::Count(None)],
                having: Some(HavingPredicate::GreaterThan(
                    RefOrAgg::AggregateIndex(0),
                    EngineValue::Integer(1),
                )),
                ..Default::default()
            }),
        })
        .expect("select");

    // Only groups with count > 1: score=80 (2) and score=90 (2)
    assert_eq!(res.rows.len(), 2);
    for row in &res.rows {
        assert!(matches!(row[1], EngineValue::Integer(2)));
    }
}

#[test]
fn in_subquery_filters_rows() {
    let mut db = make_db_with_items();
    // "SELECT id FROM items WHERE score IN (SELECT score FROM items WHERE id = 2)"
    // id=2 has score=90, so IN subquery should return rows with score=90: id=2, id=4
    let subquery = EngineQuery::select_simple(
        "items".into(),
        vec![2], // project score column
        Some(QualifiedPredicate::Equals(
            QualifiedOperand::Column(qcol("items", 0)),
            QualifiedOperand::Value(EngineValue::Integer(2)),
        )),
    );

    let res = db
        .execute(&EngineQuery::Select {
            table: "items".into(),
            projection: vec![qcol("items", 0)],
            predicate: Some(QualifiedPredicate::InSubquery {
                expr: qcol("items", 2),
                subquery: Box::new(subquery),
                negated: false,
            }),
            options: Box::new(SelectOptions::default()),
        })
        .expect("select");

    let mut ids: Vec<i64> = res
        .rows
        .iter()
        .map(|r| match r[0] {
            EngineValue::Integer(i) => i,
            _ => -1,
        })
        .collect();
    ids.sort();
    assert_eq!(ids, vec![2, 4]);
}

#[test]
fn not_in_subquery_excludes_rows() {
    let mut db = make_db_with_items();
    // "SELECT id FROM items WHERE score NOT IN (SELECT score FROM items WHERE id = 2)"
    // score=90 excluded → remaining: id=1(80), id=3(70), id=5(80)
    let subquery = EngineQuery::select_simple(
        "items".into(),
        vec![2],
        Some(QualifiedPredicate::Equals(
            QualifiedOperand::Column(qcol("items", 0)),
            QualifiedOperand::Value(EngineValue::Integer(2)),
        )),
    );

    let res = db
        .execute(&EngineQuery::Select {
            table: "items".into(),
            projection: vec![qcol("items", 0)],
            predicate: Some(QualifiedPredicate::InSubquery {
                expr: qcol("items", 2),
                subquery: Box::new(subquery),
                negated: true,
            }),
            options: Box::new(SelectOptions::default()),
        })
        .expect("select");

    let mut ids: Vec<i64> = res
        .rows
        .iter()
        .map(|r| match r[0] {
            EngineValue::Integer(i) => i,
            _ => -1,
        })
        .collect();
    ids.sort();
    assert_eq!(ids, vec![1, 3, 5]);
}

type TestDb = EngineDatabase<InMemoryNamedBTree<EngineKey, EngineRow>, fn(FloatOp) -> u64>;

fn uuid_value(id: u128) -> EngineValue {
    EngineValue::Uuid(id.to_be_bytes())
}

fn make_test_db() -> TestDb {
    let store: InMemoryNamedBTree<EngineKey, EngineRow> = InMemoryNamedBTree::new();
    EngineDatabase::new(store, float_unit as fn(FloatOp) -> u64)
}

#[test]
fn transaction_contract_defaults_to_multi_tree_atomicity() {
    let db = make_test_db();
    let contract = db.store().transaction_contract();
    assert_eq!(contract.atomicity, BackendCapability::MultiTreeAtomicity);
    assert!(contract.multi_tree_write_atomicity);
    assert!(contract.validate().is_ok());
}

#[test]
fn multi_tree_atomicity_enables_cross_table_updates() {
    let mut db = make_test_db();

    // Create two tables
    db.register_table(TableSchema {
        name: "t1".into(),
        columns: vec![
            ColumnSchema {
                name: "id".into(),
                data_type: EngineType::Uuid,
            },
            ColumnSchema {
                name: "value".into(),
                data_type: EngineType::Integer,
            },
        ],
        primary_key: vec![0],
    })
    .expect("register t1");

    db.register_table(TableSchema {
        name: "t2".into(),
        columns: vec![
            ColumnSchema {
                name: "id".into(),
                data_type: EngineType::Uuid,
            },
            ColumnSchema {
                name: "value".into(),
                data_type: EngineType::Integer,
            },
        ],
        primary_key: vec![0],
    })
    .expect("register t2");

    // Insert a row in each table
    db.execute(&EngineQuery::Insert {
        table: "t1".into(),
        row: vec![uuid_value(1), EngineValue::Integer(1)],
    })
    .expect("insert t1");

    db.execute(&EngineQuery::Insert {
        table: "t2".into(),
        row: vec![uuid_value(2), EngineValue::Integer(2)],
    })
    .expect("insert t2");

    // Use a transaction to mutate both tables atomically
    let mut txn = db.transaction();
    txn
        .update_rows_with_sources(
            "t1",
            &vec![UpdateAssignment {
                column_index: 1,
                value: UpdateValueExpr::Value(EngineValue::Integer(100)),
            }],
            Some(&QualifiedPredicate::Equals(
                QualifiedOperand::Column(QualifiedColumn {
                    table: "t1".into(),
                    column_index: 0,
                }),
                QualifiedOperand::Value(uuid_value(1)),
            )),
            &vec![],
            &vec![],
        )
        .expect("update t1");

    txn
        .update_rows_with_sources(
            "t2",
            &vec![UpdateAssignment {
                column_index: 1,
                value: UpdateValueExpr::Value(EngineValue::Integer(200)),
            }],
            Some(&QualifiedPredicate::Equals(
                QualifiedOperand::Column(QualifiedColumn {
                    table: "t2".into(),
                    column_index: 0,
                }),
                QualifiedOperand::Value(uuid_value(2)),
            )),
            &vec![],
            &vec![],
        )
        .expect("update t2");

    txn.commit().expect("commit");

    // Verify both updates were applied
    let r1 = db
        .execute(&EngineQuery::select_simple(
            "t1".into(),
            vec![1],
            Some(QualifiedPredicate::Equals(
                QualifiedOperand::Column(QualifiedColumn {
                    table: "t1".into(),
                    column_index: 1,
                }),
                QualifiedOperand::Value(EngineValue::Integer(1)),
            )),
        ))
        .expect("select t1");

    assert!(r1.rows.is_empty(), "original row should not exist");

    let r1_updated = db
        .execute(&EngineQuery::select_simple(
            "t1".into(),
            vec![1],
            Some(QualifiedPredicate::Equals(
                QualifiedOperand::Column(QualifiedColumn {
                    table: "t1".into(),
                    column_index: 1,
                }),
                QualifiedOperand::Value(EngineValue::Integer(100)),
            )),
        ))
        .expect("select t1 updated");

    assert_eq!(r1_updated.rows.len(), 1, "updated row should exist");
}
