//! The database over a store in memory.
use aicacia_db::engine::EngineDatabase;
use aicacia_db::error::EngineError;
use aicacia_db::float::FloatOp;
use aicacia_db::in_memory::InMemoryNamedBTree;
use aicacia_db::query::{
    Aggregate, EngineQuery, JoinClause, JoinKind, JoinOn, OrderBy, QualifiedColumn,
    QualifiedOperand, QualifiedPredicate, SelectOptions, SortDirection, UpdateAssignment,
    UpdateValueExpr,
};
use aicacia_db::schema::{ColumnSchema, IndexSchema, TableSchema};
use aicacia_db::value::{EngineKey, EngineRow, EngineType, EngineValue};
use uuid::Uuid;

fn float_unit(op: FloatOp) -> u64 {
    match op {
        FloatOp::Sum(a, b) => (f64::from_bits(a) + f64::from_bits(b)).to_bits(),
        FloatOp::Difference(a, b) => (f64::from_bits(a) - f64::from_bits(b)).to_bits(),
        FloatOp::Product(a, b) => (f64::from_bits(a) * f64::from_bits(b)).to_bits(),
        FloatOp::Quotient(a, b) => (f64::from_bits(a) / f64::from_bits(b)).to_bits(),
        FloatOp::OfInteger(i) => (i as f64).to_bits(),
        FloatOp::OfCount(n) => (n as f64).to_bits(),
        FloatOp::ToInteger(a) => (f64::from_bits(a) as i64) as u64,
    }
}

fn float(value: f64) -> EngineValue {
    EngineValue::Float(value.to_bits())
}

fn eq_pred(table: &str, column_index: usize, value: EngineValue) -> QualifiedPredicate {
    QualifiedPredicate::Equals(
        QualifiedOperand::Column(QualifiedColumn {
            table: table.into(),
            column_index,
        }),
        QualifiedOperand::Value(value),
    )
}

fn uuid(id: u128) -> EngineValue {
    EngineValue::Uuid(*Uuid::from_u128(id).as_bytes())
}

#[test]
fn insert_and_select_from_table() {
    let store: InMemoryNamedBTree<EngineKey, EngineRow> = InMemoryNamedBTree::new();
    let mut database = EngineDatabase::new(store, float_unit);
    let schema = TableSchema {
        name: "users".into(),
        columns: vec![
            ColumnSchema {
                name: "id".into(),
                data_type: EngineType::Uuid,
            },
            ColumnSchema {
                name: "name".into(),
                data_type: EngineType::Text,
            },
        ],
        primary_key: vec![0],
    };

    database
        .register_table(schema)
        .expect("register users table");

    database
        .execute(&EngineQuery::Insert {
            table: "users".into(),
            row: vec![uuid(1), EngineValue::Text("Alice".into())],
        })
        .expect("execute insert query");

    let result = database
        .execute(&EngineQuery::select_simple(
            "users".into(),
            vec![1],
            Some(eq_pred("users", 0, uuid(1))),
        ))
        .expect("execute select query");

    assert_eq!(result.rows.len(), 1);
    assert_eq!(result.rows[0], vec![EngineValue::Text("Alice".into())]);
}

#[test]
fn insert_and_select_float_value() {
    let store: InMemoryNamedBTree<EngineKey, EngineRow> = InMemoryNamedBTree::new();
    let mut database = EngineDatabase::new(store, float_unit);
    let schema = TableSchema {
        name: "measurements".into(),
        columns: vec![
            ColumnSchema {
                name: "id".into(),
                data_type: EngineType::Uuid,
            },
            ColumnSchema {
                name: "value".into(),
                data_type: EngineType::Float,
            },
        ],
        primary_key: vec![0],
    };

    database
        .register_table(schema)
        .expect("register measurements table");

    database
        .execute(&EngineQuery::Insert {
            table: "measurements".into(),
            row: vec![uuid(1), float(1.23)],
        })
        .expect("execute insert query");

    let result = database
        .execute(&EngineQuery::select_simple(
            "measurements".into(),
            vec![1],
            Some(eq_pred("measurements", 0, uuid(1))),
        ))
        .expect("execute select query");

    assert_eq!(result.rows, vec![vec![float(1.23)]]);
}

#[test]
fn insert_and_select_blob_value() {
    let store: InMemoryNamedBTree<EngineKey, EngineRow> = InMemoryNamedBTree::new();
    let mut database = EngineDatabase::new(store, float_unit);
    let schema = TableSchema {
        name: "files".into(),
        columns: vec![
            ColumnSchema {
                name: "id".into(),
                data_type: EngineType::Uuid,
            },
            ColumnSchema {
                name: "data".into(),
                data_type: EngineType::Blob,
            },
        ],
        primary_key: vec![0],
    };

    let blob = vec![0xde, 0xad, 0xbe, 0xef];

    database
        .register_table(schema)
        .expect("register files table");

    database
        .execute(&EngineQuery::Insert {
            table: "files".into(),
            row: vec![uuid(1), EngineValue::Blob(blob.clone())],
        })
        .expect("execute insert query");

    let result = database
        .execute(&EngineQuery::select_simple(
            "files".into(),
            vec![1],
            Some(eq_pred("files", 0, uuid(1))),
        ))
        .expect("execute select query");

    assert_eq!(result.rows, vec![vec![EngineValue::Blob(blob)]]);
}

#[test]
fn select_uses_index_when_available() {
    let store: InMemoryNamedBTree<EngineKey, EngineRow> = InMemoryNamedBTree::new();
    let mut database = EngineDatabase::new(store, float_unit);
    let users = TableSchema {
        name: "users".into(),
        columns: vec![
            ColumnSchema {
                name: "id".into(),
                data_type: EngineType::Uuid,
            },
            ColumnSchema {
                name: "name".into(),
                data_type: EngineType::Text,
            },
        ],
        primary_key: vec![0],
    };

    database
        .register_table(users)
        .expect("register users table");

    database
        .register_index(IndexSchema {
            name: "users_name_idx".into(),
            table_name: "users".into(),
            column_indices: vec![1],
            unique: true,
        })
        .expect("register users_name_idx index");

    database
        .execute(&EngineQuery::Insert {
            table: "users".into(),
            row: vec![uuid(1), EngineValue::Text("Alice".into())],
        })
        .expect("execute first insert query");

    database
        .execute(&EngineQuery::Insert {
            table: "users".into(),
            row: vec![uuid(2), EngineValue::Text("Bob".into())],
        })
        .expect("execute second insert query");

    let result = database
        .execute(&EngineQuery::select_simple(
            "users".into(),
            vec![0, 1],
            Some(eq_pred("users", 1, EngineValue::Text("Bob".into()))),
        ))
        .expect("execute select query");

    assert_eq!(
        result.rows,
        vec![vec![uuid(2), EngineValue::Text("Bob".into())]]
    );
}

#[test]
fn inner_join_simple() {
    let store: InMemoryNamedBTree<EngineKey, EngineRow> = InMemoryNamedBTree::new();
    let mut db = EngineDatabase::new(store, float_unit);

    let users = TableSchema {
        name: "users".into(),
        columns: vec![
            ColumnSchema {
                name: "id".into(),
                data_type: EngineType::Uuid,
            },
            ColumnSchema {
                name: "name".into(),
                data_type: EngineType::Text,
            },
        ],
        primary_key: vec![0],
    };

    let orders = TableSchema {
        name: "orders".into(),
        columns: vec![
            ColumnSchema {
                name: "id".into(),
                data_type: EngineType::Uuid,
            },
            ColumnSchema {
                name: "user_id".into(),
                data_type: EngineType::Uuid,
            },
            ColumnSchema {
                name: "amount".into(),
                data_type: EngineType::Integer,
            },
        ],
        primary_key: vec![0],
    };

    db.register_table(users).expect("register users");
    db.register_table(orders).expect("register orders");

    // Insert users
    db.execute(&EngineQuery::Insert {
        table: "users".into(),
        row: vec![uuid(1), EngineValue::Text("Alice".into())],
    })
    .expect("insert user 1");

    db.execute(&EngineQuery::Insert {
        table: "users".into(),
        row: vec![uuid(2), EngineValue::Text("Bob".into())],
    })
    .expect("insert user 2");

    // Insert orders
    db.execute(&EngineQuery::Insert {
        table: "orders".into(),
        row: vec![uuid(1), uuid(1), EngineValue::Integer(100)],
    })
    .expect("insert order 1");

    db.execute(&EngineQuery::Insert {
        table: "orders".into(),
        row: vec![uuid(2), uuid(2), EngineValue::Integer(200)],
    })
    .expect("insert order 2");

    db.execute(&EngineQuery::Insert {
        table: "orders".into(),
        row: vec![uuid(3), uuid(1), EngineValue::Integer(50)],
    })
    .expect("insert order 3");

    let left_col = QualifiedColumn {
        table: "users".into(),
        column_index: 0,
    };
    let right_col = QualifiedColumn {
        table: "orders".into(),
        column_index: 1,
    };

    let join = JoinClause {
        kind: JoinKind::Inner,
        left_table: "users".into(),
        right_table: "orders".into(),
        on: JoinOn::ColumnEq {
            left: left_col.clone(),
            right: right_col.clone(),
        },
    };

    let projection = vec![
        QualifiedColumn {
            table: "users".into(),
            column_index: 1,
        }, // name
        QualifiedColumn {
            table: "orders".into(),
            column_index: 2,
        }, // amount
    ];

    let options = SelectOptions {
        joins: vec![join],
        aggregates: vec![],
        group_by: vec![],
        order_by: vec![],
        limit: None,
        offset: None,
        distinct: false,
        having: None,
    };

    let res = db
        .execute(&EngineQuery::Select {
            table: "users".into(),
            projection,
            predicate: None,
            options: Box::new(options),
        })
        .expect("execute join");

    // Expect 3 joined rows: Alice (100), Alice (50), Bob (200)
    assert_eq!(res.rows.len(), 3);
}

#[test]
fn group_by_count_and_sum() {
    let store: InMemoryNamedBTree<EngineKey, EngineRow> = InMemoryNamedBTree::new();
    let mut db = EngineDatabase::new(store, float_unit);

    let users = TableSchema {
        name: "users".into(),
        columns: vec![
            ColumnSchema {
                name: "id".into(),
                data_type: EngineType::Uuid,
            },
            ColumnSchema {
                name: "name".into(),
                data_type: EngineType::Text,
            },
        ],
        primary_key: vec![0],
    };

    let orders = TableSchema {
        name: "orders".into(),
        columns: vec![
            ColumnSchema {
                name: "id".into(),
                data_type: EngineType::Uuid,
            },
            ColumnSchema {
                name: "user_id".into(),
                data_type: EngineType::Uuid,
            },
            ColumnSchema {
                name: "amount".into(),
                data_type: EngineType::Integer,
            },
        ],
        primary_key: vec![0],
    };

    db.register_table(users).expect("register users");
    db.register_table(orders).expect("register orders");

    // Insert users
    db.execute(&EngineQuery::Insert {
        table: "users".into(),
        row: vec![uuid(1), EngineValue::Text("Alice".into())],
    })
    .expect("insert user 1");

    db.execute(&EngineQuery::Insert {
        table: "users".into(),
        row: vec![uuid(2), EngineValue::Text("Bob".into())],
    })
    .expect("insert user 2");

    // Insert orders
    db.execute(&EngineQuery::Insert {
        table: "orders".into(),
        row: vec![uuid(1), uuid(1), EngineValue::Integer(100)],
    })
    .expect("insert order 1");

    db.execute(&EngineQuery::Insert {
        table: "orders".into(),
        row: vec![uuid(2), uuid(2), EngineValue::Integer(200)],
    })
    .expect("insert order 2");

    db.execute(&EngineQuery::Insert {
        table: "orders".into(),
        row: vec![uuid(3), uuid(1), EngineValue::Integer(50)],
    })
    .expect("insert order 3");

    let left_col = QualifiedColumn {
        table: "users".into(),
        column_index: 0,
    };
    let right_col = QualifiedColumn {
        table: "orders".into(),
        column_index: 1,
    };

    let join = JoinClause {
        kind: JoinKind::Inner,
        left_table: "users".into(),
        right_table: "orders".into(),
        on: JoinOn::ColumnEq {
            left: left_col.clone(),
            right: right_col.clone(),
        },
    };

    let group_by = vec![QualifiedColumn {
        table: "users".into(),
        column_index: 1,
    }];

    let aggregates = vec![
        Aggregate::Count(None),
        Aggregate::Sum(QualifiedColumn {
            table: "orders".into(),
            column_index: 2,
        }),
    ];

    let options = SelectOptions {
        joins: vec![join],
        aggregates,
        group_by,
        order_by: vec![],
        limit: None,
        offset: None,
        distinct: false,
        having: None,
    };

    let res = db
        .execute(&EngineQuery::Select {
            table: "users".into(),
            projection: vec![],
            predicate: None,
            options: Box::new(options),
        })
        .expect("execute grouped join");

    // Expect 2 groups: Alice (count 2, sum 150), Bob (count 1, sum 200)
    assert_eq!(res.rows.len(), 2);

    for row in res.rows {
        if row[0] == EngineValue::Text("Alice".into()) {
            // count then sum
            match &row[1] {
                EngineValue::Integer(c) => assert_eq!(*c, 2),
                _ => panic!("expected count integer"),
            }
            match &row[2] {
                EngineValue::Float(s) => assert!((f64::from_bits(*s) - 150.0).abs() < f64::EPSILON),
                EngineValue::Integer(i) => assert_eq!(*i, 150),
                _ => panic!("expected sum numeric"),
            }
        } else if row[0] == EngineValue::Text("Bob".into()) {
            match &row[1] {
                EngineValue::Integer(c) => assert_eq!(*c, 1),
                _ => panic!("expected count integer"),
            }
            match &row[2] {
                EngineValue::Float(s) => assert!((f64::from_bits(*s) - 200.0).abs() < f64::EPSILON),
                EngineValue::Integer(i) => assert_eq!(*i, 200),
                _ => panic!("expected sum numeric"),
            }
        } else {
            panic!("unexpected group key: {:?}", row[0]);
        }
    }
}

#[test]
fn order_by_and_limit() {
    let store: InMemoryNamedBTree<EngineKey, EngineRow> = InMemoryNamedBTree::new();
    let mut db = EngineDatabase::new(store, float_unit);

    let users = TableSchema {
        name: "users".into(),
        columns: vec![
            ColumnSchema {
                name: "id".into(),
                data_type: EngineType::Uuid,
            },
            ColumnSchema {
                name: "name".into(),
                data_type: EngineType::Text,
            },
        ],
        primary_key: vec![0],
    };

    let orders = TableSchema {
        name: "orders".into(),
        columns: vec![
            ColumnSchema {
                name: "id".into(),
                data_type: EngineType::Uuid,
            },
            ColumnSchema {
                name: "user_id".into(),
                data_type: EngineType::Uuid,
            },
            ColumnSchema {
                name: "amount".into(),
                data_type: EngineType::Integer,
            },
        ],
        primary_key: vec![0],
    };

    db.register_table(users).expect("register users");
    db.register_table(orders).expect("register orders");

    db.execute(&EngineQuery::Insert {
        table: "users".into(),
        row: vec![uuid(1), EngineValue::Text("Alice".into())],
    })
    .expect("insert user 1");
    db.execute(&EngineQuery::Insert {
        table: "users".into(),
        row: vec![uuid(2), EngineValue::Text("Bob".into())],
    })
    .expect("insert user 2");

    db.execute(&EngineQuery::Insert {
        table: "orders".into(),
        row: vec![uuid(1), uuid(1), EngineValue::Integer(100)],
    })
    .expect("insert order 1");
    db.execute(&EngineQuery::Insert {
        table: "orders".into(),
        row: vec![uuid(2), uuid(2), EngineValue::Integer(200)],
    })
    .expect("insert order 2");
    db.execute(&EngineQuery::Insert {
        table: "orders".into(),
        row: vec![uuid(3), uuid(1), EngineValue::Integer(50)],
    })
    .expect("insert order 3");

    let left_col = QualifiedColumn {
        table: "users".into(),
        column_index: 0,
    };
    let right_col = QualifiedColumn {
        table: "orders".into(),
        column_index: 1,
    };

    let join = JoinClause {
        kind: JoinKind::Inner,
        left_table: "users".into(),
        right_table: "orders".into(),
        on: JoinOn::ColumnEq {
            left: left_col.clone(),
            right: right_col.clone(),
        },
    };

    let projection = vec![
        QualifiedColumn {
            table: "users".into(),
            column_index: 1,
        },
        QualifiedColumn {
            table: "orders".into(),
            column_index: 2,
        },
    ];

    let order_by = vec![OrderBy {
        expr: QualifiedColumn {
            table: "orders".into(),
            column_index: 2,
        },
        direction: SortDirection::Desc,
    }];

    let options = SelectOptions {
        joins: vec![join],
        aggregates: vec![],
        group_by: vec![],
        order_by,
        limit: Some(2),
        offset: Some(0),
        distinct: false,
        having: None,
    };

    let res = db
        .execute(&EngineQuery::Select {
            table: "users".into(),
            projection,
            predicate: None,
            options: Box::new(options),
        })
        .expect("execute ordered join");

    // With ORDER BY amount DESC and LIMIT 2, expect amounts [200,100]
    assert_eq!(res.rows.len(), 2);
    match &res.rows[0][1] {
        EngineValue::Integer(i) => assert_eq!(*i, 200),
        _ => panic!("expected integer amount"),
    }
    match &res.rows[1][1] {
        EngineValue::Integer(i) => assert_eq!(*i, 100),
        _ => panic!("expected integer amount"),
    }
}

#[test]
fn left_join_simple() {
    let store: InMemoryNamedBTree<EngineKey, EngineRow> = InMemoryNamedBTree::new();
    let mut db = EngineDatabase::new(store, float_unit);

    let users = TableSchema {
        name: "users".into(),
        columns: vec![
            ColumnSchema {
                name: "id".into(),
                data_type: EngineType::Uuid,
            },
            ColumnSchema {
                name: "name".into(),
                data_type: EngineType::Text,
            },
        ],
        primary_key: vec![0],
    };

    let orders = TableSchema {
        name: "orders".into(),
        columns: vec![
            ColumnSchema {
                name: "id".into(),
                data_type: EngineType::Uuid,
            },
            ColumnSchema {
                name: "user_id".into(),
                data_type: EngineType::Uuid,
            },
            ColumnSchema {
                name: "amount".into(),
                data_type: EngineType::Integer,
            },
        ],
        primary_key: vec![0],
    };

    db.register_table(users).expect("register users");
    db.register_table(orders).expect("register orders");

    // Insert users: include a user with no orders
    db.execute(&EngineQuery::Insert {
        table: "users".into(),
        row: vec![uuid(1), EngineValue::Text("Alice".into())],
    })
    .expect("insert user 1");
    db.execute(&EngineQuery::Insert {
        table: "users".into(),
        row: vec![uuid(2), EngineValue::Text("Bob".into())],
    })
    .expect("insert user 2");
    db.execute(&EngineQuery::Insert {
        table: "users".into(),
        row: vec![uuid(3), EngineValue::Text("Charlie".into())],
    })
    .expect("insert user 3");

    // Insert orders for Alice and Bob only
    db.execute(&EngineQuery::Insert {
        table: "orders".into(),
        row: vec![uuid(1), uuid(1), EngineValue::Integer(100)],
    })
    .expect("insert order 1");
    db.execute(&EngineQuery::Insert {
        table: "orders".into(),
        row: vec![uuid(2), uuid(2), EngineValue::Integer(200)],
    })
    .expect("insert order 2");

    let left_col = QualifiedColumn {
        table: "users".into(),
        column_index: 0,
    };
    let right_col = QualifiedColumn {
        table: "orders".into(),
        column_index: 1,
    };

    let join = JoinClause {
        kind: JoinKind::Left,
        left_table: "users".into(),
        right_table: "orders".into(),
        on: JoinOn::ColumnEq {
            left: left_col.clone(),
            right: right_col.clone(),
        },
    };

    let projection = vec![
        QualifiedColumn {
            table: "users".into(),
            column_index: 1,
        },
        QualifiedColumn {
            table: "orders".into(),
            column_index: 2,
        },
    ];

    let options = SelectOptions {
        joins: vec![join],
        aggregates: vec![],
        group_by: vec![],
        order_by: vec![],
        limit: None,
        offset: None,
        distinct: false,
        having: None,
    };

    let res = db
        .execute(&EngineQuery::Select {
            table: "users".into(),
            projection,
            predicate: None,
            options: Box::new(options),
        })
        .expect("execute left join");

    // Expect 3 rows, Charlie's order amount should be NULL
    assert_eq!(res.rows.len(), 3);
    let mut found_charlie = false;
    for row in res.rows {
        if row[0] == EngineValue::Text("Charlie".into()) {
            found_charlie = true;
            assert!(matches!(row[1], EngineValue::Null));
        }
    }
    assert!(found_charlie);
}

#[test]
fn right_join_simple() {
    let store: InMemoryNamedBTree<EngineKey, EngineRow> = InMemoryNamedBTree::new();
    let mut db = EngineDatabase::new(store, float_unit);

    let users = TableSchema {
        name: "users".into(),
        columns: vec![
            ColumnSchema {
                name: "id".into(),
                data_type: EngineType::Uuid,
            },
            ColumnSchema {
                name: "name".into(),
                data_type: EngineType::Text,
            },
        ],
        primary_key: vec![0],
    };
    let orders = TableSchema {
        name: "orders".into(),
        columns: vec![
            ColumnSchema {
                name: "id".into(),
                data_type: EngineType::Uuid,
            },
            ColumnSchema {
                name: "user_id".into(),
                data_type: EngineType::Uuid,
            },
            ColumnSchema {
                name: "amount".into(),
                data_type: EngineType::Integer,
            },
        ],
        primary_key: vec![0],
    };

    db.register_table(users).expect("register users");
    db.register_table(orders).expect("register orders");

    // Insert a user and an order that references a missing user
    db.execute(&EngineQuery::Insert {
        table: "users".into(),
        row: vec![uuid(1), EngineValue::Text("Alice".into())],
    })
    .expect("insert user 1");
    db.execute(&EngineQuery::Insert {
        table: "orders".into(),
        row: vec![uuid(1), uuid(999), EngineValue::Integer(55)],
    })
    .expect("insert order missing user");

    let left_col = QualifiedColumn {
        table: "users".into(),
        column_index: 0,
    };
    let right_col = QualifiedColumn {
        table: "orders".into(),
        column_index: 1,
    };

    let join = JoinClause {
        kind: JoinKind::Right,
        left_table: "users".into(),
        right_table: "orders".into(),
        on: JoinOn::ColumnEq {
            left: left_col.clone(),
            right: right_col.clone(),
        },
    };

    let projection = vec![
        QualifiedColumn {
            table: "users".into(),
            column_index: 1,
        },
        QualifiedColumn {
            table: "orders".into(),
            column_index: 2,
        },
    ];

    let options = SelectOptions {
        joins: vec![join],
        aggregates: vec![],
        group_by: vec![],
        order_by: vec![],
        limit: None,
        offset: None,
        distinct: false,
        having: None,
    };

    let res = db
        .execute(&EngineQuery::Select {
            table: "users".into(),
            projection,
            predicate: None,
            options: Box::new(options),
        })
        .expect("execute right join");

    // Expect 1 row where user is NULL and amount == 55
    assert_eq!(res.rows.len(), 1);
    assert!(matches!(res.rows[0][0], EngineValue::Null));
    match &res.rows[0][1] {
        EngineValue::Integer(i) => assert_eq!(*i, 55),
        _ => panic!("expected integer amount"),
    }
}

#[test]
fn full_join_simple() {
    let store: InMemoryNamedBTree<EngineKey, EngineRow> = InMemoryNamedBTree::new();
    let mut db = EngineDatabase::new(store, float_unit);

    let users = TableSchema {
        name: "users".into(),
        columns: vec![
            ColumnSchema {
                name: "id".into(),
                data_type: EngineType::Uuid,
            },
            ColumnSchema {
                name: "name".into(),
                data_type: EngineType::Text,
            },
        ],
        primary_key: vec![0],
    };
    let orders = TableSchema {
        name: "orders".into(),
        columns: vec![
            ColumnSchema {
                name: "id".into(),
                data_type: EngineType::Uuid,
            },
            ColumnSchema {
                name: "user_id".into(),
                data_type: EngineType::Uuid,
            },
            ColumnSchema {
                name: "amount".into(),
                data_type: EngineType::Integer,
            },
        ],
        primary_key: vec![0],
    };

    db.register_table(users).expect("register users");
    db.register_table(orders).expect("register orders");

    // user 1 exists, user 2 has no orders; order 3 references missing user 3
    db.execute(&EngineQuery::Insert {
        table: "users".into(),
        row: vec![uuid(1), EngineValue::Text("Alice".into())],
    })
    .expect("insert user 1");
    db.execute(&EngineQuery::Insert {
        table: "users".into(),
        row: vec![uuid(2), EngineValue::Text("Bob".into())],
    })
    .expect("insert user 2");

    db.execute(&EngineQuery::Insert {
        table: "orders".into(),
        row: vec![uuid(1), uuid(1), EngineValue::Integer(100)],
    })
    .expect("insert order 1");
    db.execute(&EngineQuery::Insert {
        table: "orders".into(),
        row: vec![uuid(2), uuid(3), EngineValue::Integer(55)],
    })
    .expect("insert order missing user");

    let left_col = QualifiedColumn {
        table: "users".into(),
        column_index: 0,
    };
    let right_col = QualifiedColumn {
        table: "orders".into(),
        column_index: 1,
    };

    let join = JoinClause {
        kind: JoinKind::Full,
        left_table: "users".into(),
        right_table: "orders".into(),
        on: JoinOn::ColumnEq {
            left: left_col.clone(),
            right: right_col.clone(),
        },
    };

    let projection = vec![
        QualifiedColumn {
            table: "users".into(),
            column_index: 1,
        },
        QualifiedColumn {
            table: "orders".into(),
            column_index: 2,
        },
    ];

    let options = SelectOptions {
        joins: vec![join],
        aggregates: vec![],
        group_by: vec![],
        order_by: vec![],
        limit: None,
        offset: None,
        distinct: false,
        having: None,
    };

    let res = db
        .execute(&EngineQuery::Select {
            table: "users".into(),
            projection,
            predicate: None,
            options: Box::new(options),
        })
        .expect("execute full join");

    // Expect 3 rows: Alice with 100, Bob with NULL, NULL with 55
    assert_eq!(res.rows.len(), 3);
}

#[test]
fn multiple_joins_chain() {
    let store: InMemoryNamedBTree<EngineKey, EngineRow> = InMemoryNamedBTree::new();
    let mut db = EngineDatabase::new(store, float_unit);

    let users = TableSchema {
        name: "users".into(),
        columns: vec![
            ColumnSchema {
                name: "id".into(),
                data_type: EngineType::Uuid,
            },
            ColumnSchema {
                name: "name".into(),
                data_type: EngineType::Text,
            },
        ],
        primary_key: vec![0],
    };
    let orders = TableSchema {
        name: "orders".into(),
        columns: vec![
            ColumnSchema {
                name: "id".into(),
                data_type: EngineType::Uuid,
            },
            ColumnSchema {
                name: "user_id".into(),
                data_type: EngineType::Uuid,
            },
            ColumnSchema {
                name: "product_id".into(),
                data_type: EngineType::Uuid,
            },
            ColumnSchema {
                name: "amount".into(),
                data_type: EngineType::Integer,
            },
        ],
        primary_key: vec![0],
    };
    let products = TableSchema {
        name: "products".into(),
        columns: vec![
            ColumnSchema {
                name: "id".into(),
                data_type: EngineType::Uuid,
            },
            ColumnSchema {
                name: "title".into(),
                data_type: EngineType::Text,
            },
        ],
        primary_key: vec![0],
    };

    db.register_table(users).expect("register users");
    db.register_table(orders).expect("register orders");
    db.register_table(products)
        .expect("register products");

    db.execute(&EngineQuery::Insert {
        table: "users".into(),
        row: vec![uuid(1), EngineValue::Text("Alice".into())],
    })
    .expect("insert user");
    db.execute(&EngineQuery::Insert {
        table: "products".into(),
        row: vec![uuid(10), EngineValue::Text("Gadget".into())],
    })
    .expect("insert product");
    db.execute(&EngineQuery::Insert {
        table: "orders".into(),
        row: vec![uuid(1), uuid(1), uuid(10), EngineValue::Integer(99)],
    })
    .expect("insert order");

    // Join users -> orders, then orders -> products
    let u_id = QualifiedColumn {
        table: "users".into(),
        column_index: 0,
    };
    let o_user = QualifiedColumn {
        table: "orders".into(),
        column_index: 1,
    };
    let o_prod = QualifiedColumn {
        table: "orders".into(),
        column_index: 2,
    };
    let p_id = QualifiedColumn {
        table: "products".into(),
        column_index: 0,
    };

    let join1 = JoinClause {
        kind: JoinKind::Inner,
        left_table: "users".into(),
        right_table: "orders".into(),
        on: JoinOn::ColumnEq {
            left: u_id.clone(),
            right: o_user.clone(),
        },
    };
    let join2 = JoinClause {
        kind: JoinKind::Inner,
        left_table: "orders".into(),
        right_table: "products".into(),
        on: JoinOn::ColumnEq {
            left: o_prod.clone(),
            right: p_id.clone(),
        },
    };

    let projection = vec![
        QualifiedColumn {
            table: "users".into(),
            column_index: 1,
        },
        QualifiedColumn {
            table: "orders".into(),
            column_index: 3,
        },
        QualifiedColumn {
            table: "products".into(),
            column_index: 1,
        },
    ];

    let options = SelectOptions {
        joins: vec![join1, join2],
        aggregates: vec![],
        group_by: vec![],
        order_by: vec![],
        limit: None,
        offset: None,
        distinct: false,
        having: None,
    };

    let res = db
        .execute(&EngineQuery::Select {
            table: "users".into(),
            projection,
            predicate: None,
            options: Box::new(options),
        })
        .expect("execute multi-join");

    assert_eq!(res.rows.len(), 1);
}

#[test]
fn reopen_database_recovers_schema_from_store() {
    let store: InMemoryNamedBTree<EngineKey, EngineRow> = InMemoryNamedBTree::new();
    let mut database = EngineDatabase::new(store, float_unit);
    let users = TableSchema {
        name: "users".into(),
        columns: vec![
            ColumnSchema {
                name: "id".into(),
                data_type: EngineType::Uuid,
            },
            ColumnSchema {
                name: "name".into(),
                data_type: EngineType::Text,
            },
        ],
        primary_key: vec![0],
    };

    database
        .register_table(users)
        .expect("register users table");
    database
        .register_index(IndexSchema {
            name: "users_name_idx".into(),
            table_name: "users".into(),
            column_indices: vec![1],
            unique: true,
        })
        .expect("register users_name_idx index");

    database
        .execute(&EngineQuery::Insert {
            table: "users".into(),
            row: vec![uuid(1), EngineValue::Text("Bob".into())],
        })
        .expect("execute insert query");

    let mut reopened = EngineDatabase::open(database.kernel.store, float_unit)
        .expect("open database from store");
    let result = reopened
        .execute(&EngineQuery::select_simple(
            "users".into(),
            vec![0, 1],
            Some(eq_pred("users", 1, EngineValue::Text("Bob".into()))),
        ))
        .expect("execute select query");

    assert_eq!(
        result.rows,
        vec![vec![uuid(1), EngineValue::Text("Bob".into())]],
    );
}

#[test]
fn update_row_and_maintain_indexes() {
    let store: InMemoryNamedBTree<EngineKey, EngineRow> = InMemoryNamedBTree::new();
    let mut database = EngineDatabase::new(store, float_unit);
    let users = TableSchema {
        name: "users".into(),
        columns: vec![
            ColumnSchema {
                name: "id".into(),
                data_type: EngineType::Uuid,
            },
            ColumnSchema {
                name: "name".into(),
                data_type: EngineType::Text,
            },
        ],
        primary_key: vec![0],
    };

    database
        .register_table(users)
        .expect("register users table");
    database
        .register_index(IndexSchema {
            name: "users_name_idx".into(),
            table_name: "users".into(),
            column_indices: vec![1],
            unique: true,
        })
        .expect("register users_name_idx index");

    database
        .execute(&EngineQuery::Insert {
            table: "users".into(),
            row: vec![uuid(1), EngineValue::Text("Alice".into())],
        })
        .expect("insert first row");
    database
        .execute(&EngineQuery::Insert {
            table: "users".into(),
            row: vec![uuid(2), EngineValue::Text("Bob".into())],
        })
        .expect("insert second row");

    database
        .execute(&EngineQuery::Update {
            table: "users".into(),
            assignments: vec![UpdateAssignment::value(
                1,
                EngineValue::Text("Robert".into()),
            )],
            predicate: Some(eq_pred("users", 0, uuid(2))),
            joins: Vec::new(),
            from_tables: Vec::new(),
            returning: None,
        })
        .expect("update row");

    let result = database
        .execute(&EngineQuery::select_simple(
            "users".into(),
            vec![0, 1],
            Some(eq_pred("users", 1, EngineValue::Text("Robert".into()))),
        ))
        .expect("select updated row");

    assert_eq!(
        result.rows,
        vec![vec![uuid(2), EngineValue::Text("Robert".into())]],
    );

    let stale_result = database
        .execute(&EngineQuery::select_simple(
            "users".into(),
            vec![0, 1],
            Some(eq_pred("users", 1, EngineValue::Text("Bob".into()))),
        ))
        .expect("select stale indexed row");

    assert!(stale_result.rows.is_empty());
}

#[test]
fn unique_index_violates_on_update() {
    let store: InMemoryNamedBTree<EngineKey, EngineRow> = InMemoryNamedBTree::new();
    let mut database = EngineDatabase::new(store, float_unit);
    let users = TableSchema {
        name: "users".into(),
        columns: vec![
            ColumnSchema {
                name: "id".into(),
                data_type: EngineType::Uuid,
            },
            ColumnSchema {
                name: "name".into(),
                data_type: EngineType::Text,
            },
        ],
        primary_key: vec![0],
    };

    database
        .register_table(users)
        .expect("register users table");
    database
        .register_index(IndexSchema {
            name: "users_name_idx".into(),
            table_name: "users".into(),
            column_indices: vec![1],
            unique: true,
        })
        .expect("register users_name_idx index");

    database
        .execute(&EngineQuery::Insert {
            table: "users".into(),
            row: vec![uuid(1), EngineValue::Text("Alice".into())],
        })
        .expect("insert first row");
    database
        .execute(&EngineQuery::Insert {
            table: "users".into(),
            row: vec![uuid(2), EngineValue::Text("Bob".into())],
        })
        .expect("insert second row");

    let error = database
        .execute(&EngineQuery::Update {
            table: "users".into(),
            assignments: vec![UpdateAssignment::value(
                1,
                EngineValue::Text("Alice".into()),
            )],
            predicate: Some(eq_pred("users", 0, uuid(2))),
            joins: Vec::new(),
            from_tables: Vec::new(),
            returning: None,
        })
        .expect_err("update duplicate unique index row");

    assert!(matches!(error, EngineError::UniqueIndexViolation(name) if name == "users_name_idx"));

    let unchanged = database
        .execute(&EngineQuery::select_simple("users".into(), vec![0, 1], None))
        .expect("select unchanged rows after failed update");

    assert_eq!(
        unchanged.rows,
        vec![
            vec![uuid(1), EngineValue::Text("Alice".into())],
            vec![uuid(2), EngineValue::Text("Bob".into())],
        ],
    );
}

#[test]
fn delete_rows_with_predicate() {
    let store: InMemoryNamedBTree<EngineKey, EngineRow> = InMemoryNamedBTree::new();
    let mut database = EngineDatabase::new(store, float_unit);
    let users = TableSchema {
        name: "users".into(),
        columns: vec![
            ColumnSchema {
                name: "id".into(),
                data_type: EngineType::Uuid,
            },
            ColumnSchema {
                name: "name".into(),
                data_type: EngineType::Text,
            },
        ],
        primary_key: vec![0],
    };

    database
        .register_table(users)
        .expect("register users table");

    database
        .execute(&EngineQuery::Insert {
            table: "users".into(),
            row: vec![uuid(1), EngineValue::Text("Alice".into())],
        })
        .expect("insert first row");
    database
        .execute(&EngineQuery::Insert {
            table: "users".into(),
            row: vec![uuid(2), EngineValue::Text("Bob".into())],
        })
        .expect("insert second row");

    database
        .execute(&EngineQuery::Delete {
            table: "users".into(),
            predicate: Some(eq_pred("users", 0, uuid(1))),
            returning: None,
        })
        .expect("delete first row");

    let result = database
        .execute(&EngineQuery::select_simple("users".into(), vec![0, 1], None))
        .expect("select remaining rows");

    assert_eq!(
        result.rows,
        vec![vec![uuid(2), EngineValue::Text("Bob".into())]]
    );
}

#[test]
fn update_row_with_expression_assignment() {
    let store: InMemoryNamedBTree<EngineKey, EngineRow> = InMemoryNamedBTree::new();
    let mut database = EngineDatabase::new(store, float_unit);
    let users = TableSchema {
        name: "users".into(),
        columns: vec![
            ColumnSchema {
                name: "id".into(),
                data_type: EngineType::Uuid,
            },
            ColumnSchema {
                name: "score".into(),
                data_type: EngineType::Integer,
            },
        ],
        primary_key: vec![0],
    };

    database
        .register_table(users)
        .expect("register users table");

    database
        .execute(&EngineQuery::Insert {
            table: "users".into(),
            row: vec![uuid(1), EngineValue::Integer(10)],
        })
        .expect("insert row");

    database
        .execute(&EngineQuery::Update {
            table: "users".into(),
            assignments: vec![UpdateAssignment {
                column_index: 1,
                value: UpdateValueExpr::Add(
                    Box::new(UpdateValueExpr::Column(QualifiedColumn {
                        table: "users".into(),
                        column_index: 1,
                    })),
                    Box::new(UpdateValueExpr::Value(EngineValue::Integer(5))),
                ),
            }],
            predicate: Some(eq_pred("users", 0, uuid(1))),
            joins: Vec::new(),
            from_tables: Vec::new(),
            returning: None,
        })
        .expect("update row with expression");

    let result = database
        .execute(&EngineQuery::select_simple("users".into(), vec![0, 1], None))
        .expect("select row");

    assert_eq!(result.rows, vec![vec![uuid(1), EngineValue::Integer(15)]],);
}

#[test]
fn update_division_by_zero_rolls_back_changes() {
    let store: InMemoryNamedBTree<EngineKey, EngineRow> = InMemoryNamedBTree::new();
    let mut database = EngineDatabase::new(store, float_unit);
    let users = TableSchema {
        name: "users".into(),
        columns: vec![
            ColumnSchema {
                name: "id".into(),
                data_type: EngineType::Uuid,
            },
            ColumnSchema {
                name: "score".into(),
                data_type: EngineType::Integer,
            },
        ],
        primary_key: vec![0],
    };

    database
        .register_table(users)
        .expect("register users table");

    database
        .execute(&EngineQuery::Insert {
            table: "users".into(),
            row: vec![uuid(1), EngineValue::Integer(10)],
        })
        .expect("insert row");

    let error = database
        .execute(&EngineQuery::Update {
            table: "users".into(),
            assignments: vec![UpdateAssignment {
                column_index: 1,
                value: UpdateValueExpr::Divide(
                    Box::new(UpdateValueExpr::Column(QualifiedColumn {
                        table: "users".into(),
                        column_index: 1,
                    })),
                    Box::new(UpdateValueExpr::Value(EngineValue::Integer(0))),
                ),
            }],
            predicate: Some(eq_pred("users", 0, uuid(1))),
            joins: Vec::new(),
            from_tables: Vec::new(),
            returning: None,
        })
        .expect_err("division by zero should fail update");

    assert!(
        matches!(error, EngineError::TypeMismatch(message) if message.contains("division by zero"))
    );

    let unchanged = database
        .execute(&EngineQuery::select_simple("users".into(), vec![0, 1], None))
        .expect("select unchanged row");

    assert_eq!(
        unchanged.rows,
        vec![vec![uuid(1), EngineValue::Integer(10)]],
    );
}

#[test]
fn multi_row_update_failure_rolls_back_partial_changes() {
    let store: InMemoryNamedBTree<EngineKey, EngineRow> = InMemoryNamedBTree::new();
    let mut database = EngineDatabase::new(store, float_unit);
    let users = TableSchema {
        name: "users".into(),
        columns: vec![
            ColumnSchema {
                name: "id".into(),
                data_type: EngineType::Uuid,
            },
            ColumnSchema {
                name: "score".into(),
                data_type: EngineType::Float,
            },
            ColumnSchema {
                name: "divisor".into(),
                data_type: EngineType::Float,
            },
        ],
        primary_key: vec![0],
    };

    database
        .register_table(users)
        .expect("register users table");

    database
        .execute(&EngineQuery::Insert {
            table: "users".into(),
            row: vec![uuid(1), float(10.0), float(2.0)],
        })
        .expect("insert first row");

    database
        .execute(&EngineQuery::Insert {
            table: "users".into(),
            row: vec![uuid(2), float(7.0), float(0.0)],
        })
        .expect("insert second row");

    let error = database
        .execute(&EngineQuery::Update {
            table: "users".into(),
            assignments: vec![UpdateAssignment {
                column_index: 1,
                value: UpdateValueExpr::Divide(
                    Box::new(UpdateValueExpr::Column(QualifiedColumn {
                        table: "users".into(),
                        column_index: 1,
                    })),
                    Box::new(UpdateValueExpr::Column(QualifiedColumn {
                        table: "users".into(),
                        column_index: 2,
                    })),
                ),
            }],
            predicate: None,
            joins: Vec::new(),
            from_tables: Vec::new(),
            returning: None,
        })
        .expect_err("division by zero should fail multi-row update");

    assert!(
        matches!(error, EngineError::TypeMismatch(message) if message.contains("division by zero"))
    );

    let unchanged = database
        .execute(&EngineQuery::select_simple(
            "users".into(),
            vec![0, 1, 2],
            None,
        ))
        .expect("select unchanged rows");

    assert_eq!(
        unchanged.rows,
        vec![
            vec![uuid(1), float(10.0), float(2.0),],
            vec![uuid(2), float(7.0), float(0.0),],
        ],
    );
}

#[test]
fn update_row_with_join_assignment_expression() {
    let store: InMemoryNamedBTree<EngineKey, EngineRow> = InMemoryNamedBTree::new();
    let mut database = EngineDatabase::new(store, float_unit);

    database
        .register_table(TableSchema {
            name: "users".into(),
            columns: vec![
                ColumnSchema {
                    name: "id".into(),
                    data_type: EngineType::Uuid,
                },
                ColumnSchema {
                    name: "team_id".into(),
                    data_type: EngineType::Uuid,
                },
                ColumnSchema {
                    name: "score".into(),
                    data_type: EngineType::Integer,
                },
            ],
            primary_key: vec![0],
        })
        .expect("register users table");

    database
        .register_table(TableSchema {
            name: "teams".into(),
            columns: vec![
                ColumnSchema {
                    name: "id".into(),
                    data_type: EngineType::Uuid,
                },
                ColumnSchema {
                    name: "bonus".into(),
                    data_type: EngineType::Integer,
                },
            ],
            primary_key: vec![0],
        })
        .expect("register teams table");

    database
        .execute(&EngineQuery::Insert {
            table: "users".into(),
            row: vec![uuid(1), uuid(10), EngineValue::Integer(5)],
        })
        .expect("insert user row");
    database
        .execute(&EngineQuery::Insert {
            table: "teams".into(),
            row: vec![uuid(10), EngineValue::Integer(3)],
        })
        .expect("insert team row");

    database
        .execute(&EngineQuery::Update {
            table: "users".into(),
            assignments: vec![UpdateAssignment {
                column_index: 2,
                value: UpdateValueExpr::Add(
                    Box::new(UpdateValueExpr::Column(QualifiedColumn {
                        table: "users".into(),
                        column_index: 2,
                    })),
                    Box::new(UpdateValueExpr::Column(QualifiedColumn {
                        table: "teams".into(),
                        column_index: 1,
                    })),
                ),
            }],
            predicate: None,
            joins: vec![JoinClause {
                kind: JoinKind::Inner,
                left_table: "users".into(),
                right_table: "teams".into(),
                on: JoinOn::ColumnEq {
                    left: QualifiedColumn {
                        table: "users".into(),
                        column_index: 1,
                    },
                    right: QualifiedColumn {
                        table: "teams".into(),
                        column_index: 0,
                    },
                },
            }],
            from_tables: Vec::new(),
            returning: None,
        })
        .expect("join update");

    let result = database
        .execute(&EngineQuery::select_simple("users".into(), vec![0, 2], None))
        .expect("select updated user row");

    assert_eq!(result.rows, vec![vec![uuid(1), EngineValue::Integer(8)]],);
}

#[test]
fn update_join_rejects_multiple_matches_for_target_row() {
    let store: InMemoryNamedBTree<EngineKey, EngineRow> = InMemoryNamedBTree::new();
    let mut database = EngineDatabase::new(store, float_unit);

    database
        .register_table(TableSchema {
            name: "users".into(),
            columns: vec![
                ColumnSchema {
                    name: "id".into(),
                    data_type: EngineType::Uuid,
                },
                ColumnSchema {
                    name: "team_id".into(),
                    data_type: EngineType::Uuid,
                },
                ColumnSchema {
                    name: "score".into(),
                    data_type: EngineType::Integer,
                },
            ],
            primary_key: vec![0],
        })
        .expect("register users table");

    database
        .register_table(TableSchema {
            name: "teams".into(),
            columns: vec![
                ColumnSchema {
                    name: "id".into(),
                    data_type: EngineType::Uuid,
                },
                ColumnSchema {
                    name: "dept_id".into(),
                    data_type: EngineType::Uuid,
                },
                ColumnSchema {
                    name: "bonus".into(),
                    data_type: EngineType::Integer,
                },
            ],
            primary_key: vec![0],
        })
        .expect("register teams table");

    database
        .execute(&EngineQuery::Insert {
            table: "users".into(),
            row: vec![uuid(1), uuid(10), EngineValue::Integer(5)],
        })
        .expect("insert user row");

    database
        .execute(&EngineQuery::Insert {
            table: "teams".into(),
            row: vec![uuid(100), uuid(10), EngineValue::Integer(3)],
        })
        .expect("insert first team row");

    database
        .execute(&EngineQuery::Insert {
            table: "teams".into(),
            row: vec![uuid(101), uuid(10), EngineValue::Integer(4)],
        })
        .expect("insert second team row");

    let result = database
        .execute(&EngineQuery::Update {
            table: "users".into(),
            assignments: vec![UpdateAssignment {
                column_index: 2,
                value: UpdateValueExpr::Add(
                    Box::new(UpdateValueExpr::Column(QualifiedColumn {
                        table: "users".into(),
                        column_index: 2,
                    })),
                    Box::new(UpdateValueExpr::Column(QualifiedColumn {
                        table: "teams".into(),
                        column_index: 2,
                    })),
                ),
            }],
            predicate: None,
            joins: vec![JoinClause {
                kind: JoinKind::Inner,
                left_table: "users".into(),
                right_table: "teams".into(),
                on: JoinOn::ColumnEq {
                    left: QualifiedColumn {
                        table: "users".into(),
                        column_index: 1,
                    },
                    right: QualifiedColumn {
                        table: "teams".into(),
                        column_index: 1,
                    },
                },
            }],
            from_tables: Vec::new(),
            returning: None,
        });

    match result {
        Err(EngineError::SchemaMismatch(message)) => {
            assert!(message.contains("matched target row more than once"));
        }
        other => panic!("expected SchemaMismatch duplicate-match error, got {other:?}"),
    }

    let unchanged = database
        .execute(&EngineQuery::select_simple("users".into(), vec![0, 2], None))
        .expect("select unchanged users after failed join update");

    assert_eq!(unchanged.rows, vec![vec![uuid(1), EngineValue::Integer(5)]],);
}

#[test]
fn empty_table_select_returns_no_rows() {
    let store: InMemoryNamedBTree<EngineKey, EngineRow> = InMemoryNamedBTree::new();
    let mut database = EngineDatabase::new(store, float_unit);

    database
        .register_table(TableSchema {
            name: "users".into(),
            columns: vec![
                ColumnSchema {
                    name: "id".into(),
                    data_type: EngineType::Uuid,
                },
                ColumnSchema {
                    name: "score".into(),
                    data_type: EngineType::Integer,
                },
            ],
            primary_key: vec![0],
        })
        .expect("register users table");

    let result = database
        .execute(&EngineQuery::select_simple("users".into(), vec![0, 1], None))
        .expect("select empty users");

    assert!(result.rows.is_empty());
}

#[test]
fn unique_index_violates_on_insert() {
    let store: InMemoryNamedBTree<EngineKey, EngineRow> = InMemoryNamedBTree::new();
    let mut database = EngineDatabase::new(store, float_unit);
    let users = TableSchema {
        name: "users".into(),
        columns: vec![
            ColumnSchema {
                name: "id".into(),
                data_type: EngineType::Uuid,
            },
            ColumnSchema {
                name: "name".into(),
                data_type: EngineType::Text,
            },
        ],
        primary_key: vec![0],
    };

    database
        .register_table(users)
        .expect("register users table");
    database
        .register_index(IndexSchema {
            name: "users_name_idx".into(),
            table_name: "users".into(),
            column_indices: vec![1],
            unique: true,
        })
        .expect("register users_name_idx index");

    database
        .execute(&EngineQuery::Insert {
            table: "users".into(),
            row: vec![uuid(1), EngineValue::Text("Alice".into())],
        })
        .expect("insert first row");

    let error = database
        .execute(&EngineQuery::Insert {
            table: "users".into(),
            row: vec![uuid(2), EngineValue::Text("Alice".into())],
        })
        .expect_err("insert duplicate unique index row");

    assert!(matches!(error, EngineError::UniqueIndexViolation(name) if name == "users_name_idx"));

    let unchanged = database
        .execute(&EngineQuery::select_simple("users".into(), vec![0, 1], None))
        .expect("select unchanged rows after failed insert");

    assert_eq!(
        unchanged.rows,
        vec![vec![uuid(1), EngineValue::Text("Alice".into())]],
    );
}
