//! From SQL to the engine's queries.
use aicacia_db::query::{
    EngineQuery, HavingPredicate, JoinKind, JoinOn, QualifiedColumn, QualifiedOperand, QualifiedPredicate,
    RefOrAgg, UpdateAssignment, UpdateValueExpr,
};
use aicacia_db::schema::{ColumnSchema, TableModel, TableSchema};
use aicacia_db::schema_resolver::{NameModel, SchemaResolver};
use aicacia_db::sql::engine_adapter::DbEngineAdapter;
use aicacia_db::sql::error::TranslateError;
use aicacia_db::sql::helpers::{sql_value_to_engine_value, Translated};
use aicacia_db::sql::ir::{CanonicalStatement, DdlOp};
use aicacia_db::sql::mapper::{DefaultValueMapper, ValueMapper};
use aicacia_db::sql::syntax::{SqlExpr, SqlLiteral};
use aicacia_db::sql::translate::{
    parse_and_translate, parse_and_translate_statement, parse_and_translate_to_ir, parse_and_translate_to_ir_with_mapper,
};
use aicacia_db::sql::translator::Translator;
use aicacia_db::value::{EngineType, EngineValue, ValueModel};

fn parse_float(text: &str) -> Result<u64, String> {
    match text.parse::<f64>() {
        Ok(x) => Ok(x.to_bits()),
        Err(e) => Err(e.to_string()),
    }
}

fn mapper() -> DefaultValueMapper<fn(&str) -> Result<u64, String>> {
    DefaultValueMapper { parse_float }
}

struct DummyResolver {
    tables: Vec<TableSchema>,
}

impl SchemaResolver for DummyResolver {
    fn described(&self, _name: NameModel) -> Option<TableModel> {
        unreachable!()
    }

    fn describe_table(&self, name: &str) -> Option<TableSchema> {
        self.tables.iter().find(|t| t.name == name).cloned()
    }
}

/// Maps all numeric literals to text.
struct MyMapper;

impl ValueMapper for MyMapper {
    fn ready(&self) -> bool {
        unreachable!()
    }

    fn mapped(&self, _expr: SqlExpr) -> Translated<ValueModel> {
        unreachable!()
    }

    fn map_sql_value(&self, expr: &SqlExpr) -> Result<EngineValue, TranslateError> {
        match expr {
            SqlExpr::Value(v) => match v {
                SqlLiteral::Number(s) => Ok(EngineValue::Text(s.clone())),
                SqlLiteral::Text(s) => Ok(EngineValue::Text(s.clone())),
                SqlLiteral::Null => Ok(EngineValue::Null),
                _ => sql_value_to_engine_value(expr, &parse_float),
            },
            _ => Err(TranslateError::UnsupportedFeature(
                "expected literal".into(),
            )),
        }
    }
}

#[test]
fn translate_to_ir_returns_canonical_query() {
    let mut tables: Vec<TableSchema> = Vec::new();
    tables.push(
        TableSchema {
            name: "users".into(),
            columns: vec![
                ColumnSchema {
                    name: "id".into(),
                    data_type: EngineType::Integer,
                },
                ColumnSchema {
                    name: "name".into(),
                    data_type: EngineType::Text,
                },
            ],
            primary_key: vec![0],
        },
    );

    let resolver = DummyResolver { tables };

    let canon = parse_and_translate_to_ir("SELECT id FROM users WHERE id = 42;", &resolver, &mapper())
        .expect("translate to IR");

    match canon.engine_query {
        EngineQuery::Select {
            table,
            projection,
            predicate,
            options: _,
        } => {
            assert_eq!(table, "users");
            assert_eq!(projection.len(), 1);
            assert_eq!(projection[0].table, "users");
            assert_eq!(projection[0].column_index, 0);
            match predicate {
                Some(QualifiedPredicate::Equals(
                    QualifiedOperand::Column(qc),
                    QualifiedOperand::Value(v),
                )) => {
                    assert_eq!(qc.column_index, 0);
                    assert_eq!(v, EngineValue::Integer(42));
                }
                other => panic!("unexpected predicate: {:?}", other),
            }
        }
        other => panic!("unexpected query kind: {:?}", other),
    }
}

#[test]
fn translate_simple_select() {
    let mut tables: Vec<TableSchema> = Vec::new();
    tables.push(
        TableSchema {
            name: "users".into(),
            columns: vec![
                ColumnSchema {
                    name: "id".into(),
                    data_type: EngineType::Integer,
                },
                ColumnSchema {
                    name: "name".into(),
                    data_type: EngineType::Text,
                },
            ],
            primary_key: vec![0],
        },
    );

    let resolver = DummyResolver { tables };

    let q = parse_and_translate("SELECT id, name FROM users WHERE id = 42;", &resolver, &mapper())
        .expect("translate");

    match q {
        EngineQuery::Select {
            table,
            projection,
            predicate,
            options: _,
        } => {
            assert_eq!(table, "users");
            assert_eq!(projection.len(), 2usize);
            assert_eq!(
                projection[0],
                QualifiedColumn {
                    table: "users".into(),
                    column_index: 0
                }
            );
            assert_eq!(
                projection[1],
                QualifiedColumn {
                    table: "users".into(),
                    column_index: 1
                }
            );
            match predicate {
                Some(QualifiedPredicate::Equals(
                    QualifiedOperand::Column(qc),
                    QualifiedOperand::Value(v),
                )) => {
                    assert_eq!(qc.column_index, 0usize);
                    assert_eq!(v, EngineValue::Integer(42));
                }
                other => panic!("unexpected predicate: {:?}", other),
            }
        }
        other => panic!("unexpected query kind: {:?}", other),
    }
}

#[test]
fn translate_join_select() {
    let mut tables: Vec<TableSchema> = Vec::new();
    tables.push(
        TableSchema {
            name: "users".into(),
            columns: vec![
                ColumnSchema {
                    name: "id".into(),
                    data_type: EngineType::Integer,
                },
                ColumnSchema {
                    name: "name".into(),
                    data_type: EngineType::Text,
                },
            ],
            primary_key: vec![0],
        },
    );

    tables.push(
        TableSchema {
            name: "orders".into(),
            columns: vec![
                ColumnSchema {
                    name: "id".into(),
                    data_type: EngineType::Integer,
                },
                ColumnSchema {
                    name: "user_id".into(),
                    data_type: EngineType::Integer,
                },
                ColumnSchema {
                    name: "amount".into(),
                    data_type: EngineType::Integer,
                },
            ],
            primary_key: vec![0],
        },
    );

    let resolver = DummyResolver { tables };

    let q = parse_and_translate(
        "SELECT u.name, o.amount FROM users u JOIN orders o ON u.id = o.user_id;",
        &resolver,
        &mapper(),
    )
    .expect("translate");

    match q {
        EngineQuery::Select {
            table,
            projection,
            predicate: _,
            options,
        } => {
            assert_eq!(table, "users");
            // projection: users.name then orders.amount
            assert_eq!(projection.len(), 2);
            assert_eq!(projection[0].table, "users");
            assert_eq!(projection[0].column_index, 1);
            assert_eq!(projection[1].table, "orders");
            assert_eq!(projection[1].column_index, 2);

            assert_eq!(options.joins.len(), 1);
            let j = &options.joins[0];
            assert_eq!(j.kind, JoinKind::Inner);
            match &j.on {
                JoinOn::ColumnEq { left, right } => {
                    assert_eq!(left.table, "users");
                    assert_eq!(left.column_index, 0);
                    assert_eq!(right.table, "orders");
                    assert_eq!(right.column_index, 1);
                }
            }
        }
        other => panic!("unexpected query: {:?}", other),
    }
}

#[test]
fn translate_group_by_aggregate_order_limit() {
    let mut tables: Vec<TableSchema> = Vec::new();
    tables.push(
        TableSchema {
            name: "users".into(),
            columns: vec![
                ColumnSchema {
                    name: "id".into(),
                    data_type: EngineType::Integer,
                },
                ColumnSchema {
                    name: "city".into(),
                    data_type: EngineType::Text,
                },
            ],
            primary_key: vec![0],
        },
    );

    tables.push(
        TableSchema {
            name: "orders".into(),
            columns: vec![
                ColumnSchema {
                    name: "id".into(),
                    data_type: EngineType::Integer,
                },
                ColumnSchema {
                    name: "user_id".into(),
                    data_type: EngineType::Integer,
                },
                ColumnSchema {
                    name: "amount".into(),
                    data_type: EngineType::Integer,
                },
            ],
            primary_key: vec![0],
        },
    );

    let resolver = DummyResolver { tables };

    let sql = "SELECT city, COUNT(*) as cnt, SUM(o.amount) as total FROM users u JOIN orders o ON u.id = o.user_id GROUP BY city ORDER BY total DESC LIMIT 5 OFFSET 2;";

    let q = parse_and_translate(sql, &resolver, &mapper()).expect("translate");

    match q {
        EngineQuery::Select {
            table,
            projection,
            predicate: _,
            options,
        } => {
            assert_eq!(table, "users");
            // for grouped queries projection may be empty; aggregates and group_by should be set
            assert!(projection.is_empty());
            assert_eq!(options.group_by.len(), 1);
            assert_eq!(options.aggregates.len(), 2);

            // order by should reference the aggregate (SUM) or group key; ensure limit/offset set
            assert_eq!(options.limit, Some(5));
            assert_eq!(options.offset, Some(2));
        }
        other => panic!("unexpected query: {:?}", other),
    }
}

#[test]
fn default_value_mapper_converts_literals() {
    let vm = mapper();

    // integer
    let int_expr = SqlExpr::Value(SqlLiteral::Number("123".into()));
    let v = vm.map_sql_value(&int_expr).expect("int");
    assert_eq!(v, EngineValue::Integer(123));

    // float
    let float_expr = SqlExpr::Value(SqlLiteral::Number("1.5".into()));
    let v = vm.map_sql_value(&float_expr).expect("float");
    assert_eq!(v, EngineValue::Float(1.5f64.to_bits()));

    // string
    let s_expr = SqlExpr::Value(SqlLiteral::Text("hello".into()));
    let v = vm.map_sql_value(&s_expr).expect("string");
    assert_eq!(v, EngineValue::Text("hello".into()));

    // null
    let n_expr = SqlExpr::Value(SqlLiteral::Null);
    let v = vm.map_sql_value(&n_expr).expect("null");
    assert_eq!(v, EngineValue::Null);
}

#[test]
fn translate_with_custom_mapper() {
    let mut tables: Vec<TableSchema> = Vec::new();
    tables.push(
        TableSchema {
            name: "users".into(),
            columns: vec![
                ColumnSchema {
                    name: "id".into(),
                    data_type: EngineType::Integer,
                },
                ColumnSchema {
                    name: "name".into(),
                    data_type: EngineType::Text,
                },
            ],
            primary_key: vec![0],
        },
    );

    let resolver = DummyResolver { tables };

    // Use custom mapper which turns numeric 42 into text "42"
    let canon = parse_and_translate_to_ir_with_mapper(
        "SELECT id FROM users WHERE id = 42;",
        &resolver,
        &MyMapper,
    )
    .expect("translate with mapper");

    match canon.engine_query {
        EngineQuery::Select { predicate, .. } => match predicate {
            Some(QualifiedPredicate::Equals(_, QualifiedOperand::Value(v))) => {
                assert_eq!(v, EngineValue::Text("42".into()));
            }
            other => panic!("unexpected predicate: {:?}", other),
        },
        other => panic!("unexpected query kind: {:?}", other),
    }
}

#[test]
fn translate_insert_values() {
    let mut tables: Vec<TableSchema> = Vec::new();
    tables.push(
        TableSchema {
            name: "items".into(),
            columns: vec![
                ColumnSchema {
                    name: "id".into(),
                    data_type: EngineType::Integer,
                },
                ColumnSchema {
                    name: "name".into(),
                    data_type: EngineType::Text,
                },
            ],
            primary_key: vec![0],
        },
    );

    let resolver = DummyResolver { tables };
    let q = parse_and_translate("INSERT INTO items (id, name) VALUES (1, 'One');", &resolver, &mapper())
        .expect("translate insert");

    match q {
        EngineQuery::Insert { table, row } => {
            assert_eq!(table, "items");
            assert_eq!(
                row,
                vec![EngineValue::Integer(1), EngineValue::Text("One".into())]
            );
        }
        other => panic!("unexpected query kind: {:?}", other),
    }
}

#[test]
fn translate_update_values() {
    let mut tables: Vec<TableSchema> = Vec::new();
    tables.push(
        TableSchema {
            name: "users".into(),
            columns: vec![
                ColumnSchema {
                    name: "id".into(),
                    data_type: EngineType::Integer,
                },
                ColumnSchema {
                    name: "name".into(),
                    data_type: EngineType::Text,
                },
                ColumnSchema {
                    name: "score".into(),
                    data_type: EngineType::Integer,
                },
            ],
            primary_key: vec![0],
        },
    );

    let resolver = DummyResolver { tables };
    let q = parse_and_translate("UPDATE users SET score = 11 WHERE id = 1;", &resolver, &mapper())
        .expect("translate update");

    match q {
        EngineQuery::Update {
            table,
            assignments,
            predicate,
            joins,
            from_tables,
            returning,
        } => {
            assert_eq!(table, "users");
            assert_eq!(assignments.len(), 1);
            assert!(joins.is_empty());
            assert!(from_tables.is_empty());
            assert!(returning.is_none());
            assert_eq!(
                assignments[0],
                UpdateAssignment {
                    column_index: 2,
                    value: UpdateValueExpr::Value(EngineValue::Integer(11)),
                }
            );

            match predicate {
                Some(QualifiedPredicate::Equals(
                    QualifiedOperand::Column(qc),
                    QualifiedOperand::Value(v),
                )) => {
                    assert_eq!(qc.table, "users");
                    assert_eq!(qc.column_index, 0);
                    assert_eq!(v, EngineValue::Integer(1));
                }
                other => panic!("unexpected predicate: {:?}", other),
            }
        }
        other => panic!("unexpected query kind: {:?}", other),
    }
}

#[test]
fn translate_update_expression_value() {
    let mut tables: Vec<TableSchema> = Vec::new();
    tables.push(
        TableSchema {
            name: "users".into(),
            columns: vec![
                ColumnSchema {
                    name: "id".into(),
                    data_type: EngineType::Integer,
                },
                ColumnSchema {
                    name: "score".into(),
                    data_type: EngineType::Integer,
                },
            ],
            primary_key: vec![0],
        },
    );

    let resolver = DummyResolver { tables };
    let q = parse_and_translate(
        "UPDATE users SET score = score + 1 WHERE id = 1;",
        &resolver,
        &mapper(),
    )
    .expect("translate update expression");

    match q {
        EngineQuery::Update { assignments, .. } => {
            assert_eq!(assignments.len(), 1);
            assert_eq!(assignments[0].column_index, 1);
            assert_eq!(
                assignments[0].value,
                UpdateValueExpr::Add(
                    Box::new(UpdateValueExpr::Column(QualifiedColumn {
                        table: "users".into(),
                        column_index: 1,
                    })),
                    Box::new(UpdateValueExpr::Value(EngineValue::Integer(1)))
                )
            );
        }
        other => panic!("unexpected query kind: {:?}", other),
    }
}

#[test]
fn translate_update_join_expression_value() {
    let mut tables: Vec<TableSchema> = Vec::new();
    tables.push(
        TableSchema {
            name: "users".into(),
            columns: vec![
                ColumnSchema {
                    name: "id".into(),
                    data_type: EngineType::Integer,
                },
                ColumnSchema {
                    name: "team_id".into(),
                    data_type: EngineType::Integer,
                },
                ColumnSchema {
                    name: "score".into(),
                    data_type: EngineType::Integer,
                },
            ],
            primary_key: vec![0],
        },
    );
    tables.push(
        TableSchema {
            name: "teams".into(),
            columns: vec![
                ColumnSchema {
                    name: "id".into(),
                    data_type: EngineType::Integer,
                },
                ColumnSchema {
                    name: "bonus".into(),
                    data_type: EngineType::Integer,
                },
            ],
            primary_key: vec![0],
        },
    );

    let resolver = DummyResolver { tables };
    let q = parse_and_translate(
        "UPDATE users u JOIN teams t ON u.team_id = t.id SET score = score + t.bonus WHERE u.id = 1;",
        &resolver,
        &mapper(),
    )
    .expect("translate update join expression");

    match q {
        EngineQuery::Update {
            assignments,
            joins,
            from_tables,
            returning,
            ..
        } => {
            assert_eq!(joins.len(), 1);
            assert!(from_tables.is_empty());
            assert!(returning.is_none());
            assert_eq!(assignments.len(), 1);
            assert_eq!(assignments[0].column_index, 2);
            assert_eq!(
                assignments[0].value,
                UpdateValueExpr::Add(
                    Box::new(UpdateValueExpr::Column(QualifiedColumn {
                        table: "users".into(),
                        column_index: 2,
                    })),
                    Box::new(UpdateValueExpr::Column(QualifiedColumn {
                        table: "teams".into(),
                        column_index: 1,
                    }))
                )
            );
        }
        other => panic!("unexpected query kind: {:?}", other),
    }
}

#[test]
fn translate_update_from_expression_value() {
    let mut tables: Vec<TableSchema> = Vec::new();
    tables.push(
        TableSchema {
            name: "users".into(),
            columns: vec![
                ColumnSchema {
                    name: "id".into(),
                    data_type: EngineType::Integer,
                },
                ColumnSchema {
                    name: "team_id".into(),
                    data_type: EngineType::Integer,
                },
                ColumnSchema {
                    name: "score".into(),
                    data_type: EngineType::Integer,
                },
            ],
            primary_key: vec![0],
        },
    );
    tables.push(
        TableSchema {
            name: "teams".into(),
            columns: vec![
                ColumnSchema {
                    name: "id".into(),
                    data_type: EngineType::Integer,
                },
                ColumnSchema {
                    name: "bonus".into(),
                    data_type: EngineType::Integer,
                },
            ],
            primary_key: vec![0],
        },
    );

    let resolver = DummyResolver { tables };
    let q = parse_and_translate(
        "UPDATE users SET score = score + teams.bonus FROM teams WHERE users.team_id = teams.id AND users.id = 1;",
        &resolver,
        &mapper(),
    )
    .expect("translate update from expression");

    match q {
        EngineQuery::Update {
            assignments,
            joins,
            from_tables,
            returning,
            ..
        } => {
            assert!(joins.is_empty());
            assert_eq!(from_tables, vec!["teams".to_string()]);
            assert!(returning.is_none());
            assert_eq!(assignments.len(), 1);
            assert_eq!(assignments[0].column_index, 2);
            assert_eq!(
                assignments[0].value,
                UpdateValueExpr::Add(
                    Box::new(UpdateValueExpr::Column(QualifiedColumn {
                        table: "users".into(),
                        column_index: 2,
                    })),
                    Box::new(UpdateValueExpr::Column(QualifiedColumn {
                        table: "teams".into(),
                        column_index: 1,
                    }))
                )
            );
        }
        other => panic!("unexpected query kind: {:?}", other),
    }
}

#[test]
fn translate_delete_values() {
    let mut tables: Vec<TableSchema> = Vec::new();
    tables.push(
        TableSchema {
            name: "users".into(),
            columns: vec![
                ColumnSchema {
                    name: "id".into(),
                    data_type: EngineType::Integer,
                },
                ColumnSchema {
                    name: "name".into(),
                    data_type: EngineType::Text,
                },
            ],
            primary_key: vec![0],
        },
    );

    let resolver = DummyResolver { tables };
    let q =
        parse_and_translate("DELETE FROM users WHERE id = 2;", &resolver, &mapper()).expect("translate delete");

    match q {
        EngineQuery::Delete {
            table,
            predicate,
            returning,
        } => {
            assert_eq!(table, "users");
            assert!(returning.is_none());
            match predicate {
                Some(QualifiedPredicate::Equals(
                    QualifiedOperand::Column(qc),
                    QualifiedOperand::Value(v),
                )) => {
                    assert_eq!(qc.table, "users");
                    assert_eq!(qc.column_index, 0);
                    assert_eq!(v, EngineValue::Integer(2));
                }
                other => panic!("unexpected predicate: {:?}", other),
            }
        }
        other => panic!("unexpected query kind: {:?}", other),
    }
}

#[test]
fn translate_delete_returning_projection() {
    let mut tables: Vec<TableSchema> = Vec::new();
    tables.push(
        TableSchema {
            name: "users".into(),
            columns: vec![ColumnSchema {
                name: "id".into(),
                data_type: EngineType::Integer,
            }],
            primary_key: vec![0],
        },
    );

    let resolver = DummyResolver { tables };
    let q = parse_and_translate("DELETE FROM users RETURNING id;", &resolver, &mapper())
        .expect("delete returning should translate");

    match q {
        EngineQuery::Delete {
            table,
            predicate,
            returning,
        } => {
            assert_eq!(table, "users");
            assert!(predicate.is_none());
            let projection = returning.expect("returning projection");
            assert_eq!(
                projection,
                vec![QualifiedColumn {
                    table: "users".into(),
                    column_index: 0,
                }]
            );
        }
        other => panic!("unexpected query kind: {:?}", other),
    }
}

#[test]
fn translate_update_returning_projection() {
    let mut tables: Vec<TableSchema> = Vec::new();
    tables.push(
        TableSchema {
            name: "users".into(),
            columns: vec![
                ColumnSchema {
                    name: "id".into(),
                    data_type: EngineType::Integer,
                },
                ColumnSchema {
                    name: "score".into(),
                    data_type: EngineType::Integer,
                },
            ],
            primary_key: vec![0],
        },
    );

    let resolver = DummyResolver { tables };
    let q = parse_and_translate(
        "UPDATE users SET score = score + 1 RETURNING id, score;",
        &resolver,
        &mapper(),
    )
    .expect("update returning should translate");

    match q {
        EngineQuery::Update {
            returning,
            joins,
            from_tables,
            ..
        } => {
            assert!(joins.is_empty());
            assert!(from_tables.is_empty());
            let projection = returning.expect("returning projection");
            assert_eq!(
                projection,
                vec![
                    QualifiedColumn {
                        table: "users".into(),
                        column_index: 0,
                    },
                    QualifiedColumn {
                        table: "users".into(),
                        column_index: 1,
                    },
                ]
            );
        }
        other => panic!("unexpected query kind: {:?}", other),
    }
}

#[test]
fn translator_translates_to_engine_query() {
    let mut tables: Vec<TableSchema> = Vec::new();
    tables.push(
        TableSchema {
            name: "users".into(),
            columns: vec![
                ColumnSchema {
                    name: "id".into(),
                    data_type: EngineType::Integer,
                },
                ColumnSchema {
                    name: "name".into(),
                    data_type: EngineType::Text,
                },
            ],
            primary_key: vec![0],
        },
    );

    let resolver = DummyResolver { tables };
    let t = Translator::new(parse_float);
    let eq = t
        .sql_to_engine_query("SELECT id, name FROM users WHERE id = 1;", &resolver)
        .expect("translate");

    match eq {
        EngineQuery::Select { table, .. } => {
            assert_eq!(table, "users");
        }
        _ => panic!("unexpected variant"),
    }
}

#[test]
fn translator_sql_to_adapter_uses_adapter_lower() {
    let mut tables: Vec<TableSchema> = Vec::new();
    tables.push(
        TableSchema {
            name: "users".into(),
            columns: vec![
                ColumnSchema {
                    name: "id".into(),
                    data_type: EngineType::Integer,
                },
                ColumnSchema {
                    name: "name".into(),
                    data_type: EngineType::Text,
                },
            ],
            primary_key: vec![0],
        },
    );

    let resolver = DummyResolver { tables };
    let t = Translator::new(parse_float);
    let adapter = DbEngineAdapter;

    let out = t
        .sql_to_adapter("SELECT id FROM users WHERE id = 2;", &resolver, &adapter)
        .expect("lower");

    // lower with DbEngineAdapter returns an EngineQuery matching the parse
    match out {
        EngineQuery::Select { table, .. } => assert_eq!(table, "users"),
        _ => panic!("unexpected lowered query"),
    }
}

fn columns(names: &[(&str, EngineType)]) -> Vec<ColumnSchema> {
    names
        .iter()
        .map(|(name, data_type)| ColumnSchema {
            name: name.to_string(),
            data_type: data_type.clone(),
        })
        .collect()
}

fn two_tables() -> DummyResolver {
    DummyResolver {
        tables: vec![
            TableSchema {
                name: "users".into(),
                columns: columns(&[
                    ("id", EngineType::Integer),
                    ("name", EngineType::Text),
                    ("age", EngineType::Integer),
                ]),
                primary_key: vec![0],
            },
            TableSchema {
                name: "orders".into(),
                columns: columns(&[
                    ("id", EngineType::Integer),
                    ("user_id", EngineType::Integer),
                ]),
                primary_key: vec![0],
            },
        ],
    }
}

#[test]
fn what_is_not_understood_is_refused() {
    let resolver = two_tables();
    let cases = [
        ("SELECT id FROM nobody", "unknown table: nobody"),
        ("SELECT shoe FROM users", "unknown column: shoe"),
        ("SELECT users.shoe FROM users", "unknown column: shoe"),
        ("COMMIT", "unsupported statement"),
        ("CREATE TABLE t (id INTEGER PRIMARY KEY)", "unsupported statement"),
        (
            "SELECT id FROM users u JOIN orders o ON u.id = o.user_id",
            "unsupported feature: ambiguous column reference: id",
        ),
        (
            "SELECT id FROM users, orders",
            "unsupported feature: only single FROM with optional JOINs supported",
        ),
        (
            "SELECT users.id FROM users JOIN orders ON users.id < orders.id",
            "unsupported feature: only equality ON joins supported",
        ),
        (
            "SELECT users.id FROM users JOIN orders USING (id)",
            "unsupported feature: only ON join constraints supported",
        ),
        (
            "SELECT users.id FROM users CROSS JOIN orders",
            "unsupported feature: unsupported join operator",
        ),
        (
            "SELECT id FROM users WHERE id + 1 = 2",
            "unsupported feature: unsupported operand in comparison",
        ),
        (
            "SELECT id FROM users WHERE id BETWEEN 1 AND 2",
            "unsupported feature: unsupported WHERE expression",
        ),
        (
            "SELECT id FROM users WHERE id IN (1, age)",
            "unsupported feature: IN list only supports literals in v1",
        ),
        (
            "SELECT UPPER(name) FROM users",
            "unsupported feature: unsupported function: upper",
        ),
        (
            "SELECT SUM(id, age) FROM users",
            "unsupported feature: aggregate takes one argument",
        ),
        (
            "SELECT name, COUNT(*) FROM users GROUP BY ALL",
            "unsupported feature: GROUP BY ALL not supported",
        ),
        (
            "SELECT id FROM users ORDER BY id + 1",
            "unsupported feature: unsupported ORDER BY expression",
        ),
        (
            "INSERT INTO users (id, name) VALUES (1, 'a'), (2, 'b')",
            "unsupported feature: only single-row INSERT VALUES supported",
        ),
        (
            "INSERT INTO users (id, name) VALUES (1)",
            "unsupported feature: INSERT column count does not match VALUES count",
        ),
        (
            "INSERT INTO users SELECT id, name, age FROM users",
            "unsupported feature: only INSERT ... VALUES (...) is supported",
        ),
        (
            "INSERT INTO users (id, name, age) VALUES (1, 'a', 2) RETURNING id",
            "unsupported feature: INSERT RETURNING is not supported",
        ),
        (
            "UPDATE users SET age = 1 LIMIT 3",
            "unsupported feature: UPDATE LIMIT is not supported",
        ),
        (
            "DELETE FROM users LIMIT 3",
            "unsupported feature: DELETE LIMIT is not supported",
        ),
        (
            "DELETE FROM users USING orders WHERE users.id = orders.user_id",
            "unsupported feature: DELETE USING is not supported",
        ),
    ];
    let mut others = Vec::new();
    for (sql, message) in cases {
        let found = match parse_and_translate(sql, &resolver, &mapper()) {
            Ok(_) => "translated".to_string(),
            Err(e) => e.message(),
        };
        if found != message {
            others.push((sql, found));
        }
    }
    assert_eq!(others, Vec::new());
    assert!(matches!(
        parse_and_translate("SELEC id FROM users", &resolver, &mapper()),
        Err(TranslateError::SqlParse(_))
    ));
}

#[test]
fn schema_changes_are_translated() {
    let resolver = two_tables();
    let change = |sql: &str| parse_and_translate_statement(sql, &resolver, &mapper());
    match change("CREATE TABLE IF NOT EXISTS t (a BIGINT, b VARCHAR(20) PRIMARY KEY, c BLOB)") {
        Ok(CanonicalStatement::Ddl(DdlOp::CreateTable(table, if_not_exists))) => {
            assert_eq!(
                table,
                TableSchema {
                    name: "t".into(),
                    columns: columns(&[
                        ("a", EngineType::Integer),
                        ("b", EngineType::Text),
                        ("c", EngineType::Blob),
                    ]),
                    primary_key: vec![1],
                }
            );
            assert!(if_not_exists);
        }
        other => panic!("unexpected statement: {:?}", other),
    }
    match change("CREATE UNIQUE INDEX i ON users (name, id)") {
        Ok(CanonicalStatement::Ddl(DdlOp::CreateIndex(index))) => {
            assert_eq!(index.name, "i");
            assert_eq!(index.table_name, "users");
            assert_eq!(index.column_indices, vec![1, 0]);
            assert!(index.unique);
        }
        other => panic!("unexpected statement: {:?}", other),
    }
    match change("DROP TABLE IF EXISTS users") {
        Ok(CanonicalStatement::Ddl(DdlOp::DropTable(name, if_exists))) => {
            assert_eq!(name, "users");
            assert!(if_exists);
        }
        other => panic!("unexpected statement: {:?}", other),
    }
    match change("DROP INDEX i") {
        Ok(CanonicalStatement::Ddl(DdlOp::DropIndex(name))) => assert_eq!(name, "i"),
        other => panic!("unexpected statement: {:?}", other),
    }
    match change("DELETE FROM users") {
        Ok(CanonicalStatement::Query(EngineQuery::Delete { table, .. })) => {
            assert_eq!(table, "users")
        }
        other => panic!("unexpected statement: {:?}", other),
    }
    let refused = |sql: &str| change(sql).unwrap_err().message();
    assert_eq!(
        refused("CREATE INDEX ON users (name)"),
        "unsupported feature: CREATE INDEX without explicit name is unsupported"
    );
    assert_eq!(
        refused("CREATE INDEX i ON nobody (name)"),
        "unknown table: nobody"
    );
    assert_eq!(
        refused("CREATE INDEX i ON users (shoe)"),
        "unknown column: shoe"
    );
    assert_eq!(
        refused("DROP TABLE users, orders"),
        "unsupported feature: DROP only supports a single object"
    );
}

#[test]
fn having_is_translated() {
    let resolver = two_tables();
    let sql = "SELECT name, COUNT(*), MAX(age) FROM users GROUP BY name \
               HAVING COUNT(*) >= 2 AND NOT MAX(age) < 10 OR name = 'x'";
    match parse_and_translate(sql, &resolver, &mapper()) {
        Ok(EngineQuery::Select { options, .. }) => {
            let count = |v: i64| {
                HavingPredicate::GreaterThanOrEquals(
                    RefOrAgg::AggregateIndex(0),
                    EngineValue::Integer(v),
                )
            };
            let age = HavingPredicate::LessThan(
                RefOrAgg::AggregateIndex(1),
                EngineValue::Integer(10),
            );
            let name = HavingPredicate::Equals(
                RefOrAgg::Column(QualifiedColumn {
                    table: "users".into(),
                    column_index: 1,
                }),
                EngineValue::Text("x".into()),
            );
            assert_eq!(
                options.having,
                Some(HavingPredicate::Or(
                    Box::new(HavingPredicate::And(
                        Box::new(count(2)),
                        Box::new(HavingPredicate::Not(Box::new(age)))
                    )),
                    Box::new(name)
                ))
            );
        }
        other => panic!("unexpected statement: {:?}", other),
    }
}
