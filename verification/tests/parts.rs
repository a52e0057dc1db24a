//! The parts of the library, one by one.
use aicacia_db::access_control::SyncScope;
use aicacia_db::change_event::ChangeEvent;
use aicacia_db::codec::{decode_from_slice, encode_to_vec, DecodeError, EngineKeyCodec};
use aicacia_db::documents::{
    automerge_metrics, collect_documents, sync_steps, AutomergeSyncMetrics, DocumentChangeKey,
    DocumentType,
    FacadeDocumentChangeKeyCodec, FacadeVecBytesCodec, SyncStep,
};
use aicacia_db::error::{BTreeError, EngineError};
use aicacia_db::float::FloatOp;
use aicacia_db::name_table::NameTable;
use aicacia_db::order::Comparison;
use aicacia_db::persistence::{
    decode_index_schema_row, decode_table_schema_row, encode_index_schema, encode_table_schema,
    index_tree, row_tree,
};
use aicacia_db::plan::LogicalPlan;
use aicacia_db::predicate::{eval_predicate, EvalContext, RowContext};
use aicacia_db::query::{
    EngineQuery, EngineResult, JoinClause, JoinKind, JoinOn, QualifiedColumn, QualifiedOperand,
    QualifiedPredicate, SelectOptions, SortDirection, UpdateAssignment, UpdateValueExpr,
};
use aicacia_db::render::{show_key, show_value};
use aicacia_db::schema::{ColumnSchema, IndexSchema, TableSchema};
use aicacia_db::sorting::{slice_rows, sorted_positions};
use aicacia_db::sql::name_map::NameMap;
use aicacia_db::sql::params::SqlParams;
use aicacia_db::subscriptions::{SubscriptionBatch, SubscriptionRegistry};
use aicacia_db::text::{
    decimal, integer_decimal, parse_signed, parse_unsigned, NumberError,
};
use aicacia_db::update_expr::{apply_assignments, evaluate_update_expr};
use aicacia_db::value::{EngineKey, EngineType, EngineValue};

fn float_unit(op: FloatOp) -> u64 {
    match op {
        FloatOp::Sum(a, b) => (f64::from_bits(a) + f64::from_bits(b)).to_bits(),
        FloatOp::Difference(a, b) => (f64::from_bits(a) - f64::from_bits(b)).to_bits(),
        FloatOp::Product(a, b) => (f64::from_bits(a) * f64::from_bits(b)).to_bits(),
        FloatOp::Quotient(a, b) => (f64::from_bits(a) / f64::from_bits(b)).to_bits(),
        FloatOp::OfInteger(i) => (i as f64).to_bits(),
        FloatOp::OfCount(n) => (n as f64).to_bits(),
        FloatOp::ToInteger(a) => (f64::from_bits(a) as i64) as u64,
    }
}

fn whole(i: i64) -> EngineValue {
    EngineValue::Integer(i)
}

fn double(x: f64) -> EngineValue {
    EngineValue::Float(x.to_bits())
}

fn text(s: &str) -> EngineValue {
    EngineValue::Text(s.to_string())
}

fn key(values: Vec<EngineValue>) -> EngineKey {
    EngineKey::from_values(values)
}

fn column(table: &str, column_index: usize) -> QualifiedColumn {
    QualifiedColumn {
        table: table.into(),
        column_index,
    }
}

fn users() -> TableSchema {
    TableSchema {
        name: "users".into(),
        columns: vec![
            ColumnSchema {
                name: "id".into(),
                data_type: EngineType::Integer,
            },
            ColumnSchema {
                name: "name".into(),
                data_type: EngineType::Text,
            },
        ],
        primary_key: vec![0],
    }
}

fn by_name(unique: bool) -> IndexSchema {
    IndexSchema {
        name: "by_name".into(),
        table_name: "users".into(),
        column_indices: vec![1],
        unique,
    }
}

#[test]
fn every_error_of_the_engine_says_what_is_wrong() {
    let cases = [
        (EngineError::TableNotFound("t".into()), "table not found: t"),
        (EngineError::IndexNotFound("i".into()), "index not found: i"),
        (EngineError::DuplicateTable("t".into()), "table already exists: t"),
        (EngineError::DuplicateIndex("i".into()), "index already exists: i"),
        (
            EngineError::DuplicatePrimaryKey(key(vec![whole(1), text("a\"b")])),
            "duplicate primary key: [Integer(1), Text(\"a\\\"b\")]",
        ),
        (EngineError::UniqueIndexViolation("i".into()), "unique index violation: i"),
        (EngineError::SchemaMismatch("m".into()), "schema mismatch: m"),
        (EngineError::TypeMismatch("m".into()), "type mismatch: m"),
        (EngineError::QueryLimitExceeded("m".into()), "query limit exceeded: m"),
        (EngineError::PrimaryKeyMissing, "primary key missing"),
        (EngineError::UnsupportedIndexType, "unsupported index type"),
        (
            EngineError::StoreError(BTreeError::other("disk".into())),
            "storage error: disk",
        ),
    ];
    for (error, message) in cases {
        assert_eq!(error.message(), message);
    }
}

#[test]
fn values_have_one_order() {
    let ascending = [
        EngineValue::Null,
        whole(i64::MIN),
        whole(-1),
        whole(7),
        double(f64::NEG_INFINITY),
        double(-1.5),
        double(-0.0),
        double(0.0),
        double(2.5),
        text(""),
        text("Z"),
        text("a"),
        text("\u{e9}"),
        EngineValue::Uuid([0; 16]),
        EngineValue::Blob(vec![]),
        EngineValue::Blob(vec![0]),
        EngineValue::Blob(vec![1]),
        EngineValue::Json("{}".into()),
    ];
    for (i, a) in ascending.iter().enumerate() {
        for (j, b) in ascending.iter().enumerate() {
            let expected = if i < j {
                Comparison::Less
            } else if i == j {
                Comparison::Equal
            } else {
                Comparison::Greater
            };
            assert_eq!(a.compare(b), expected);
            let x = key(vec![text("k"), a.clone()]);
            let y = key(vec![text("k"), b.clone()]);
            assert_eq!(x.compare(&y), expected);
            assert_eq!(
                EngineKeyCodec::compare(&EngineKeyCodec::encode(&x), &EngineKeyCodec::encode(&y)),
                expected
            );
        }
    }
    assert_eq!(
        key(vec![whole(1)]).compare(&key(vec![whole(1), EngineValue::Null])),
        Comparison::Less
    );
}

#[test]
fn values_are_shown_with_their_kind() {
    assert_eq!(show_value(&EngineValue::Null), "Null");
    assert_eq!(show_value(&whole(-5)), "Integer(-5)");
    assert_eq!(show_value(&text("a\n\"b\"")), "Text(\"a\\n\\\"b\\\"\")");
    assert_eq!(show_value(&EngineValue::Blob(vec![1, 20])), "Blob([1, 20])");
    assert_eq!(show_key(&key(vec![])), "[]");
    assert_eq!(decimal(0), "0");
    assert_eq!(decimal(u64::MAX), "18446744073709551615");
    assert_eq!(integer_decimal(i64::MIN), "-9223372036854775808");
}

#[test]
fn numbers_are_read_as_digits() {
    assert_eq!(parse_signed("-42"), Ok(-42));
    assert_eq!(parse_signed("+7"), Ok(7));
    assert_eq!(parse_signed(""), Err(NumberError::Empty));
    assert_eq!(parse_signed("-"), Err(NumberError::InvalidDigit));
    assert_eq!(parse_signed("4x"), Err(NumberError::InvalidDigit));
    assert_eq!(parse_signed("9223372036854775808"), Err(NumberError::TooLarge));
    assert_eq!(parse_signed("-9223372036854775809"), Err(NumberError::TooSmall));
    assert_eq!(parse_signed("-9223372036854775808"), Ok(i64::MIN));
    assert_eq!(parse_unsigned("12", 12), Ok(12));
    assert_eq!(parse_unsigned("13", 12), Err(NumberError::TooLarge));
    assert_eq!(
        NumberError::Empty.text(),
        "cannot parse integer from empty string"
    );
}

#[test]
fn rows_are_held_against_their_table() {
    let users = users();
    assert_eq!(users.validate_row(&vec![whole(1), text("a")]), Ok(()));
    assert_eq!(users.validate_row(&vec![whole(1), EngineValue::Null]), Ok(()));
    assert!(matches!(
        users.validate_row(&vec![whole(1)]),
        Err(EngineError::SchemaMismatch(_))
    ));
    assert!(matches!(
        users.validate_row(&vec![whole(1), whole(2)]),
        Err(EngineError::TypeMismatch(_))
    ));
    assert_eq!(
        users.primary_key(&vec![whole(1), text("a")]),
        Ok(key(vec![whole(1)]))
    );
    assert_eq!(
        users.primary_key(&vec![EngineValue::Null, text("a")]),
        Err(EngineError::PrimaryKeyMissing)
    );
    assert_eq!(by_name(false).validate_for_table(&users), Ok(()));
    let mut far = by_name(false);
    far.column_indices = vec![2];
    assert!(far.validate_for_table(&users).is_err());
    far.column_indices = vec![];
    assert!(far.validate_for_table(&users).is_err());
}

#[test]
fn an_entry_of_an_index_is_parted_again() {
    let index = by_name(true);
    let row = vec![whole(3), text("c")];
    let index_key = index.key_for(&row).expect("index key");
    let pk = users().primary_key(&row).expect("primary key");
    let entry = index.make_entry_key(&index_key, &pk);
    assert_eq!(entry, key(vec![text("c"), whole(3)]));
    assert_eq!(index.split_entry_key(&entry), (index_key, pk));
}

#[test]
fn schemas_are_kept_as_rows() {
    let row = encode_table_schema(&users());
    assert_eq!(decode_table_schema_row(&row), Ok(users()));
    let row = encode_index_schema(&by_name(true));
    assert_eq!(decode_index_schema_row(&row), Ok(by_name(true)));
    assert_eq!(
        decode_table_schema_row(&vec![]).unwrap_err().message(),
        "schema mismatch: invalid table schema encoding"
    );
    assert_eq!(
        decode_index_schema_row(&vec![whole(1)]).unwrap_err().message(),
        "schema mismatch: invalid index schema encoding"
    );
    assert_eq!(
        decode_table_schema_row(&vec![EngineValue::Blob(vec![1])])
            .unwrap_err()
            .message(),
        "schema mismatch: truncated data"
    );
    assert_eq!(row_tree("x"), "t:x");
    assert_eq!(index_tree("x"), "i:x");
}

#[test]
fn bytes_that_are_no_value_are_refused() {
    let word = text("gr\u{fc}n");
    let bytes = encode_to_vec(&word);
    assert_eq!(bytes.len(), 1 + 8 + 5);
    assert_eq!(decode_from_slice::<EngineValue>(&bytes), Ok(word));
    let mut broken = bytes.clone();
    broken[11] = 0xff;
    assert_eq!(
        decode_from_slice::<EngineValue>(&broken),
        Err(DecodeError::InvalidText)
    );
    let mut tagged = encode_to_vec(&whole(1));
    tagged[0] = 99;
    assert_eq!(
        decode_from_slice::<EngineValue>(&tagged),
        Err(DecodeError::InvalidTag)
    );
    assert_eq!(
        decode_from_slice::<EngineValue>(&bytes[..9]),
        Err(DecodeError::Truncated)
    );
}

#[test]
fn sorting_is_stable_and_slices_follow() {
    let keys = vec![
        vec![whole(2), text("b")],
        vec![whole(1), text("b")],
        vec![whole(2), text("a")],
        vec![whole(1), text("b")],
    ];
    assert_eq!(
        sorted_positions(&keys, &vec![SortDirection::Asc, SortDirection::Asc]),
        vec![1, 3, 2, 0]
    );
    assert_eq!(
        sorted_positions(&keys, &vec![SortDirection::Desc, SortDirection::Asc]),
        vec![2, 0, 1, 3]
    );
    let rows = vec![10u64, 20, 30, 40];
    assert_eq!(slice_rows(&rows, Some(2), Some(1)), vec![20, 30]);
    assert_eq!(slice_rows(&rows, None, Some(3)), vec![40]);
    assert_eq!(slice_rows(&rows, Some(0), None), Vec::<u64>::new());
    assert_eq!(slice_rows(&rows, Some(9), Some(9)), Vec::<u64>::new());
}

fn value_of(expr: UpdateValueExpr) -> Result<EngineValue, EngineError> {
    let row = vec![whole(7), double(2.5), text("x")];
    evaluate_update_expr(&row, &expr, "t", None, &float_unit)
}

fn expr_column(i: usize) -> Box<UpdateValueExpr> {
    Box::new(UpdateValueExpr::Column(column("t", i)))
}

fn literal(v: EngineValue) -> Box<UpdateValueExpr> {
    Box::new(UpdateValueExpr::Value(v))
}

#[test]
fn assignments_compute() {
    assert_eq!(
        value_of(UpdateValueExpr::Add(expr_column(0), literal(whole(3)))),
        Ok(whole(10))
    );
    assert_eq!(
        value_of(UpdateValueExpr::Subtract(expr_column(0), expr_column(1))),
        Ok(double(4.5))
    );
    assert_eq!(
        value_of(UpdateValueExpr::Multiply(expr_column(1), expr_column(1))),
        Ok(double(6.25))
    );
    assert_eq!(
        value_of(UpdateValueExpr::Divide(expr_column(0), literal(whole(2)))),
        Ok(double(3.5))
    );
    assert_eq!(
        value_of(UpdateValueExpr::Divide(expr_column(0), literal(whole(0))))
            .unwrap_err()
            .message(),
        "type mismatch: division by zero"
    );
    assert_eq!(
        value_of(UpdateValueExpr::Divide(expr_column(0), literal(double(-0.0))))
            .unwrap_err()
            .message(),
        "type mismatch: division by zero"
    );
    assert!(matches!(
        value_of(UpdateValueExpr::Add(expr_column(2), literal(whole(1)))),
        Err(EngineError::TypeMismatch(_))
    ));
    assert_eq!(
        value_of(UpdateValueExpr::Column(column("t", 9))).unwrap_err().message(),
        "schema mismatch: column index 9 is out of bounds"
    );
    assert_eq!(
        value_of(UpdateValueExpr::Column(column("u", 0))).unwrap_err().message(),
        "schema mismatch: column u.0 requires join context"
    );
}

#[test]
fn assignments_read_the_row_as_it_was() {
    let row = vec![whole(1), whole(2)];
    let swap = vec![
        UpdateAssignment {
            column_index: 0,
            value: UpdateValueExpr::Column(column("t", 1)),
        },
        UpdateAssignment {
            column_index: 1,
            value: UpdateValueExpr::Column(column("t", 0)),
        },
    ];
    assert_eq!(
        apply_assignments(&row, &swap, "t", None, &float_unit),
        Ok(vec![whole(2), whole(1)])
    );
}

fn equals(table: &str, i: usize, v: EngineValue) -> QualifiedPredicate {
    QualifiedPredicate::Equals(
        QualifiedOperand::Column(column(table, i)),
        QualifiedOperand::Value(v),
    )
}

#[test]
fn conditions_on_a_single_row() {
    let row = vec![whole(5), EngineValue::Null];
    let holds = |p: &QualifiedPredicate| {
        eval_predicate(p, &RowContext::Single("t", &row), &EvalContext::empty())
    };
    assert!(holds(&equals("t", 0, whole(5))));
    assert!(!holds(&equals("u", 0, whole(5))));
    assert!(holds(&QualifiedPredicate::IsNull(column("t", 1))));
    assert!(holds(&QualifiedPredicate::IsNull(column("t", 9))));
    assert!(!holds(&QualifiedPredicate::IsNotNull(column("t", 9))));
    let list = |negated: bool| QualifiedPredicate::InList {
        expr: column("t", 0),
        list: vec![whole(4), whole(5)],
        negated,
    };
    assert!(holds(&list(false)));
    assert!(!holds(&list(true)));
    assert!(holds(&QualifiedPredicate::Not(Box::new(list(true)))));
    assert!(holds(&QualifiedPredicate::Or(
        Box::new(list(true)),
        Box::new(equals("t", 0, whole(5)))
    )));
}

#[test]
fn a_query_names_its_tables_once() {
    let join = |left: &str, right: &str| JoinClause {
        kind: JoinKind::Inner,
        left_table: left.into(),
        right_table: right.into(),
        on: JoinOn::ColumnEq {
            left: column(left, 0),
            right: column(right, 0),
        },
    };
    let inner = EngineQuery::select_simple("d".into(), vec![0], None);
    let select = EngineQuery::Select {
        table: "a".into(),
        projection: vec![],
        predicate: Some(QualifiedPredicate::InSubquery {
            expr: column("a", 0),
            subquery: Box::new(inner),
            negated: false,
        }),
        options: Box::new(SelectOptions {
            joins: vec![join("a", "b"), join("b", "c"), join("a", "c")],
            ..SelectOptions::default()
        }),
    };
    assert_eq!(select.tables(), vec!["a", "b", "c", "d"]);
    assert_eq!(select.source_tables(), vec!["a", "b", "c"]);
    let update = EngineQuery::Update {
        table: "a".into(),
        assignments: vec![],
        predicate: None,
        joins: vec![join("a", "b")],
        from_tables: vec!["c".into(), "a".into()],
        returning: None,
    };
    assert_eq!(update.tables(), vec!["a", "b", "c"]);
    let insert = EngineQuery::Insert {
        table: "a".into(),
        row: vec![],
    };
    assert_eq!(insert.tables(), vec!["a"]);

    let plan = LogicalPlan::from_query(EngineQuery::select_simple("a".into(), vec![], None));
    assert!(plan.is_simple_select());
    assert!(!LogicalPlan::from_query(select).is_simple_select());
    assert!(!LogicalPlan::from_query(insert).is_simple_select());
}

fn inserted(table: &str, row: Vec<EngineValue>) -> ChangeEvent {
    ChangeEvent::RowInserted {
        table: table.into(),
        pk: key(vec![row[0].clone()]),
        row,
    }
}

#[test]
fn scopes_reach_tables_and_rows() {
    let everything = SyncScope::default();
    assert!(everything.can_access("t"));
    let scope = SyncScope::new(vec!["t".to_string()])
        .allow_table("u".to_string())
        .add_filter("t".to_string(), equals("t", 0, whole(1)));
    assert!(scope.can_access("t"));
    assert!(scope.can_access("u"));
    assert!(!scope.can_access("v"));
    assert!(scope.filter_for("t").is_some());
    assert!(scope.filter_for("u").is_none());

    assert!(scope.matches(&inserted("t", vec![whole(1)])));
    assert!(!scope.matches(&inserted("t", vec![whole(2)])));
    assert!(scope.matches(&inserted("u", vec![whole(2)])));
    assert!(!scope.matches(&inserted("v", vec![whole(1)])));
    let moved = |old_row: i64, new_row: i64| ChangeEvent::RowUpdated {
        table: "t".into(),
        pk: key(vec![whole(new_row)]),
        old_row: vec![whole(old_row)],
        new_row: vec![whole(new_row)],
    };
    assert!(scope.matches(&moved(1, 2)));
    assert!(scope.matches(&moved(2, 1)));
    assert!(!scope.matches(&moved(2, 3)));

    // A condition that the row alone does not decide hides no change.
    let wider = SyncScope::unrestricted().add_filter("t".to_string(), equals("u", 0, whole(1)));
    assert!(wider.matches(&inserted("t", vec![whole(2)])));

    let mut schemas: NameTable<TableSchema> = NameTable::new();
    assert_eq!(
        scope.validate(&schemas),
        Err(EngineError::TableNotFound("t".into()))
    );
    schemas.insert("t".to_string(), users());
    assert_eq!(scope.validate(&schemas), Ok(()));
}

#[test]
fn scopes_fit_the_schemas_of_their_tables() {
    let mut schemas: NameTable<TableSchema> = NameTable::new();
    schemas.insert("t".to_string(), users());
    let of = |table: &str, column_index: usize| QualifiedColumn {
        table: table.into(),
        column_index,
    };
    let check = |filter: QualifiedPredicate| {
        SyncScope::unrestricted().add_filter("t".to_string(), filter).validate(&schemas)
    };
    let missing = |i: usize| Err(EngineError::SchemaMismatch(format!("table t has no column {i}")));
    assert_eq!(check(QualifiedPredicate::IsNull(of("t", 1))), Ok(()));
    assert_eq!(check(QualifiedPredicate::IsNull(of("t", 5))), missing(5));
    assert_eq!(
        check(QualifiedPredicate::Not(Box::new(QualifiedPredicate::And(
            Box::new(equals("t", 0, whole(1))),
            Box::new(equals("t", 2, whole(1))),
        )))),
        missing(2)
    );
    assert_eq!(
        check(QualifiedPredicate::IsNotNull(of("u", 0))),
        Err(EngineError::TableNotFound("u".into()))
    );
    let elsewhere = SyncScope::unrestricted().add_filter(
        "v".to_string(),
        QualifiedPredicate::And(
            Box::new(QualifiedPredicate::IsNull(of("u", 0))),
            Box::new(QualifiedPredicate::IsNull(of("t", 9))),
        ),
    );
    assert_eq!(elsewhere.validate(&schemas), Err(EngineError::TableNotFound("v".into())));
    let within = |subquery: EngineQuery| {
        check(QualifiedPredicate::InSubquery {
            expr: of("t", 0),
            subquery: Box::new(subquery),
            negated: false,
        })
    };
    assert_eq!(within(EngineQuery::select_simple("t".into(), vec![1], None)), Ok(()));
    assert_eq!(within(EngineQuery::select_simple("t".into(), vec![3], None)), missing(3));
    assert_eq!(
        within(EngineQuery::select_simple(
            "t".into(),
            vec![1],
            Some(QualifiedPredicate::IsNull(of("t", 4))),
        )),
        missing(4)
    );
    assert_eq!(
        within(EngineQuery::Select {
            table: "t".into(),
            projection: vec![of("t", 0)],
            predicate: None,
            options: Box::new(SelectOptions {
                group_by: vec![of("t", 6)],
                ..SelectOptions::default()
            }),
        }),
        missing(6)
    );
}

#[test]
fn registries_can_be_numbered_apart() {
    let on = |table: &str| EngineQuery::select_simple(table.into(), vec![], None);
    let mut one = SubscriptionRegistry::new();
    let mut other = SubscriptionRegistry::new();
    other.number_from(1000);
    let a = one.register(on("t"), SyncScope::unrestricted(), EngineResult::new(vec![]));
    let b = other.register(on("t"), SyncScope::unrestricted(), EngineResult::new(vec![]));
    assert_ne!(a, b);
    other.unregister(a);
    assert_eq!(other.subscriptions_for_table("t"), vec![b]);
    other.number_from(5);
    let c = other.register(on("t"), SyncScope::unrestricted(), EngineResult::new(vec![]));
    assert_ne!(b, c);
}

#[test]
fn subscriptions_are_registered_and_found() {
    let mut registry = SubscriptionRegistry::new();
    let on = |table: &str| EngineQuery::select_simple(table.into(), vec![], None);
    let a = registry.register(on("t"), SyncScope::unrestricted(), EngineResult::new(vec![]));
    let b = registry.register(on("u"), SyncScope::unrestricted(), EngineResult::new(vec![]));
    let c = registry.register(
        on("t"),
        SyncScope::unrestricted().add_filter("t".to_string(), equals("t", 0, whole(1))),
        EngineResult::new(vec![]),
    );
    assert_eq!(registry.subscriptions_for_table("t"), vec![a, c]);
    assert_eq!(registry.affected_by_change(&inserted("t", vec![whole(1)])), vec![a, c]);
    assert_eq!(registry.affected_by_change(&inserted("t", vec![whole(2)])), vec![a]);
    assert_eq!(registry.affected_by_change(&inserted("v", vec![whole(2)])), vec![]);

    let results = EngineResult::new(vec![vec![whole(1)]]);
    registry.update_last_results(b, results.clone());
    assert_eq!(registry.get_last_results(b), Some(results));
    assert_eq!(registry.get_last_results(a), Some(EngineResult::new(vec![])));

    registry.unregister(a);
    assert_eq!(registry.get_last_results(a), None);
    assert_eq!(registry.subscriptions_for_table("t"), vec![c]);
    registry.unregister(a);
    assert_eq!(registry.subscriptions_for_table("t"), vec![c]);
    registry.clear();
    assert_eq!(registry.subscriptions_for_table("u"), vec![]);

    let mut batch = SubscriptionBatch::new();
    batch.invalidate(b);
    batch.invalidate(a);
    batch.invalidate(b);
    assert_eq!(batch.take_invalidated(), vec![b, a]);
    assert_eq!(batch.take_invalidated(), vec![]);
}

#[test]
fn parameters_by_place_and_by_name() {
    let positional = SqlParams::positional(vec![whole(1), text("b")]);
    assert_eq!(positional.get_positional(0), None);
    assert_eq!(positional.get_positional(1), Some(&whole(1)));
    assert_eq!(positional.get_positional(2), Some(&text("b")));
    assert_eq!(positional.get_positional(3), None);
    assert_eq!(positional.get_named("a"), None);
    let named = SqlParams::named(vec![
        ("a".to_string(), whole(1)),
        ("b".to_string(), whole(2)),
        ("a".to_string(), whole(3)),
    ]);
    assert_eq!(named.get_named("a"), Some(&whole(3)));
    assert_eq!(named.get_named("b"), Some(&whole(2)));
    assert_eq!(named.get_named("c"), None);
    assert_eq!(named.get_positional(1), None);
    assert_eq!(SqlParams::from(vec![whole(4)]).get_positional(1), Some(&whole(4)));
    let mut values = NameMap::new();
    values.insert("d".to_string(), whole(5));
    assert_eq!(SqlParams::from(values).get_named("d"), Some(&whole(5)));
}

#[test]
fn keys_of_document_changes_round_trip() {
    let mut change_hash = [0u8; 32];
    change_hash[31] = 9;
    let change = DocumentChangeKey {
        doc_id: [7; 16],
        doc_type: DocumentType::Snapshot,
        change_hash,
    };
    let bytes = FacadeDocumentChangeKeyCodec::encode(&change);
    assert_eq!(bytes.len(), 49);
    assert_eq!(bytes[16], 1);
    let again = FacadeDocumentChangeKeyCodec::decode(&bytes);
    assert_eq!(again.doc_id, change.doc_id);
    assert_eq!(again.change_hash, change.change_hash);
    assert!(matches!(again.doc_type, DocumentType::Snapshot));
    assert!(FacadeDocumentChangeKeyCodec::decode_checked(&bytes[..48]).is_err());
    let mut later = bytes.clone();
    later[48] = 10;
    assert_eq!(
        FacadeDocumentChangeKeyCodec::compare(&bytes, &later),
        Comparison::Less
    );
    let mut scratch = vec![1];
    FacadeDocumentChangeKeyCodec::encode_into(&change, &mut scratch);
    assert_eq!(&scratch[1..], &bytes[..]);
    assert_eq!(FacadeVecBytesCodec::encode(&vec![1, 2]), vec![1, 2]);
    assert_eq!(FacadeVecBytesCodec::decode_checked(&[3]), Ok(vec![3]));
}

#[test]
fn documents_of_the_other_peer_are_merged_or_taken_over() {
    assert_eq!(
        sync_steps(&vec![[1; 16], [2; 16]], &vec![[2; 16], [3; 16]]),
        vec![SyncStep::Merge, SyncStep::Insert]
    );
    assert_eq!(
        automerge_metrics(&vec![3, 4, 5]),
        AutomergeSyncMetrics {
            document_count: 3,
            total_document_bytes: 12
        }
    );
}

#[test]
fn documents_are_read_up_to_a_fault() {
    let all: Vec<Result<u8, String>> = vec![Ok(1), Ok(2)];
    assert_eq!(collect_documents(all), Ok(vec![1, 2]));
    let none: Vec<Result<u8, String>> = vec![Err("gone".into()), Ok(2)];
    assert_eq!(collect_documents(none), Ok(vec![]));
    let some: Vec<Result<u8, String>> = vec![Ok(1), Err("gone".into())];
    assert_eq!(
        collect_documents(some).unwrap_err().message(),
        "engine error: gone"
    );
}
