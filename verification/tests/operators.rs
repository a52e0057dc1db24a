//! Operators: scans, sorting, aggregates and joins.
use aicacia_db::error::EngineError;
use aicacia_db::float::FloatOp;
use aicacia_db::join_builder::{
    apply_join_clauses, expand_with_from_tables, JoinedRowStates, TableRows,
};
use aicacia_db::name_table::NameTable;
use aicacia_db::operators::aggregate::{Aggregator, PartialRow};
use aicacia_db::operators::nested_loop_join::{
    apply_full_join, apply_inner_join, apply_left_join, apply_right_join,
};
use aicacia_db::operators::scan::Scan;
use aicacia_db::operators::sorter::Sorter;
use aicacia_db::predicate::{EvalContext, JoinedRowState};
use aicacia_db::query::{
    Aggregate, EngineQuery, HavingPredicate, JoinClause, JoinKind, JoinOn, OrderBy,
    QualifiedColumn, QualifiedOperand, QualifiedPredicate, RefOrAgg, SelectOptions, SortDirection,
};
use aicacia_db::value::{EngineRow, EngineValue};

fn float_unit(op: FloatOp) -> u64 {
    match op {
        FloatOp::Sum(a, b) => (f64::from_bits(a) + f64::from_bits(b)).to_bits(),
        FloatOp::Difference(a, b) => (f64::from_bits(a) - f64::from_bits(b)).to_bits(),
        FloatOp::Product(a, b) => (f64::from_bits(a) * f64::from_bits(b)).to_bits(),
        FloatOp::Quotient(a, b) => (f64::from_bits(a) / f64::from_bits(b)).to_bits(),
        FloatOp::OfInteger(i) => (i as f64).to_bits(),
        FloatOp::OfCount(n) => (n as f64).to_bits(),
        FloatOp::ToInteger(a) => (f64::from_bits(a) as i64) as u64,
    }
}

#[test]
fn scan_filters_and_projects_single_table_rows() {
    let rows = vec![
        vec![EngineValue::Integer(1), EngineValue::Text("Alice".into())],
        vec![EngineValue::Integer(2), EngineValue::Text("Bob".into())],
    ];

    let projection = vec![QualifiedColumn {
        table: "users".into(),
        column_index: 1,
    }];

    let predicate = Some(QualifiedPredicate::Equals(
        QualifiedOperand::Column(QualifiedColumn {
            table: "users".into(),
            column_index: 0,
        }),
        QualifiedOperand::Value(EngineValue::Integer(1)),
    ));

    let mut scan = Scan::new(
        "users".into(),
        rows,
        projection,
        predicate,
        EvalContext::empty(),
    );

    let mut results = Vec::new();
    while let Some(result) = scan.next() {
        results.push(result.expect("scan should not fail"));
    }

    assert_eq!(results, vec![vec![EngineValue::Text("Alice".into())]]);
}

#[test]
fn scan_gives_each_passing_row_once_and_then_nothing() {
    let of = |table: &str, column_index: usize| QualifiedColumn {
        table: table.into(),
        column_index,
    };
    let rows: Vec<Vec<EngineValue>> = [3, 1, 2, 3]
        .iter()
        .map(|i| vec![EngineValue::Integer(*i), EngineValue::Integer(i * 10)])
        .collect();
    let passing = || {
        Some(QualifiedPredicate::GreaterThan(
            QualifiedOperand::Column(of("t", 0)),
            QualifiedOperand::Value(EngineValue::Integer(1)),
        ))
    };
    let mut scan = Scan::new(
        "t".into(),
        rows.clone(),
        vec![of("t", 1), of("t", 7)],
        passing(),
        EvalContext::empty(),
    );
    for expected in [30, 20, 30] {
        assert_eq!(
            scan.next(),
            Some(Ok(vec![EngineValue::Integer(expected), EngineValue::Null]))
        );
    }
    assert_eq!(scan.next(), None);
    assert_eq!(scan.next(), None);

    let mut wrong =
        Scan::new("t".into(), rows, vec![of("u", 0)], passing(), EvalContext::empty());
    for _ in 0..3 {
        assert!(matches!(wrong.next(), Some(Err(_))));
    }
    assert_eq!(wrong.next(), None);
}

#[test]
fn sort_ascending() {
    let input = vec![
        (
            vec![EngineValue::Integer(3)],
            vec![EngineValue::Text("c".into())],
        ),
        (
            vec![EngineValue::Integer(1)],
            vec![EngineValue::Text("a".into())],
        ),
        (
            vec![EngineValue::Integer(2)],
            vec![EngineValue::Text("b".into())],
        ),
    ];
    let order_by = vec![OrderBy {
        expr: QualifiedColumn {
            table: "t".into(),
            column_index: 0,
        },
        direction: SortDirection::Asc,
    }];
    let out = Sorter::new(order_by, false, None, None, input).execute();
    assert_eq!(
        out,
        vec![
            vec![EngineValue::Text("a".into())],
            vec![EngineValue::Text("b".into())],
            vec![EngineValue::Text("c".into())],
        ]
    );
}

#[test]
fn sort_descending() {
    let input = vec![
        (vec![EngineValue::Integer(1)], vec![EngineValue::Integer(1)]),
        (vec![EngineValue::Integer(3)], vec![EngineValue::Integer(3)]),
        (vec![EngineValue::Integer(2)], vec![EngineValue::Integer(2)]),
    ];
    let order_by = vec![OrderBy {
        expr: QualifiedColumn {
            table: "t".into(),
            column_index: 0,
        },
        direction: SortDirection::Desc,
    }];
    let out = Sorter::new(order_by, false, None, None, input).execute();
    assert_eq!(
        out,
        vec![
            vec![EngineValue::Integer(3)],
            vec![EngineValue::Integer(2)],
            vec![EngineValue::Integer(1)],
        ]
    );
}

#[test]
fn sorter_limit_and_offset() {
    let input: Vec<(Vec<EngineValue>, EngineRow)> = (1..=10)
        .map(|i| (vec![], vec![EngineValue::Integer(i)]))
        .collect();
    let out = Sorter::new(vec![], false, Some(3), Some(2), input).execute();
    assert_eq!(
        out,
        vec![
            vec![EngineValue::Integer(3)],
            vec![EngineValue::Integer(4)],
            vec![EngineValue::Integer(5)],
        ]
    );
}

#[test]
fn distinct_deduplicates() {
    let input = vec![
        (vec![], vec![EngineValue::Integer(1)]),
        (vec![], vec![EngineValue::Integer(2)]),
        (vec![], vec![EngineValue::Integer(1)]),
    ];
    let out = Sorter::new(vec![], true, None, None, input).execute();
    assert_eq!(out.len(), 2);
}

fn make_partial(table: &str, row: EngineRow) -> PartialRow {
    let mut m = NameTable::new();
    m.insert(table.to_string(), Some(row));
    m
}

#[test]
fn count_star_all_rows() {
    let input = vec![
        make_partial("t", vec![EngineValue::Integer(1)]),
        make_partial("t", vec![EngineValue::Integer(2)]),
        make_partial("t", vec![EngineValue::Integer(3)]),
    ];
    let agg = Aggregator::new(
        vec![],
        vec![Aggregate::Count(None)],
        None,
        vec![],
        None,
        None,
        input,
    );
    let rows = agg.execute(&float_unit).unwrap();
    assert_eq!(rows.len(), 1);
    assert_eq!(rows[0][0], EngineValue::Integer(3));
}

#[test]
fn sum_column() {
    let col = QualifiedColumn {
        table: "t".into(),
        column_index: 0,
    };
    let input = vec![
        make_partial("t", vec![EngineValue::Integer(10)]),
        make_partial("t", vec![EngineValue::Integer(20)]),
        make_partial("t", vec![EngineValue::Integer(30)]),
    ];
    let agg = Aggregator::new(
        vec![],
        vec![Aggregate::Sum(col)],
        None,
        vec![],
        None,
        None,
        input,
    );
    let rows = agg.execute(&float_unit).unwrap();
    assert_eq!(rows.len(), 1);
    assert_eq!(rows[0][0], EngineValue::Float(60.0f64.to_bits()));
}

#[test]
fn avg_column() {
    let col = QualifiedColumn {
        table: "t".into(),
        column_index: 0,
    };
    let input = vec![
        make_partial("t", vec![EngineValue::Integer(10)]),
        make_partial("t", vec![EngineValue::Integer(20)]),
    ];
    let agg = Aggregator::new(
        vec![],
        vec![Aggregate::Avg(col)],
        None,
        vec![],
        None,
        None,
        input,
    );
    let rows = agg.execute(&float_unit).unwrap();
    assert_eq!(rows.len(), 1);
    assert_eq!(rows[0][0], EngineValue::Float(15.0f64.to_bits()));
}

#[test]
fn min_and_max() {
    let col_min = QualifiedColumn {
        table: "t".into(),
        column_index: 0,
    };
    let col_max = QualifiedColumn {
        table: "t".into(),
        column_index: 0,
    };
    let input = vec![
        make_partial("t", vec![EngineValue::Integer(5)]),
        make_partial("t", vec![EngineValue::Integer(1)]),
        make_partial("t", vec![EngineValue::Integer(9)]),
    ];
    let agg = Aggregator::new(
        vec![],
        vec![Aggregate::Min(col_min), Aggregate::Max(col_max)],
        None,
        vec![],
        None,
        None,
        input,
    );
    let rows = agg.execute(&float_unit).unwrap();
    assert_eq!(rows.len(), 1);
    assert_eq!(rows[0][0], EngineValue::Integer(1));
    assert_eq!(rows[0][1], EngineValue::Integer(9));
}

#[test]
fn group_by_two_groups() {
    let group_col = QualifiedColumn {
        table: "t".into(),
        column_index: 0,
    };
    let count_col = QualifiedColumn {
        table: "t".into(),
        column_index: 1,
    };
    let input = vec![
        make_partial(
            "t",
            vec![EngineValue::Text("a".into()), EngineValue::Integer(1)],
        ),
        make_partial(
            "t",
            vec![EngineValue::Text("a".into()), EngineValue::Integer(2)],
        ),
        make_partial(
            "t",
            vec![EngineValue::Text("b".into()), EngineValue::Integer(3)],
        ),
    ];
    let agg = Aggregator::new(
        vec![group_col],
        vec![Aggregate::Count(Some(count_col))],
        None,
        vec![],
        None,
        None,
        input,
    );
    let mut rows = agg.execute(&float_unit).unwrap();
    rows.sort_by_key(|r| match &r[0] {
        EngineValue::Text(s) => s.clone(),
        _ => String::new(),
    });
    assert_eq!(rows.len(), 2);
    assert_eq!(rows[0][0], EngineValue::Text("a".into()));
    assert_eq!(rows[0][1], EngineValue::Integer(2));
    assert_eq!(rows[1][0], EngineValue::Text("b".into()));
    assert_eq!(rows[1][1], EngineValue::Integer(1));
}

#[test]
fn having_filters_groups() {
    let group_col = QualifiedColumn {
        table: "t".into(),
        column_index: 0,
    };
    let input = vec![
        make_partial("t", vec![EngineValue::Text("a".into())]),
        make_partial("t", vec![EngineValue::Text("a".into())]),
        make_partial("t", vec![EngineValue::Text("b".into())]),
    ];
    let having = HavingPredicate::GreaterThan(RefOrAgg::AggregateIndex(0), EngineValue::Integer(1));
    let agg = Aggregator::new(
        vec![group_col],
        vec![Aggregate::Count(None)],
        Some(having),
        vec![],
        None,
        None,
        input,
    );
    let rows = agg.execute(&float_unit).unwrap();
    assert_eq!(rows.len(), 1);
    assert_eq!(rows[0][0], EngineValue::Text("a".into()));
    assert_eq!(rows[0][1], EngineValue::Integer(2));
}

#[test]
fn aggregate_limit_and_offset() {
    let input = vec![
        make_partial("t", vec![EngineValue::Integer(1)]),
        make_partial("t", vec![EngineValue::Integer(2)]),
        make_partial("t", vec![EngineValue::Integer(3)]),
        make_partial("t", vec![EngineValue::Integer(4)]),
        make_partial("t", vec![EngineValue::Integer(5)]),
    ];
    let agg = Aggregator::new(
        vec![],
        vec![Aggregate::Count(None)],
        None,
        vec![],
        Some(1),
        Some(0),
        input,
    );
    let rows = agg.execute(&float_unit).unwrap();
    assert_eq!(rows.len(), 1);
    assert_eq!(rows[0][0], EngineValue::Integer(5));
}

fn partial_of(table: &str, row: Option<EngineRow>) -> JoinedRowState {
    let mut m = NameTable::new();
    m.insert(table.to_string(), row);
    m
}

fn qc(table: &str, idx: usize) -> QualifiedColumn {
    QualifiedColumn {
        table: table.into(),
        column_index: idx,
    }
}

#[test]
fn inner_join_matching_rows() {
    let left = vec![partial_of("a", Some(vec![EngineValue::Integer(1)]))];
    let right = vec![vec![EngineValue::Integer(1)]];
    let result = apply_inner_join(&left, &right, "b", &qc("a", 0), &qc("b", 0));
    assert_eq!(result.len(), 1);
    assert_eq!(result[0].get("b"), Some(&Some(vec![EngineValue::Integer(1)])));
}

#[test]
fn inner_join_no_match_returns_empty() {
    let left = vec![partial_of("a", Some(vec![EngineValue::Integer(1)]))];
    let right = vec![vec![EngineValue::Integer(2)]];
    let result = apply_inner_join(&left, &right, "b", &qc("a", 0), &qc("b", 0));
    assert!(result.is_empty());
}

#[test]
fn left_join_no_right_match_preserves_left() {
    let left = vec![partial_of("a", Some(vec![EngineValue::Integer(1)]))];
    let right: Vec<EngineRow> = vec![];
    let result = apply_left_join(&left, &right, "b", &qc("a", 0), &qc("b", 0));
    assert_eq!(result.len(), 1);
    assert_eq!(result[0].get("b"), Some(&None));
}

#[test]
fn right_join_no_left_match_preserves_right() {
    let left: Vec<JoinedRowState> = vec![];
    let right = vec![vec![EngineValue::Integer(99)]];
    let template = partial_of("a", None);
    let result = apply_right_join(&left, &right, "b", &qc("a", 0), &qc("b", 0), &template);
    assert_eq!(result.len(), 1);
    assert_eq!(result[0].get("b"), Some(&Some(vec![EngineValue::Integer(99)])));
    assert_eq!(result[0].get("a"), Some(&None));
}

#[test]
fn full_join_includes_unmatched_from_both_sides() {
    let left = vec![partial_of("a", Some(vec![EngineValue::Integer(1)]))];
    let right = vec![vec![EngineValue::Integer(2)]];
    let template = partial_of("a", None);
    let result = apply_full_join(&left, &right, "b", &qc("a", 0), &qc("b", 0), &template);
    // left row unmatched → appears with None right
    // right row unmatched → appears with None left
    assert_eq!(result.len(), 2);
}

fn row_of(id: i64) -> EngineRow {
    vec![EngineValue::Integer(id)]
}

fn row_const() -> EngineRow {
    vec![EngineValue::Integer(1)]
}

#[test]
fn expand_with_from_tables_builds_cartesian_product() {
    let mut base: JoinedRowState = NameTable::new();
    base.insert("users".into(), Some(row_of(1)));
    let partial_results = vec![base.duplicate(), base];

    let mut table_rows_map: TableRows = NameTable::new();
    table_rows_map.insert("sources".into(), vec![row_of(10), row_of(11), row_of(12)]);

    let expanded = expand_with_from_tables(partial_results, &vec!["sources".into()], &table_rows_map)
        .expect("expand from tables");

    assert_eq!(expanded.len(), 6);
    for state in expanded {
        assert!(state.contains_key("users"));
        assert!(state.contains_key("sources"));
        assert!(
            state
                .get("sources")
                .and_then(|value| value.as_ref())
                .is_some()
        );
    }
}

#[test]
fn expand_with_from_tables_empty_source_clears_results() {
    let mut base: JoinedRowState = NameTable::new();
    base.insert("users".into(), Some(row_of(1)));
    let partial_results = vec![base];

    let table_rows_map: TableRows = NameTable::new();

    let expanded = expand_with_from_tables(partial_results, &vec!["sources".into()], &table_rows_map)
        .expect("expand from tables");

    assert!(expanded.is_empty());
}

#[test]
fn apply_join_clauses_rejects_excessive_state_growth() {
    let mut template: JoinedRowState = NameTable::new();
    template.insert("left".into(), None);
    template.insert("right".into(), None);

    let partial_results: JoinedRowStates = (0..500)
        .map(|_| {
            let mut state = template.duplicate();
            state.insert("left".into(), Some(row_const()));
            state
        })
        .collect();

    let right_rows: Vec<EngineRow> = (0..500).map(|_| row_const()).collect();

    let mut table_rows_map: TableRows = NameTable::new();
    table_rows_map.insert("right".into(), right_rows);

    let joins = vec![JoinClause {
        kind: JoinKind::Left,
        left_table: "left".into(),
        right_table: "right".into(),
        on: JoinOn::ColumnEq {
            left: QualifiedColumn {
                table: "left".into(),
                column_index: 0,
            },
            right: QualifiedColumn {
                table: "right".into(),
                column_index: 0,
            },
        },
    }];

    let result = apply_join_clauses(&joins, &table_rows_map, &template, partial_results);

    assert!(matches!(result, Err(EngineError::QueryLimitExceeded(_))));
}

#[test]
fn build_select_ex_shape() {
    let left_col = QualifiedColumn {
        table: "users".into(),
        column_index: 0,
    };
    let right_col = QualifiedColumn {
        table: "orders".into(),
        column_index: 0,
    };

    let join = JoinClause {
        kind: JoinKind::Inner,
        left_table: "users".into(),
        right_table: "orders".into(),
        on: JoinOn::ColumnEq {
            left: left_col.clone(),
            right: right_col.clone(),
        },
    };

    let options = SelectOptions {
        joins: vec![join],
        aggregates: vec![Aggregate::Count(None)],
        group_by: vec![left_col.clone()],
        order_by: vec![OrderBy {
            expr: left_col.clone(),
            direction: SortDirection::Asc,
        }],
        limit: Some(10),
        offset: Some(0),
        distinct: false,
        having: None,
    };

    let q = EngineQuery::Select {
        table: "users".into(),
        projection: vec![left_col],
        predicate: None,
        options: Box::new(options),
    };

    match q {
        EngineQuery::Select { .. } => {}
        _ => panic!("expected Select variant"),
    }
}
