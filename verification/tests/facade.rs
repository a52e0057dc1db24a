//! The database as its users see it: SQL, transactions, subscriptions, scopes.
use aicacia_db::access_control::SyncScope;
use aicacia_db::change_event::ChangeEvent;
use aicacia_db::error::BTreeError;
use aicacia_db::facade::{Database, DatabaseError, InMemoryEngineStore};
use aicacia_db::float::FloatOp;
use aicacia_db::query::{
    EngineQuery, JoinClause, JoinKind, JoinOn, QualifiedColumn, QualifiedOperand,
    QualifiedPredicate, SelectOptions,
};
use aicacia_db::sql::mapper::DefaultValueMapper;
use aicacia_db::store::{Changes, EngineStore, IndexStore, NamedTreeProvider, RowStore, Trees};
use aicacia_db::value::{EngineKey, EngineRow, EngineType, EngineValue};

type FloatUnit = fn(FloatOp) -> u64;
type FloatParser = fn(&str) -> Result<u64, String>;
type Db = Database<InMemoryEngineStore, FloatUnit, FloatParser>;

fn float_unit(op: FloatOp) -> u64 {
    match op {
        FloatOp::Sum(a, b) => (f64::from_bits(a) + f64::from_bits(b)).to_bits(),
        FloatOp::Difference(a, b) => (f64::from_bits(a) - f64::from_bits(b)).to_bits(),
        FloatOp::Product(a, b) => (f64::from_bits(a) * f64::from_bits(b)).to_bits(),
        FloatOp::Quotient(a, b) => (f64::from_bits(a) / f64::from_bits(b)).to_bits(),
        FloatOp::OfInteger(i) => (i as f64).to_bits(),
        FloatOp::OfCount(n) => (n as f64).to_bits(),
        FloatOp::ToInteger(a) => (f64::from_bits(a) as i64) as u64,
    }
}

fn parse_float(text: &str) -> Result<u64, String> {
    match text.parse::<f64>() {
        Ok(x) => Ok(x.to_bits()),
        Err(e) => Err(e.to_string()),
    }
}

fn open() -> Db {
    Database::open_in_memory_sync(float_unit as FloatUnit, parse_float as FloatParser)
}

fn whole(i: i64) -> EngineValue {
    EngineValue::Integer(i)
}

fn text(s: &str) -> EngineValue {
    EngineValue::Text(s.to_string())
}

fn double(x: f64) -> EngineValue {
    EngineValue::Float(x.to_bits())
}

fn rows(db: &mut Db, sql: &str) -> Vec<EngineRow> {
    db.execute_sql(sql).expect("a statement that goes through").rows
}

fn refusal(db: &mut Db, sql: &str) -> String {
    db.execute_sql(sql).unwrap_err().message()
}

fn with_people() -> Db {
    let mut db = open();
    rows(
        &mut db,
        "CREATE TABLE people (id INTEGER PRIMARY KEY, name TEXT, city TEXT, age INTEGER)",
    );
    for row in [
        "(1, 'Ada', 'London', 36)",
        "(2, 'Kurt', 'Vienna', 30)",
        "(3, 'Emmy', 'Bremen', 42)",
        "(4, 'Lise', 'Vienna', NULL)",
    ] {
        rows(
            &mut db,
            &format!("INSERT INTO people (id, name, city, age) VALUES {row}"),
        );
    }
    db
}

#[test]
fn tables_come_and_go_by_sql() {
    let mut db = open();
    assert!(db.describe_table("t").is_none());
    rows(&mut db, "CREATE TABLE t (a INTEGER, b TEXT, c FLOAT, PRIMARY KEY (b, a))");
    let t = db.describe_table("t").expect("the table");
    assert_eq!(t.primary_key, vec![1, 0]);
    assert_eq!(t.columns[0].data_type, EngineType::Integer);
    assert_eq!(t.columns[1].data_type, EngineType::Text);
    assert_eq!(t.columns[2].data_type, EngineType::Float);
    assert_eq!(
        refusal(&mut db, "CREATE TABLE t (a INTEGER PRIMARY KEY)"),
        "engine error: table already exists: t"
    );
    rows(&mut db, "DROP TABLE t");
    assert!(db.describe_table("t").is_none());
    assert_eq!(
        refusal(&mut db, "DROP TABLE t"),
        "engine error: table not found: t"
    );
}

#[test]
fn indexes_come_and_go_by_sql() {
    let mut db = with_people();
    rows(&mut db, "CREATE UNIQUE INDEX by_name ON people (name)");
    rows(&mut db, "INSERT INTO people (id, name, city, age) VALUES (5, 'Max', 'Kiel', 50)");
    let message = refusal(
        &mut db,
        "INSERT INTO people (id, name, city, age) VALUES (6, 'Max', 'Kiel', 51)",
    );
    assert!(message.contains("by_name"), "{message}");
    assert_eq!(rows(&mut db, "SELECT id FROM people WHERE id = 6"), Vec::<EngineRow>::new());
    rows(&mut db, "DROP INDEX by_name");
    rows(&mut db, "INSERT INTO people (id, name, city, age) VALUES (6, 'Max', 'Kiel', 51)");
    assert_eq!(
        rows(&mut db, "SELECT id FROM people WHERE name = 'Max' ORDER BY id DESC"),
        vec![vec![whole(6)], vec![whole(5)]]
    );
    assert_eq!(
        refusal(&mut db, "DROP INDEX by_name"),
        "engine error: index not found: by_name"
    );
}

#[test]
fn selections_filter_sort_and_slice() {
    let mut db = with_people();
    assert_eq!(
        rows(&mut db, "SELECT name FROM people WHERE age > 30 ORDER BY age DESC"),
        vec![vec![text("Emmy")], vec![text("Ada")]]
    );
    assert_eq!(
        rows(&mut db, "SELECT name FROM people WHERE age IS NULL"),
        vec![vec![text("Lise")]]
    );
    assert_eq!(
        rows(&mut db, "SELECT name FROM people WHERE NOT city = 'Vienna' ORDER BY name"),
        vec![vec![text("Ada")], vec![text("Emmy")]]
    );
    assert_eq!(
        rows(&mut db, "SELECT name FROM people WHERE id IN (4, 2) ORDER BY name LIMIT 1 OFFSET 1"),
        vec![vec![text("Lise")]]
    );
    assert_eq!(
        rows(&mut db, "SELECT DISTINCT city FROM people ORDER BY city"),
        vec![vec![text("Bremen")], vec![text("London")], vec![text("Vienna")]]
    );
    assert_eq!(
        rows(
            &mut db,
            "SELECT name FROM people WHERE city IN (SELECT city FROM people WHERE age = 30) ORDER BY id",
        ),
        vec![vec![text("Kurt")], vec![text("Lise")]]
    );
    // A missing value comes before every number.
    assert_eq!(
        rows(&mut db, "SELECT name FROM people WHERE age < 31 ORDER BY age"),
        vec![vec![text("Lise")], vec![text("Kurt")]]
    );
    assert_eq!(rows(&mut db, "SELECT * FROM people").len(), 4);
}

#[test]
fn groups_have_their_aggregates() {
    let mut db = with_people();
    assert_eq!(
        rows(
            &mut db,
            "SELECT city, COUNT(*), COUNT(age), SUM(age), MIN(age), MAX(age), AVG(age) \
             FROM people GROUP BY city ORDER BY city",
        ),
        vec![
            vec![
                text("Bremen"),
                whole(1),
                whole(1),
                double(42.0),
                whole(42),
                whole(42),
                double(42.0)
            ],
            vec![
                text("London"),
                whole(1),
                whole(1),
                double(36.0),
                whole(36),
                whole(36),
                double(36.0)
            ],
            vec![
                text("Vienna"),
                whole(2),
                whole(1),
                double(30.0),
                EngineValue::Null,
                whole(30),
                double(30.0)
            ],
        ]
    );
    assert_eq!(
        rows(
            &mut db,
            "SELECT city, COUNT(*) FROM people GROUP BY city HAVING COUNT(*) > 1",
        ),
        vec![vec![text("Vienna"), whole(2)]]
    );
}

#[test]
fn joins_by_sql() {
    let mut db = with_people();
    rows(&mut db, "CREATE TABLE works (id INTEGER PRIMARY KEY, who INTEGER, title TEXT)");
    rows(&mut db, "INSERT INTO works (id, who, title) VALUES (1, 1, 'Notes')");
    rows(&mut db, "INSERT INTO works (id, who, title) VALUES (2, 3, 'Invariants')");
    rows(&mut db, "INSERT INTO works (id, who, title) VALUES (3, 9, 'Lost')");
    assert_eq!(
        rows(
            &mut db,
            "SELECT p.name, w.title FROM people p JOIN works w ON p.id = w.who ORDER BY p.id",
        ),
        vec![
            vec![text("Ada"), text("Notes")],
            vec![text("Emmy"), text("Invariants")]
        ]
    );
    assert_eq!(
        rows(
            &mut db,
            "SELECT p.name, w.title FROM people p RIGHT JOIN works w ON p.id = w.who \
             WHERE w.id = 3",
        ),
        vec![vec![EngineValue::Null, text("Lost")]]
    );
    assert_eq!(
        rows(
            &mut db,
            "SELECT p.name FROM people p LEFT JOIN works w ON p.id = w.who \
             WHERE w.id IS NULL ORDER BY p.id",
        ),
        vec![vec![text("Kurt")], vec![text("Lise")]]
    );
}

#[test]
fn updates_and_deletes_by_sql() {
    let mut db = with_people();
    assert_eq!(
        rows(
            &mut db,
            "UPDATE people SET age = age + 1, city = 'Wien' WHERE city = 'Vienna' AND id = 2 \
             RETURNING id, age",
        ),
        vec![vec![whole(2), whole(31)]]
    );
    assert_eq!(
        rows(&mut db, "DELETE FROM people WHERE age < 40 AND age IS NOT NULL RETURNING name"),
        vec![vec![text("Ada")], vec![text("Kurt")]]
    );
    assert_eq!(
        rows(&mut db, "SELECT id FROM people ORDER BY id"),
        vec![vec![whole(3)], vec![whole(4)]]
    );
}

#[test]
fn what_was_written_is_read_back() {
    let mut db = with_people();
    rows(&mut db, "INSERT INTO people (id, name, city, age) VALUES (9, 'Sofia', 'Moscow', 53)");
    assert_eq!(
        rows(&mut db, "SELECT name, age FROM people WHERE age > 50"),
        vec![vec![text("Sofia"), whole(53)]]
    );
    rows(&mut db, "UPDATE people SET id = id + 10, city = 'Stockholm' WHERE name = 'Sofia'");
    assert_eq!(rows(&mut db, "SELECT id FROM people WHERE id = 9"), Vec::<EngineRow>::new());
    assert_eq!(
        rows(&mut db, "SELECT id, name, city, age FROM people WHERE id > 4"),
        vec![vec![whole(19), text("Sofia"), text("Stockholm"), whole(53)]]
    );
    rows(&mut db, "DELETE FROM people WHERE id > 1");
    assert_eq!(rows(&mut db, "SELECT id FROM people WHERE id > 1"), Vec::<EngineRow>::new());
    assert_eq!(rows(&mut db, "SELECT id FROM people"), vec![vec![whole(1)]]);
}

#[test]
fn a_statement_that_fails_changes_nothing() {
    let mut db = with_people();
    db.take_events();
    assert!(db.execute_sql("UPDATE people SET age = age / 0 WHERE id = 1").is_err());
    assert!(db
        .execute_sql("INSERT INTO people (id, name, city, age) VALUES (1, 'X', 'Y', 1)")
        .is_err());
    assert!(db.execute_sql("UPDATE people SET id = 7").is_err());
    assert!(db.take_events().is_empty());
    assert_eq!(
        rows(&mut db, "SELECT id, age FROM people ORDER BY id"),
        vec![
            vec![whole(1), whole(36)],
            vec![whole(2), whole(30)],
            vec![whole(3), whole(42)],
            vec![whole(4), EngineValue::Null]
        ]
    );
}

#[test]
fn refused_sql_is_put_into_words() {
    let mut db = with_people();
    assert!(refusal(&mut db, "SELEC id FROM people").starts_with("sql parse error: "));
    assert_eq!(
        refusal(&mut db, "SELECT id FROM nobody"),
        "unknown table: nobody"
    );
    assert_eq!(
        refusal(&mut db, "SELECT shoe FROM people"),
        "unknown column: shoe"
    );
    assert_eq!(
        refusal(&mut db, ""),
        "unsupported feature: only a single statement is supported"
    );
    assert_eq!(refusal(&mut db, "COMMIT"), "unsupported statement");
    assert_eq!(
        refusal(&mut db, "SELECT id FROM people WHERE (id = 1)"),
        "unsupported feature: unsupported WHERE expression"
    );
    assert_eq!(
        refusal(&mut db, "CREATE TABLE d (x DOUBLE PRIMARY KEY)"),
        "unsupported feature: unsupported CREATE TABLE data type: Double(None)"
    );
}

#[test]
fn the_first_statement_of_a_text_counts() {
    let mut db = with_people();
    assert_eq!(
        rows(&mut db, "SELECT id FROM people WHERE id = 1; DELETE FROM people"),
        vec![vec![whole(1)]]
    );
    assert_eq!(rows(&mut db, "SELECT id FROM people").len(), 4);
    rows(&mut db, "DELETE FROM people WHERE id = 1; SELECT id FROM people;");
    assert_eq!(rows(&mut db, "SELECT id FROM people").len(), 3);
    let (_, first) = db
        .subscribe_sql("SELECT id FROM people WHERE id = 2; DROP TABLE people", None)
        .expect("subscribe");
    assert_eq!(first.rows, vec![vec![whole(2)]]);
}

#[test]
fn texts_that_the_parser_has_no_answer_to_are_refused() {
    let mut db = with_people();
    for sql in [
        "SET AUTHORIZATION DEFAULT",
        "set authorization ada",
        "SET /* whose? */ AUTHORIZATION 'ada'",
        "SET HIVEVAR:AUTHORIZATION ada",
        "EXPLAIN SET AUTHORIZATION \"ada\"",
        "SELECT id FROM people; SET AUTHORIZATION ada",
        "FLUSH RELAY LOGS FOR CHANNEL",
        "flush local relay logs for -- which?\n channel",
        "SELECT id FROM people; FLUSH RELAY LOGS FOR CHANNEL 1",
        "FLUSH RELAY LOGS FOR CHANNEL a.",
        "EXPLAIN (ANALYZE) SET AUTHORIZATION ada",
        "EXPLAIN ANALYZE VERBOSE SET AUTHORIZATION ada",
        "DESCRIBE FLUSH RELAY LOGS FOR CHANNEL",
        "PREPARE p AS SET AUTHORIZATION ada",
        "IF 1 THEN SET AUTHORIZATION ada; END IF",
        "WHILE 1 SET AUTHORIZATION ada; END",
        "CREATE TRIGGER t BEFORE UPDATE ON people SET AUTHORIZATION ada; END",
        "CREATE PROCEDURE p AS BEGIN SET AUTHORIZATION ada; END",
    ] {
        assert_eq!(
            refusal(&mut db, sql),
            "sql parse error: sql parser error: SET AUTHORIZATION needs a session and FLUSH RELAY \
             LOGS FOR CHANNEL a name",
            "{sql}"
        );
        assert!(db.subscribe_sql(sql, None).is_err());
    }
    for sql in [
        "SET SESSION AUTHORIZATION ada",
        "SET SESSION AUTHORIZATION DEFAULT",
        "SET people = 1",
        "FLUSH RELAY LOGS",
        "FLUSH RELAY LOGS FOR CHANNEL c",
        "FLUSH LOCAL RELAY LOGS FOR CHANNEL a.b",
        "FLUSH NO_WRITE_TO_BINLOG RELAY LOGS FOR CHANNEL 'c'",
        "FLUSH TABLES people",
        "EXPLAIN SELECT set authorization FROM people",
        "CREATE SCHEMA set AUTHORIZATION ada",
    ] {
        assert_eq!(refusal(&mut db, sql), "unsupported statement", "{sql}");
    }
    assert!(refusal(&mut db, "SET AUTHORIZATION = 1").starts_with("sql parse error: "));
    rows(&mut db, "UPDATE people SET name = 'SET AUTHORIZATION ada' WHERE id = 1");
    assert_eq!(
        rows(&mut db, "SELECT name FROM people WHERE name = 'SET AUTHORIZATION ada'").len(),
        1
    );
    rows(&mut db, "CREATE TABLE notes (id INTEGER PRIMARY KEY, authorization TEXT)");
    rows(&mut db, "INSERT INTO notes (id, authorization) VALUES (1, 'a')");
    rows(&mut db, "UPDATE notes SET authorization = 'b' WHERE id = 1");
    assert_eq!(rows(&mut db, "SELECT authorization FROM notes"), vec![vec![text("b")]]);
    rows(&mut db, "CREATE TABLE words (id INTEGER PRIMARY KEY, set TEXT)");
    rows(&mut db, "INSERT INTO words (id, set) VALUES (1, 'a')");
    for sql in [
        "SELECT set authorization FROM words",
        "SELECT words.id, set authorization FROM words",
        "SELECT set authorization FROM words ORDER BY id DESC",
    ] {
        assert_eq!(rows(&mut db, sql)[0].last(), Some(&text("a")), "{sql}");
    }
}

#[test]
fn transactions_commit_or_roll_back() {
    let mut db = with_people();
    let mapper = DefaultValueMapper { parse_float: parse_float as FloatParser };
    db.take_events();

    let mut tx = db.transaction();
    let catalog = tx.catalog();
    tx.insert_row("people", vec![whole(8), text("Sofia"), text("Moscow"), whole(41)])
        .expect("insert");
    tx.execute_sql(catalog, "DELETE FROM people WHERE id = 1", &mapper)
        .expect("delete");
    let refused = tx
        .execute_sql(catalog, "SELECT id FROM people", &mapper)
        .unwrap_err();
    assert_eq!(
        refused,
        DatabaseError::Other(
            "SELECT inside transaction not supported; use Database::execute_sql instead".into()
        )
    );
    tx.rollback().expect("rollback");
    assert!(db.take_events().is_empty());
    assert_eq!(rows(&mut db, "SELECT id FROM people").len(), 4);

    let mut tx = db.transaction();
    let catalog = tx.catalog();
    tx.insert_row("people", vec![whole(8), text("Sofia"), text("Moscow"), whole(41)])
        .expect("insert");
    tx.execute_sql(catalog, "DELETE FROM people WHERE id = 1", &mapper)
        .expect("delete");
    tx.commit().expect("commit");
    assert_eq!(
        rows(&mut db, "SELECT id FROM people ORDER BY id"),
        vec![vec![whole(2)], vec![whole(3)], vec![whole(4)], vec![whole(8)]]
    );
    let events = db.take_events();
    assert_eq!(events.len(), 2);
    assert_eq!(
        events[0],
        ChangeEvent::RowInserted {
            table: "people".into(),
            pk: EngineKey::from_values(vec![whole(8)]),
            row: vec![whole(8), text("Sofia"), text("Moscow"), whole(41)],
        }
    );
    assert_eq!(events[1].table(), "people");
    assert_eq!(events[1].pk(), &EngineKey::from_values(vec![whole(1)]));

    let tx = db.transaction();
    assert_eq!(
        tx.settle::<()>(Err(DatabaseError::Other("no".into()))),
        Err(DatabaseError::Other("no".into()))
    );
    let tx = db.transaction();
    assert_eq!(tx.settle(Ok(5)), Ok(5));
}

#[test]
fn subscribers_hear_of_every_change_of_their_results() {
    let mut db = with_people();
    db.take_events();
    let (older, first) = db
        .subscribe_sql("SELECT name FROM people WHERE age > 35 ORDER BY id", None)
        .expect("subscribe");
    assert_eq!(first.rows, vec![vec![text("Ada")], vec![text("Emmy")]]);
    let (counted, _) = db
        .subscribe_sql("SELECT COUNT(*) FROM people GROUP BY city", None)
        .expect("subscribe");
    assert!(older != counted);

    // A change that leaves the results of one of them as they are.
    rows(&mut db, "INSERT INTO people (id, name, city, age) VALUES (5, 'Jo', 'Rome', 20)");
    let (events, told) = db.tell_subscribers();
    assert_eq!(events.len(), 1);
    assert_eq!(told.len(), 1);
    assert_eq!(told[0].0, counted);

    rows(&mut db, "UPDATE people SET age = 70 WHERE id = 5");
    let (_, told) = db.tell_subscribers();
    assert_eq!(told.len(), 1);
    assert_eq!(told[0].0, older);
    assert_eq!(
        told[0].1.as_ref().expect("results").rows,
        vec![vec![text("Ada")], vec![text("Emmy")], vec![text("Jo")]]
    );

    // A change of a table that neither refers to.
    rows(&mut db, "CREATE TABLE other (id INTEGER PRIMARY KEY)");
    rows(&mut db, "INSERT INTO other (id) VALUES (1)");
    let (events, told) = db.tell_subscribers();
    assert_eq!(events.len(), 1);
    assert!(told.is_empty());

    db.unsubscribe(older).expect("unsubscribe");
    rows(&mut db, "DELETE FROM people WHERE id = 5");
    let (_, told) = db.tell_subscribers();
    assert_eq!(told.len(), 1);
    assert_eq!(told[0].0, counted);
    assert!(db.take_events().is_empty());
}

#[test]
fn subscribers_hear_of_the_tables_of_subqueries() {
    let mut db = with_people();
    rows(&mut db, "CREATE TABLE chosen (id INTEGER PRIMARY KEY, city TEXT)");
    db.take_events();
    let (id, first) = db
        .subscribe_sql(
            "SELECT name FROM people WHERE city IN (SELECT city FROM chosen) ORDER BY id",
            None,
        )
        .expect("subscribe");
    assert!(first.rows.is_empty());
    rows(&mut db, "INSERT INTO chosen (id, city) VALUES (1, 'Vienna')");
    let (_, told) = db.tell_subscribers();
    assert_eq!(told.len(), 1);
    assert_eq!(told[0].0, id);
    assert_eq!(
        told[0].1.as_ref().expect("results").rows,
        vec![vec![text("Kurt")], vec![text("Lise")]]
    );
}

#[test]
fn only_selections_are_followed_by_sql() {
    let mut db = with_people();
    db.take_events();
    for sql in [
        "INSERT INTO people (id, name, city, age) VALUES (9, 'A', 'B', 1)",
        "DELETE FROM people",
        "UPDATE people SET age = 1",
        "CREATE TABLE x (id INTEGER PRIMARY KEY)",
    ] {
        let refused = db.subscribe_sql(sql, None).unwrap_err();
        assert_eq!(
            refused,
            DatabaseError::Other("subscribe_sql only accepts SELECT statements".into())
        );
    }
    assert_eq!(rows(&mut db, "SELECT id FROM people").len(), 4);
    assert!(db.take_events().is_empty());
}

fn column(table: &str, column_index: usize) -> QualifiedOperand {
    QualifiedOperand::Column(QualifiedColumn {
        table: table.into(),
        column_index,
    })
}

fn in_vienna() -> QualifiedPredicate {
    QualifiedPredicate::Equals(column("people", 2), QualifiedOperand::Value(text("Vienna")))
}

#[test]
fn a_scope_hides_tables_and_rows() {
    let mut db = with_people();
    let all = EngineQuery::select_simple("people".into(), vec![1], None);
    let adults = EngineQuery::select_simple(
        "people".into(),
        vec![1],
        Some(QualifiedPredicate::GreaterThan(
            column("people", 3),
            QualifiedOperand::Value(whole(18)),
        )),
    );
    let everything = SyncScope::unrestricted();
    assert_eq!(db.execute_with_scope(&all, &everything).unwrap().rows.len(), 4);

    let elsewhere = SyncScope::new(vec!["works".to_string()]);
    assert_eq!(
        db.execute_with_scope(&all, &elsewhere).unwrap_err().message(),
        "engine error: table not found: people"
    );
    assert!(db.subscribe_query(&all, Some(elsewhere)).is_err());

    let narrow = SyncScope::new(vec!["people".to_string()])
        .add_filter("people".to_string(), in_vienna());
    assert_eq!(
        db.execute_with_scope(&all, &narrow).unwrap().rows,
        vec![vec![text("Kurt")], vec![text("Lise")]]
    );
    assert_eq!(
        db.execute_with_scope(&adults, &narrow).unwrap().rows,
        vec![vec![text("Kurt")]]
    );

    // A subquery does not reach around the scope.
    let nested = EngineQuery::select_simple(
        "people".into(),
        vec![1],
        Some(QualifiedPredicate::InSubquery {
            expr: QualifiedColumn { table: "people".into(), column_index: 0 },
            subquery: Box::new(EngineQuery::select_simple(
                "works".into(),
                vec![0],
                None,
            )),
            negated: false,
        }),
    );
    assert_eq!(
        db.execute_with_scope(&nested, &narrow).unwrap_err().message(),
        "engine error: table not found: works"
    );

    // A deletion takes the rows that are seen.
    let delete = EngineQuery::Delete {
        table: "people".into(),
        predicate: None,
        returning: None,
    };
    db.execute_with_scope(&delete, &narrow).expect("delete");
    assert_eq!(
        rows(&mut db, "SELECT name FROM people ORDER BY id"),
        vec![vec![text("Ada")], vec![text("Emmy")]]
    );
}

#[test]
fn a_subscriber_hears_of_what_its_scope_shows() {
    let mut db = with_people();
    db.take_events();
    let all = EngineQuery::select_simple("people".into(), vec![1], None);
    let narrow = SyncScope::unrestricted().add_filter("people".to_string(), in_vienna());
    let (_, first) = db.subscribe_query(&all, Some(narrow)).expect("subscribe");
    assert_eq!(first.rows.len(), 2);

    rows(&mut db, "UPDATE people SET name = 'Augusta' WHERE id = 1");
    let (events, told) = db.tell_subscribers();
    assert_eq!(events.len(), 1);
    assert!(told.is_empty());

    rows(&mut db, "UPDATE people SET city = 'Vienna' WHERE id = 1");
    let (_, told) = db.tell_subscribers();
    assert_eq!(
        told[0].1.as_ref().expect("results").rows,
        vec![vec![text("Augusta")], vec![text("Kurt")], vec![text("Lise")]]
    );
}

#[test]
fn a_store_that_is_opened_again_knows_its_tables() {
    let mut db = with_people();
    rows(&mut db, "CREATE INDEX by_city ON people (city)");
    rows(&mut db, "CREATE TABLE gone (id INTEGER PRIMARY KEY)");
    rows(&mut db, "DROP TABLE gone");
    let store = db.engine.kernel.store;
    let mut again = Database::open_with_store(
        store,
        float_unit as FloatUnit,
        parse_float as FloatParser,
    )
    .expect("open again");
    assert!(again.describe_table("gone").is_none());
    assert_eq!(again.describe_table("people").expect("people").columns.len(), 4);
    assert_eq!(rows(&mut again, "SELECT id FROM people").len(), 4);
    assert_eq!(
        refusal(&mut again, "CREATE INDEX by_city ON people (name)"),
        "engine error: index already exists: by_city"
    );
}

fn vec_of(table: &str, columns: &[usize]) -> Vec<QualifiedColumn> {
    columns
        .iter()
        .map(|i| QualifiedColumn { table: table.to_string(), column_index: *i })
        .collect()
}

fn with_works() -> Db {
    let mut db = with_people();
    rows(
        &mut db,
        "CREATE TABLE works (id INTEGER PRIMARY KEY, author INTEGER, title TEXT)",
    );
    rows(&mut db, "CREATE TABLE cities (id INTEGER PRIMARY KEY, name TEXT)");
    rows(&mut db, "INSERT INTO works (id, author, title) VALUES (1, 2, 'On')");
    rows(&mut db, "INSERT INTO cities (id, name) VALUES (1, 'Vienna')");
    db.take_events();
    db
}

#[test]
fn a_subscriber_hears_of_the_tables_of_its_filters() {
    let mut db = with_works();
    let in_known_cities = QualifiedPredicate::InSubquery {
        expr: QualifiedColumn { table: "people".into(), column_index: 2 },
        subquery: Box::new(EngineQuery::select_simple("cities".into(), vec![1], None)),
        negated: false,
    };
    let scope = SyncScope::new(vec!["people".to_string()])
        .add_filter("people".to_string(), in_known_cities);
    let all = EngineQuery::select_simple("people".into(), vec![1], None);
    let (id, first) = db.subscribe_query(&all, Some(scope)).expect("subscribe");
    assert_eq!(first.rows, vec![vec![text("Kurt")], vec![text("Lise")]]);

    rows(&mut db, "INSERT INTO cities (id, name) VALUES (2, 'London')");
    let (_, told) = db.tell_subscribers();
    assert_eq!(told.len(), 1);
    assert_eq!(told[0].0, id);
    assert_eq!(
        told[0].1.as_ref().expect("results").rows,
        vec![vec![text("Ada")], vec![text("Kurt")], vec![text("Lise")]]
    );
    rows(&mut db, "INSERT INTO works (id, author, title) VALUES (2, 1, 'Off')");
    assert!(db.tell_subscribers().1.is_empty());
}

fn people_and_works(kind: JoinKind) -> EngineQuery {
    let mut projection = vec_of("people", &[1]);
    projection.extend(vec_of("works", &[2]));
    EngineQuery::Select {
        table: "people".into(),
        projection,
        predicate: None,
        options: Box::new(SelectOptions {
            joins: vec![JoinClause {
                kind,
                left_table: "people".into(),
                right_table: "works".into(),
                on: JoinOn::ColumnEq {
                    left: QualifiedColumn { table: "people".into(), column_index: 0 },
                    right: QualifiedColumn { table: "works".into(), column_index: 1 },
                },
            }],
            ..SelectOptions::default()
        }),
    }
}

#[test]
fn a_subscriber_hears_of_hidden_rows_that_others_missed() {
    let mut db = with_works();
    let untitled = QualifiedPredicate::IsNull(QualifiedColumn {
        table: "works".into(),
        column_index: 2,
    });
    let scope = SyncScope::unrestricted()
        .add_filter("works".to_string(), untitled)
        .add_filter("people".to_string(), in_vienna());
    let left = people_and_works(JoinKind::Left);
    let inner = people_and_works(JoinKind::Inner);
    let (left_id, first) = db.subscribe_query(&left, Some(scope.clone())).expect("left");
    assert_eq!(first.rows, vec![vec![text("Lise"), EngineValue::Null]]);
    let (inner_id, first) = db.subscribe_query(&inner, Some(scope)).expect("inner");
    assert!(first.rows.is_empty());

    // The row that goes is hidden, and the one that it was joined to appears.
    rows(&mut db, "DELETE FROM works WHERE id = 1");
    let (events, told) = db.tell_subscribers();
    assert_eq!(told.len(), 1);
    assert_eq!(told[0].0, left_id);
    assert_eq!(
        told[0].1.as_ref().expect("results").rows,
        vec![vec![text("Kurt"), EngineValue::Null], vec![text("Lise"), EngineValue::Null]]
    );
    assert_eq!(db.engine.subscriptions.affected_by_change(&events[0]), vec![left_id]);

    rows(&mut db, "INSERT INTO works (id, author, title) VALUES (2, 2, NULL)");
    let (events, told) = db.tell_subscribers();
    assert_eq!(
        db.engine.subscriptions.affected_by_change(&events[0]),
        vec![left_id, inner_id]
    );
    assert_eq!(told.len(), 1);
    assert_eq!(
        told[0].1.as_ref().expect("results").rows,
        vec![vec![text("Kurt"), EngineValue::Null]]
    );
}

#[test]
fn subscribers_hear_of_all_writes_of_a_transaction() {
    let mut db = with_works();
    let scope = SyncScope::unrestricted().add_filter("people".to_string(), in_vienna());
    let all = EngineQuery::select_simple("people".into(), vec![1], None);
    let (id, _) = db.subscribe_query(&all, Some(scope)).expect("subscribe");
    let mapper = DefaultValueMapper { parse_float: parse_float as FloatParser };
    let mut tx = db.transaction();
    let catalog = tx.catalog();
    tx.execute_sql(catalog, "DELETE FROM people WHERE id = 1", &mapper).expect("delete");
    tx.execute_sql(catalog, "UPDATE people SET city = 'Vienna' WHERE id = 3", &mapper)
        .expect("update");
    tx.execute_sql(catalog, "DELETE FROM people WHERE id = 2", &mapper).expect("delete");
    tx.commit().expect("commit");
    let (events, told) = db.tell_subscribers();
    assert_eq!(events.len(), 3);
    assert_eq!(told.len(), 1);
    assert_eq!(told[0].0, id);
    assert_eq!(
        told[0].1.as_ref().expect("results").rows,
        vec![vec![text("Emmy")], vec![text("Lise")]]
    );
}

#[test]
fn a_table_is_described_until_it_is_dropped() {
    let mut db = open();
    assert!(db.describe_table("people").is_none());
    db = with_people();
    let described = db.describe_table("people").expect("people");
    rows(&mut db, "CREATE TABLE other (id INTEGER PRIMARY KEY)");
    rows(&mut db, "CREATE INDEX by_city ON people (city)");
    rows(&mut db, "DELETE FROM people");
    rows(&mut db, "DROP INDEX by_city");
    rows(&mut db, "DROP TABLE other");
    db.engine.reload_schema().expect("reload");
    assert_eq!(db.describe_table("people"), Some(described));
    rows(&mut db, "DROP TABLE people");
    assert!(db.describe_table("people").is_none());
}

/// A store that can be made to fail.
struct Flaky {
    inner: InMemoryEngineStore,
    down: bool,
}

impl NamedTreeProvider for Flaky {
    fn trees(&self) -> Trees {
        unreachable!()
    }

    fn sound(&self) -> bool {
        unreachable!()
    }

    fn get(&self, tree: &str, key: &EngineKey) -> Result<Option<EngineRow>, BTreeError> {
        if self.down {
            return Err(BTreeError::other("down".to_string()));
        }
        self.inner.get(tree, key)
    }

    fn entries(&self, tree: &str) -> Result<Vec<(EngineKey, EngineRow)>, BTreeError> {
        if self.down {
            return Err(BTreeError::other("down".to_string()));
        }
        self.inner.entries(tree)
    }

    fn apply(&mut self, changes: Changes) -> Result<(), BTreeError> {
        if self.down {
            return Err(BTreeError::other("down".to_string()));
        }
        NamedTreeProvider::apply(&mut self.inner, changes)
    }
}

impl EngineStore for Flaky {}

#[test]
fn a_store_that_fails_keeps_the_last_results() {
    let store = with_works().engine.kernel.store;
    let mut db = Database::open_with_store(
        Flaky { inner: store, down: false },
        float_unit as FloatUnit,
        parse_float as FloatParser,
    )
    .expect("open");
    let all = EngineQuery::select_simple("people".into(), vec![1], None);
    let works = EngineQuery::select_simple("works".into(), vec![2], None);
    let (id, first) = db.subscribe_query(&all, None).expect("subscribe");
    db.subscribe_query(&works, None).expect("subscribe");
    db.execute_sql("DELETE FROM people WHERE id = 1").expect("delete");
    db.engine.kernel.store.down = true;

    // Out of scope is out of scope, whatever the store has to say.
    let elsewhere = SyncScope::new(vec!["works".to_string()]);
    assert_eq!(
        db.subscribe_query(&all, Some(elsewhere)).unwrap_err().message(),
        "engine error: table not found: people"
    );
    let (events, told) = db.tell_subscribers();
    assert_eq!(events.len(), 1);
    assert_eq!(told.len(), 1);
    assert_eq!(told[0].0, id);
    assert!(told[0].1.is_err());
    assert_eq!(db.engine.subscriptions.get_last_results(id), Some(first));
    db.engine.kernel.store.down = false;
    let told = db.engine.recompute_affected_subscriptions(&events[0]);
    assert_eq!(told[0].1.as_ref().expect("results").rows.len(), 3);
}

#[test]
fn rows_are_stored_under_one_uuid_or_number() {
    let refused = "engine error: schema mismatch: row primary key must be UUID scalar";
    let mut db = open();
    rows(&mut db, "CREATE TABLE cities (name TEXT PRIMARY KEY)");
    rows(&mut db, "CREATE TABLE roads (a INTEGER, b INTEGER, PRIMARY KEY (a, b))");
    rows(&mut db, "CREATE TABLE stops (id INTEGER PRIMARY KEY, name TEXT)");
    assert_eq!(refusal(&mut db, "INSERT INTO cities (name) VALUES ('Kiel')"), refused);
    assert_eq!(refusal(&mut db, "INSERT INTO roads (a, b) VALUES (1, 2)"), refused);
    assert_eq!(
        refusal(&mut db, "INSERT INTO cities (name) VALUES (NULL)"),
        "engine error: primary key missing"
    );
    rows(&mut db, "INSERT INTO stops (id, name) VALUES (1, 'a')");
    assert_eq!(rows(&mut db, "SELECT name FROM stops"), vec![vec![text("a")]]);
    assert!(rows(&mut db, "SELECT name FROM cities").is_empty());

    // A row that came otherwise: whatever lists its table is refused.
    let stray = EngineKey::from_values(vec![text("Bonn")]);
    let mut tx = db.engine.kernel.store.engine_transaction();
    tx.insert_table_row("cities", stray, vec![text("Bonn")]).expect("insert");
    let changes = tx.into_changes();
    NamedTreeProvider::apply(&mut db.engine.kernel.store, changes).expect("apply");
    for sql in [
        "SELECT name FROM cities",
        "SELECT stops.name FROM stops JOIN cities ON stops.name = cities.name",
        "SELECT name FROM stops WHERE name IN (SELECT name FROM cities)",
        "DELETE FROM cities",
        "UPDATE cities SET name = 'Bonn'",
        "DROP TABLE cities",
    ] {
        assert_eq!(refusal(&mut db, sql), refused, "{sql}");
    }
    assert_eq!(rows(&mut db, "SELECT name FROM stops"), vec![vec![text("a")]]);
}

#[test]
fn entries_without_a_primary_key_are_refused() {
    let refused = "engine error: schema mismatch: row primary key must be UUID scalar";
    let mut db = open();
    rows(&mut db, "CREATE TABLE stops (id INTEGER PRIMARY KEY, name TEXT)");
    rows(&mut db, "CREATE UNIQUE INDEX by_name ON stops (name)");
    rows(&mut db, "INSERT INTO stops (id, name) VALUES (1, 'a')");
    let index = db.engine.kernel.catalog.indexes_for_table("stops").remove(0);
    let name = EngineKey::from_values(vec![text("b")]);
    let mut tx = db.engine.kernel.store.engine_transaction();
    tx.insert_index_entry(&index, &name, &EngineKey::from_values(vec![text("x")])).expect("insert");
    let changes = tx.into_changes();
    NamedTreeProvider::apply(&mut db.engine.kernel.store, changes).expect("apply");
    // The entries are read in order, up to one that settles the matter.
    let insert = "INSERT INTO stops (id, name) VALUES (2, 'a')";
    assert!(refusal(&mut db, insert).contains("by_name"));
    assert_eq!(refusal(&mut db, "INSERT INTO stops (id, name) VALUES (2, 'c')"), refused);
    let named = QualifiedPredicate::Equals(column("stops", 1), QualifiedOperand::Value(text("a")));
    assert_eq!(
        db.engine.select("stops", &vec![0], Some(&named)).unwrap_err().message(),
        "schema mismatch: row primary key must be UUID scalar"
    );
    assert_eq!(refusal(&mut db, "DROP INDEX by_name"), refused);
    assert_eq!(rows(&mut db, "SELECT id FROM stops"), vec![vec![whole(1)]]);
}

#[test]
fn subqueries_can_write() {
    let mut db = with_people();
    db.take_events();
    assert_eq!(
        rows(
            &mut db,
            "SELECT name FROM people WHERE id IN (DELETE FROM people WHERE id < 3 RETURNING id) \
             ORDER BY id",
        ),
        vec![vec![text("Ada")], vec![text("Kurt")]]
    );
    assert_eq!(rows(&mut db, "SELECT id FROM people ORDER BY id"), vec![
        vec![whole(3)],
        vec![whole(4)]
    ]);
    assert_eq!(
        rows(
            &mut db,
            "SELECT name FROM people WHERE id IN \
             (UPDATE people SET age = 1 WHERE name = 'Lise' RETURNING id)",
        ),
        vec![vec![text("Lise")]]
    );
    assert!(rows(
        &mut db,
        "SELECT name FROM people WHERE id IN \
         (INSERT INTO people (id, name, city, age) VALUES (5, 'Max', 'Kiel', 50))",
    )
    .is_empty());
    assert_eq!(rows(&mut db, "SELECT name FROM people WHERE age = 1 OR id = 5").len(), 2);
    assert_eq!(db.take_events().len(), 4);
    assert_eq!(
        refusal(
            &mut db,
            "SELECT name FROM people WHERE id IN \
             (WITH x AS (SELECT 1) DELETE FROM people RETURNING id)",
        ),
        "unsupported statement"
    );
    assert_eq!(
        refusal(
            &mut db,
            "SELECT name FROM people WHERE id IN (DELETE FROM nobody RETURNING id)",
        ),
        "unknown table: nobody"
    );
    assert_eq!(rows(&mut db, "SELECT id FROM people").len(), 3);
}

/// A store that can be read, and takes no changes.
struct Sealed {
    inner: InMemoryEngineStore,
}

impl NamedTreeProvider for Sealed {
    fn trees(&self) -> Trees {
        unreachable!()
    }

    fn sound(&self) -> bool {
        unreachable!()
    }

    fn get(&self, tree: &str, key: &EngineKey) -> Result<Option<EngineRow>, BTreeError> {
        NamedTreeProvider::get(&self.inner, tree, key)
    }

    fn entries(&self, tree: &str) -> Result<Vec<(EngineKey, EngineRow)>, BTreeError> {
        NamedTreeProvider::entries(&self.inner, tree)
    }

    fn apply(&mut self, _changes: Changes) -> Result<(), BTreeError> {
        Err(BTreeError::other("sealed".to_string()))
    }
}

impl EngineStore for Sealed {}

#[test]
fn a_commit_that_fails_says_why_and_leaves_nothing() {
    let mut db = Database::from_store(
        Sealed { inner: with_people().engine.kernel.store },
        float_unit as FloatUnit,
        parse_float as FloatParser,
    );
    db.engine.reload_schema().expect("reload");
    let row = || vec![whole(9), text("A"), text("B"), whole(1)];
    let sealed = Err(DatabaseError::Engine("storage error: sealed".to_string()));
    let mut tx = db.transaction();
    tx.insert_row("people", row()).expect("insert");
    assert_eq!(tx.commit(), sealed);
    let mut tx = db.transaction();
    tx.insert_row("people", row()).expect("insert");
    assert_eq!(tx.settle(Ok(())), sealed);
    assert!(db.take_events().is_empty());

    // A selection that is broken off leaves what its subqueries did before.
    let select = "SELECT id FROM people WHERE id IN (SELECT id FROM people) AND id IN \
                  (DELETE FROM people RETURNING id)";
    assert_eq!(
        db.execute_sql(select).unwrap_err().message(),
        "engine error: storage error: sealed"
    );
    assert!(db.take_events().is_empty());
    assert_eq!(db.execute_sql("SELECT id FROM people").expect("select").rows.len(), 4);

    let mut flaky = Flaky { inner: with_people().engine.kernel.store, down: true };
    flaky.down = true;
    let refused =
        Database::open_with_store(flaky, float_unit as FloatUnit, parse_float as FloatParser);
    assert_eq!(refused.err().expect("an error").message(), "engine error: storage error: down");
}

#[test]
fn a_subscriber_knows_the_results_whatever_was_called() {
    let mut db = with_people();
    let sql = "SELECT name FROM people WHERE city = 'Vienna' ORDER BY id";
    let (id, first) = db.subscribe_sql(sql, None).expect("subscribe");
    let (other, _) = db.subscribe_sql("SELECT id FROM people", None).expect("subscribe");
    let mut last = first.rows;
    let steps: Vec<Vec<&str>> = vec![
        vec!["UPDATE people SET city = 'Vienna' WHERE id = 1"],
        vec!["DELETE FROM people WHERE id = 2", "UPDATE people SET name = 'Eve' WHERE id = 4"],
        vec!["UPDATE people SET age = 7 WHERE id = 4"],
        vec!["CREATE TABLE later (id INTEGER PRIMARY KEY)", "INSERT INTO later (id) VALUES (1)"],
        vec!["INSERT INTO people (id, name, city, age) VALUES (7, 'Max', 'Vienna', 1)"],
        vec!["SELECT id FROM people WHERE id IN (DELETE FROM people WHERE id = 7 RETURNING id)"],
    ];
    for (i, step) in steps.iter().enumerate() {
        for sql in step {
            rows(&mut db, sql);
        }
        if i == 2 {
            db.unsubscribe(other).expect("unsubscribe");
        }
        let (_, told) = db.tell_subscribers();
        for (to, results) in told {
            assert!(to == id || (to == other && i < 2));
            if to == id {
                last = results.expect("results").rows;
            }
        }
        assert_eq!(last, rows(&mut db, sql), "{step:?}");
    }
    assert_eq!(last, vec![vec![text("Ada")], vec![text("Eve")]]);
    assert!(db.tell_subscribers().1.is_empty());
}
