use martin_db::engine::{Column, Database, ExecutionResult, Table, Value};
use martin_db::parser::{parse, ColumnDefinition, JoinDefinition, Statement};
use martin_db::DbError;

fn col(name: &str, data_type: &str, is_primary: bool, is_unique: bool) -> Column {
    Column {
        name: name.into(),
        data_type: data_type.into(),
        is_primary,
        is_unique,
    }
}

fn run(db: &mut Database, sql: &str) -> Result<ExecutionResult, DbError> {
    let stmt = parse(sql).expect("statement parses");
    db.execute(stmt)
}

fn data(r: Result<ExecutionResult, DbError>) -> (Vec<String>, Vec<Vec<Value>>) {
    match r {
        Ok(ExecutionResult::Data { headers, rows }) => (headers, rows),
        Ok(ExecutionResult::Message(m)) => panic!("expected data, got message {}", m),
        Err(e) => panic!("expected data, got error {}", e.message()),
    }
}

fn message(r: Result<ExecutionResult, DbError>) -> String {
    match r {
        Ok(ExecutionResult::Message(m)) => m,
        _ => panic!("expected a message"),
    }
}

fn text(s: &str) -> Value {
    Value::Text(s.to_string())
}

#[test]
fn test_create_and_insert() {
    let mut db = Database::new();
    let cols = vec![
        Column {
            name: "id".into(),
            data_type: "INT".into(),
            is_primary: true,
            is_unique: false,
        },
        Column {
            name: "name".into(),
            data_type: "TEXT".into(),
            is_primary: false,
            is_unique: false,
        },
    ];
    db.create_table("users".into(), cols).unwrap();
    let table = db.tables.iter_mut().find(|t| t.name == "users").unwrap();

    //first insert -correct
    table
        .insert_row(vec![Value::Integer(1), Value::Text("Martin".into())])
        .unwrap();
    //second_insert - duplicate id
    let badres = table.insert_row(vec![Value::Integer(1), Value::Text("Dup".into())]);
    assert!(badres.is_err());
}

#[test]
fn create_table_twice_is_refused() {
    let mut db = Database::new();
    db.create_table("t".into(), vec![col("a", "INT", true, false)]).unwrap();
    let r = db.create_table("t".into(), vec![col("b", "TEXT", false, false)]);
    assert!(matches!(r, Err(DbError::TableAlreadyExists(ref n)) if n == "t"));
    let t = db.get_table("t".into()).unwrap();
    assert_eq!(t.columns.len(), 1);
    assert_eq!(t.columns[0].name, "a");
    assert!(t.rows.is_empty());
}

#[test]
fn duplicate_unique_value_leaves_table_unchanged() {
    let mut t = Table::new(
        "t".into(),
        vec![col("id", "INT", false, false), col("email", "TEXT", false, true)],
    );
    t.insert_row(vec![Value::Integer(1), text("a@x")]).unwrap();
    let before_index = format!("{:?}", t.indexes);
    let r = t.insert_row(vec![Value::Integer(2), text("a@x")]);
    assert!(matches!(r, Err(DbError::UniqueViolation(ref c)) if c == "email"));
    assert_eq!(t.rows.len(), 1);
    assert_eq!(format!("{:?}", t.indexes), before_index);
}

#[test]
fn violation_names_first_offending_column() {
    let mut t = Table::new(
        "t".into(),
        vec![col("a", "INT", true, false), col("b", "INT", false, true)],
    );
    t.insert_row(vec![Value::Integer(1), Value::Integer(2)]).unwrap();
    let r = t.insert_row(vec![Value::Integer(1), Value::Integer(2)]);
    assert!(matches!(r, Err(DbError::UniqueViolation(ref c)) if c == "a"));
    let r = t.insert_row(vec![Value::Integer(5), Value::Integer(2)]);
    assert!(matches!(r, Err(DbError::UniqueViolation(ref c)) if c == "b"));
    assert_eq!(t.rows.len(), 1);
}

#[test]
fn row_arity_mismatch_is_refused() {
    let mut t = Table::new("t".into(), vec![col("a", "INT", false, false)]);
    let r = t.insert_row(vec![Value::Integer(1), Value::Integer(2)]);
    assert!(matches!(r, Err(DbError::ParseError(ref m)) if m == "Columns count mismatch"));
    assert!(t.rows.is_empty());
}

#[test]
fn values_of_different_kinds_are_unequal() {
    let mut t = Table::new("t".into(), vec![col("k", "ANY", true, false)]);
    t.insert_row(vec![Value::Integer(1)]).unwrap();
    t.insert_row(vec![text("1")]).unwrap();
    t.insert_row(vec![Value::Null]).unwrap();
    assert!(t.insert_row(vec![Value::Null]).is_err());
    assert_eq!(t.rows.len(), 3);
}

#[test]
fn rebuilt_index_decides_like_maintained_index() {
    let cols = || vec![col("id", "INT", true, false), col("name", "TEXT", false, false)];
    let mut kept = Table::new("t".into(), cols());
    kept.insert_row(vec![Value::Integer(1), text("a")]).unwrap();
    kept.insert_row(vec![Value::Integer(2), text("b")]).unwrap();

    let mut loaded = Table {
        name: "t".into(),
        columns: cols(),
        rows: vec![
            vec![Value::Integer(1), text("a")],
            vec![Value::Integer(2), text("b")],
        ],
        indexes: Vec::new(),
    };
    loaded.rebuild_indexes();
    assert_eq!(format!("{:?}", loaded.indexes), format!("{:?}", kept.indexes));

    let attempts = vec![
        vec![Value::Integer(2), text("c")],
        vec![Value::Integer(3), text("c")],
        vec![Value::Integer(3), text("d")],
        vec![Value::Integer(4)],
    ];
    for row in attempts {
        let a = kept.insert_row(row.clone()).is_ok();
        let b = loaded.insert_row(row).is_ok();
        assert_eq!(a, b);
    }
    assert_eq!(kept.rows.len(), 3);
    assert_eq!(format!("{:?}", loaded.indexes), format!("{:?}", kept.indexes));
}


#[test]
fn parse_create_table_round_trip() {
    match parse("CREATE TABLE t (id INT PRIMARY, name TEXT)").unwrap() {
        Statement::CreateTable { name, columns } => {
            assert_eq!(name, "t");
            assert_eq!(columns.len(), 2);
            assert_eq!(columns[0].name, "id");
            assert_eq!(columns[0].data_type, "INT");
            assert!(columns[0].is_primary);
            assert!(!columns[0].is_unique);
            assert_eq!(columns[1].name, "name");
            assert_eq!(columns[1].data_type, "TEXT");
            assert!(!columns[1].is_primary);
            assert!(!columns[1].is_unique);
        }
        other => panic!("unexpected {:?}", other),
    }
}

#[test]
fn insert_parses_values_and_rejects_duplicate_key() {
    let mut db = Database::new();
    message(run(&mut db, "CREATE TABLE t (id INT PRIMARY, name TEXT)"));
    let stmt = parse("INSERT INTO t VALUES (1, 'Martin')").unwrap();
    match &stmt {
        Statement::Insert { table_name, values } => {
            assert_eq!(table_name, "t");
            assert_eq!(values, &vec![Value::Integer(1), text("Martin")]);
        }
        other => panic!("unexpected {:?}", other),
    }
    assert_eq!(message(db.execute(stmt)), "1 row inserted.");
    let r = run(&mut db, "INSERT INTO t VALUES (1, 'Other')");
    assert!(matches!(r, Err(DbError::UniqueViolation(ref c)) if c == "id"));
}

fn join_fixture() -> Database {
    let mut db = Database::new();
    for sql in [
        "CREATE TABLE devs (id INT PRIMARY, team_id INT)",
        "INSERT INTO devs VALUES (1, 10)",
        "INSERT INTO devs VALUES (2, 20)",
        "CREATE TABLE teams (id INT PRIMARY, name TEXT)",
        "INSERT INTO teams VALUES (10, 'Eng')",
        "INSERT INTO teams VALUES (20, 'Ops')",
    ] {
        run(&mut db, sql).unwrap();
    }
    db
}

#[test]
fn join_concatenates_matching_rows() {
    let mut db = join_fixture();
    let (headers, rows) = data(run(&mut db, "SELECT * FROM devs JOIN teams ON team_id = id"));
    assert_eq!(headers, vec!["devs.id", "devs.team_id", "teams.id", "teams.name"]);
    assert_eq!(
        rows,
        vec![
            vec![Value::Integer(1), Value::Integer(10), Value::Integer(10), text("Eng")],
            vec![Value::Integer(2), Value::Integer(20), Value::Integer(20), text("Ops")],
        ]
    );
}

#[test]
fn join_keeps_left_then_right_order() {
    let mut db = Database::new();
    for sql in [
        "CREATE TABLE l (k INT, tag TEXT)",
        "INSERT INTO l VALUES (1, a)",
        "INSERT INTO l VALUES (2, b)",
        "INSERT INTO l VALUES (1, c)",
        "CREATE TABLE r (k INT, v INT)",
        "INSERT INTO r VALUES (1, 100)",
        "INSERT INTO r VALUES (3, 300)",
        "INSERT INTO r VALUES (1, 101)",
    ] {
        run(&mut db, sql).unwrap();
    }
    let (_, rows) = data(run(&mut db, "SELECT * FROM l JOIN r ON k = k"));
    let tags: Vec<(String, i32)> = rows
        .iter()
        .map(|r| match (&r[1], &r[3]) {
            (Value::Text(t), Value::Integer(v)) => (t.clone(), *v),
            _ => panic!("unexpected row"),
        })
        .collect();
    assert_eq!(
        tags,
        vec![
            ("a".to_string(), 100),
            ("a".to_string(), 101),
            ("c".to_string(), 100),
            ("c".to_string(), 101)
        ]
    );
}

#[test]
fn join_compares_values_without_coercion() {
    let mut db = Database::new();
    run(&mut db, "CREATE TABLE a (k TEXT)").unwrap();
    run(&mut db, "INSERT INTO a VALUES ('1')").unwrap();
    run(&mut db, "CREATE TABLE b (k INT)").unwrap();
    run(&mut db, "INSERT INTO b VALUES (1)").unwrap();
    let (headers, rows) = data(run(&mut db, "SELECT * FROM a JOIN b ON k = k"));
    assert_eq!(headers, vec!["a.k", "b.k"]);
    assert!(rows.is_empty());
}

#[test]
fn join_errors_name_the_missing_item() {
    let mut db = join_fixture();
    let r = run(&mut db, "SELECT * FROM devs JOIN nope ON team_id = id");
    assert!(matches!(r, Err(DbError::TableNotFound(ref n)) if n == "nope"));
    let r = run(&mut db, "SELECT * FROM devs JOIN teams ON x = id");
    assert!(matches!(r, Err(DbError::ColumnNotFound(ref n)) if n == "x"));
    let r = run(&mut db, "SELECT * FROM devs JOIN teams ON team_id = y");
    assert!(matches!(r, Err(DbError::ColumnNotFound(ref n)) if n == "y"));
}

#[test]
fn select_star_on_empty_table() {
    let mut db = Database::new();
    run(&mut db, "CREATE TABLE e (a INT, b TEXT UNIQUE, c INT)").unwrap();
    let (headers, rows) = data(run(&mut db, "SELECT * FROM e"));
    assert_eq!(headers, vec!["a", "b", "c"]);
    assert!(rows.is_empty());
}

#[test]
fn select_projects_in_requested_order() {
    let mut db = join_fixture();
    let (headers, rows) = data(run(&mut db, "SELECT name, id FROM teams"));
    assert_eq!(headers, vec!["name", "id"]);
    assert_eq!(
        rows,
        vec![
            vec![text("Eng"), Value::Integer(10)],
            vec![text("Ops"), Value::Integer(20)]
        ]
    );
}

#[test]
fn select_wildcard_wins_over_names() {
    let mut db = join_fixture();
    let (headers, _) = data(run(&mut db, "SELECT id, *, nothing FROM teams"));
    assert_eq!(headers, vec!["id", "name"]);
}

#[test]
fn select_errors() {
    let mut db = join_fixture();
    let r = run(&mut db, "SELECT * FROM nope");
    assert!(matches!(r, Err(DbError::TableNotFound(ref n)) if n == "nope"));
    let r = run(&mut db, "SELECT id, bad, worse FROM teams");
    assert!(matches!(r, Err(DbError::ColumnNotFound(ref n)) if n == "bad"));
}

#[test]
fn insert_into_missing_table() {
    let mut db = Database::new();
    let r = run(&mut db, "INSERT INTO ghost VALUES (1)");
    assert!(matches!(r, Err(DbError::TableNotFound(ref n)) if n == "ghost"));
}

#[test]
fn create_reports_message() {
    let mut db = Database::new();
    let stmt = Statement::CreateTable {
        name: "x".into(),
        columns: vec![ColumnDefinition {
            name: "a".into(),
            data_type: "INT".into(),
            is_primary: false,
            is_unique: true,
        }],
    };
    assert_eq!(message(db.execute(stmt)), "Table 'x' created");
    let t = db.get_table("x".into()).unwrap();
    assert!(t.columns[0].is_unique);
    assert!(matches!(db.get_table("y".into()), Err(DbError::TableNotFound(ref n)) if n == "y"));
}

#[test]
fn handle_select_with_join_definition() {
    let db = join_fixture();
    let r = db.handle_select(
        "devs".into(),
        vec![],
        Some(JoinDefinition {
            table_name: "teams".into(),
            left_column: "team_id".into(),
            right_column: "id".into(),
        }),
    );
    let (headers, rows) = data(r);
    assert_eq!(headers.len(), 4);
    assert_eq!(rows.len(), 2);
}

#[test]
fn error_messages() {
    assert_eq!(
        DbError::TableAlreadyExists("t".into()).message(),
        "Table 't' already exists"
    );
    assert_eq!(DbError::TableNotFound("t".into()).message(), "Table 't' not found");
    assert_eq!(DbError::ColumnNotFound("c".into()).message(), "Column 'c' not found");
    assert_eq!(
        DbError::UniqueViolation("c".into()).message(),
        "Unique constraint violation on column 'c'"
    );
    assert_eq!(DbError::ParseError("x".into()).message(), "Parsing error: x");
    assert_eq!(DbError::IoError("x".into()).message(), "IO Error: x");
}
