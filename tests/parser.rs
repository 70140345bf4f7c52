use martin_db::engine::Value;
use martin_db::parser::{parse, parse_tokens, parse_with_upper, tokenize, Statement};

fn toks(v: &[&str]) -> Vec<String> {
    v.iter().map(|s| s.to_string()).collect()
}

fn err(sql: &str) -> String {
    match parse(sql) {
        Err(e) => e,
        Ok(s) => panic!("expected an error, got {:?}", s),
    }
}

#[test]
pub fn test_tokenize() {
    let input = "SELECT(a,b)";

    let res = tokenize(input);
    println!("{:?}", res);
}

#[test]
pub fn test_parser() {
    let input = "CREATE TABLE users (id INT PRIMARY, name TEXT)";
    match parse(input) {
        Ok(smt) => println!("Parsed: {:?}", smt),
        Err(e) => println!("Error: {}", e),
    }
}

#[test]
fn tokenize_splits_delimiters_and_whitespace() {
    assert_eq!(tokenize("SELECT(a,b)"), toks(&["SELECT", "(", "a", ",", "b", ")"]));
    assert_eq!(tokenize("  a\tb \n c  "), toks(&["a", "b", "c"]));
    assert_eq!(tokenize("x,,y"), toks(&["x", ",", ",", "y"]));
    assert_eq!(tokenize("Mixed Case"), toks(&["Mixed", "Case"]));
    assert!(tokenize("").is_empty());
    assert!(tokenize("   ").is_empty());
}

#[test]
fn keywords_are_case_insensitive() {
    match parse("create table T (a int primary unique)").unwrap() {
        Statement::CreateTable { name, columns } => {
            assert_eq!(name, "T");
            assert_eq!(columns[0].data_type, "INT");
            assert!(columns[0].is_primary && columns[0].is_unique);
        }
        other => panic!("unexpected {:?}", other),
    }
    assert!(matches!(parse("select * from t").unwrap(), Statement::Select { .. }));
}

#[test]
fn create_skips_unknown_modifiers() {
    match parse("CREATE TABLE t (a INT NOT NULL UNIQUE, b TEXT PRIMARY PRIMARY)").unwrap() {
        Statement::CreateTable { columns, .. } => {
            assert_eq!(columns.len(), 2);
            assert!(columns[0].is_unique && !columns[0].is_primary);
            assert!(columns[1].is_primary && !columns[1].is_unique);
        }
        other => panic!("unexpected {:?}", other),
    }
}

#[test]
fn create_errors() {
    assert_eq!(err("CREATE t"), "Expected TABLE after CREATE");
    assert_eq!(err("CREATE TABLE"), "Expected table name");
    assert_eq!(err("CREATE TABLE t a"), "Expected '('");
    assert_eq!(err("CREATE TABLE t (a"), "Expected column type");
}

#[test]
fn create_requires_closing_parenthesis() {
    assert_eq!(err("CREATE TABLE t (id INT"), "Expected ')'");
    assert_eq!(err("CREATE TABLE t (id INT PRIMARY"), "Expected ')'");
    assert_eq!(err("CREATE TABLE t (id INT,"), "Expected ')'");
    assert_eq!(err("CREATE TABLE t ("), "Expected ')'");
    match parse("CREATE TABLE t ()").unwrap() {
        Statement::CreateTable { columns, .. } => assert!(columns.is_empty()),
        other => panic!("unexpected {:?}", other),
    }
}

#[test]
fn insert_values_and_quotes() {
    match parse("INSERT INTO t VALUES (-7, +3, 'x y', ''q'', 2147483648, abc)").unwrap() {
        Statement::Insert { table_name, values } => {
            assert_eq!(table_name, "t");
            assert_eq!(
                values,
                vec![
                    Value::Integer(-7),
                    Value::Integer(3),
                    Value::Text("'x".into()),
                    Value::Text("y'".into()),
                    Value::Text("'q'".into()),
                    Value::Text("2147483648".into()),
                    Value::Text("abc".into()),
                ]
            );
        }
        other => panic!("unexpected {:?}", other),
    }
}

#[test]
fn insert_errors() {
    assert_eq!(err("INSERT t"), "Expected INTO after CREATE");
    assert_eq!(err("INSERT INTO"), "Expected table name");
    assert_eq!(err("INSERT INTO t (1)"), "Expected VALUES after INTO");
    assert_eq!(err("INSERT INTO t VALUES 1"), "Expected '('");
}

#[test]
fn select_with_and_without_join() {
    match parse("SELECT a, b FROM t").unwrap() {
        Statement::Select { table_name, columns, join } => {
            assert_eq!(table_name, "t");
            assert_eq!(columns, toks(&["a", "b"]));
            assert!(join.is_none());
        }
        other => panic!("unexpected {:?}", other),
    }
    match parse("SELECT * FROM devs JOIN teams ON team_id = id").unwrap() {
        Statement::Select { table_name, columns, join } => {
            assert_eq!(table_name, "devs");
            assert_eq!(columns, toks(&["*"]));
            let j = join.unwrap();
            assert_eq!(j.table_name, "teams");
            assert_eq!(j.left_column, "team_id");
            assert_eq!(j.right_column, "id");
        }
        other => panic!("unexpected {:?}", other),
    }
}

#[test]
fn select_syntax_errors() {
    assert_eq!(err("SELECT a"), "Expected table name");
    assert_eq!(err("SELECT a FROM"), "Expected table name");
    assert_eq!(err("SELECT a FROM t JOIN"), "Expected join table");
    assert_eq!(err("SELECT a FROM t JOIN u ON"), "Expected left col");
    assert_eq!(err("SELECT a FROM t JOIN u ON x ="), "Expected right col");
}

#[test]
fn keywords_are_read_from_upper_cased_tokens() {
    let t = toks(&["pick", "x", "of", "t"]);
    let upper = toks(&["SELECT", "X", "FROM", "T"]);
    match parse_with_upper(&t, &upper).unwrap() {
        Statement::Select { table_name, columns, join } => {
            assert_eq!(table_name, "t");
            assert_eq!(columns, toks(&["x"]));
            assert!(join.is_none());
        }
        other => panic!("unexpected {:?}", other),
    }
    let t = toks(&["make", "table", "t", "(", "a", "int", ")"]);
    let upper = toks(&["CREATE", "TABLE", "T", "(", "A", "NUMBER", ")"]);
    match parse_with_upper(&t, &upper).unwrap() {
        Statement::CreateTable { name, columns } => {
            assert_eq!(name, "t");
            assert_eq!(columns[0].name, "a");
            assert_eq!(columns[0].data_type, "NUMBER");
        }
        other => panic!("unexpected {:?}", other),
    }
    assert_eq!(
        parse_with_upper(&toks(&["drop"]), &toks(&["DROP"])).unwrap_err(),
        "Unknown command: DROP"
    );
}

#[test]
fn tokenize_treats_unicode_spaces_as_separators() {
    assert_eq!(tokenize("a\u{3000}b\u{a0}c"), toks(&["a", "b", "c"]));
}

#[test]
fn empty_and_unknown_commands() {
    assert_eq!(err(""), "Empty query");
    assert_eq!(err("   "), "Empty query");
    assert_eq!(err("drop table t"), "Unknown command: DROP");
    assert_eq!(parse_tokens(&Vec::new()).unwrap_err(), "Empty query");
    assert!(matches!(
        parse_tokens(&toks(&["select", "x", "from", "t"])).unwrap(),
        Statement::Select { .. }
    ));
}
