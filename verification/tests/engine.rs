use learn_to_write_a_database::backend::{Cell, QueryResults};
use learn_to_write_a_database::compiler::compile_statements;
use learn_to_write_a_database::memory::{ColumnTypes, ExecutionError, InMemoryBackend};
use learn_to_write_a_database::scanner::{strip_spaces, tokenize};
use learn_to_write_a_database::statements::Statement;

/// Runs a statement stream against the backend, collecting every select's
/// results; stops at the first error, as the reference driver does.
fn run(backend: &mut InMemoryBackend, sql: &str) -> Result<Vec<QueryResults>, ExecutionError> {
    let toks = tokenize(sql.chars().collect()).expect("lexing failed");
    let stmts = compile_statements(strip_spaces(toks)).expect("parsing failed");
    let mut results = Vec::new();
    for stmt in stmts {
        match stmt {
            Statement::Create(s) => {
                backend.create_table(&s)?;
            }
            Statement::Insert(s) => {
                backend.insert(&s)?;
            }
            Statement::Select(s) => {
                results.push(backend.select(&s)?);
            }
        }
    }
    Ok(results)
}

fn u(v: u32) -> Cell {
    Cell::U32(v)
}

fn s(v: &str) -> Cell {
    Cell::String(v.to_string())
}

#[test]
fn round_trip_one_row() {
    let mut b = InMemoryBackend::new();
    let results = run(
        &mut b,
        "CREATE TABLE t (c1 INT, c2 TEXT); INSERT INTO t VALUES (1,'a'); SELECT * FROM t;",
    )
    .unwrap();
    assert_eq!(results, vec![QueryResults::new(vec![vec![u(1), s("a")]])]);
}

#[test]
fn example_end_to_end() {
    let mut b = InMemoryBackend::new();
    let results = run(
        &mut b,
        "CREATE TABLE users (id INT, name TEXT); \
         INSERT INTO users VALUES (1, 'Phil'); \
         INSERT INTO users VALUES (2, 'Kate'); \
         SELECT name FROM users;",
    )
    .unwrap();
    assert_eq!(
        results,
        vec![QueryResults::new(vec![vec![s("Phil")], vec![s("Kate")]])]
    );
}

#[test]
fn select_star_returns_rows_in_insertion_order() {
    let mut b = InMemoryBackend::new();
    let results = run(
        &mut b,
        "CREATE TABLE t (a INT); INSERT INTO t VALUES (3); INSERT INTO t VALUES (1); \
         INSERT INTO t VALUES (2); SELECT * FROM t;",
    )
    .unwrap();
    assert_eq!(
        results,
        vec![QueryResults::new(vec![vec![u(3)], vec![u(1)], vec![u(2)]])]
    );
}

#[test]
fn arity_mismatch_fails_and_appends_nothing() {
    let mut b = InMemoryBackend::new();
    run(&mut b, "CREATE TABLE t (a INT, b TEXT); INSERT INTO t VALUES (1,'x');").unwrap();

    let too_few = run(&mut b, "INSERT INTO t VALUES (1);");
    assert_eq!(
        too_few,
        Err(ExecutionError::ColumnCountMismatch {
            expected: 2,
            actual: 1
        })
    );
    let too_many = run(&mut b, "INSERT INTO t VALUES (1,'x',2);");
    assert_eq!(
        too_many,
        Err(ExecutionError::ColumnCountMismatch {
            expected: 2,
            actual: 3
        })
    );

    let rows = run(&mut b, "SELECT * FROM t;").unwrap();
    assert_eq!(rows, vec![QueryResults::new(vec![vec![u(1), s("x")]])]);
}

#[test]
fn type_mismatch_fails_and_appends_nothing() {
    let mut b = InMemoryBackend::new();
    run(&mut b, "CREATE TABLE t (a INT, b TEXT);").unwrap();

    let string_into_int = run(&mut b, "INSERT INTO t VALUES ('x','y');");
    assert_eq!(
        string_into_int,
        Err(ExecutionError::TypeMismatch {
            column: "a".to_string(),
            expected: ColumnTypes::Int32
        })
    );
    let int_into_text = run(&mut b, "INSERT INTO t VALUES (1,2);");
    assert_eq!(
        int_into_text,
        Err(ExecutionError::TypeMismatch {
            column: "b".to_string(),
            expected: ColumnTypes::String
        })
    );

    let rows = run(&mut b, "SELECT * FROM t;").unwrap();
    assert_eq!(rows, vec![QueryResults::new(vec![])]);
}

#[test]
fn select_twice_is_idempotent() {
    let mut b = InMemoryBackend::new();
    run(
        &mut b,
        "CREATE TABLE t (a INT, b TEXT); INSERT INTO t VALUES (1,'x'); INSERT INTO t VALUES (2,'y');",
    )
    .unwrap();
    let first = run(&mut b, "SELECT * FROM t;").unwrap();
    let second = run(&mut b, "SELECT * FROM t;").unwrap();
    assert_eq!(first, second);
    let both = run(&mut b, "SELECT a FROM t; SELECT a FROM t;").unwrap();
    assert_eq!(both[0], both[1]);
}

#[test]
fn duplicate_create_fails_and_keeps_the_prior_table() {
    let mut b = InMemoryBackend::new();
    run(&mut b, "CREATE TABLE t (a INT); INSERT INTO t VALUES (7);").unwrap();

    let again = run(&mut b, "CREATE TABLE t (b TEXT);");
    assert_eq!(
        again,
        Err(ExecutionError::TableAlreadyExists {
            table: "t".to_string()
        })
    );

    let rows = run(&mut b, "SELECT a FROM t;").unwrap();
    assert_eq!(rows, vec![QueryResults::new(vec![vec![u(7)]])]);
}

#[test]
fn projection_follows_the_select_list_not_the_table_order() {
    let mut b = InMemoryBackend::new();
    let results = run(
        &mut b,
        "CREATE TABLE t (id INT, name TEXT); INSERT INTO t VALUES (1,'Phil'); \
         SELECT name, id FROM t; SELECT id, name FROM t; SELECT name, name FROM t;",
    )
    .unwrap();
    assert_eq!(
        results,
        vec![
            QueryResults::new(vec![vec![s("Phil"), u(1)]]),
            QueryResults::new(vec![vec![u(1), s("Phil")]]),
            QueryResults::new(vec![vec![s("Phil"), s("Phil")]]),
        ]
    );
}

#[test]
fn unknown_column_fails_and_mutates_nothing() {
    let mut b = InMemoryBackend::new();
    run(&mut b, "CREATE TABLE t (a INT); INSERT INTO t VALUES (5);").unwrap();

    let missing = run(&mut b, "SELECT x FROM t;");
    assert_eq!(
        missing,
        Err(ExecutionError::ColumnNotFound {
            column: "x".to_string(),
            table: "t".to_string()
        })
    );

    let rows = run(&mut b, "SELECT * FROM t;").unwrap();
    assert_eq!(rows, vec![QueryResults::new(vec![vec![u(5)]])]);
}

#[test]
fn unknown_table_fails_for_insert_and_select() {
    let mut b = InMemoryBackend::new();
    assert_eq!(
        run(&mut b, "INSERT INTO missing VALUES (1);"),
        Err(ExecutionError::TableNotFound {
            table: "missing".to_string()
        })
    );
    assert_eq!(
        run(&mut b, "SELECT x FROM missing;"),
        Err(ExecutionError::TableNotFound {
            table: "missing".to_string()
        })
    );
}

#[test]
fn table_names_are_case_sensitive() {
    let mut b = InMemoryBackend::new();
    run(&mut b, "CREATE TABLE t (a INT);").unwrap();
    assert_eq!(
        run(&mut b, "INSERT INTO T VALUES (1);"),
        Err(ExecutionError::TableNotFound {
            table: "T".to_string()
        })
    );
}

#[test]
fn column_names_are_case_sensitive() {
    let mut b = InMemoryBackend::new();
    run(&mut b, "CREATE TABLE t (Name TEXT); INSERT INTO t VALUES ('x');").unwrap();
    assert_eq!(
        run(&mut b, "SELECT name FROM t;"),
        Err(ExecutionError::ColumnNotFound {
            column: "name".to_string(),
            table: "t".to_string()
        })
    );
}

#[test]
fn select_star_on_empty_table_returns_no_rows() {
    let mut b = InMemoryBackend::new();
    let results = run(&mut b, "CREATE TABLE t (a INT, b TEXT); SELECT * FROM t;").unwrap();
    assert_eq!(results, vec![QueryResults::new(vec![])]);
}

#[test]
fn two_tables_are_independent() {
    let mut b = InMemoryBackend::new();
    let results = run(
        &mut b,
        "CREATE TABLE t (a INT); CREATE TABLE u (b TEXT); \
         INSERT INTO t VALUES (1); INSERT INTO u VALUES ('x'); \
         SELECT * FROM t; SELECT * FROM u;",
    )
    .unwrap();
    assert_eq!(
        results,
        vec![
            QueryResults::new(vec![vec![u(1)]]),
            QueryResults::new(vec![vec![s("x")]]),
        ]
    );
}
