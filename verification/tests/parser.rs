use learn_to_write_a_database::compiler::{compile_statements, ParseError, StatementCompiler};
use learn_to_write_a_database::create::DataType;
use learn_to_write_a_database::insert;
use learn_to_write_a_database::scanner::{strip_spaces, tokenize, KeywordToken, Token};
use learn_to_write_a_database::select;
use learn_to_write_a_database::statements::Statement;

fn parse(sql: &str) -> Result<Vec<Statement>, ParseError> {
    let toks = tokenize(sql.chars().collect()).expect("lexing failed");
    compile_statements(strip_spaces(toks))
}

#[test]
fn parse_create_table() {
    let stmts = parse("CREATE TABLE users (id INT, name TEXT);").unwrap();
    assert_eq!(stmts.len(), 1);
    match &stmts[0] {
        Statement::Create(c) => {
            assert_eq!(c.table_name(), "users");
            let cols = c.columns();
            assert_eq!(cols.len(), 2);
            assert_eq!(cols[0].name(), "id");
            assert_eq!(*cols[0].data_type(), DataType::Int32);
            assert_eq!(cols[1].name(), "name");
            assert_eq!(*cols[1].data_type(), DataType::String);
        }
        other => panic!("expected a create statement, got {:?}", other),
    }
}

#[test]
fn parse_insert() {
    let stmts = parse("INSERT INTO users VALUES (1, 'Phil');").unwrap();
    assert_eq!(stmts.len(), 1);
    match &stmts[0] {
        Statement::Insert(i) => {
            assert_eq!(i.table_name(), "users");
            assert_eq!(
                i.values(),
                &[
                    insert::Expression::Literal(insert::Literal::U32(1)),
                    insert::Expression::Literal(insert::Literal::String("Phil".to_string())),
                ]
            );
        }
        other => panic!("expected an insert statement, got {:?}", other),
    }
}

#[test]
fn parse_select_columns_and_star() {
    let stmts = parse("SELECT name, id, * FROM users;").unwrap();
    assert_eq!(stmts.len(), 1);
    match &stmts[0] {
        Statement::Select(s) => {
            assert_eq!(s.table_name(), "users");
            assert_eq!(
                s.expression(),
                &[
                    select::Expression::Column("name".to_string()),
                    select::Expression::Column("id".to_string()),
                    select::Expression::All,
                ]
            );
        }
        other => panic!("expected a select statement, got {:?}", other),
    }
}

#[test]
fn parse_several_statements_in_order() {
    let stmts = parse("CREATE TABLE t (a INT);\nINSERT INTO t VALUES (7);\nSELECT * FROM t;")
        .unwrap();
    assert_eq!(stmts.len(), 3);
    assert!(matches!(stmts[0], Statement::Create(_)));
    assert!(matches!(stmts[1], Statement::Insert(_)));
    assert!(matches!(stmts[2], Statement::Select(_)));
}

#[test]
fn parse_empty_input_yields_no_statements() {
    assert_eq!(parse(";;\n\n").unwrap().len(), 0);
}

#[test]
fn parse_missing_data_type_is_an_error() {
    assert_eq!(
        parse("CREATE TABLE t (a 5)"),
        Err(ParseError::ExpectedDataType { got: Token::U32(5) })
    );
}

#[test]
fn parse_empty_column_list_is_an_error() {
    assert_eq!(
        parse("CREATE TABLE t ()"),
        Err(ParseError::ExpectedIdentifier {
            got: Token::RightBracket
        })
    );
}

#[test]
fn parse_unrecognized_statement_is_an_error() {
    assert_eq!(
        parse("FROM t"),
        Err(ParseError::UnrecognizedStatement {
            got: Token::Keyword(KeywordToken::FROM)
        })
    );
}

#[test]
fn parse_unterminated_string_literal_is_an_error() {
    assert_eq!(
        parse("INSERT INTO t VALUES ('a)"),
        Err(ParseError::UnexpectedToken {
            expected: Token::Apostrophe,
            got: Token::RightBracket
        })
    );
}

#[test]
fn parse_truncated_statement_is_an_error() {
    assert_eq!(parse("CREATE TABLE"), Err(ParseError::UnexpectedEnd));
}

#[test]
fn parse_missing_from_is_an_error() {
    assert_eq!(
        parse("SELECT a b"),
        Err(ParseError::UnexpectedToken {
            expected: Token::Keyword(KeywordToken::FROM),
            got: Token::Identifier("b".to_string())
        })
    );
}

#[test]
fn compiler_yields_statements_one_at_a_time() {
    let toks = strip_spaces(tokenize("SELECT a FROM t; SELECT b FROM t;".chars().collect()).unwrap());
    let mut compiler = StatementCompiler::new(toks);
    assert!(matches!(compiler.next(), Some(Ok(Statement::Select(_)))));
    assert!(matches!(compiler.next(), Some(Ok(Statement::Select(_)))));
    assert!(compiler.next().is_none());
}

#[test]
fn trailing_comma_in_value_list_is_an_error() {
    assert!(parse("INSERT INTO t VALUES (1,)").is_err());
}
