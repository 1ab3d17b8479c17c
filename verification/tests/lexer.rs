use learn_to_write_a_database::scanner::{
    tokenize, strip_spaces, KeywordToken, ScannerError, Token, TokenIterator,
};

fn lex(s: &str) -> Vec<Token> {
    tokenize(s.chars().collect()).expect("lexing failed")
}

#[test]
fn lex_single_integer() {
    assert_eq!(lex("123"), vec![Token::U32(123)]);
}

#[test]
fn lex_digit_run_stops_at_first_non_digit() {
    assert_eq!(
        lex("1a"),
        vec![Token::U32(1), Token::Identifier("a".to_string())]
    );
}

#[test]
fn lex_keyword_lowercase() {
    assert_eq!(lex("select"), vec![Token::Keyword(KeywordToken::SELECT)]);
}

#[test]
fn lex_keyword_uppercase() {
    assert_eq!(lex("SELECT"), vec![Token::Keyword(KeywordToken::SELECT)]);
}

#[test]
fn lex_keyword_mixed_case() {
    assert_eq!(lex("SeLeCt"), vec![Token::Keyword(KeywordToken::SELECT)]);
}

#[test]
fn lex_every_keyword() {
    let input = "CREATE TABLE SELECT FROM AS INSERT INTO VALUES INT TEXT";
    let toks = strip_spaces(lex(input));
    assert_eq!(
        toks,
        vec![
            Token::Keyword(KeywordToken::CREATE),
            Token::Keyword(KeywordToken::TABLE),
            Token::Keyword(KeywordToken::SELECT),
            Token::Keyword(KeywordToken::FROM),
            Token::Keyword(KeywordToken::AS),
            Token::Keyword(KeywordToken::INSERT),
            Token::Keyword(KeywordToken::INTO),
            Token::Keyword(KeywordToken::VALUES),
            Token::Keyword(KeywordToken::INT),
            Token::Keyword(KeywordToken::TEXT),
        ]
    );
}

#[test]
fn lex_identifier_keeps_casing() {
    assert_eq!(lex("Users1"), vec![Token::Identifier("Users1".to_string())]);
}

#[test]
fn lex_punctuation() {
    assert_eq!(
        lex(";\n (),'*"),
        vec![
            Token::SemiColon,
            Token::NewLine,
            Token::Space,
            Token::LeftBracket,
            Token::RightBracket,
            Token::Comma,
            Token::Apostrophe,
            Token::Asterisk,
        ]
    );
}

#[test]
fn lex_statement_shape() {
    let toks = strip_spaces(lex("INSERT INTO t VALUES (1, 'a');"));
    assert_eq!(
        toks,
        vec![
            Token::Keyword(KeywordToken::INSERT),
            Token::Keyword(KeywordToken::INTO),
            Token::Identifier("t".to_string()),
            Token::Keyword(KeywordToken::VALUES),
            Token::LeftBracket,
            Token::U32(1),
            Token::Comma,
            Token::Apostrophe,
            Token::Identifier("a".to_string()),
            Token::Apostrophe,
            Token::RightBracket,
            Token::SemiColon,
        ]
    );
}

#[test]
fn lex_unrecognized_character_is_an_error() {
    assert_eq!(
        tokenize("a %".chars().collect()),
        Err(ScannerError::UnrecognizedCharacter('%'))
    );
}

#[test]
fn lex_integer_overflow_is_an_error() {
    assert_eq!(
        tokenize("99999999999".chars().collect()),
        Err(ScannerError::IntegerLiteralOverflow)
    );
    assert_eq!(
        tokenize("4294967296".chars().collect()),
        Err(ScannerError::IntegerLiteralOverflow)
    );
    assert_eq!(lex("4294967295"), vec![Token::U32(4294967295)]);
}

#[test]
fn lex_empty_input_yields_no_tokens() {
    assert_eq!(lex(""), Vec::<Token>::new());
}

#[test]
fn token_iterator_steps_one_token_at_a_time() {
    let mut it = TokenIterator::new_iterator("ab 12".chars().collect());
    assert_eq!(it.next(), Ok(Some(Token::Identifier("ab".to_string()))));
    assert_eq!(it.next(), Ok(Some(Token::Space)));
    assert_eq!(it.next(), Ok(Some(Token::U32(12))));
    assert_eq!(it.next(), Ok(None));
    assert_eq!(it.next(), Ok(None));
}

#[test]
fn strip_spaces_keeps_order_and_newlines() {
    let toks = lex(" a \n b ");
    assert_eq!(
        strip_spaces(toks),
        vec![
            Token::Identifier("a".to_string()),
            Token::NewLine,
            Token::Identifier("b".to_string()),
        ]
    );
}
