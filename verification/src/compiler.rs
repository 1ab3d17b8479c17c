//! The statement compiler: a recursive-descent parser from tokens to
//! statements.
//!
//! Each parsing step has a specification function over the token views;
//! every executable method returns exactly what its specification function
//! says, both on success and on error. The parser validates syntax only:
//! table and column existence is the storage engine's job.

use vstd::prelude::*;

use crate::create::{ColumnDefinition, ColumnDefinitionV, CreateTableStatement,
    CreateTableStatementV, DataType, col_defs_of};
use crate::insert::{InsertStatement, InsertStatementV, Literal, LiteralV};
use crate::insert;
use crate::select::{SelectStatement, SelectStatementV};
use crate::select;
use crate::scanner::{KeywordToken, Token, TokenV, views_of};
use crate::statements::{Statement, StatementV};

verus! {

/// A syntax error. Each variant carries the offending token, and
/// `UnexpectedToken` also carries the token that was required instead.
#[derive(Debug, Clone, PartialEq)]
pub enum ParseError {
    UnexpectedEnd,
    UnexpectedToken { expected: Token, got: Token },
    ExpectedIdentifier { got: Token },
    ExpectedDataType { got: Token },
    UnhandledToken { got: Token },
    UnrecognizedStatement { got: Token },
}

/// The model of a syntax error.
pub enum ParseErrorV {
    UnexpectedEnd,
    UnexpectedToken { expected: TokenV, got: TokenV },
    ExpectedIdentifier { got: TokenV },
    ExpectedDataType { got: TokenV },
    UnhandledToken { got: TokenV },
    UnrecognizedStatement { got: TokenV },
}

impl View for ParseError {
    type V = ParseErrorV;

    open spec fn view(&self) -> ParseErrorV {
        match self {
            ParseError::UnexpectedEnd => ParseErrorV::UnexpectedEnd,
            ParseError::UnexpectedToken { expected, got } => ParseErrorV::UnexpectedToken {
                expected: expected@,
                got: got@,
            },
            ParseError::ExpectedIdentifier { got } => ParseErrorV::ExpectedIdentifier {
                got: got@,
            },
            ParseError::ExpectedDataType { got } => ParseErrorV::ExpectedDataType { got: got@ },
            ParseError::UnhandledToken { got } => ParseErrorV::UnhandledToken { got: got@ },
            ParseError::UnrecognizedStatement { got } => ParseErrorV::UnrecognizedStatement {
                got: got@,
            },
        }
    }
}

/// The identifier at `pos`, and the position after it.
pub open spec fn sp_ident(toks: Seq<TokenV>, pos: int) -> Result<(Seq<char>, int), ParseErrorV> {
    if pos >= toks.len() {
        Err(ParseErrorV::UnexpectedEnd)
    } else {
        match toks[pos] {
            TokenV::Identifier(s) => Ok((s, pos + 1)),
            t => Err(ParseErrorV::ExpectedIdentifier { got: t }),
        }
    }
}

/// Consumes exactly the token `t` at `pos`.
pub open spec fn sp_expect(toks: Seq<TokenV>, pos: int, t: TokenV) -> Result<int, ParseErrorV> {
    if pos >= toks.len() {
        Err(ParseErrorV::UnexpectedEnd)
    } else if toks[pos] == t {
        Ok(pos + 1)
    } else {
        Err(ParseErrorV::UnexpectedToken { expected: t, got: toks[pos] })
    }
}

/// The data type named at `pos`: `INT` or `TEXT`.
pub open spec fn sp_data_type(toks: Seq<TokenV>, pos: int) -> Result<(DataType, int), ParseErrorV> {
    if pos >= toks.len() {
        Err(ParseErrorV::UnexpectedEnd)
    } else {
        match toks[pos] {
            TokenV::Keyword(KeywordToken::INT) => Ok((DataType::Int32, pos + 1)),
            TokenV::Keyword(KeywordToken::TEXT) => Ok((DataType::String, pos + 1)),
            t => Err(ParseErrorV::ExpectedDataType { got: t }),
        }
    }
}

/// One column definition: an identifier followed by a data type.
pub open spec fn sp_coldef(toks: Seq<TokenV>, pos: int) -> Result<
    (ColumnDefinitionV, int),
    ParseErrorV,
> {
    match sp_ident(toks, pos) {
        Err(e) => Err(e),
        Ok((n, p1)) => match sp_data_type(toks, p1) {
            Err(e) => Err(e),
            Ok((dt, p2)) => Ok((ColumnDefinitionV { name: n, data_type: dt }, p2)),
        },
    }
}

/// A non-empty, comma-separated run of column definitions.
pub open spec fn sp_coldefs_tail(toks: Seq<TokenV>, pos: int) -> Result<
    (Seq<ColumnDefinitionV>, int),
    ParseErrorV,
>
    decreases toks.len() - pos,
{
    match sp_coldef(toks, pos) {
        Err(e) => Err(e),
        Ok((d, p1)) => if p1 < toks.len() && toks[p1] is Comma && pos < p1 {
            match sp_coldefs_tail(toks, p1 + 1) {
                Err(e) => Err(e),
                Ok((ds, p2)) => Ok((seq![d] + ds, p2)),
            }
        } else {
            Ok((seq![d], p1))
        },
    }
}

/// A parenthesized, non-empty, comma-separated column definition list.
pub open spec fn sp_bracketed_coldefs(toks: Seq<TokenV>, pos: int) -> Result<
    (Seq<ColumnDefinitionV>, int),
    ParseErrorV,
> {
    match sp_expect(toks, pos, TokenV::LeftBracket) {
        Err(e) => Err(e),
        Ok(p1) => match sp_coldefs_tail(toks, p1) {
            Err(e) => Err(e),
            Ok((ds, p2)) => match sp_expect(toks, p2, TokenV::RightBracket) {
                Err(e) => Err(e),
                Ok(p3) => Ok((ds, p3)),
            },
        },
    }
}

/// The rest of a `CREATE TABLE` statement, after `CREATE TABLE`:
/// the table name and the column definition list.
pub open spec fn sp_create_table(toks: Seq<TokenV>, pos: int) -> Result<
    (CreateTableStatementV, int),
    ParseErrorV,
> {
    match sp_ident(toks, pos) {
        Err(e) => Err(e),
        Ok((name, p1)) => match sp_bracketed_coldefs(toks, p1) {
            Err(e) => Err(e),
            Ok((cols, p2)) => Ok((CreateTableStatementV { name, columns: cols }, p2)),
        },
    }
}

/// The rest of a `CREATE` statement, after the `CREATE` keyword: the
/// `TABLE` keyword, then the table name and columns.
pub open spec fn sp_create(toks: Seq<TokenV>, pos: int) -> Result<
    (CreateTableStatementV, int),
    ParseErrorV,
> {
    match sp_expect(toks, pos, TokenV::Keyword(KeywordToken::TABLE)) {
        Err(e) => Err(e),
        Ok(p1) => sp_create_table(toks, p1),
    }
}

/// One value expression: an integer literal, or an identifier between
/// apostrophes as a string literal.
pub open spec fn sp_value(toks: Seq<TokenV>, pos: int) -> Result<
    (insert::ExpressionV, int),
    ParseErrorV,
> {
    if pos >= toks.len() {
        Err(ParseErrorV::UnexpectedEnd)
    } else {
        match toks[pos] {
            TokenV::U32(v) => Ok((insert::ExpressionV::Literal(LiteralV::U32(v)), pos + 1)),
            TokenV::Apostrophe => match sp_ident(toks, pos + 1) {
                Err(e) => Err(e),
                Ok((s, p1)) => match sp_expect(toks, p1, TokenV::Apostrophe) {
                    Err(e) => Err(e),
                    Ok(p2) => Ok((insert::ExpressionV::Literal(LiteralV::String(s)), p2)),
                },
            },
            t => Err(ParseErrorV::UnhandledToken { got: t }),
        }
    }
}

/// A non-empty, comma-separated run of value expressions.
pub open spec fn sp_values_tail(toks: Seq<TokenV>, pos: int) -> Result<
    (Seq<insert::ExpressionV>, int),
    ParseErrorV,
>
    decreases toks.len() - pos,
{
    match sp_value(toks, pos) {
        Err(e) => Err(e),
        Ok((v, p1)) => if p1 < toks.len() && toks[p1] is Comma && pos < p1 {
            match sp_values_tail(toks, p1 + 1) {
                Err(e) => Err(e),
                Ok((vs, p2)) => Ok((seq![v] + vs, p2)),
            }
        } else {
            Ok((seq![v], p1))
        },
    }
}

/// The rest of an `INSERT` statement, after the `INSERT` keyword:
/// `INTO`, the table name, `VALUES`, and a parenthesized value list.
pub open spec fn sp_insert(toks: Seq<TokenV>, pos: int) -> Result<
    (InsertStatementV, int),
    ParseErrorV,
> {
    match sp_expect(toks, pos, TokenV::Keyword(KeywordToken::INTO)) {
        Err(e) => Err(e),
        Ok(p1) => match sp_ident(toks, p1) {
            Err(e) => Err(e),
            Ok((table, p2)) => match sp_expect(toks, p2, TokenV::Keyword(KeywordToken::VALUES)) {
                Err(e) => Err(e),
                Ok(p3) => match sp_expect(toks, p3, TokenV::LeftBracket) {
                    Err(e) => Err(e),
                    Ok(p4) => match sp_values_tail(toks, p4) {
                        Err(e) => Err(e),
                        Ok((vs, p5)) => match sp_expect(toks, p5, TokenV::RightBracket) {
                            Err(e) => Err(e),
                            Ok(p6) => Ok((InsertStatementV { table, values: vs }, p6)),
                        },
                    },
                },
            },
        },
    }
}

/// One projection expression: a column name, or `*` for all columns.
pub open spec fn sp_selexpr(toks: Seq<TokenV>, pos: int) -> Result<
    (select::ExpressionV, int),
    ParseErrorV,
> {
    if pos >= toks.len() {
        Err(ParseErrorV::UnexpectedEnd)
    } else {
        match toks[pos] {
            TokenV::Identifier(s) => Ok((select::ExpressionV::Column(s), pos + 1)),
            TokenV::Asterisk => Ok((select::ExpressionV::All, pos + 1)),
            t => Err(ParseErrorV::UnhandledToken { got: t }),
        }
    }
}

/// A non-empty, comma-separated run of projection expressions.
pub open spec fn sp_selexprs_tail(toks: Seq<TokenV>, pos: int) -> Result<
    (Seq<select::ExpressionV>, int),
    ParseErrorV,
>
    decreases toks.len() - pos,
{
    match sp_selexpr(toks, pos) {
        Err(e) => Err(e),
        Ok((v, p1)) => if p1 < toks.len() && toks[p1] is Comma && pos < p1 {
            match sp_selexprs_tail(toks, p1 + 1) {
                Err(e) => Err(e),
                Ok((vs, p2)) => Ok((seq![v] + vs, p2)),
            }
        } else {
            Ok((seq![v], p1))
        },
    }
}

/// The rest of a `SELECT` statement, after the `SELECT` keyword: the
/// projection list, `FROM`, and the table name.
pub open spec fn sp_select(toks: Seq<TokenV>, pos: int) -> Result<
    (SelectStatementV, int),
    ParseErrorV,
> {
    match sp_selexprs_tail(toks, pos) {
        Err(e) => Err(e),
        Ok((items, p1)) => match sp_expect(toks, p1, TokenV::Keyword(KeywordToken::FROM)) {
            Err(e) => Err(e),
            Ok(p2) => match sp_ident(toks, p2) {
                Err(e) => Err(e),
                Ok((from, p3)) => Ok((SelectStatementV { item: items, from }, p3)),
            },
        },
    }
}

/// One step of the statement compiler: the next statement and the position
/// after it, the end of the tokens, or a syntax error. Semicolons and
/// newlines before a statement are separators and are skipped.
pub enum CompileStepV {
    End,
    Stmt(StatementV, int),
    Error(ParseErrorV),
}

/// What the compiler produces at position `pos` of the token sequence.
pub open spec fn sp_compile_next(toks: Seq<TokenV>, pos: int) -> CompileStepV
    decreases toks.len() - pos,
{
    if pos >= toks.len() {
        CompileStepV::End
    } else {
        match toks[pos] {
            TokenV::SemiColon => sp_compile_next(toks, pos + 1),
            TokenV::NewLine => sp_compile_next(toks, pos + 1),
            TokenV::Keyword(KeywordToken::CREATE) => match sp_create(toks, pos + 1) {
                Err(e) => CompileStepV::Error(e),
                Ok((c, p)) => CompileStepV::Stmt(StatementV::Create(c), p),
            },
            TokenV::Keyword(KeywordToken::INSERT) => match sp_insert(toks, pos + 1) {
                Err(e) => CompileStepV::Error(e),
                Ok((i, p)) => CompileStepV::Stmt(StatementV::Insert(i), p),
            },
            TokenV::Keyword(KeywordToken::SELECT) => match sp_select(toks, pos + 1) {
                Err(e) => CompileStepV::Error(e),
                Ok((s, p)) => CompileStepV::Stmt(StatementV::Select(s), p),
            },
            t => CompileStepV::Error(ParseErrorV::UnrecognizedStatement { got: t }),
        }
    }
}

/// All the statements compiled from `pos` on, in order, or the first
/// syntax error.
pub open spec fn sp_compile_all(toks: Seq<TokenV>, pos: int) -> Result<
    Seq<StatementV>,
    ParseErrorV,
>
    decreases toks.len() - pos,
{
    match sp_compile_next(toks, pos) {
        CompileStepV::End => Ok(Seq::empty()),
        CompileStepV::Error(e) => Err(e),
        CompileStepV::Stmt(sv, p) => if pos < p <= toks.len() {
            match sp_compile_all(toks, p) {
                Err(e) => Err(e),
                Ok(rest) => Ok(seq![sv] + rest),
            }
        } else {
            Ok(Seq::empty())
        },
    }
}

/// The statement compiler as a cursor over a token sequence.
pub struct StatementCompiler {
    tokens: Vec<Token>,
    pos: usize,
}

/// The model of the compiler: the token views and the cursor position.
pub struct StatementCompilerV {
    pub tokens: Seq<TokenV>,
    pub pos: int,
}

impl View for StatementCompiler {
    type V = StatementCompilerV;

    closed spec fn view(&self) -> StatementCompilerV {
        StatementCompilerV { tokens: views_of(self.tokens@), pos: self.pos as int }
    }
}

impl StatementCompiler {
    /// A compiler over the given tokens, positioned at the start.
    pub fn new(tokens: Vec<Token>) -> (r: StatementCompiler)
        ensures
            r@.tokens == views_of(tokens@),
            r@.pos == 0,
    {
        StatementCompiler { tokens, pos: 0 }
    }

    /// Consumes one token, which must equal `item`, and returns it;
    /// otherwise reports the mismatch, as `sp_expect` describes.
    fn assert_next_token_is(&mut self, item: Token) -> (r: Result<Token, ParseError>)
        requires
            old(self)@.pos <= old(self)@.tokens.len(),
        ensures
            final(self)@.tokens == old(self)@.tokens,
            old(self)@.pos <= final(self)@.pos <= final(self)@.tokens.len(),
            match sp_expect(old(self)@.tokens, old(self)@.pos, item@) {
                Ok(p) => (r matches Ok(t) && t@ == item@) && final(self)@.pos == p
                    && old(self)@.pos < p,
                Err(e) => r matches Err(pe) && pe@ == e,
            },
    {
        let n = self.tokens.len();
        if self.pos >= n {
            return Err(ParseError::UnexpectedEnd);
        }
        let t = self.tokens[self.pos].duplicate();
        if t == item {
            self.pos = self.pos + 1;
            Ok(t)
        } else {
            Err(ParseError::UnexpectedToken { expected: item, got: t })
        }
    }

    /// Consumes one token, which must be an identifier, and returns its
    /// text, as `sp_ident` describes.
    fn assert_next_identifier(&mut self) -> (r: Result<String, ParseError>)
        requires
            old(self)@.pos <= old(self)@.tokens.len(),
        ensures
            final(self)@.tokens == old(self)@.tokens,
            old(self)@.pos <= final(self)@.pos <= final(self)@.tokens.len(),
            match sp_ident(old(self)@.tokens, old(self)@.pos) {
                Ok((s, p)) => (r matches Ok(name) && name@ == s) && final(self)@.pos == p
                    && old(self)@.pos < p,
                Err(e) => r matches Err(pe) && pe@ == e,
            },
    {
        let n = self.tokens.len();
        if self.pos >= n {
            return Err(ParseError::UnexpectedEnd);
        }
        let t = self.tokens[self.pos].duplicate();
        match t {
            Token::Identifier(s) => {
                self.pos = self.pos + 1;
                Ok(s)
            },
            got => Err(ParseError::ExpectedIdentifier { got }),
        }
    }

    /// Consumes one token without looking at it.
    fn skip(&mut self)
        requires
            old(self)@.pos < old(self)@.tokens.len(),
        ensures
            final(self)@.tokens == old(self)@.tokens,
            final(self)@.pos == old(self)@.pos + 1,
    {
        let n = self.tokens.len();
        proof {
            assert(self.pos < n);
        }
        self.pos = self.pos + 1;
    }

    /// Consumes one token, which must name a data type, as `sp_data_type`
    /// describes.
    fn read_data_type(&mut self) -> (r: Result<DataType, ParseError>)
        requires
            old(self)@.pos <= old(self)@.tokens.len(),
        ensures
            final(self)@.tokens == old(self)@.tokens,
            old(self)@.pos <= final(self)@.pos <= final(self)@.tokens.len(),
            match sp_data_type(old(self)@.tokens, old(self)@.pos) {
                Ok((dt, p)) => (r matches Ok(d) && d == dt) && final(self)@.pos == p
                    && old(self)@.pos < p,
                Err(e) => r matches Err(pe) && pe@ == e,
            },
    {
        let n = self.tokens.len();
        if self.pos >= n {
            return Err(ParseError::UnexpectedEnd);
        }
        let t = self.tokens[self.pos].duplicate();
        match t {
            Token::Keyword(KeywordToken::INT) => {
                self.pos = self.pos + 1;
                Ok(DataType::Int32)
            },
            Token::Keyword(KeywordToken::TEXT) => {
                self.pos = self.pos + 1;
                Ok(DataType::String)
            },
            got => Err(ParseError::ExpectedDataType { got }),
        }
    }

    /// One column definition, as `sp_coldef` describes.
    fn compile_create_table_column_definition(&mut self) -> (r: Result<
        ColumnDefinition,
        ParseError,
    >)
        requires
            old(self)@.pos <= old(self)@.tokens.len(),
        ensures
            final(self)@.tokens == old(self)@.tokens,
            old(self)@.pos <= final(self)@.pos <= final(self)@.tokens.len(),
            match sp_coldef(old(self)@.tokens, old(self)@.pos) {
                Ok((d, p)) => (r matches Ok(c) && c@ == d) && final(self)@.pos == p
                    && old(self)@.pos < p,
                Err(e) => r matches Err(pe) && pe@ == e,
            },
    {
        let name = match self.assert_next_identifier() {
            Ok(name) => name,
            Err(e) => {
                return Err(e);
            },
        };
        let data_type = match self.read_data_type() {
            Ok(dt) => dt,
            Err(e) => {
                return Err(e);
            },
        };
        Ok(ColumnDefinition::new(name, data_type))
    }

    /// The comma-separated run of column definitions, as `sp_coldefs_tail`
    /// describes.
    fn compile_coldefs_tail(&mut self) -> (r: Result<Vec<ColumnDefinition>, ParseError>)
        requires
            old(self)@.pos <= old(self)@.tokens.len(),
        ensures
            final(self)@.tokens == old(self)@.tokens,
            old(self)@.pos <= final(self)@.pos <= final(self)@.tokens.len(),
            match sp_coldefs_tail(old(self)@.tokens, old(self)@.pos) {
                Ok((ds, p)) => (r matches Ok(v) && col_defs_of(v@) == ds) && final(self)@.pos
                    == p && old(self)@.pos < p,
                Err(e) => r matches Err(pe) && pe@ == e,
            },
        decreases old(self)@.tokens.len() - old(self)@.pos,
    {
        let d = match self.compile_create_table_column_definition() {
            Ok(d) => d,
            Err(e) => {
                return Err(e);
            },
        };
        let ghost d_v = d@;
        let n = self.tokens.len();
        let mut more = false;
        if self.pos < n {
            more = match &self.tokens[self.pos] {
                Token::Comma => true,
                _ => false,
            };
        }
        if more {
            self.skip();
            let rest = match self.compile_coldefs_tail() {
                Ok(rest) => rest,
                Err(e) => {
                    return Err(e);
                },
            };
            let mut out: Vec<ColumnDefinition> = Vec::new();
            out.push(d);
            let mut rest = rest;
            out.append(&mut rest);
            proof {
                assert(col_defs_of(out@) =~= seq![d_v] + col_defs_of(out@.drop_first()));
            }
            Ok(out)
        } else {
            let mut out: Vec<ColumnDefinition> = Vec::new();
            out.push(d);
            proof {
                assert(col_defs_of(out@) =~= seq![d_v]);
            }
            Ok(out)
        }
    }

    /// The parenthesized column definition list of a `CREATE TABLE`
    /// statement, as `sp_bracketed_coldefs` describes.
    fn compile_create_table_column_definitions(&mut self) -> (r: Result<
        Vec<ColumnDefinition>,
        ParseError,
    >)
        requires
            old(self)@.pos <= old(self)@.tokens.len(),
        ensures
            final(self)@.tokens == old(self)@.tokens,
            old(self)@.pos <= final(self)@.pos <= final(self)@.tokens.len(),
            match sp_bracketed_coldefs(old(self)@.tokens, old(self)@.pos) {
                Ok((ds, p)) => (r matches Ok(v) && col_defs_of(v@) == ds) && final(self)@.pos
                    == p && old(self)@.pos < p,
                Err(e) => r matches Err(pe) && pe@ == e,
            },
    {
        match self.assert_next_token_is(Token::LeftBracket) {
            Ok(_) => (),
            Err(e) => {
                return Err(e);
            },
        };
        let ds = match self.compile_coldefs_tail() {
            Ok(ds) => ds,
            Err(e) => {
                return Err(e);
            },
        };
        match self.assert_next_token_is(Token::RightBracket) {
            Ok(_) => (),
            Err(e) => {
                return Err(e);
            },
        };
        Ok(ds)
    }

    /// The rest of a `CREATE TABLE` statement after its two keywords, as
    /// `sp_create_table` describes.
    fn compile_create_table(&mut self) -> (r: Result<Statement, ParseError>)
        requires
            old(self)@.pos <= old(self)@.tokens.len(),
        ensures
            final(self)@.tokens == old(self)@.tokens,
            old(self)@.pos <= final(self)@.pos <= final(self)@.tokens.len(),
            match sp_create_table(old(self)@.tokens, old(self)@.pos) {
                Ok((c, p)) => (r matches Ok(st) && st@ == StatementV::Create(c))
                    && final(self)@.pos == p && old(self)@.pos < p,
                Err(e) => r matches Err(pe) && pe@ == e,
            },
    {
        let identifier = match self.assert_next_identifier() {
            Ok(name) => name,
            Err(e) => {
                return Err(e);
            },
        };
        let columns = match self.compile_create_table_column_definitions() {
            Ok(cs) => cs,
            Err(e) => {
                return Err(e);
            },
        };
        Ok(Statement::Create(CreateTableStatement::new(identifier, columns)))
    }

    /// The rest of a `CREATE` statement after the `CREATE` keyword, as
    /// `sp_create` describes.
    fn compile_create(&mut self) -> (r: Result<Statement, ParseError>)
        requires
            old(self)@.pos <= old(self)@.tokens.len(),
        ensures
            final(self)@.tokens == old(self)@.tokens,
            old(self)@.pos <= final(self)@.pos <= final(self)@.tokens.len(),
            match sp_create(old(self)@.tokens, old(self)@.pos) {
                Ok((c, p)) => (r matches Ok(st) && st@ == StatementV::Create(c))
                    && final(self)@.pos == p && old(self)@.pos < p,
                Err(e) => r matches Err(pe) && pe@ == e,
            },
    {
        match self.assert_next_token_is(Token::Keyword(KeywordToken::TABLE)) {
            Ok(_) => (),
            Err(e) => {
                return Err(e);
            },
        };
        self.compile_create_table()
    }

    /// One value expression of an `INSERT` statement, as `sp_value`
    /// describes.
    fn compile_insert_value(&mut self) -> (r: Result<insert::Expression, ParseError>)
        requires
            old(self)@.pos <= old(self)@.tokens.len(),
        ensures
            final(self)@.tokens == old(self)@.tokens,
            old(self)@.pos <= final(self)@.pos <= final(self)@.tokens.len(),
            match sp_value(old(self)@.tokens, old(self)@.pos) {
                Ok((v, p)) => (r matches Ok(e) && e@ == v) && final(self)@.pos == p
                    && old(self)@.pos < p,
                Err(e) => r matches Err(pe) && pe@ == e,
            },
    {
        let n = self.tokens.len();
        if self.pos >= n {
            return Err(ParseError::UnexpectedEnd);
        }
        let t = self.tokens[self.pos].duplicate();
        match t {
            Token::U32(value) => {
                self.pos = self.pos + 1;
                Ok(insert::Expression::Literal(Literal::U32(value)))
            },
            Token::Apostrophe => {
                self.pos = self.pos + 1;
                let s = match self.assert_next_identifier() {
                    Ok(s) => s,
                    Err(e) => {
                        return Err(e);
                    },
                };
                match self.assert_next_token_is(Token::Apostrophe) {
                    Ok(_) => (),
                    Err(e) => {
                        return Err(e);
                    },
                };
                Ok(insert::Expression::Literal(Literal::String(s)))
            },
            got => Err(ParseError::UnhandledToken { got }),
        }
    }

    /// The comma-separated run of value expressions, as `sp_values_tail`
    /// describes.
    fn compile_values_tail(&mut self) -> (r: Result<Vec<insert::Expression>, ParseError>)
        requires
            old(self)@.pos <= old(self)@.tokens.len(),
        ensures
            final(self)@.tokens == old(self)@.tokens,
            old(self)@.pos <= final(self)@.pos <= final(self)@.tokens.len(),
            match sp_values_tail(old(self)@.tokens, old(self)@.pos) {
                Ok((vs, p)) => (r matches Ok(v) && crate::insert::exprs_of(v@) == vs)
                    && final(self)@.pos == p && old(self)@.pos < p,
                Err(e) => r matches Err(pe) && pe@ == e,
            },
        decreases old(self)@.tokens.len() - old(self)@.pos,
    {
        let v0 = match self.compile_insert_value() {
            Ok(v) => v,
            Err(e) => {
                return Err(e);
            },
        };
        let ghost v0_v = v0@;
        let n = self.tokens.len();
        let mut more = false;
        if self.pos < n {
            more = match &self.tokens[self.pos] {
                Token::Comma => true,
                _ => false,
            };
        }
        if more {
            self.skip();
            let rest = match self.compile_values_tail() {
                Ok(rest) => rest,
                Err(e) => {
                    return Err(e);
                },
            };
            let mut out: Vec<insert::Expression> = Vec::new();
            out.push(v0);
            let mut rest = rest;
            out.append(&mut rest);
            proof {
                assert(crate::insert::exprs_of(out@) =~= seq![v0_v] + crate::insert::exprs_of(
                    out@.drop_first(),
                ));
            }
            Ok(out)
        } else {
            let mut out: Vec<insert::Expression> = Vec::new();
            out.push(v0);
            proof {
                assert(crate::insert::exprs_of(out@) =~= seq![v0_v]);
            }
            Ok(out)
        }
    }

    /// The rest of an `INSERT` statement after the `INSERT` keyword, as
    /// `sp_insert` describes.
    fn compile_insert(&mut self) -> (r: Result<Statement, ParseError>)
        requires
            old(self)@.pos <= old(self)@.tokens.len(),
        ensures
            final(self)@.tokens == old(self)@.tokens,
            old(self)@.pos <= final(self)@.pos <= final(self)@.tokens.len(),
            match sp_insert(old(self)@.tokens, old(self)@.pos) {
                Ok((i, p)) => (r matches Ok(st) && st@ == StatementV::Insert(i))
                    && final(self)@.pos == p && old(self)@.pos < p,
                Err(e) => r matches Err(pe) && pe@ == e,
            },
    {
        match self.assert_next_token_is(Token::Keyword(KeywordToken::INTO)) {
            Ok(_) => (),
            Err(e) => {
                return Err(e);
            },
        };
        let identifier = match self.assert_next_identifier() {
            Ok(name) => name,
            Err(e) => {
                return Err(e);
            },
        };
        match self.assert_next_token_is(Token::Keyword(KeywordToken::VALUES)) {
            Ok(_) => (),
            Err(e) => {
                return Err(e);
            },
        };
        match self.assert_next_token_is(Token::LeftBracket) {
            Ok(_) => (),
            Err(e) => {
                return Err(e);
            },
        };
        let values = match self.compile_values_tail() {
            Ok(vs) => vs,
            Err(e) => {
                return Err(e);
            },
        };
        match self.assert_next_token_is(Token::RightBracket) {
            Ok(_) => (),
            Err(e) => {
                return Err(e);
            },
        };
        Ok(Statement::Insert(InsertStatement::new(identifier, values)))
    }

    /// One projection expression of a `SELECT` statement, as `sp_selexpr`
    /// describes.
    fn compile_select_expression(&mut self) -> (r: Result<select::Expression, ParseError>)
        requires
            old(self)@.pos <= old(self)@.tokens.len(),
        ensures
            final(self)@.tokens == old(self)@.tokens,
            old(self)@.pos <= final(self)@.pos <= final(self)@.tokens.len(),
            match sp_selexpr(old(self)@.tokens, old(self)@.pos) {
                Ok((v, p)) => (r matches Ok(e) && e@ == v) && final(self)@.pos == p
                    && old(self)@.pos < p,
                Err(e) => r matches Err(pe) && pe@ == e,
            },
    {
        let n = self.tokens.len();
        if self.pos >= n {
            return Err(ParseError::UnexpectedEnd);
        }
        let t = self.tokens[self.pos].duplicate();
        match t {
            Token::Identifier(s) => {
                self.pos = self.pos + 1;
                Ok(select::Expression::Column(s))
            },
            Token::Asterisk => {
                self.pos = self.pos + 1;
                Ok(select::Expression::All)
            },
            got => Err(ParseError::UnhandledToken { got }),
        }
    }

    /// The comma-separated run of projection expressions, as
    /// `sp_selexprs_tail` describes.
    fn compile_selexprs_tail(&mut self) -> (r: Result<Vec<select::Expression>, ParseError>)
        requires
            old(self)@.pos <= old(self)@.tokens.len(),
        ensures
            final(self)@.tokens == old(self)@.tokens,
            old(self)@.pos <= final(self)@.pos <= final(self)@.tokens.len(),
            match sp_selexprs_tail(old(self)@.tokens, old(self)@.pos) {
                Ok((vs, p)) => (r matches Ok(v) && crate::select::sel_exprs_of(v@) == vs)
                    && final(self)@.pos == p && old(self)@.pos < p,
                Err(e) => r matches Err(pe) && pe@ == e,
            },
        decreases old(self)@.tokens.len() - old(self)@.pos,
    {
        let v0 = match self.compile_select_expression() {
            Ok(v) => v,
            Err(e) => {
                return Err(e);
            },
        };
        let ghost v0_v = v0@;
        let n = self.tokens.len();
        let mut more = false;
        if self.pos < n {
            more = match &self.tokens[self.pos] {
                Token::Comma => true,
                _ => false,
            };
        }
        if more {
            self.skip();
            let rest = match self.compile_selexprs_tail() {
                Ok(rest) => rest,
                Err(e) => {
                    return Err(e);
                },
            };
            let mut out: Vec<select::Expression> = Vec::new();
            out.push(v0);
            let mut rest = rest;
            out.append(&mut rest);
            proof {
                assert(crate::select::sel_exprs_of(out@) =~= seq![v0_v]
                    + crate::select::sel_exprs_of(out@.drop_first()));
            }
            Ok(out)
        } else {
            let mut out: Vec<select::Expression> = Vec::new();
            out.push(v0);
            proof {
                assert(crate::select::sel_exprs_of(out@) =~= seq![v0_v]);
            }
            Ok(out)
        }
    }

    /// The rest of a `SELECT` statement after the `SELECT` keyword, as
    /// `sp_select` describes.
    fn compile_select(&mut self) -> (r: Result<Statement, ParseError>)
        requires
            old(self)@.pos <= old(self)@.tokens.len(),
        ensures
            final(self)@.tokens == old(self)@.tokens,
            old(self)@.pos <= final(self)@.pos <= final(self)@.tokens.len(),
            match sp_select(old(self)@.tokens, old(self)@.pos) {
                Ok((s, p)) => (r matches Ok(st) && st@ == StatementV::Select(s))
                    && final(self)@.pos == p && old(self)@.pos < p,
                Err(e) => r matches Err(pe) && pe@ == e,
            },
    {
        let items = match self.compile_selexprs_tail() {
            Ok(vs) => vs,
            Err(e) => {
                return Err(e);
            },
        };
        match self.assert_next_token_is(Token::Keyword(KeywordToken::FROM)) {
            Ok(_) => (),
            Err(e) => {
                return Err(e);
            },
        };
        let table = match self.assert_next_identifier() {
            Ok(name) => name,
            Err(e) => {
                return Err(e);
            },
        };
        Ok(Statement::Select(SelectStatement::new(items, table)))
    }

    /// The next statement, `None` at the end of the tokens, or the syntax
    /// error found, exactly as `sp_compile_next` describes. Statement
    /// separators before the statement are skipped.
    #[verifier::loop_isolation(false)]
    pub fn next(&mut self) -> (r: Option<Result<Statement, ParseError>>)
        requires
            old(self)@.pos <= old(self)@.tokens.len(),
        ensures
            final(self)@.tokens == old(self)@.tokens,
            old(self)@.pos <= final(self)@.pos <= final(self)@.tokens.len(),
            match sp_compile_next(old(self)@.tokens, old(self)@.pos) {
                CompileStepV::End => r is None,
                CompileStepV::Stmt(sv, p) => (r matches Some(res) && res matches Ok(st) && st@
                    == sv) && final(self)@.pos == p && old(self)@.pos < p,
                CompileStepV::Error(e) => r matches Some(res) && res matches Err(pe) && pe@
                    == e,
            },
    {
        loop
            invariant
                self@.tokens == old(self)@.tokens,
                old(self)@.pos <= self@.pos <= self@.tokens.len(),
                sp_compile_next(self@.tokens, self@.pos) == sp_compile_next(
                    old(self)@.tokens,
                    old(self)@.pos,
                ),
            decreases self@.tokens.len() - self@.pos,
        {
            let n = self.tokens.len();
            if self.pos >= n {
                return None;
            }
            let t = self.tokens[self.pos].duplicate();
            self.pos = self.pos + 1;
            match t {
                Token::Keyword(KeywordToken::CREATE) => {
                    return Some(self.compile_create());
                },
                Token::Keyword(KeywordToken::INSERT) => {
                    return Some(self.compile_insert());
                },
                Token::Keyword(KeywordToken::SELECT) => {
                    return Some(self.compile_select());
                },
                Token::SemiColon => (),
                Token::NewLine => (),
                got => {
                    return Some(Err(ParseError::UnrecognizedStatement { got }));
                },
            }
        }
    }
}

/// The views of a sequence of statements.
pub open spec fn stmts_of(q: Seq<Statement>) -> Seq<StatementV> {
    q.map_values(|s: Statement| s@)
}

/// Compiles the whole token sequence into statements, or reports the first
/// syntax error, exactly as `sp_compile_all` describes from position zero.
#[verifier::loop_isolation(false)]
pub fn compile_statements(tokens: Vec<Token>) -> (r: Result<Vec<Statement>, ParseError>)
    ensures
        match sp_compile_all(views_of(tokens@), 0) {
            Ok(ss) => r matches Ok(v) && stmts_of(v@) == ss,
            Err(e) => r matches Err(pe) && pe@ == e,
        },
{
    let ghost toks = views_of(tokens@);
    let mut compiler = StatementCompiler::new(tokens);
    let mut out: Vec<Statement> = Vec::new();
    loop
        invariant
            compiler@.tokens == toks,
            0 <= compiler@.pos <= toks.len(),
            (match sp_compile_all(toks, compiler@.pos) {
                Ok(rest) => sp_compile_all(toks, 0) == Ok::<Seq<StatementV>, ParseErrorV>(
                    stmts_of(out@) + rest,
                ),
                Err(e) => sp_compile_all(toks, 0) == Err::<Seq<StatementV>, ParseErrorV>(e),
            }),
        decreases toks.len() - compiler@.pos,
    {
        let ghost p = compiler@.pos;
        let ghost out0 = out@;
        match compiler.next() {
            None => {
                proof {
                    assert(stmts_of(out@) + Seq::<StatementV>::empty() =~= stmts_of(out@));
                }
                return Ok(out);
            },
            Some(Err(e)) => {
                return Err(e);
            },
            Some(Ok(st)) => {
                let ghost sv = st@;
                out.push(st);
                proof {
                    assert(stmts_of(out@) =~= stmts_of(out0) + seq![sv]);
                    if sp_compile_all(toks, compiler@.pos) is Ok {
                        assert((stmts_of(out0) + (seq![sv] + sp_compile_all(
                            toks,
                            compiler@.pos,
                        )->Ok_0)) =~= (stmts_of(out@) + sp_compile_all(
                            toks,
                            compiler@.pos,
                        )->Ok_0));
                    }
                }
            },
        }
    }
}

} // verus!
