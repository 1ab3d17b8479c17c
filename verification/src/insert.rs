//! The abstract syntax of an `INSERT` statement.

use vstd::prelude::*;

verus! {

/// A literal value appearing in an `INSERT` statement.
#[derive(Debug, Clone, PartialEq)]
pub enum Literal {
    U32(u32),
    String(String),
}

/// The model of a literal.
pub enum LiteralV {
    U32(u32),
    String(Seq<char>),
}

impl View for Literal {
    type V = LiteralV;

    open spec fn view(&self) -> LiteralV {
        match self {
            Literal::U32(v) => LiteralV::U32(*v),
            Literal::String(s) => LiteralV::String(s@),
        }
    }
}

/// A value expression of an `INSERT` statement; only literals exist.
#[derive(Debug, Clone, PartialEq)]
pub enum Expression {
    Literal(Literal),
}

/// The model of a value expression.
pub enum ExpressionV {
    Literal(LiteralV),
}

impl View for Expression {
    type V = ExpressionV;

    open spec fn view(&self) -> ExpressionV {
        match self {
            Expression::Literal(l) => ExpressionV::Literal(l@),
        }
    }
}

/// The views of a sequence of value expressions.
pub open spec fn exprs_of(q: Seq<Expression>) -> Seq<ExpressionV> {
    q.map_values(|e: Expression| e@)
}

/// A parsed `INSERT` statement: the table name and the values of the one
/// row to append, in column order.
#[derive(Debug, Clone, PartialEq)]
pub struct InsertStatement {
    table: String,
    values: Vec<Expression>,
}

/// The model of an `INSERT` statement.
pub struct InsertStatementV {
    pub table: Seq<char>,
    pub values: Seq<ExpressionV>,
}

impl View for InsertStatement {
    type V = InsertStatementV;

    closed spec fn view(&self) -> InsertStatementV {
        InsertStatementV { table: self.table@, values: exprs_of(self.values@) }
    }
}

impl InsertStatement {
    pub fn new(table: String, values: Vec<Expression>) -> (r: InsertStatement)
        ensures
            r@.table == table@,
            r@.values == exprs_of(values@),
    {
        InsertStatement { table, values }
    }

    pub fn table_name(&self) -> (r: &str)
        ensures
            r@ == self@.table,
    {
        self.table.as_str()
    }

    pub fn values(&self) -> (r: &[Expression])
        ensures
            exprs_of(r@) == self@.values,
    {
        self.values.as_slice()
    }
}

} // verus!
