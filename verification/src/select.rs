//! The abstract syntax of a `SELECT` statement.

use vstd::prelude::*;

verus! {

/// A projection expression: a named column, or `*` for all columns.
#[derive(Debug, Clone, PartialEq)]
pub enum Expression {
    Column(String),
    All,
}

/// The model of a projection expression.
pub enum ExpressionV {
    Column(Seq<char>),
    All,
}

impl View for Expression {
    type V = ExpressionV;

    open spec fn view(&self) -> ExpressionV {
        match self {
            Expression::Column(s) => ExpressionV::Column(s@),
            Expression::All => ExpressionV::All,
        }
    }
}

/// The views of a sequence of projection expressions.
pub open spec fn sel_exprs_of(q: Seq<Expression>) -> Seq<ExpressionV> {
    q.map_values(|e: Expression| e@)
}

/// A parsed `SELECT` statement: the projection list and the table name.
#[derive(Debug, Clone, PartialEq)]
pub struct SelectStatement {
    item: Vec<Expression>,
    from: String,
}

/// The model of a `SELECT` statement.
pub struct SelectStatementV {
    pub item: Seq<ExpressionV>,
    pub from: Seq<char>,
}

impl View for SelectStatement {
    type V = SelectStatementV;

    closed spec fn view(&self) -> SelectStatementV {
        SelectStatementV { item: sel_exprs_of(self.item@), from: self.from@ }
    }
}

impl SelectStatement {
    pub fn new(item: Vec<Expression>, from: String) -> (r: SelectStatement)
        ensures
            r@.item == sel_exprs_of(item@),
            r@.from == from@,
    {
        SelectStatement { item, from }
    }

    pub fn table_name(&self) -> (r: &str)
        ensures
            r@ == self@.from,
    {
        self.from.as_str()
    }

    pub fn expression(&self) -> (r: &[Expression])
        ensures
            sel_exprs_of(r@) == self@.item,
    {
        self.item.as_slice()
    }
}

} // verus!
