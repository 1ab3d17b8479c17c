//! A parsed top-level statement.

use vstd::prelude::*;

use crate::create::{CreateTableStatement, CreateTableStatementV};
use crate::insert::{InsertStatement, InsertStatementV};
use crate::select::{SelectStatement, SelectStatementV};

verus! {

/// One statement of the query language.
#[derive(Debug, Clone, PartialEq)]
pub enum Statement {
    Create(CreateTableStatement),
    Insert(InsertStatement),
    Select(SelectStatement),
}

/// The model of a statement.
pub enum StatementV {
    Create(CreateTableStatementV),
    Insert(InsertStatementV),
    Select(SelectStatementV),
}

impl View for Statement {
    type V = StatementV;

    open spec fn view(&self) -> StatementV {
        match self {
            Statement::Create(s) => StatementV::Create(s@),
            Statement::Insert(s) => StatementV::Insert(s@),
            Statement::Select(s) => StatementV::Select(s@),
        }
    }
}

} // verus!
