//! The abstract syntax of a `CREATE TABLE` statement.

use vstd::prelude::*;

verus! {

/// A column's declared type.
#[derive(Debug, Clone, Copy, PartialEq, Eq, Structural)]
pub enum DataType {
    Int32,
    String,
}

/// One column of a `CREATE TABLE` statement: a name and a declared type.
#[derive(Debug, Clone, PartialEq)]
pub struct ColumnDefinition {
    name: String,
    data_type: DataType,
}

/// The model of a column definition.
pub struct ColumnDefinitionV {
    pub name: Seq<char>,
    pub data_type: DataType,
}

impl View for ColumnDefinition {
    type V = ColumnDefinitionV;

    closed spec fn view(&self) -> ColumnDefinitionV {
        ColumnDefinitionV { name: self.name@, data_type: self.data_type }
    }
}

impl ColumnDefinition {
    pub fn new(name: String, data_type: DataType) -> (r: ColumnDefinition)
        ensures
            r@.name == name@,
            r@.data_type == data_type,
    {
        ColumnDefinition { name, data_type }
    }

    pub fn name(&self) -> (r: &str)
        ensures
            r@ == self@.name,
    {
        self.name.as_str()
    }

    pub fn data_type(&self) -> (r: &DataType)
        ensures
            *r == self@.data_type,
    {
        &self.data_type
    }
}

/// The views of a sequence of column definitions.
pub open spec fn col_defs_of(q: Seq<ColumnDefinition>) -> Seq<ColumnDefinitionV> {
    q.map_values(|c: ColumnDefinition| c@)
}

/// A parsed `CREATE TABLE` statement: the table name and its columns in
/// declaration order.
#[derive(Debug, Clone, PartialEq)]
pub struct CreateTableStatement {
    name: String,
    columns: Vec<ColumnDefinition>,
}

/// The model of a `CREATE TABLE` statement.
pub struct CreateTableStatementV {
    pub name: Seq<char>,
    pub columns: Seq<ColumnDefinitionV>,
}

impl View for CreateTableStatement {
    type V = CreateTableStatementV;

    closed spec fn view(&self) -> CreateTableStatementV {
        CreateTableStatementV { name: self.name@, columns: col_defs_of(self.columns@) }
    }
}

impl CreateTableStatement {
    pub fn new(name: String, columns: Vec<ColumnDefinition>) -> (r: CreateTableStatement)
        ensures
            r@.name == name@,
            r@.columns == col_defs_of(columns@),
    {
        CreateTableStatement { name, columns }
    }

    pub fn table_name(&self) -> (r: &str)
        ensures
            r@ == self@.name,
    {
        self.name.as_str()
    }

    pub fn columns(&self) -> (r: &[ColumnDefinition])
        ensures
            col_defs_of(r@) == self@.columns,
    {
        self.columns.as_slice()
    }
}

} // verus!
