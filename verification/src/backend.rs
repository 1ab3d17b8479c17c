//! Query results and the cells they carry.

use vstd::prelude::*;

verus! {

/// A value returned by a `SELECT`: a copy of a stored cell.
#[derive(Debug, Clone, PartialEq)]
pub enum Cell {
    U32(u32),
    String(String),
}

/// The model of a cell, stored or returned.
pub enum CellV {
    U32(u32),
    String(Seq<char>),
}

impl View for Cell {
    type V = CellV;

    open spec fn view(&self) -> CellV {
        match self {
            Cell::U32(v) => CellV::U32(*v),
            Cell::String(s) => CellV::String(s@),
        }
    }
}

/// The views of one result row.
pub open spec fn row_views(q: Seq<Cell>) -> Seq<CellV> {
    q.map_values(|c: Cell| c@)
}

/// The views of a sequence of result rows.
pub open spec fn rows_views(q: Seq<Vec<Cell>>) -> Seq<Seq<CellV>> {
    q.map_values(|row: Vec<Cell>| row_views(row@))
}

/// What a `SELECT` returns: rows in table insertion order, each row holding
/// its cells in projection order.
#[derive(Debug, PartialEq)]
pub struct QueryResults {
    cells: Vec<Vec<Cell>>,
}

impl View for QueryResults {
    type V = Seq<Seq<CellV>>;

    closed spec fn view(&self) -> Seq<Seq<CellV>> {
        rows_views(self.cells@)
    }
}

impl QueryResults {
    pub fn new(cells: Vec<Vec<Cell>>) -> (r: QueryResults)
        ensures
            r@ == rows_views(cells@),
    {
        QueryResults { cells }
    }

    /// The result rows.
    pub fn rows(&self) -> (r: &[Vec<Cell>])
        ensures
            rows_views(r@) == self@,
    {
        self.cells.as_slice()
    }
}

} // verus!
