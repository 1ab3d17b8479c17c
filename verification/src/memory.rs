//! The in-memory storage engine.
//!
//! The engine owns a mapping from table name to table. A table holds its
//! column metadata, fixed at creation, and a flat, append-only row buffer
//! whose stride equals the column count: logical row `r` occupies the
//! slots `[r * stride, (r + 1) * stride)`. An insert either appends exactly
//! one full row or fails without any mutation, and every stored cell's
//! variant matches its column's declared type.

use vstd::prelude::*;

use crate::backend::{Cell, CellV, QueryResults, row_views, rows_views};
use crate::create::{ColumnDefinitionV, CreateTableStatement, CreateTableStatementV, DataType};
use crate::insert;
use crate::insert::{InsertStatement, Literal, LiteralV};
use crate::select;
use crate::select::{SelectStatement, SelectStatementV};

verus! {

/// The resolved type of a stored column.
#[derive(Debug, Clone, Copy, PartialEq, Eq, Structural)]
pub enum ColumnTypes {
    Int32,
    String,
}

/// A stored cell.
#[derive(Debug, Clone, PartialEq)]
pub enum MemoryCell {
    U32(u32),
    String(String),
}

impl View for MemoryCell {
    type V = CellV;

    open spec fn view(&self) -> CellV {
        match self {
            MemoryCell::U32(v) => CellV::U32(*v),
            MemoryCell::String(s) => CellV::String(s@),
        }
    }
}

/// The views of a sequence of stored cells.
pub open spec fn cells_views(q: Seq<MemoryCell>) -> Seq<CellV> {
    q.map_values(|c: MemoryCell| c@)
}

/// A table's row storage: a flat cell buffer with a fixed stride.
pub struct Rows {
    stride: usize,
    data: Vec<MemoryCell>,
}

/// The model of the row storage.
pub struct RowsV {
    pub stride: int,
    pub data: Seq<CellV>,
}

impl View for Rows {
    type V = RowsV;

    closed spec fn view(&self) -> RowsV {
        RowsV { stride: self.stride as int, data: cells_views(self.data@) }
    }
}

impl Rows {
    pub fn new(stride: usize, data: Vec<MemoryCell>) -> (r: Rows)
        ensures
            r@.stride == stride,
            r@.data == cells_views(data@),
    {
        Rows { stride, data }
    }
}

/// A stored column: its name and its resolved type.
#[derive(Debug, Clone, PartialEq)]
pub struct Column {
    name: String,
    _type: ColumnTypes,
}

/// The model of a stored column.
pub struct ColumnV {
    pub name: Seq<char>,
    pub ctype: ColumnTypes,
}

impl View for Column {
    type V = ColumnV;

    closed spec fn view(&self) -> ColumnV {
        ColumnV { name: self.name@, ctype: self._type }
    }
}

impl Column {
    pub fn new(name: String, _type: ColumnTypes) -> (r: Column)
        ensures
            r@.name == name@,
            r@.ctype == _type,
    {
        Column { name, _type }
    }

    pub fn name(&self) -> (r: &str)
        ensures
            r@ == self@.name,
    {
        self.name.as_str()
    }

    pub fn column_type(&self) -> (r: &ColumnTypes)
        ensures
            *r == self@.ctype,
    {
        &self._type
    }
}

/// The views of a sequence of stored columns.
pub open spec fn cols_views(q: Seq<Column>) -> Seq<ColumnV> {
    q.map_values(|c: Column| c@)
}

/// A table: its columns, fixed at creation, and its row storage.
pub struct Table {
    columns: Vec<Column>,
    rows: Rows,
}

/// The model of a table.
pub struct TableV {
    pub columns: Seq<ColumnV>,
    pub rows: RowsV,
}

impl View for Table {
    type V = TableV;

    closed spec fn view(&self) -> TableV {
        TableV { columns: cols_views(self.columns@), rows: self.rows@ }
    }
}

impl Table {
    pub fn columns(&self) -> (r: &[Column])
        ensures
            cols_views(r@) == self@.columns,
    {
        self.columns.as_slice()
    }

    pub fn rows(&self) -> (r: &Rows)
        ensures
            r@ == self@.rows,
    {
        &self.rows
    }
}

/// Whether a cell's variant matches a declared column type.
pub open spec fn cell_matches(c: CellV, t: ColumnTypes) -> bool {
    match c {
        CellV::U32(_) => t is Int32,
        CellV::String(_) => t is String,
    }
}

/// The number of complete logical rows a table holds.
pub open spec fn num_rows(t: TableV) -> int {
    if t.columns.len() == 0 {
        0
    } else {
        t.rows.data.len() as int / t.columns.len() as int
    }
}

/// A well-formed table: the stride is the column count, the buffer holds
/// whole rows only, and every stored cell matches its column's type.
pub open spec fn table_wf(t: TableV) -> bool {
    &&& t.rows.stride == t.columns.len()
    &&& t.rows.data.len() == num_rows(t) * t.columns.len()
    &&& forall|r: int, c: int|
        0 <= r < num_rows(t) && 0 <= c < t.columns.len() ==> cell_matches(
            #[trigger] t.rows.data[r * t.columns.len() + c],
            t.columns[c].ctype,
        )
}

/// A well-formed engine state: every table in the mapping is well-formed.
pub open spec fn backend_wf(m: Map<Seq<char>, TableV>) -> bool {
    forall|k: Seq<char>| m.contains_key(k) ==> table_wf(#[trigger] m[k])
}

struct TableEntry {
    name: String,
    table: Table,
}

/// The mapping built from the entries, later entries winning; with unique
/// names, the order never matters.
spec fn map_of(s: Seq<TableEntry>) -> Map<Seq<char>, TableV>
    decreases s.len(),
{
    if s.len() == 0 {
        Map::empty()
    } else {
        map_of(s.drop_last()).insert(s.last().name@, s.last().table@)
    }
}

spec fn unique_names(s: Seq<TableEntry>) -> bool {
    forall|i: int, j: int| 0 <= i < j < s.len() ==> s[i].name@ != s[j].name@
}

proof fn lemma_map_of(s: Seq<TableEntry>)
    requires
        unique_names(s),
    ensures
        forall|i: int|
            0 <= i < s.len() ==> map_of(s).contains_key(#[trigger] s[i].name@) && map_of(
                s,
            )[s[i].name@] == s[i].table@,
        forall|k: Seq<char>|
            map_of(s).contains_key(k) ==> exists|i: int| 0 <= i < s.len() && (#[trigger] s[i].name@)
                == k,
    decreases s.len(),
{
    if s.len() > 0 {
        let s0 = s.drop_last();
        assert(unique_names(s0)) by {
            assert(forall|i: int| 0 <= i < s0.len() ==> s0[i] == s[i]);
        }
        lemma_map_of(s0);
        assert(forall|i: int| 0 <= i < s0.len() ==> s0[i] == s[i]);
        assert(forall|i: int|
            0 <= i < s.len() - 1 ==> map_of(s).contains_key(#[trigger] s[i].name@) && map_of(
                s,
            )[s[i].name@] == s[i].table@) by {
            assert(forall|i: int| 0 <= i < s.len() - 1 ==> s[i].name@ != s.last().name@);
        }
        assert forall|k: Seq<char>| map_of(s).contains_key(k) implies exists|i: int|
            0 <= i < s.len() && (#[trigger] s[i].name@) == k by {
            if k == s.last().name@ {
                assert(s[s.len() - 1].name@ == k);
            } else {
                assert(map_of(s0).contains_key(k));
                let i = choose|i: int| 0 <= i < s0.len() && (#[trigger] s0[i].name@) == k;
                assert(s[i].name@ == k);
            }
        }
    }
}

proof fn lemma_map_of_update(s: Seq<TableEntry>, i: int, e: TableEntry)
    requires
        unique_names(s),
        0 <= i < s.len(),
        e.name@ == s[i].name@,
    ensures
        map_of(s.update(i, e)) == map_of(s).insert(e.name@, e.table@),
        unique_names(s.update(i, e)),
    decreases s.len(),
{
    let s2 = s.update(i, e);
    assert(unique_names(s2)) by {
        assert(forall|j: int| 0 <= j < s.len() && j != i ==> s2[j] == s[j]);
        assert(s2[i] == e);
    }
    if i == s.len() - 1 {
        assert(s2.drop_last() =~= s.drop_last());
        assert(map_of(s2) == map_of(s.drop_last()).insert(e.name@, e.table@));
        assert(map_of(s).insert(e.name@, e.table@) =~= map_of(s.drop_last()).insert(
            e.name@,
            e.table@,
        ));
    } else {
        let s0 = s.drop_last();
        assert(unique_names(s0)) by {
            assert(forall|j: int| 0 <= j < s0.len() ==> s0[j] == s[j]);
        }
        assert(s2.drop_last() =~= s0.update(i, e));
        assert(s0[i] == s[i]);
        lemma_map_of_update(s0, i, e);
        assert(map_of(s2) == map_of(s0).insert(e.name@, e.table@).insert(
            s.last().name@,
            s.last().table@,
        ));
        assert(s.last().name@ != e.name@) by {
            assert(s[i].name@ != s[s.len() - 1].name@);
        }
        assert(map_of(s0).insert(e.name@, e.table@).insert(s.last().name@, s.last().table@)
            =~= map_of(s0).insert(s.last().name@, s.last().table@).insert(e.name@, e.table@));
        assert(map_of(s) == map_of(s0).insert(s.last().name@, s.last().table@));
    }
}


/// The cell that an `INSERT` value expression stores.
pub open spec fn cell_of_value(e: insert::ExpressionV) -> CellV {
    match e {
        insert::ExpressionV::Literal(l) => match l {
            LiteralV::U32(v) => CellV::U32(v),
            LiteralV::String(s) => CellV::String(s),
        },
    }
}

/// The cells that a row of value expressions stores, in order.
pub open spec fn cells_of_values(vs: Seq<insert::ExpressionV>) -> Seq<CellV> {
    vs.map_values(|e: insert::ExpressionV| cell_of_value(e))
}

/// Whether a value expression matches a declared column type.
pub open spec fn value_matches(e: insert::ExpressionV, t: ColumnTypes) -> bool {
    cell_matches(cell_of_value(e), t)
}

/// The first position at or after `j` whose value does not match its
/// column's type, if any.
pub open spec fn first_mismatch_from(
    cols: Seq<ColumnV>,
    vs: Seq<insert::ExpressionV>,
    j: int,
) -> Option<int>
    decreases vs.len() - j,
{
    if j >= vs.len() {
        None
    } else if !value_matches(vs[j], cols[j].ctype) {
        Some(j)
    } else {
        first_mismatch_from(cols, vs, j + 1)
    }
}

/// The table after appending one row of cells.
pub open spec fn with_row(t: TableV, row: Seq<CellV>) -> TableV {
    TableV {
        columns: t.columns,
        rows: RowsV { stride: t.rows.stride, data: t.rows.data + row },
    }
}

proof fn lemma_fm_skip(cols: Seq<ColumnV>, vs: Seq<insert::ExpressionV>, j: int)
    requires
        0 <= j <= vs.len(),
        forall|j2: int| 0 <= j2 < j ==> value_matches(#[trigger] vs[j2], cols[j2].ctype),
    ensures
        first_mismatch_from(cols, vs, 0) == first_mismatch_from(cols, vs, j),
    decreases j,
{
    if j > 0 {
        lemma_fm_skip(cols, vs, j - 1);
    }
}

proof fn lemma_wf_append(t: TableV, row: Seq<CellV>)
    requires
        table_wf(t),
        row.len() == t.columns.len(),
        forall|c: int| 0 <= c < row.len() ==> cell_matches(#[trigger] row[c], t.columns[c].ctype),
    ensures
        table_wf(with_row(t, row)),
        num_rows(with_row(t, row)) == num_rows(t) + if t.columns.len() == 0 { 0int } else { 1int },
{
    let n = t.columns.len() as int;
    let t2 = with_row(t, row);
    if n == 0 {
        assert(t2.rows.data =~= t.rows.data);
    } else {
        let q = num_rows(t);
        assert(t.rows.data.len() == q * n);
        assert((q * n + n) / n == q + 1) by (nonlinear_arith)
            requires
                n > 0,
        ;
        assert(num_rows(t2) == q + 1);
        assert(t2.rows.data.len() == (q + 1) * n) by (nonlinear_arith)
            requires
                t2.rows.data.len() == q * n + n,
        ;
        assert forall|r: int, c: int|
            0 <= r < num_rows(t2) && 0 <= c < n implies cell_matches(
            #[trigger] t2.rows.data[r * n + c],
            t2.columns[c].ctype,
        ) by {
            if r < q {
                assert(r * n + c < q * n) by (nonlinear_arith)
                    requires
                        r < q,
                        c < n,
                        0 <= r,
                        0 <= c,
                        n > 0,
                ;
                assert(0 <= r * n + c) by (nonlinear_arith)
                    requires
                        0 <= r,
                        0 <= c,
                        n > 0,
                ;
                assert(t2.rows.data[r * n + c] == t.rows.data[r * n + c]);
            } else {
                assert(r == q);
                assert(r * n + c == q * n + c) by (nonlinear_arith)
                    requires
                        r == q,
                ;
                assert(t2.rows.data[q * n + c] == row[c]);
            }
        }
    }
}


/// The first column at or after `j` whose name is `n`, if any.
pub open spec fn find_col_from(cols: Seq<ColumnV>, n: Seq<char>, j: int) -> Option<int>
    decreases cols.len() - j,
{
    if j >= cols.len() {
        None
    } else if cols[j].name == n {
        Some(j)
    } else {
        find_col_from(cols, n, j + 1)
    }
}

/// The column indexes that a projection list resolves to: a named column
/// becomes the index of its first match, `*` becomes every index in
/// declared order; the first name with no match is the error.
pub open spec fn resolve_items(
    cols: Seq<ColumnV>,
    items: Seq<select::ExpressionV>,
) -> Result<Seq<int>, Seq<char>>
    decreases items.len(),
{
    if items.len() == 0 {
        Ok(Seq::empty())
    } else {
        match items[0] {
            select::ExpressionV::Column(n) => match find_col_from(cols, n, 0) {
                None => Err(n),
                Some(i) => match resolve_items(cols, items.drop_first()) {
                    Err(e) => Err(e),
                    Ok(rest) => Ok(seq![i] + rest),
                },
            },
            select::ExpressionV::All => match resolve_items(cols, items.drop_first()) {
                Err(e) => Err(e),
                Ok(rest) => Ok(Seq::new(cols.len(), |i: int| i) + rest),
            },
        }
    }
}

/// The resolved indexes as mathematical integers.
pub open spec fn idx_views(q: Seq<usize>) -> Seq<int> {
    q.map_values(|u: usize| u as int)
}

/// What a `SELECT` returns on a table: for each logical row in insertion
/// order, the cells at the resolved indexes, in projection order.
pub open spec fn project_rows(t: TableV, idxs: Seq<int>) -> Seq<Seq<CellV>> {
    Seq::new(
        num_rows(t) as nat,
        |r: int| Seq::new(idxs.len(), |k: int| t.rows.data[r * t.columns.len() + idxs[k]]),
    )
}

proof fn lemma_fc_skip(cols: Seq<ColumnV>, n: Seq<char>, j: int)
    requires
        0 <= j <= cols.len(),
        forall|j2: int| 0 <= j2 < j ==> (#[trigger] cols[j2].name) != n,
    ensures
        find_col_from(cols, n, 0) == find_col_from(cols, n, j),
    decreases j,
{
    if j > 0 {
        lemma_fc_skip(cols, n, j - 1);
    }
}

proof fn lemma_resolve_append(
    cols: Seq<ColumnV>,
    a: Seq<select::ExpressionV>,
    b: Seq<select::ExpressionV>,
)
    ensures
        resolve_items(cols, a + b) == (match resolve_items(cols, a) {
            Err(e) => Err::<Seq<int>, Seq<char>>(e),
            Ok(ra) => match resolve_items(cols, b) {
                Err(e) => Err::<Seq<int>, Seq<char>>(e),
                Ok(rb) => Ok::<Seq<int>, Seq<char>>(ra + rb),
            },
        }),
    decreases a.len(),
{
    if a.len() == 0 {
        assert(a + b =~= b);
        if resolve_items(cols, b) is Ok {
            assert(Seq::<int>::empty() + resolve_items(cols, b)->Ok_0 =~= resolve_items(
                cols,
                b,
            )->Ok_0);
        }
    } else {
        let ab = a + b;
        assert(ab[0] == a[0]);
        assert(ab.drop_first() =~= a.drop_first() + b);
        lemma_resolve_append(cols, a.drop_first(), b);
        match a[0] {
            select::ExpressionV::Column(n) => {
                match find_col_from(cols, n, 0) {
                    None => {},
                    Some(i) => {
                        if resolve_items(cols, a.drop_first()) is Ok && resolve_items(cols, b)
                            is Ok {
                            let ra1 = resolve_items(cols, a.drop_first())->Ok_0;
                            let rb = resolve_items(cols, b)->Ok_0;
                            assert(seq![i] + (ra1 + rb) =~= (seq![i] + ra1) + rb);
                        }
                    },
                }
            },
            select::ExpressionV::All => {
                if resolve_items(cols, a.drop_first()) is Ok && resolve_items(cols, b) is Ok {
                    let ra1 = resolve_items(cols, a.drop_first())->Ok_0;
                    let rb = resolve_items(cols, b)->Ok_0;
                    let ident = Seq::new(cols.len(), |i: int| i);
                    assert(ident + (ra1 + rb) =~= (ident + ra1) + rb);
                }
            },
        }
    }
}

/// A result cell copied from a stored cell.
fn cell_out(c: &MemoryCell) -> (r: Cell)
    ensures
        r@ == c@,
{
    match c {
        MemoryCell::U32(v) => Cell::U32(*v),
        MemoryCell::String(s) => Cell::String(s.clone()),
    }
}

/// The index of the first column named `name`, if any, as `find_col_from`
/// describes from position zero.
fn find_column(cols: &Vec<Column>, name: &String) -> (r: Option<usize>)
    ensures
        match find_col_from(cols_views(cols@), name@, 0) {
            Some(i) => r matches Some(u) && u as int == i && i < cols@.len(),
            None => r is None,
        },
{
    let n = cols.len();
    let mut j: usize = 0;
    while j < n
        invariant
            n == cols@.len(),
            j <= n,
            forall|j2: int| 0 <= j2 < j ==> (#[trigger] cols_views(cols@)[j2].name) != name@,
        decreases n - j,
    {
        if cols[j].name == *name {
            proof {
                lemma_fc_skip(cols_views(cols@), name@, j as int);
                assert(cols_views(cols@)[j as int].name == name@);
            }
            return Some(j);
        }
        proof {
            assert(cols_views(cols@)[j as int].name != name@);
        }
        j = j + 1;
    }
    proof {
        lemma_fc_skip(cols_views(cols@), name@, n as int);
    }
    None
}


proof fn lemma_find_col_ok(cols: Seq<ColumnV>, n: Seq<char>, j: int)
    requires
        0 <= j,
    ensures
        match find_col_from(cols, n, j) {
            Some(i) => j <= i < cols.len() && cols[i].name == n,
            None => true,
        },
    decreases cols.len() - j,
{
    if j < cols.len() && cols[j].name != n {
        lemma_find_col_ok(cols, n, j + 1);
    }
}

/// Projection order: a projection list of named columns resolves, item by
/// item in list order, to the index of the column of that name. The output
/// columns therefore follow the projection list, never the table's own
/// column order.
pub proof fn lemma_projection_order(
    cols: Seq<ColumnV>,
    items: Seq<select::ExpressionV>,
    idxs: Seq<int>,
)
    requires
        resolve_items(cols, items) == Ok::<Seq<int>, Seq<char>>(idxs),
        forall|x: int| 0 <= x < items.len() ==> (#[trigger] items[x]) is Column,
    ensures
        idxs.len() == items.len(),
        forall|x: int|
            0 <= x < items.len() ==> 0 <= #[trigger] idxs[x] < cols.len() && cols[
                idxs[x]
            ].name == items[x]->Column_0,
    decreases items.len(),
{
    if items.len() > 0 {
        let n = items[0]->Column_0;
        lemma_find_col_ok(cols, n, 0);
        let i = find_col_from(cols, n, 0)->Some_0;
        let rest = resolve_items(cols, items.drop_first())->Ok_0;
        assert(forall|x: int|
            0 <= x < items.drop_first().len() ==> (#[trigger] items.drop_first()[x])
                == items[x + 1]);
        lemma_projection_order(cols, items.drop_first(), rest);
        assert(idxs == seq![i] + rest);
        assert(idxs[0] == i);
        assert(forall|x: int| 1 <= x < idxs.len() ==> (#[trigger] idxs[x]) == rest[x - 1]);
    }
}

/// Type invariant: in a well-formed engine state every stored cell's
/// variant matches its column's declared type, in every table. The engine's
/// operations establish and preserve this state.
pub proof fn lemma_stored_cells_typed(b: &InMemoryBackend)
    requires
        b.inv(),
    ensures
        backend_wf(b@),
{
    lemma_map_of(b.entries@);
    assert forall|k: Seq<char>| b@.contains_key(k) implies table_wf(b@[k]) by {
        let i = choose|i: int|
            0 <= i < b.entries@.len() && (#[trigger] b.entries@[i].name@) == k;
        assert(b@[k] == b.entries@[i].table@);
    }
}

/// Idempotent read: what a select returns is a function of the engine
/// state and the statement alone, and a select leaves the state unchanged,
/// so two selects with no intervening mutation return identical rows.
pub proof fn lemma_select_idempotent(
    m: Map<Seq<char>, TableV>,
    st: SelectStatementV,
    r1: Seq<Seq<CellV>>,
    r2: Seq<Seq<CellV>>,
)
    requires
        m.contains_key(st.from),
        resolve_items(m[st.from].columns, st.item) matches Ok(idxs) && r1 == project_rows(
            m[st.from],
            idxs,
        ),
        resolve_items(m[st.from].columns, st.item) matches Ok(idxs) && r2 == project_rows(
            m[st.from],
            idxs,
        ),
    ensures
        r1 == r2,
{
}

/// Round trip: appending one full row to a well-formed table and selecting
/// `*` returns exactly the rows the table already held, with the new row
/// after them; in particular, on a fresh table it returns just that row.
pub proof fn lemma_round_trip(t: TableV, row: Seq<CellV>)
    requires
        table_wf(t),
        t.columns.len() > 0,
        row.len() == t.columns.len(),
    ensures
        ({
            let t1 = with_row(t, row);
            let ident = Seq::new(t.columns.len(), |i: int| i);
            &&& resolve_items(t1.columns, seq![select::ExpressionV::All])
                == Ok::<Seq<int>, Seq<char>>(ident)
            &&& project_rows(t1, ident) == project_rows(t, ident).push(row)
        }),
{
    let t1 = with_row(t, row);
    let n = t.columns.len() as int;
    let q = num_rows(t);
    let ident = Seq::new(t.columns.len(), |i: int| i);
    let single = seq![select::ExpressionV::All];
    assert(single.drop_first() =~= Seq::<select::ExpressionV>::empty());
    assert(resolve_items(t1.columns, Seq::<select::ExpressionV>::empty())
        == Ok::<Seq<int>, Seq<char>>(Seq::empty()));
    assert(ident + Seq::<int>::empty() =~= ident);
    assert(resolve_items(t1.columns, single) == Ok::<Seq<int>, Seq<char>>(ident));
    assert(t1.rows.data.len() == q * n + n);
    assert((q * n + n) / n == q + 1) by (nonlinear_arith)
        requires
            n > 0,
    ;
    assert(num_rows(t1) == q + 1);
    assert forall|r: int, k: int| 0 <= r < q && 0 <= k < n implies #[trigger] t1.rows.data[r * n
        + k] == t.rows.data[r * n + k] by {
        assert(0 <= r * n + k < q * n) by (nonlinear_arith)
            requires
                0 <= r < q,
                0 <= k < n,
        ;
    }
    assert forall|k: int| 0 <= k < n implies #[trigger] t1.rows.data[q * n + k] == row[k] by {
        assert(t1.rows.data[q * n + k] == (t.rows.data + row)[q * n + k]);
    }
    assert(project_rows(t1, ident) =~~= project_rows(t, ident).push(row));
}

/// The column types that a `CREATE TABLE` statement's definitions declare.
pub open spec fn ctype_of(dt: DataType) -> ColumnTypes {
    match dt {
        DataType::Int32 => ColumnTypes::Int32,
        DataType::String => ColumnTypes::String,
    }
}

/// The stored column metadata built from column definitions, in order.
pub open spec fn cols_from_defs(ds: Seq<ColumnDefinitionV>) -> Seq<ColumnV> {
    ds.map_values(|d: ColumnDefinitionV| ColumnV { name: d.name, ctype: ctype_of(d.data_type) })
}

/// The empty table that a `CREATE TABLE` statement describes.
pub open spec fn new_table(cs: CreateTableStatementV) -> TableV {
    TableV {
        columns: cols_from_defs(cs.columns),
        rows: RowsV { stride: cs.columns.len() as int, data: Seq::empty() },
    }
}

/// An execution error: what the storage engine reports when a statement
/// cannot be applied. Each variant carries the offending names or counts.
#[derive(Debug, Clone, PartialEq)]
pub enum ExecutionError {
    TableAlreadyExists { table: String },
    TableNotFound { table: String },
    ColumnCountMismatch { expected: usize, actual: usize },
    TypeMismatch { column: String, expected: ColumnTypes },
    ColumnNotFound { column: String, table: String },
}

/// The model of an execution error.
pub enum ExecutionErrorV {
    TableAlreadyExists { table: Seq<char> },
    TableNotFound { table: Seq<char> },
    ColumnCountMismatch { expected: int, actual: int },
    TypeMismatch { column: Seq<char>, expected: ColumnTypes },
    ColumnNotFound { column: Seq<char>, table: Seq<char> },
}

impl View for ExecutionError {
    type V = ExecutionErrorV;

    open spec fn view(&self) -> ExecutionErrorV {
        match self {
            ExecutionError::TableAlreadyExists { table } => ExecutionErrorV::TableAlreadyExists {
                table: table@,
            },
            ExecutionError::TableNotFound { table } => ExecutionErrorV::TableNotFound {
                table: table@,
            },
            ExecutionError::ColumnCountMismatch { expected, actual } =>
                ExecutionErrorV::ColumnCountMismatch {
                expected: *expected as int,
                actual: *actual as int,
            },
            ExecutionError::TypeMismatch { column, expected } => ExecutionErrorV::TypeMismatch {
                column: column@,
                expected: *expected,
            },
            ExecutionError::ColumnNotFound { column, table } => ExecutionErrorV::ColumnNotFound {
                column: column@,
                table: table@,
            },
        }
    }
}

/// The storage engine: the set of tables, keyed by name.
pub struct InMemoryBackend {
    entries: Vec<TableEntry>,
}

impl View for InMemoryBackend {
    type V = Map<Seq<char>, TableV>;

    closed spec fn view(&self) -> Map<Seq<char>, TableV> {
        map_of(self.entries@)
    }
}

impl InMemoryBackend {
    /// The representation invariant: table names are unique and every
    /// stored table is well-formed.
    pub closed spec fn inv(&self) -> bool {
        &&& unique_names(self.entries@)
        &&& forall|i: int| 0 <= i < self.entries@.len() ==> table_wf(
            #[trigger] self.entries@[i].table@,
        )
    }

    /// An engine with no tables.
    pub fn new() -> (r: InMemoryBackend)
        ensures
            r.inv(),
            r@ == Map::<Seq<char>, TableV>::empty(),
    {
        InMemoryBackend { entries: Vec::new() }
    }

    /// The index of the entry for `name`, if the table exists.
    fn find_index(&self, name: &String) -> (r: Option<usize>)
        requires
            self.inv(),
        ensures
            match r {
                Some(i) => i < self.entries@.len() && self.entries@[i as int].name@ == name@
                    && self@.contains_key(name@) && self@[name@] == self.entries@[
                    i as int
                ].table@,
                None => !self@.contains_key(name@),
            },
    {
        proof {
            lemma_map_of(self.entries@);
        }
        let n = self.entries.len();
        let mut i: usize = 0;
        while i < n
            invariant
                self.inv(),
                n == self.entries@.len(),
                i <= n,
                forall|j: int| 0 <= j < i ==> self.entries@[j].name@ != name@,
            decreases n - i,
        {
            if self.entries[i].name == *name {
                proof {
                    lemma_map_of(self.entries@);
                }
                return Some(i);
            }
            i = i + 1;
        }
        proof {
            lemma_map_of(self.entries@);
            if self@.contains_key(name@) {
                let j = choose|j: int|
                    0 <= j < self.entries@.len() && (#[trigger] self.entries@[j].name@) == name@;
                assert(self.entries@[j].name@ == name@);
            }
        }
        None
    }

    /// Executes a `CREATE TABLE` statement. Fails if a table of that name
    /// already exists, leaving the state unchanged; otherwise adds the
    /// described empty table under the name.
    pub fn create_table(&mut self, stmt: &CreateTableStatement) -> (r: Result<(), ExecutionError>)
        requires
            old(self).inv(),
        ensures
            final(self).inv(),
            if old(self)@.contains_key(stmt@.name) {
                &&& (r matches Err(e) && e@ == (ExecutionErrorV::TableAlreadyExists {
                    table: stmt@.name,
                }))
                &&& final(self)@ == old(self)@
            } else {
                &&& r is Ok
                &&& final(self)@ == old(self)@.insert(stmt@.name, new_table(stmt@))
            },
    {
        let name = stmt.table_name().to_owned();
        match self.find_index(&name) {
            Some(_) => Err(ExecutionError::TableAlreadyExists { table: name }),
            None => {
                let defs = stmt.columns();
                let ghost defs_v = stmt@.columns;
                let mut columns: Vec<Column> = Vec::new();
                let n = defs.len();
                let mut i: usize = 0;
                while i < n
                    invariant
                        n == defs@.len(),
                        crate::create::col_defs_of(defs@) == defs_v,
                        i <= n,
                        cols_views(columns@) =~= cols_from_defs(defs_v.take(i as int)),
                    decreases n - i,
                {
                    let d = &defs[i];
                    let col = Column::new(
                        d.name().to_owned(),
                        match d.data_type() {
                            DataType::Int32 => ColumnTypes::Int32,
                            DataType::String => ColumnTypes::String,
                        },
                    );
                    columns.push(col);
                    i = i + 1;
                    proof {
                        assert(defs_v[i - 1] == defs@[i - 1]@);
                        assert(cols_from_defs(defs_v.take(i as int)) =~= cols_from_defs(
                            defs_v.take(i - 1),
                        ).push(
                            ColumnV {
                                name: defs_v[i - 1].name,
                                ctype: ctype_of(defs_v[i - 1].data_type),
                            },
                        ));
                        assert(cols_views(columns@) =~= cols_from_defs(defs_v.take(i as int)));
                    }
                }
                proof {
                    assert(defs_v.take(n as int) =~= defs_v);
                }
                let table = Table { columns, rows: Rows::new(n, Vec::new()) };
                let ghost entries0 = self.entries@;
                let ghost new_entry_name = name@;
                proof {
                    lemma_map_of(entries0);
                }
                let entry = TableEntry { name, table };
                let ghost entry_g = entry;
                self.entries.push(entry);
                proof {
                    assert(self.entries@.drop_last() =~= entries0);
                    assert(self.entries@.last() == entry_g);
                    assert(unique_names(self.entries@)) by {
                        assert(forall|j: int| 0 <= j < entries0.len() ==> self.entries@[j]
                            == entries0[j]);
                        if exists|j: int|
                            0 <= j < entries0.len() && (#[trigger] entries0[j].name@)
                                == new_entry_name {
                            let j = choose|j: int|
                                0 <= j < entries0.len() && (#[trigger] entries0[j].name@)
                                    == new_entry_name;
                            assert(map_of(entries0).contains_key(new_entry_name));
                        }
                    }
                    assert(table_wf(entry_g.table@)) by {
                        assert(entry_g.table@.columns.len() == n);
                        assert(entry_g.table@.rows.data.len() == 0);
                        assert(num_rows(entry_g.table@) == 0);
                    }
                    assert(forall|i2: int|
                        0 <= i2 < self.entries@.len() - 1 ==> self.entries@[i2]
                            == entries0[i2]);
                    assert(cells_views(Seq::<MemoryCell>::empty()) =~= Seq::<CellV>::empty());
                    assert(entry_g.table@.columns == new_table(stmt@).columns);
                    assert(entry_g.table@.rows.data =~= new_table(stmt@).rows.data);
                    assert(entry_g.table@ == new_table(stmt@));
                }
                Ok(())
            },
        }
    }

    /// Executes an `INSERT` statement. Fails on a missing table, a value
    /// count different from the column count, or a value whose variant
    /// does not match its column's declared type; every failure leaves the
    /// state unchanged. On success exactly one full row is appended.
    #[verifier::loop_isolation(false)]
    pub fn insert(&mut self, stmt: &InsertStatement) -> (r: Result<(), ExecutionError>)
        requires
            old(self).inv(),
        ensures
            final(self).inv(),
            ({
                let m = old(self)@;
                let tn = stmt@.table;
                let vs = stmt@.values;
                if !m.contains_key(tn) {
                    &&& (r matches Err(e) && e@ == (ExecutionErrorV::TableNotFound { table: tn }))
                    &&& final(self)@ == m
                } else {
                    let t = m[tn];
                    if vs.len() != t.columns.len() {
                        &&& (r matches Err(e) && e@ == (ExecutionErrorV::ColumnCountMismatch {
                            expected: t.columns.len() as int,
                            actual: vs.len() as int,
                        }))
                        &&& final(self)@ == m
                    } else {
                        match first_mismatch_from(t.columns, vs, 0) {
                            Some(j) => {
                                &&& (r matches Err(e) && e@ == (ExecutionErrorV::TypeMismatch {
                                    column: t.columns[j].name,
                                    expected: t.columns[j].ctype,
                                }))
                                &&& final(self)@ == m
                            },
                            None => {
                                &&& r is Ok
                                &&& final(self)@ == m.insert(
                                    tn,
                                    with_row(t, cells_of_values(vs)),
                                )
                            },
                        }
                    }
                }
            }),
    {
        let name = stmt.table_name().to_owned();
        let idx = match self.find_index(&name) {
            None => {
                return Err(ExecutionError::TableNotFound { table: name });
            },
            Some(i) => i,
        };
        let ghost m = self@;
        let ghost tn = stmt@.table;
        let ghost t = m[tn];
        let ghost vs = stmt@.values;
        let values = stmt.values();
        let ncols = self.entries[idx].table.columns.len();
        proof {
            assert(cols_views(self.entries@[idx as int].table.columns@) == t.columns);
        }
        if values.len() != ncols {
            return Err(ExecutionError::ColumnCountMismatch {
                expected: ncols,
                actual: values.len(),
            });
        }
        let mut row: Vec<MemoryCell> = Vec::new();
        let nvals = values.len();
        let mut j: usize = 0;
        while j < nvals
            invariant
                j <= nvals,
                row@.len() == j,
                cells_views(row@) =~= cells_of_values(vs.take(j as int)),
                forall|j2: int|
                    0 <= j2 < j ==> value_matches(#[trigger] vs[j2], t.columns[j2].ctype),
            decreases nvals - j,
        {
            let ghost row0 = row@;
            let expected = *self.entries[idx].table.columns[j].column_type();
            proof {
                assert(self.entries@[idx as int].table.columns@[j as int]@ == t.columns[j as int]);
                assert(values@[j as int]@ == vs[j as int]);
            }
            match &values[j] {
                insert::Expression::Literal(lit) => match lit {
                    Literal::U32(v) => {
                        if expected != ColumnTypes::Int32 {
                            proof {
                                lemma_fm_skip(t.columns, vs, j as int);
                            }
                            return Err(ExecutionError::TypeMismatch {
                                column: self.entries[idx].table.columns[j].name.clone(),
                                expected,
                            });
                        }
                        row.push(MemoryCell::U32(*v));
                    },
                    Literal::String(sv) => {
                        if expected != ColumnTypes::String {
                            proof {
                                lemma_fm_skip(t.columns, vs, j as int);
                            }
                            return Err(ExecutionError::TypeMismatch {
                                column: self.entries[idx].table.columns[j].name.clone(),
                                expected,
                            });
                        }
                        row.push(MemoryCell::String(sv.clone()));
                    },
                },
            }
            j = j + 1;
            proof {
                assert(vs.take(j as int) =~= vs.take(j - 1).push(vs[j - 1]));
                assert(cells_views(row@) =~= cells_views(row0).push(cell_of_value(vs[j - 1])));
            }
        }
        proof {
            lemma_fm_skip(t.columns, vs, vs.len() as int);
            assert(first_mismatch_from(t.columns, vs, 0) is None);
            assert(vs.take(vs.len() as int) =~= vs);
        }
        let ghost entries0 = self.entries@;
        let mut entry = self.entries.remove(idx);
        let ghost row_v = cells_views(row@);
        let ghost row_raw = row@;
        let ghost data0 = entry.table.rows.data@;
        entry.table.rows.data.append(&mut row);
        proof {
            assert(cells_views(entry.table.rows.data@) =~= cells_views(data0) + row_v) by {
                assert(entry.table.rows.data@ =~= data0 + row_raw);
                assert forall|i2: int|
                    0 <= i2 < entry.table.rows.data@.len() implies cells_views(
                    entry.table.rows.data@,
                )[i2] == (cells_views(data0) + row_v)[i2] by {
                    if i2 < data0.len() {
                    } else {
                    }
                }
            }
        }
        let ghost entry_v = entry;
        self.entries.insert(idx, entry);
        proof {
            assert(self.entries@ =~= entries0.update(idx as int, entry_v));
            lemma_map_of_update(entries0, idx as int, entry_v);
            assert(entry_v.table@ == with_row(t, cells_of_values(vs))) by {
                assert(entry_v.table@.columns == t.columns);
                assert(entry_v.table@.rows.stride == t.rows.stride);
                assert(entry_v.table@.rows.data =~= t.rows.data + cells_of_values(vs));
            }
            lemma_wf_append(t, cells_of_values(vs));
            assert(final(self).inv()) by {
                assert(forall|i2: int|
                    0 <= i2 < self.entries@.len() && i2 != idx ==> self.entries@[i2]
                        == entries0[i2]);
                assert(self.entries@[idx as int] == entry_v);
                assert(table_wf(entry_v.table@));
            }
        }
        Ok(())
    }

    /// Executes a `SELECT` statement. Fails on a missing table or a
    /// projection naming a column the table does not have; otherwise
    /// returns every logical row in insertion order, projected to the
    /// resolved column indexes, as fresh copies. The state never changes.
    #[verifier::loop_isolation(false)]
    pub fn select(&mut self, stmt: &SelectStatement) -> (r: Result<QueryResults, ExecutionError>)
        requires
            old(self).inv(),
        ensures
            final(self).inv(),
            *final(self) == *old(self),
            ({
                let m = old(self)@;
                let tn = stmt@.from;
                if !m.contains_key(tn) {
                    r matches Err(e) && e@ == (ExecutionErrorV::TableNotFound { table: tn })
                } else {
                    let t = m[tn];
                    match resolve_items(t.columns, stmt@.item) {
                        Err(cn) => r matches Err(e) && e@ == (ExecutionErrorV::ColumnNotFound {
                            column: cn,
                            table: tn,
                        }),
                        Ok(idxs) => r matches Ok(qr) && qr@ == project_rows(t, idxs),
                    }
                }
            }),
    {
        let name = stmt.table_name().to_owned();
        let idx = match self.find_index(&name) {
            None => {
                return Err(ExecutionError::TableNotFound { table: name });
            },
            Some(i) => i,
        };
        let ghost m = self@;
        let ghost tn = stmt@.from;
        let ghost t = m[tn];
        let ghost itemsv = stmt@.item;
        let items = stmt.expression();
        let nitems = items.len();
        let ncols = self.entries[idx].table.columns.len();
        proof {
            assert(cols_views(self.entries@[idx as int].table.columns@) == t.columns);
            assert(table_wf(t));
        }
        let mut indexes: Vec<usize> = Vec::new();
        proof {
            assert(itemsv.take(0) =~= Seq::<crate::select::ExpressionV>::empty());
            assert(idx_views(indexes@) =~= Seq::<int>::empty());
            assert(resolve_items(t.columns, Seq::<crate::select::ExpressionV>::empty())
                == Ok::<Seq<int>, Seq<char>>(Seq::empty()));
        }
        let mut k: usize = 0;
        while k < nitems
            invariant
                k <= nitems,
                resolve_items(t.columns, itemsv.take(k as int)) == Ok::<Seq<int>, Seq<char>>(
                    idx_views(indexes@),
                ),
                forall|x: int| 0 <= x < indexes@.len() ==> (#[trigger] indexes@[x]) < ncols,
            decreases nitems - k,
        {
            let ghost pre = itemsv.take(k as int);
            let ghost ridx0 = indexes@;
            proof {
                assert(items@[k as int]@ == itemsv[k as int]);
            }
            match &items[k] {
                select::Expression::Column(cn) => {
                    match find_column(&self.entries[idx].table.columns, cn) {
                        Some(ci) => {
                            indexes.push(ci);
                            proof {
                                let single = seq![itemsv[k as int]];
                                lemma_resolve_append(t.columns, pre, single);
                                assert(single.drop_first()
                                    =~= Seq::<crate::select::ExpressionV>::empty());
                                assert(resolve_items(
                                    t.columns,
                                    Seq::<crate::select::ExpressionV>::empty(),
                                ) == Ok::<Seq<int>, Seq<char>>(Seq::empty()));
                                assert(resolve_items(t.columns, single)
                                    == Ok::<Seq<int>, Seq<char>>(seq![ci as int])) by {
                                    assert(seq![ci as int] + Seq::<int>::empty() =~= seq![
                                        ci as int
                                    ]);
                                }
                                assert(itemsv.take(k + 1) =~= pre + single);
                                assert(idx_views(indexes@) =~= idx_views(ridx0) + seq![
                                    ci as int
                                ]);
                            }
                        },
                        None => {
                            proof {
                                let rest = itemsv.skip(k as int);
                                lemma_resolve_append(t.columns, pre, rest);
                                assert(itemsv =~= pre + rest);
                                assert(rest[0] == itemsv[k as int]);
                            }
                            return Err(ExecutionError::ColumnNotFound {
                                column: cn.clone(),
                                table: name,
                            });
                        },
                    }
                },
                select::Expression::All => {
                    let mut c2: usize = 0;
                    while c2 < ncols
                        invariant
                            c2 <= ncols,
                            idx_views(indexes@) =~= idx_views(ridx0) + Seq::new(
                                c2 as nat,
                                |i: int| i,
                            ),
                            forall|x: int| 0 <= x < indexes@.len() ==> (#[trigger] indexes@[x])
                                < ncols,
                        decreases ncols - c2,
                    {
                        let ghost ind0 = indexes@;
                        indexes.push(c2);
                        c2 = c2 + 1;
                        proof {
                            assert(idx_views(indexes@) =~= idx_views(ind0).push((c2 - 1) as int));
                            assert(Seq::new(c2 as nat, |i: int| i) =~= Seq::new(
                                (c2 - 1) as nat,
                                |i: int| i,
                            ).push(c2 - 1));
                            assert(idx_views(indexes@) =~= idx_views(ridx0) + Seq::new(
                                c2 as nat,
                                |i: int| i,
                            ));
                        }
                    }
                    proof {
                        let single = seq![itemsv[k as int]];
                        lemma_resolve_append(t.columns, pre, single);
                        assert(single.drop_first()
                            =~= Seq::<crate::select::ExpressionV>::empty());
                        assert(resolve_items(
                            t.columns,
                            Seq::<crate::select::ExpressionV>::empty(),
                        ) == Ok::<Seq<int>, Seq<char>>(Seq::empty()));
                        let ident = Seq::new(t.columns.len(), |i: int| i);
                        assert(resolve_items(t.columns, single) == Ok::<Seq<int>, Seq<char>>(
                            ident,
                        )) by {
                            assert(ident + Seq::<int>::empty() =~= ident);
                        }
                        assert(itemsv.take(k + 1) =~= pre + single);
                        assert(Seq::new(ncols as nat, |i: int| i) =~= ident);
                    }
                },
            }
            k = k + 1;
        }
        proof {
            assert(itemsv.take(nitems as int) =~= itemsv);
        }
        let ghost ix = idx_views(indexes@);
        let dlen = self.entries[idx].table.rows.data.len();
        let stride = ncols;
        let ghost q = num_rows(t);
        proof {
            assert(dlen == t.rows.data.len());
            assert(dlen == q * (stride as int));
        }
        let mut results: Vec<Vec<Cell>> = Vec::new();
        let mut off: usize = 0;
        let ghost mut rr: int = 0;
        while off < dlen
            invariant
                0 <= rr <= q,
                off == rr * (stride as int),
                results@.len() == rr,
                rows_views(results@) =~= project_rows(t, ix).take(rr),
            decreases dlen - off,
        {
            proof {
                assert(stride > 0 && rr < q) by (nonlinear_arith)
                    requires
                        off == rr * (stride as int),
                        dlen == q * (stride as int),
                        off < dlen,
                        0 <= rr,
                        0 <= stride,
                        0 <= q,
                ;
                assert(off + stride <= dlen) by (nonlinear_arith)
                    requires
                        off == rr * (stride as int),
                        dlen == q * (stride as int),
                        rr < q,
                        0 <= rr,
                        0 < stride,
                ;
            }
            let mut out_row: Vec<Cell> = Vec::new();
            let nidx = indexes.len();
            let mut j2: usize = 0;
            while j2 < nidx
                invariant
                    j2 <= nidx,
                    off + stride <= dlen,
                    row_views(out_row@) =~= Seq::new(
                        j2 as nat,
                        |kk: int| t.rows.data[rr * (stride as int) + ix[kk]],
                    ),
                decreases nidx - j2,
            {
                let ci = indexes[j2];
                proof {
                    assert(indexes@[j2 as int] < ncols);
                    assert(off + ci < dlen);
                    assert(cells_views(self.entries@[idx as int].table.rows.data@)
                        == t.rows.data);
                }
                let cref = &self.entries[idx].table.rows.data[off + ci];
                let ghost or0 = out_row@;
                out_row.push(cell_out(cref));
                j2 = j2 + 1;
                proof {
                    assert(cref@ == t.rows.data[rr * (stride as int) + ix[j2 - 1]]);
                    assert(row_views(out_row@) =~= row_views(or0).push(cref@));
                    assert(Seq::new(
                        j2 as nat,
                        |kk: int| t.rows.data[rr * (stride as int) + ix[kk]],
                    ) =~= Seq::new(
                        (j2 - 1) as nat,
                        |kk: int| t.rows.data[rr * (stride as int) + ix[kk]],
                    ).push(t.rows.data[rr * (stride as int) + ix[j2 - 1]]));
                    assert(row_views(out_row@) =~= Seq::new(
                        j2 as nat,
                        |kk: int| t.rows.data[rr * (stride as int) + ix[kk]],
                    ));
                }
            }
            let ghost results0 = results@;
            results.push(out_row);
            off = off + stride;
            proof {
                assert(row_views(out_row@) =~= project_rows(t, ix)[rr]);
                rr = rr + 1;
                assert(rr * (stride as int) == (rr - 1) * (stride as int) + stride)
                    by (nonlinear_arith);
                assert(rows_views(results@) =~= rows_views(results0).push(row_views(
                    out_row@,
                )));
                assert(project_rows(t, ix).take(rr) =~= project_rows(t, ix).take(rr - 1).push(
                    project_rows(t, ix)[rr - 1],
                ));
            }
        }
        proof {
            if stride == 0 {
                assert(t.columns.len() == 0);
                assert(q == 0);
            } else {
                assert(rr >= q) by (nonlinear_arith)
                    requires
                        off == rr * (stride as int),
                        dlen == q * (stride as int),
                        off >= dlen,
                        0 < stride,
                ;
            }
            assert(rr == q);
            assert(project_rows(t, ix).take(q) =~= project_rows(t, ix));
        }
        Ok(QueryResults::new(results))
    }
}

} // verus!
