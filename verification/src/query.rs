//! The `functions` table as a query result.

use vstd::prelude::*;
use crate::plan::{decimal, decimal_string};
use crate::protocol::{Cell, QueryResult};
use crate::rows::FunctionRow;
use crate::text::owned;

verus! {

/// The columns of the `functions` table, in order.
pub open spec fn function_column_names() -> Seq<Seq<char>> {
    seq![
        "file"@,
        "line"@,
        "name"@,
        "visibility"@,
        "param_count"@,
        "return_type"@,
        "complexity"@,
        "has_test"@,
    ]
}

pub fn function_columns() -> (r: Vec<String>)
    ensures
        r@.map_values(|c: String| c@) == function_column_names(),
{
    let r = vec![
        owned("file"),
        owned("line"),
        owned("name"),
        owned("visibility"),
        owned("param_count"),
        owned("return_type"),
        owned("complexity"),
        owned("has_test"),
    ];
    assert(r@.map_values(|c: String| c@) =~= function_column_names());
    r
}

/// Whether `c` is the string `s`.
pub open spec fn is_text(c: Cell, s: Seq<char>) -> bool {
    c matches Cell::Text(t) && t@ == s
}

/// Whether `c` is the number `n`.
pub open spec fn is_number(c: Cell, n: nat) -> bool {
    c matches Cell::Number(t) && t@ == decimal(n)
}

/// Whether `cells` is a function row in the order of the columns.
pub open spec fn function_cells_of(f: FunctionRow, cells: Seq<Cell>) -> bool {
    &&& cells.len() == 8
    &&& is_text(cells[0], f.file@)
    &&& is_number(cells[1], f.line as nat)
    &&& is_text(cells[2], f.name@)
    &&& is_text(cells[3], f.visibility@)
    &&& is_number(cells[4], f.param_count as nat)
    &&& is_text(cells[5], f.return_type@)
    &&& is_number(cells[6], f.complexity as nat)
    &&& cells[7] == Cell::Bool(f.has_test)
}

fn number_cell(n: usize) -> (r: Cell)
    ensures
        is_number(r, n as nat),
{
    Cell::Number(decimal_string(n as u64))
}

/// A function row as values, in the order of the columns.
pub fn function_cells(f: &FunctionRow) -> (r: Vec<Cell>)
    ensures
        function_cells_of(*f, r@),
{
    vec![
        Cell::Text(f.file.clone()),
        number_cell(f.line),
        Cell::Text(f.name.clone()),
        Cell::Text(f.visibility.clone()),
        number_cell(f.param_count),
        Cell::Text(f.return_type.clone()),
        number_cell(f.complexity),
        Cell::Bool(f.has_test),
    ]
}

/// The functions as a result with the columns of the `functions` table.
pub fn functions_result(rows: &Vec<FunctionRow>) -> (r: QueryResult)
    ensures
        r.column_texts() == function_column_names(),
        r.rows@.len() == rows@.len(),
        forall|k: int| 0 <= k < rows@.len() ==> function_cells_of(rows@[k], #[trigger] r.rows@[k]@),
{
    let mut out: Vec<Vec<Cell>> = Vec::new();
    let mut k: usize = 0;
    while k < rows.len()
        invariant
            k <= rows@.len(),
            out@.len() == k,
            forall|j: int| 0 <= j < k ==> function_cells_of(rows@[j], #[trigger] out@[j]@),
        decreases rows.len() - k,
    {
        out.push(function_cells(&rows[k]));
        k = k + 1;
    }
    QueryResult { columns: function_columns(), rows: out }
}

} // verus!
