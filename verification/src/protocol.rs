//! What a query gives back, and the messages between a client and the
//! engine.

use vstd::prelude::*;
use crate::parser::ParseError;
use crate::plan::{decimal, decimal_string};
use crate::text::{owned, push_str};

verus! {

/// One value of a result: nothing, a boolean, a number (as its JSON text),
/// a string, or any other JSON value (as its JSON text).
#[derive(Debug, Clone, PartialEq)]
pub enum Cell {
    Null,
    Bool(bool),
    Number(String),
    Text(String),
    Other(String),
}

/// The columns of a result and its rows, each a value per column.
pub struct QueryResult {
    pub columns: Vec<String>,
    pub rows: Vec<Vec<Cell>>,
}

impl QueryResult {
    /// The column names as text.
    pub open spec fn column_texts(&self) -> Seq<Seq<char>> {
        self.columns@.map_values(|c: String| c@)
    }

    /// The rows as sequences of values.
    pub open spec fn row_cells(&self) -> Seq<Seq<Cell>> {
        self.rows@.map_values(|r: Vec<Cell>| r@)
    }
}

/// A query for the engine: the SQL text, the root to read, the output
/// format.
pub struct EngineRequest {
    pub query: String,
    pub root: String,
    pub format: String,
}

/// The engine's answer: the columns and rows of a result, or an error.
pub struct EngineResponse {
    pub columns: Option<Vec<String>>,
    pub rows: Option<Vec<Vec<Cell>>>,
    pub error: Option<String>,
}

impl EngineResponse {
    /// The answer that carries a result.
    pub fn from_result(result: QueryResult) -> (r: EngineResponse)
        ensures
            r.columns == Some(result.columns),
            r.rows == Some(result.rows),
            r.error is None,
    {
        EngineResponse { columns: Some(result.columns), rows: Some(result.rows), error: None }
    }

    /// The answer that carries an error.
    pub fn from_error(error: String) -> (r: EngineResponse)
        ensures
            r.columns is None,
            r.rows is None,
            r.error == Some(error),
    {
        EngineResponse { columns: None, rows: None, error: Some(error) }
    }
}

/// How a parse error is reported: `error: <message> at position <n>`.
pub open spec fn parse_error_text(message: Seq<char>, position: nat) -> Seq<char> {
    "error: "@ + message + " at position "@ + decimal(position)
}

pub fn describe_parse_error(e: &ParseError) -> (r: String)
    ensures
        r@ == parse_error_text(e.message@, e.position as nat),
{
    let mut r = owned("error: ");
    push_str(&mut r, e.message.as_str());
    push_str(&mut r, " at position ");
    let n = decimal_string(e.position as u64);
    push_str(&mut r, n.as_str());
    r
}

} // verus!
