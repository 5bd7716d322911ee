//! The narrow Go adapter of the engine: top-level function declarations
//! only, with every other column left at its default.

use vstd::prelude::*;
use crate::adapter::LanguageAdapter;
use crate::rows::{no_tables, one_function, FunctionRow, FunctionRowV, TableBatch, Tables};
use crate::syntax::{Grammar, SyntaxTree};

verus! {

pub struct GoAdapter;

/// The row of a Go function declaration at node `i`, where it has a name.
pub open spec fn declared_function(t: &SyntaxTree, file: Seq<char>, i: int) -> Tables {
    if t.kind(i) == "function_declaration"@ {
        match t.field_text(i, "name"@) {
            Some(name) => one_function(
                FunctionRowV {
                    file,
                    line: t.line(i),
                    name,
                    visibility: Seq::empty(),
                    param_count: 0,
                    return_type: Seq::empty(),
                    complexity: 0,
                    has_test: false,
                },
            ),
            None => no_tables(),
        }
    } else {
        no_tables()
    }
}

impl LanguageAdapter for GoAdapter {
    open spec fn name_spec(&self) -> Seq<char> {
        "go"@
    }

    open spec fn extensions_spec(&self) -> Seq<Seq<char>> {
        seq![".go"@]
    }

    open spec fn node_tables(&self, t: &SyntaxTree, file: Seq<char>, i: int) -> Tables {
        declared_function(t, file, i)
    }

    fn language_name(&self) -> (r: &'static str) {
        "go"
    }

    fn extensions(&self) -> (r: Vec<&'static str>) {
        let r = vec![".go"];
        assert(r@.map_values(|e: &str| e@) =~= seq![".go"@]);
        r
    }

    open spec fn grammar_spec(&self) -> Grammar {
        Grammar::Go
    }

    fn grammar(&self) -> (r: Grammar) {
        Grammar::Go
    }

    fn map_node(&self, t: &SyntaxTree, i: usize, rows: &mut TableBatch) {
        proof {
            crate::rows::lemma_append_none(rows.tables());
        }
        if !t.kind_is(i, "function_declaration") {
            return;
        }
        let name = match t.field_text_of(i, "name") {
            Some(name) => name,
            None => {
                return;
            },
        };
        let row = FunctionRow {
            file: rows.current_file.clone(),
            line: t.line_of(i),
            name: name.clone(),
            visibility: String::new(),
            param_count: 0,
            return_type: String::new(),
            complexity: 0,
            has_test: false,
        };
        rows.push_function(row);
    }
}

} // verus!
