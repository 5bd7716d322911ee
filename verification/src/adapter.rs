//! What a language adapter is, and the walk that feeds every node of a
//! syntax tree to one.

use vstd::prelude::*;
use crate::rows::{no_tables, tables_append, TableBatch, Tables};
use crate::syntax::{copies, parse_source, syntax_wf, Grammar, SyntaxTree};

verus! {

/// A language the tables can be filled from: its name, the file extensions
/// it reads, its tree-sitter grammar, and what rows each syntax node gives.
pub trait LanguageAdapter {
    /// The language's name.
    spec fn name_spec(&self) -> Seq<char>;

    /// The file extensions, each with its leading dot.
    spec fn extensions_spec(&self) -> Seq<Seq<char>>;

    /// The grammar its sources are parsed with.
    spec fn grammar_spec(&self) -> Grammar;

    /// The rows that node `i` of `t` gives, for the file `file`.
    spec fn node_tables(&self, t: &SyntaxTree, file: Seq<char>, i: int) -> Tables;

    fn language_name(&self) -> (r: &'static str)
        ensures
            r@ == self.name_spec(),
    ;

    fn extensions(&self) -> (r: Vec<&'static str>)
        ensures
            r@.map_values(|e: &str| e@) == self.extensions_spec(),
    ;

    fn grammar(&self) -> (r: Grammar)
        ensures
            r == self.grammar_spec(),
    ;

    /// Appends the rows of node `i` to the tables of `rows`.
    fn map_node(&self, t: &SyntaxTree, i: usize, rows: &mut TableBatch)
        requires
            t.wf(),
            i < t.nodes@.len(),
        ensures
            final(rows).current_file == old(rows).current_file,
            final(rows).tables() == tables_append(
                old(rows).tables(),
                self.node_tables(t, old(rows).current_file@, i as int),
            ),
    ;
}

/// The rows of the nodes `0..k` of `t`, in that order.
pub open spec fn walk_tables<A: LanguageAdapter>(a: &A, t: &SyntaxTree, file: Seq<char>, k: int) -> Tables
    decreases k,
{
    if k <= 0 {
        no_tables()
    } else {
        tables_append(walk_tables(a, t, file, k - 1), a.node_tables(t, file, k - 1))
    }
}

/// The rows of a whole tree: every node in pre-order, fed to the adapter.
pub fn walk_tree<A: LanguageAdapter>(adapter: &A, file: &str, t: &SyntaxTree) -> (r: TableBatch)
    requires
        t.wf(),
    ensures
        r.current_file@ == file@,
        r.tables() == walk_tables(adapter, t, file@, t.nodes@.len() as int),
{
    let mut rows = TableBatch::new(file);
    assert(rows.tables() == no_tables()) by {
        assert(rows.tables().functions =~= Seq::empty());
        assert(rows.tables().calls =~= Seq::empty());
        assert(rows.tables().imports =~= Seq::empty());
        assert(rows.tables().structs =~= Seq::empty());
        assert(rows.tables().variables =~= Seq::empty());
        assert(rows.tables().comments =~= Seq::empty());
    }
    let n = t.nodes.len();
    let mut i: usize = 0;
    while i < n
        invariant
            t.wf(),
            n == t.nodes@.len(),
            i <= n,
            rows.current_file@ == file@,
            rows.tables() == walk_tables(adapter, t, file@, i as int),
        decreases n - i,
    {
        adapter.map_node(t, i, &mut rows);
        i = i + 1;
    }
    rows
}

/// Parses `source` with the adapter's grammar and collects the rows of every
/// node for the file `file`: the rows of the very tree that tree-sitter
/// parses from `source`. Fails exactly where that tree is not shaped as a
/// tree of `SyntaxTree::wf`.
pub fn walk_source<A: LanguageAdapter>(adapter: &A, file: &str, source: &str) -> (r: Result<
    TableBatch,
    String,
>)
    ensures
        r is Ok <==> syntax_wf(adapter.grammar_spec(), source@),
        r matches Ok(b) ==> b.current_file@ == file@ && exists|t: SyntaxTree|
            #![trigger copies(t, adapter.grammar_spec(), source@)]
            t.wf() && copies(t, adapter.grammar_spec(), source@) && b.tables() == walk_tables(
                adapter,
                &t,
                file@,
                t.nodes@.len() as int,
            ),
        r matches Err(e) ==> e@ == "failed to parse source"@,
{
    let grammar = adapter.grammar();
    match parse_source(grammar, source) {
        Some(t) => Ok(walk_tree(adapter, file, &t)),
        None => Err(crate::text::owned("failed to parse source")),
    }
}

} // verus!
