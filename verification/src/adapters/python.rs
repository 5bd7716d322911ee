//! The Python adapter: functions, classes, calls, imports, assignments and
//! comments.

use vstd::prelude::*;
use crate::adapter::LanguageAdapter;
use crate::adapters::rows_in_file;
use crate::adapters::{
    count_children_kinds, count_children_of, count_subtree_kinds, count_subtree_of, enclosing_name,
    find_enclosing_function, or_empty, text_one_of, text_or_empty,
};
use crate::rows::{
    lemma_append_none, no_tables, one_call, one_comment, one_function, one_import, one_struct,
    one_variable, tables_append, CallRow, CallRowV, CommentRow, CommentRowV, FunctionRow,
    FunctionRowV, ImportRow, ImportRowV, StructRow, StructRowV, TableBatch, Tables, VariableRow,
    VariableRowV,
};
use crate::syntax::{one_of, Grammar, SyntaxTree};
use crate::text::{
    chars_of, contains, owned, rfind, rfind_exec, rfind_from, starts_with, str_contains,
    str_starts_with, string_of_range, strip_prefix_all, trim, trim_start_matches, trimmed,
};

verus! {

pub struct PythonAdapter;

/// `private` for a name that starts with `_`, else `public`.
pub open spec fn python_visibility(name: Seq<char>) -> Seq<char> {
    if name.len() > 0 && name[0] == '_' {
        "private"@
    } else {
        "public"@
    }
}

pub open spec fn python_param_kinds() -> Seq<&'static str> {
    seq![
        "identifier",
        "typed_parameter",
        "default_parameter",
        "list_splat_pattern",
        "dictionary_splat_pattern",
    ]
}

pub open spec fn python_branch_kinds() -> Seq<&'static str> {
    seq![
        "if_statement",
        "for_statement",
        "while_statement",
        "match_case",
        "except_clause",
        "elif_clause",
        "boolean_operator",
    ]
}

pub open spec fn python_member_kinds() -> Seq<&'static str> {
    seq!["function_definition", "assignment", "class_definition"]
}

pub open spec fn python_function_kinds() -> Seq<&'static str> {
    seq!["function_definition"]
}

/// The modules counted as the standard library.
pub open spec fn python_std_modules() -> Seq<&'static str> {
    seq![
        "os",
        "sys",
        "re",
        "math",
        "json",
        "pathlib",
        "typing",
        "collections",
        "itertools",
        "functools",
        "datetime",
        "subprocess",
        "threading",
        "asyncio",
    ]
}

pub open spec fn python_function(t: &SyntaxTree, file: Seq<char>, i: int) -> Tables {
    match t.field_text(i, "name"@) {
        None => no_tables(),
        Some(name) => one_function(
            FunctionRowV {
                file,
                line: t.line(i),
                name,
                visibility: python_visibility(name),
                param_count: match t.field_child(i, "parameters"@) {
                    Some(p) => count_children_of(t, p, python_param_kinds()) as int,
                    None => 0,
                },
                return_type: or_empty(t.field_text(i, "return_type"@)),
                complexity: 1 + count_subtree_of(t, i, python_branch_kinds()) as int,
                has_test: false,
            },
        ),
    }
}

pub open spec fn python_class(t: &SyntaxTree, file: Seq<char>, i: int) -> Tables {
    match t.field_text(i, "name"@) {
        None => no_tables(),
        Some(name) => match t.field_child(i, "body"@) {
            None => no_tables(),
            Some(body) => one_struct(
                StructRowV {
                    file,
                    line: t.line(i),
                    name,
                    field_count: count_children_of(t, body, python_member_kinds()) as int,
                    visibility: python_visibility(name),
                    implements: Seq::empty(),
                },
            ),
        },
    }
}

pub open spec fn python_call(t: &SyntaxTree, file: Seq<char>, i: int) -> Tables {
    match t.field_text(i, "function"@) {
        None => no_tables(),
        Some(callee) => one_call(
            CallRowV {
                file,
                line: t.line(i),
                caller: or_empty(enclosing_name(t, i, python_function_kinds())),
                callee,
                is_external: contains(callee, "."@),
            },
        ),
    }
}

/// The alias after the last ` as ` of an import, trimmed.
pub open spec fn python_alias(text: Seq<char>) -> Seq<char> {
    match rfind(text, " as "@) {
        Some(pos) => trim(text.subrange(pos + " as "@.len(), text.len() as int)),
        None => Seq::empty(),
    }
}

pub open spec fn python_import(t: &SyntaxTree, file: Seq<char>, i: int) -> Tables {
    let text = trim(or_empty(t.text(i)));
    let module = if t.kind(i) == "import_from_statement"@ {
        or_empty(t.field_text(i, "module_name"@))
    } else {
        strip_prefix_all(text, "import "@)
    };
    one_import(
        ImportRowV {
            file,
            line: t.line(i),
            module,
            alias: python_alias(text),
            is_std: one_of(module, python_std_modules()),
        },
    )
}

pub open spec fn python_assignment(t: &SyntaxTree, file: Seq<char>, i: int) -> Tables {
    match t.field_text(i, "left"@) {
        None => no_tables(),
        Some(name) => one_variable(
            VariableRowV {
                file,
                line: t.line(i),
                name,
                type_hint: Seq::empty(),
                scope: if t.parent_kind(i) == Some("module"@) {
                    "module"@
                } else {
                    "function"@
                },
                is_mutated: true,
            },
        ),
    }
}

pub open spec fn python_doc_comment(text: Seq<char>) -> bool {
    starts_with(text, "#:"@) || starts_with(text, "#."@)
}

pub open spec fn python_comment(t: &SyntaxTree, file: Seq<char>, i: int) -> Tables {
    match t.text(i) {
        None => no_tables(),
        Some(text) => one_comment(
            CommentRowV {
                file,
                line: t.line(i),
                text: trim(text),
                attached_to: Seq::empty(),
                is_doc: python_doc_comment(trim(text)),
            },
        ),
    }
}

/// The rows of Python node `i`.
pub open spec fn python_node(t: &SyntaxTree, file: Seq<char>, i: int) -> Tables {
    let k = t.kind(i);
    if k == "function_definition"@ {
        python_function(t, file, i)
    } else if k == "class_definition"@ {
        python_class(t, file, i)
    } else if k == "call"@ {
        python_call(t, file, i)
    } else if k == "import_statement"@ || k == "import_from_statement"@ {
        python_import(t, file, i)
    } else if k == "assignment"@ {
        python_assignment(t, file, i)
    } else if k == "comment"@ {
        python_comment(t, file, i)
    } else {
        no_tables()
    }
}

impl PythonAdapter {
    /// `private` for a name that starts with `_`, else `public`.
    pub fn is_private(name: &str) -> (r: String)
        ensures
            r@ == python_visibility(name@),
    {
        let v = chars_of(name);
        if v.len() > 0 && v[0] == '_' {
            owned("private")
        } else {
            owned("public")
        }
    }

    fn count_params(t: &SyntaxTree, p: usize) -> (r: usize)
        requires
            t.wf(),
            p < t.nodes@.len(),
        ensures
            r == count_children_of(t, p as int, python_param_kinds()),
    {
        let ks = vec![
            "identifier",
            "typed_parameter",
            "default_parameter",
            "list_splat_pattern",
            "dictionary_splat_pattern",
        ];
        assert(ks@ =~= python_param_kinds());
        count_children_kinds(t, p, &ks)
    }

    fn count_complexity(t: &SyntaxTree, i: usize) -> (r: usize)
        requires
            t.wf(),
            i < t.nodes@.len(),
        ensures
            r == 1 + count_subtree_of(t, i as int, python_branch_kinds()),
    {
        let ks = vec![
            "if_statement",
            "for_statement",
            "while_statement",
            "match_case",
            "except_clause",
            "elif_clause",
            "boolean_operator",
        ];
        assert(ks@ =~= python_branch_kinds());
        1 + count_subtree_kinds(t, i, &ks)
    }

    fn map_function(&self, t: &SyntaxTree, i: usize, rows: &mut TableBatch)
        requires
            t.wf(),
            i < t.nodes@.len(),
        ensures
            final(rows).current_file == old(rows).current_file,
            final(rows).tables() == tables_append(
                old(rows).tables(),
                python_function(t, old(rows).current_file@, i as int),
            ),
    {
        proof {
            lemma_append_none(rows.tables());
        }
        let name = match t.field_text_of(i, "name") {
            Some(name) => name,
            None => {
                return;
            },
        };
        let param_count = match t.child_by_field_name(i, "parameters") {
            Some(p) => Self::count_params(t, p),
            None => 0,
        };
        let row = FunctionRow {
            file: rows.current_file.clone(),
            line: t.line_of(i),
            name: name.clone(),
            visibility: Self::is_private(name.as_str()),
            param_count,
            return_type: text_or_empty(t.field_text_of(i, "return_type")),
            complexity: Self::count_complexity(t, i),
            has_test: false,
        };
        rows.push_function(row);
    }

    fn map_class(&self, t: &SyntaxTree, i: usize, rows: &mut TableBatch)
        requires
            t.wf(),
            i < t.nodes@.len(),
        ensures
            final(rows).current_file == old(rows).current_file,
            final(rows).tables() == tables_append(
                old(rows).tables(),
                python_class(t, old(rows).current_file@, i as int),
            ),
    {
        proof {
            lemma_append_none(rows.tables());
        }
        let name = match t.field_text_of(i, "name") {
            Some(name) => name,
            None => {
                return;
            },
        };
        let body = match t.child_by_field_name(i, "body") {
            Some(body) => body,
            None => {
                return;
            },
        };
        let ks = vec!["function_definition", "assignment", "class_definition"];
        assert(ks@ =~= python_member_kinds());
        let row = StructRow {
            file: rows.current_file.clone(),
            line: t.line_of(i),
            name: name.clone(),
            field_count: count_children_kinds(t, body, &ks),
            visibility: Self::is_private(name.as_str()),
            implements: String::new(),
        };
        rows.push_struct(row);
    }

    fn map_call(&self, t: &SyntaxTree, i: usize, rows: &mut TableBatch)
        requires
            t.wf(),
            i < t.nodes@.len(),
        ensures
            final(rows).current_file == old(rows).current_file,
            final(rows).tables() == tables_append(
                old(rows).tables(),
                python_call(t, old(rows).current_file@, i as int),
            ),
    {
        proof {
            lemma_append_none(rows.tables());
        }
        let callee = match t.field_text_of(i, "function") {
            Some(callee) => callee,
            None => {
                return;
            },
        };
        let fks = vec!["function_definition"];
        assert(fks@ =~= python_function_kinds());
        let row = CallRow {
            file: rows.current_file.clone(),
            line: t.line_of(i),
            caller: text_or_empty(find_enclosing_function(t, i, &fks)),
            callee: callee.clone(),
            is_external: str_contains(callee.as_str(), "."),
        };
        rows.push_call(row);
    }

    fn map_import(&self, t: &SyntaxTree, i: usize, rows: &mut TableBatch)
        requires
            t.wf(),
            i < t.nodes@.len(),
        ensures
            final(rows).current_file == old(rows).current_file,
            final(rows).tables() == tables_append(
                old(rows).tables(),
                python_import(t, old(rows).current_file@, i as int),
            ),
    {
        let whole = text_or_empty(t.text_of(i));
        let text = trimmed(whole.as_str());
        let module = if t.kind_is(i, "import_from_statement") {
            text_or_empty(t.field_text_of(i, "module_name"))
        } else {
            trim_start_matches(text.as_str(), "import ")
        };
        let v = chars_of(text.as_str());
        let sep = chars_of(" as ");
        let alias = match rfind_exec(&v, &sep) {
            Some(pos) => {
                proof {
                    lemma_rfind_bounds(v@, sep@, v@.len() - sep@.len());
                    assert(rfind_from(v@, sep@, v@.len() - sep@.len()) == Some(pos as int));
                }
                let vl = v.len();
                let rest = string_of_range(&v, pos + sep.len(), vl);
                trimmed(rest.as_str())
            },
            None => String::new(),
        };
        let stds = vec![
            "os",
            "sys",
            "re",
            "math",
            "json",
            "pathlib",
            "typing",
            "collections",
            "itertools",
            "functools",
            "datetime",
            "subprocess",
            "threading",
            "asyncio",
        ];
        assert(stds@ =~= python_std_modules());
        let is_std = text_one_of(module.as_str(), &stds);
        let row = ImportRow {
            file: rows.current_file.clone(),
            line: t.line_of(i),
            module,
            alias,
            is_std,
        };
        rows.push_import(row);
    }

    fn map_assignment(&self, t: &SyntaxTree, i: usize, rows: &mut TableBatch)
        requires
            t.wf(),
            i < t.nodes@.len(),
        ensures
            final(rows).current_file == old(rows).current_file,
            final(rows).tables() == tables_append(
                old(rows).tables(),
                python_assignment(t, old(rows).current_file@, i as int),
            ),
    {
        proof {
            lemma_append_none(rows.tables());
        }
        let name = match t.field_text_of(i, "left") {
            Some(name) => name,
            None => {
                return;
            },
        };
        let scope = if t.parent_kind_is(i, "module") {
            owned("module")
        } else {
            owned("function")
        };
        let row = VariableRow {
            file: rows.current_file.clone(),
            line: t.line_of(i),
            name: name.clone(),
            type_hint: String::new(),
            scope,
            is_mutated: true,
        };
        rows.push_variable(row);
    }

    fn map_comment(&self, t: &SyntaxTree, i: usize, rows: &mut TableBatch)
        requires
            t.wf(),
            i < t.nodes@.len(),
        ensures
            final(rows).current_file == old(rows).current_file,
            final(rows).tables() == tables_append(
                old(rows).tables(),
                python_comment(t, old(rows).current_file@, i as int),
            ),
    {
        proof {
            lemma_append_none(rows.tables());
        }
        let text = match t.text_of(i) {
            Some(text) => text,
            None => {
                return;
            },
        };
        let text = trimmed(text.as_str());
        let is_doc = str_starts_with(text.as_str(), "#:") || str_starts_with(text.as_str(), "#.");
        let row = CommentRow {
            file: rows.current_file.clone(),
            line: t.line_of(i),
            text,
            attached_to: String::new(),
            is_doc,
        };
        rows.push_comment(row);
    }
}

/// Where `rfind` finds `p`, it lies inside `s`.
pub proof fn lemma_rfind_bounds(s: Seq<char>, p: Seq<char>, k: int)
    requires
        rfind_from(s, p, k) is Some,
    ensures
        0 <= rfind_from(s, p, k)->0 <= k,
        rfind_from(s, p, k)->0 + p.len() <= s.len(),
    decreases k + 1,
{
    if k >= 0 && !crate::text::occurs_at(s, p, k) {
        lemma_rfind_bounds(s, p, k - 1);
    }
}

impl LanguageAdapter for PythonAdapter {
    open spec fn name_spec(&self) -> Seq<char> {
        "python"@
    }

    open spec fn extensions_spec(&self) -> Seq<Seq<char>> {
        seq![".py"@]
    }

    open spec fn node_tables(&self, t: &SyntaxTree, file: Seq<char>, i: int) -> Tables {
        python_node(t, file, i)
    }

    fn language_name(&self) -> (r: &'static str) {
        "python"
    }

    fn extensions(&self) -> (r: Vec<&'static str>) {
        let r = vec![".py"];
        assert(r@.map_values(|e: &str| e@) =~= seq![".py"@]);
        r
    }

    open spec fn grammar_spec(&self) -> Grammar {
        Grammar::Python
    }

    fn grammar(&self) -> (r: Grammar) {
        Grammar::Python
    }

    fn map_node(&self, t: &SyntaxTree, i: usize, rows: &mut TableBatch) {
        proof {
            lemma_append_none(rows.tables());
        }
        if t.kind_is(i, "function_definition") {
            self.map_function(t, i, rows);
        } else if t.kind_is(i, "class_definition") {
            self.map_class(t, i, rows);
        } else if t.kind_is(i, "call") {
            self.map_call(t, i, rows);
        } else if t.kind_is(i, "import_statement") || t.kind_is(i, "import_from_statement") {
            self.map_import(t, i, rows);
        } else if t.kind_is(i, "assignment") {
            self.map_assignment(t, i, rows);
        } else if t.kind_is(i, "comment") {
            self.map_comment(t, i, rows);
        }
    }
}

pub proof fn lemma_python_rows_in_file(t: &SyntaxTree, file: Seq<char>, i: int)
    ensures
        rows_in_file(python_node(t, file, i), file),
{
    let k = t.kind(i);
    if k == "function_definition"@ {
        assert(rows_in_file(python_function(t, file, i), file));
    } else if k == "class_definition"@ {
        assert(rows_in_file(python_class(t, file, i), file));
    } else if k == "call"@ {
        assert(rows_in_file(python_call(t, file, i), file));
    } else if k == "import_statement"@ || k == "import_from_statement"@ {
        assert(rows_in_file(python_import(t, file, i), file));
    } else if k == "assignment"@ {
        assert(rows_in_file(python_assignment(t, file, i), file));
    } else if k == "comment"@ {
        assert(rows_in_file(python_comment(t, file, i), file));
    }
}



proof fn lemma_python_std_module(m: Seq<char>)
    ensures
        one_of(m, python_std_modules()) <==> (m == "os"@ || m == "sys"@ || m == "re"@ || m == "math"@ || m == "json"@ || m == "pathlib"@ || m == "typing"@ || m == "collections"@ || m == "itertools"@ || m == "functools"@ || m == "datetime"@ || m == "subprocess"@ || m == "threading"@ || m == "asyncio"@),
{
    let ks = python_std_modules();
    assert(ks[0]@ == "os"@);
    assert(ks[1]@ == "sys"@);
    assert(ks[2]@ == "re"@);
    assert(ks[3]@ == "math"@);
    assert(ks[4]@ == "json"@);
    assert(ks[5]@ == "pathlib"@);
    assert(ks[6]@ == "typing"@);
    assert(ks[7]@ == "collections"@);
    assert(ks[8]@ == "itertools"@);
    assert(ks[9]@ == "functools"@);
    assert(ks[10]@ == "datetime"@);
    assert(ks[11]@ == "subprocess"@);
    assert(ks[12]@ == "threading"@);
    assert(ks[13]@ == "asyncio"@);
}

/// An import row from a Python import marks the standard library exactly
/// when its module is `os`, `sys`, `re`, `math`, `json`, `pathlib`,
/// `typing`, `collections`, `itertools`, `functools`, `datetime`,
/// `subprocess`, `threading` or `asyncio`.
pub proof fn lemma_python_import_std(t: &SyntaxTree, file: Seq<char>, i: int)
    requires
        t.kind(i) == "import_statement"@ || t.kind(i) == "import_from_statement"@,
    ensures
        PythonAdapter.node_tables(t, file, i).imports.len() == 1,
        ({
            let m = PythonAdapter.node_tables(t, file, i).imports[0].module;
            PythonAdapter.node_tables(t, file, i).imports[0].is_std <==> (m == "os"@ || m == "sys"@ || m == "re"@ || m == "math"@ || m == "json"@ || m == "pathlib"@ || m == "typing"@ || m == "collections"@ || m == "itertools"@ || m == "functools"@ || m == "datetime"@ || m == "subprocess"@ || m == "threading"@ || m == "asyncio"@)
        }),
{
    reveal_strlit("function_definition");
    reveal_strlit("class_definition");
    reveal_strlit("call");
    reveal_strlit("import_statement");
    reveal_strlit("import_from_statement");
    assert("function_definition"@.len() == 19);
    assert("import_statement"@.len() == 16);
    assert("import_from_statement"@.len() == 21);
    assert("class_definition"@[0] != "import_statement"@[0]);
    assert(t.kind(i) != "function_definition"@);
    assert(t.kind(i) != "class_definition"@);
    assert(t.kind(i) != "call"@);
    assert(PythonAdapter.node_tables(t, file, i) == python_import(t, file, i));
    let m = PythonAdapter.node_tables(t, file, i).imports[0].module;
    lemma_python_std_module(m);
}

} // verus!
