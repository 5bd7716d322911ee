//! The Go adapter: functions and methods, calls, imports, struct types,
//! variables and comments.

use vstd::prelude::*;
use crate::adapter::LanguageAdapter;
use crate::adapters::{lemma_rows_in_file_bfs, lemma_rows_in_file_concat, rows_in_file};
use crate::adapters::{
    bfs_tables, children_of_all, concat_tables, count_children_kinds, count_children_of,
    count_subtree_kinds, count_subtree_of, enclosing_name, find_enclosing_function,
    first_child_kind, first_child_of, lemma_concat_step, or_empty, text_or_empty, visibility,
    visibility_of,
};
use crate::rows::{
    lemma_append_assoc, lemma_append_none, no_tables, one_call, one_comment, one_function,
    one_import, one_struct, one_variable, tables_append, CallRow, CallRowV, CommentRow,
    CommentRowV, FunctionRow, FunctionRowV, ImportRow, ImportRowV, StructRow, StructRowV,
    TableBatch, Tables, VariableRow, VariableRowV,
};
use crate::syntax::{count_nodes, one_of, Grammar, SyntaxTree};
use crate::text::{
    chars_of, contains, is_upper, is_uppercase, owned, starts_with, str_contains, str_starts_with,
    trim, trim_char, trim_matches, trimmed,
};

verus! {

pub struct GoAdapter;

/// Whether a Go name is exported: it starts with an upper-case letter.
pub open spec fn go_exported(name: Seq<char>) -> bool {
    name.len() > 0 && is_upper(name[0])
}

/// The kinds that add a branch to a Go function's complexity.
pub open spec fn go_branch_kinds() -> Seq<&'static str> {
    seq![
        "if_statement",
        "for_statement",
        "range_clause",
        "switch_statement",
        "select_statement",
        "case_clause",
        "go_statement",
    ]
}

/// The kinds of function around a Go call.
pub open spec fn go_function_kinds() -> Seq<&'static str> {
    seq!["function_declaration", "method_declaration"]
}

pub open spec fn go_param_kinds() -> Seq<&'static str> {
    seq!["parameter_declaration"]
}

pub open spec fn go_field_kinds() -> Seq<&'static str> {
    seq!["field_declaration"]
}

/// The row of a function or method declaration.
pub open spec fn go_function(t: &SyntaxTree, file: Seq<char>, i: int) -> Tables {
    match t.field_text(i, "name"@) {
        None => no_tables(),
        Some(name) => one_function(
            FunctionRowV {
                file,
                line: t.line(i),
                name,
                visibility: visibility(go_exported(name)),
                param_count: match t.field_child(i, "parameters"@) {
                    Some(p) => count_children_of(t, p, go_param_kinds()) as int,
                    None => 0,
                },
                return_type: or_empty(t.field_text(i, "result"@)),
                complexity: 1 + count_subtree_of(t, i, go_branch_kinds()) as int,
                has_test: false,
            },
        ),
    }
}

/// The row of a call expression.
pub open spec fn go_call(t: &SyntaxTree, file: Seq<char>, i: int) -> Tables {
    match t.field_text(i, "function"@) {
        None => no_tables(),
        Some(callee) => one_call(
            CallRowV {
                file,
                line: t.line(i),
                caller: or_empty(enclosing_name(t, i, go_function_kinds())),
                callee,
                is_external: contains(callee, "."@),
            },
        ),
    }
}

/// The row of node `c` where it is an `import_spec`.
pub open spec fn go_import_spec(t: &SyntaxTree, file: Seq<char>, c: int) -> Tables {
    if t.kind(c) == "import_spec"@ {
        let module = trim_char(or_empty(t.field_text(c, "path"@)), '"');
        one_import(
            ImportRowV {
                file,
                line: t.line(c),
                module,
                alias: or_empty(t.field_text(c, "name"@)),
                is_std: !contains(module, "."@),
            },
        )
    } else {
        no_tables()
    }
}

/// The rows of an import declaration: every `import_spec` in its subtree,
/// breadth first.
pub open spec fn go_imports(t: &SyntaxTree, file: Seq<char>, i: int) -> Tables {
    bfs_tables(t, seq![i], t.size() as nat, |c: int| go_import_spec(t, file, c))
}

/// The field list of a struct type: its `body`, or else its first
/// `field_declaration_list` child.
pub open spec fn go_field_list(t: &SyntaxTree, ty: int) -> Option<int> {
    match t.field_child(ty, "body"@) {
        Some(b) => Some(b),
        None => first_child_of(t, ty, "field_declaration_list"@),
    }
}

/// The row of node `c` where it is a `type_spec` of a struct type.
pub open spec fn go_type_spec(t: &SyntaxTree, file: Seq<char>, c: int) -> Tables {
    if t.kind(c) != "type_spec"@ {
        no_tables()
    } else {
        match t.field_text(c, "name"@) {
            None => no_tables(),
            Some(name) => match t.field_child(c, "type"@) {
                Some(ty) => if t.kind(ty) == "struct_type"@ {
                    one_struct(
                        StructRowV {
                            file,
                            line: t.line(c),
                            name,
                            field_count: match go_field_list(t, ty) {
                                Some(fl) => count_children_of(t, fl, go_field_kinds()) as int,
                                None => 0,
                            },
                            visibility: visibility(go_exported(name)),
                            implements: Seq::empty(),
                        },
                    )
                } else {
                    no_tables()
                },
                None => no_tables(),
            },
        }
    }
}

/// The rows of a type declaration: one per struct type it declares.
pub open spec fn go_type_decl(t: &SyntaxTree, file: Seq<char>, i: int) -> Tables {
    concat_tables(t.children(i), |c: int| go_type_spec(t, file, c))
}

/// The scope of the variables of declaration `i`.
pub open spec fn go_var_scope(t: &SyntaxTree, i: int) -> Seq<char> {
    if t.parent_kind(i) == Some("source_file"@) {
        "package"@
    } else {
        "function"@
    }
}

/// The row of node `c`, a child of declaration `i`, where it is a `var_spec`.
pub open spec fn go_var_spec(t: &SyntaxTree, file: Seq<char>, i: int, c: int) -> Tables {
    if t.kind(c) != "var_spec"@ {
        no_tables()
    } else {
        match t.field_text(c, "name"@) {
            None => no_tables(),
            Some(name) => one_variable(
                VariableRowV {
                    file,
                    line: t.line(c),
                    name,
                    type_hint: or_empty(t.field_text(c, "type"@)),
                    scope: go_var_scope(t, i),
                    is_mutated: false,
                },
            ),
        }
    }
}

/// The rows of a `var` declaration.
pub open spec fn go_var_decl(t: &SyntaxTree, file: Seq<char>, i: int) -> Tables {
    concat_tables(t.children(i), |c: int| go_var_spec(t, file, i, c))
}

/// The row of a short variable declaration (`x := ...`).
pub open spec fn go_short_var(t: &SyntaxTree, file: Seq<char>, i: int) -> Tables {
    match t.field_text(i, "left"@) {
        None => no_tables(),
        Some(name) => one_variable(
            VariableRowV {
                file,
                line: t.line(i),
                name,
                type_hint: Seq::empty(),
                scope: "function"@,
                is_mutated: true,
            },
        ),
    }
}

/// Whether a trimmed Go comment is documentation: `// ` then an upper-case
/// letter, or a block comment.
pub open spec fn go_doc_comment(text: Seq<char>) -> bool {
    (starts_with(text, "// "@) && text.len() > 3 && is_upper(text[3])) || starts_with(text, "/*"@)
}

/// The row of a comment.
pub open spec fn go_comment(t: &SyntaxTree, file: Seq<char>, i: int) -> Tables {
    match t.text(i) {
        None => no_tables(),
        Some(text) => one_comment(
            CommentRowV {
                file,
                line: t.line(i),
                text: trim(text),
                attached_to: Seq::empty(),
                is_doc: go_doc_comment(trim(text)),
            },
        ),
    }
}

/// The rows of Go node `i`.
pub open spec fn go_node(t: &SyntaxTree, file: Seq<char>, i: int) -> Tables {
    let k = t.kind(i);
    if k == "function_declaration"@ || k == "method_declaration"@ {
        go_function(t, file, i)
    } else if k == "call_expression"@ {
        go_call(t, file, i)
    } else if k == "import_declaration"@ {
        go_imports(t, file, i)
    } else if k == "type_declaration"@ {
        go_type_decl(t, file, i)
    } else if k == "var_declaration"@ {
        go_var_decl(t, file, i)
    } else if k == "short_var_declaration"@ {
        go_short_var(t, file, i)
    } else if k == "comment"@ {
        go_comment(t, file, i)
    } else {
        no_tables()
    }
}

impl GoAdapter {
    /// Whether `name` starts with an upper-case letter.
    pub fn is_exported(name: &str) -> (r: bool)
        ensures
            r == go_exported(name@),
    {
        let v = chars_of(name);
        v.len() > 0 && is_uppercase(v[0])
    }

    /// The parameter declarations of a parameter list.
    fn count_params(t: &SyntaxTree, p: usize) -> (r: usize)
        requires
            t.wf(),
            p < t.nodes@.len(),
        ensures
            r == count_children_of(t, p as int, go_param_kinds()),
    {
        let ks = vec!["parameter_declaration"];
        assert(ks@ =~= go_param_kinds());
        count_children_kinds(t, p, &ks)
    }

    /// One plus the branching nodes in the subtree of `i`.
    fn count_complexity(t: &SyntaxTree, i: usize) -> (r: usize)
        requires
            t.wf(),
            i < t.nodes@.len(),
        ensures
            r == 1 + count_subtree_of(t, i as int, go_branch_kinds()),
    {
        let ks = vec![
            "if_statement",
            "for_statement",
            "range_clause",
            "switch_statement",
            "select_statement",
            "case_clause",
            "go_statement",
        ];
        assert(ks@ =~= go_branch_kinds());
        1 + count_subtree_kinds(t, i, &ks)
    }

    fn map_function(&self, t: &SyntaxTree, i: usize, rows: &mut TableBatch)
        requires
            t.wf(),
            i < t.nodes@.len(),
        ensures
            final(rows).current_file == old(rows).current_file,
            final(rows).tables() == tables_append(
                old(rows).tables(),
                go_function(t, old(rows).current_file@, i as int),
            ),
    {
        proof {
            lemma_append_none(rows.tables());
        }
        let name = match t.field_text_of(i, "name") {
            Some(name) => name,
            None => {
                return;
            },
        };
        let param_count = match t.child_by_field_name(i, "parameters") {
            Some(p) => Self::count_params(t, p),
            None => 0,
        };
        let return_type = text_or_empty(t.field_text_of(i, "result"));
        let complexity = Self::count_complexity(t, i);
        let row = FunctionRow {
            file: rows.current_file.clone(),
            line: t.line_of(i),
            name: name.clone(),
            visibility: visibility_of(Self::is_exported(name.as_str())),
            param_count,
            return_type,
            complexity,
            has_test: false,
        };
        rows.push_function(row);
    }

    fn map_call(&self, t: &SyntaxTree, i: usize, rows: &mut TableBatch)
        requires
            t.wf(),
            i < t.nodes@.len(),
        ensures
            final(rows).current_file == old(rows).current_file,
            final(rows).tables() == tables_append(
                old(rows).tables(),
                go_call(t, old(rows).current_file@, i as int),
            ),
    {
        proof {
            lemma_append_none(rows.tables());
        }
        let callee = match t.field_text_of(i, "function") {
            Some(callee) => callee,
            None => {
                return;
            },
        };
        let fks = vec!["function_declaration", "method_declaration"];
        assert(fks@ =~= go_function_kinds());
        let caller = text_or_empty(find_enclosing_function(t, i, &fks));
        let row = CallRow {
            file: rows.current_file.clone(),
            line: t.line_of(i),
            caller,
            callee: callee.clone(),
            is_external: str_contains(callee.as_str(), "."),
        };
        rows.push_call(row);
    }

    /// The row of node `c` where it is an `import_spec`.
    fn map_import_spec(&self, t: &SyntaxTree, c: usize, rows: &mut TableBatch)
        requires
            t.wf(),
            c < t.nodes@.len(),
        ensures
            final(rows).current_file == old(rows).current_file,
            final(rows).tables() == tables_append(
                old(rows).tables(),
                go_import_spec(t, old(rows).current_file@, c as int),
            ),
    {
        proof {
            lemma_append_none(rows.tables());
        }
        if !t.kind_is(c, "import_spec") {
            return;
        }
        let path = text_or_empty(t.field_text_of(c, "path"));
        let module = trim_matches(path.as_str(), '"');
        let alias = text_or_empty(t.field_text_of(c, "name"));
        let is_std = !str_contains(module.as_str(), ".");
        let row = ImportRow {
            file: rows.current_file.clone(),
            line: t.line_of(c),
            module,
            alias,
            is_std,
        };
        rows.push_import(row);
    }

    /// Every `import_spec` under node `i`, breadth first.
    fn map_imports(&self, t: &SyntaxTree, i: usize, rows: &mut TableBatch)
        requires
            t.wf(),
            i < t.nodes@.len(),
        ensures
            final(rows).current_file == old(rows).current_file,
            final(rows).tables() == tables_append(
                old(rows).tables(),
                go_imports(t, old(rows).current_file@, i as int),
            ),
    {
        let ghost file = rows.current_file@;
        let ghost f = |c: int| go_import_spec(t, file, c);
        let ghost start = rows.tables();
        let mut level: Vec<usize> = Vec::new();
        level.push(i);
        let mut depth: usize = t.nodes.len();
        assert(level@.map_values(|x: usize| x as int) =~= seq![i as int]);
        proof {
            lemma_append_none(start);
        }
        while depth > 0
            invariant
                t.wf(),
                file == rows.current_file@,
                f == (|c: int| go_import_spec(t, file, c)),
                rows.current_file == old(rows).current_file,
                start == old(rows).tables(),
                forall|m: int| 0 <= m < level@.len() ==> #[trigger] level@[m] < t.nodes@.len(),
                tables_append(
                    rows.tables(),
                    bfs_tables(t, level@.map_values(|x: usize| x as int), depth as nat, f),
                ) == tables_append(start, go_imports(t, file, i as int)),
            decreases depth,
        {
            let ghost lv = level@.map_values(|x: usize| x as int);
            let ghost before = rows.tables();
            let mut next: Vec<usize> = Vec::new();
            let mut m: usize = 0;
            assert(lv.take(0) =~= Seq::<int>::empty());
            assert(next@.map_values(|x: usize| x as int) =~= children_of_all(t, lv.take(0)));
            proof {
                lemma_append_none(before);
            }
            while m < level.len()
                invariant
                    t.wf(),
                    file == rows.current_file@,
                    f == (|c: int| go_import_spec(t, file, c)),
                    rows.current_file == old(rows).current_file,
                    lv == level@.map_values(|x: usize| x as int),
                    forall|q: int| 0 <= q < level@.len() ==> #[trigger] level@[q] < t.nodes@.len(),
                    forall|q: int| 0 <= q < next@.len() ==> #[trigger] next@[q] < t.nodes@.len(),
                    m <= level@.len(),
                    rows.tables() == tables_append(before, concat_tables(lv.take(m as int), f)),
                    next@.map_values(|x: usize| x as int) == children_of_all(t, lv.take(m as int)),
                decreases level.len() - m,
            {
                let c = level[m];
                let ghost mid = rows.tables();
                self.map_import_spec(t, c, rows);
                proof {
                    lemma_concat_step(lv, m as int, f);
                    lemma_append_assoc(before, concat_tables(lv.take(m as int), f), f(c as int));
                }
                let cs = t.children_of(c);
                let ghost nv = next@.map_values(|x: usize| x as int);
                let mut q: usize = 0;
                while q < cs.len()
                    invariant
                        t.wf(),
                        c < t.nodes@.len(),
                        cs@.len() == t.children(c as int).len(),
                        forall|x: int| 0 <= x < cs@.len() ==> cs@[x] as int == #[trigger] t.children(c as int)[x],
                        forall|x: int| 0 <= x < cs@.len() ==> c < #[trigger] cs@[x] < t.nodes@.len(),
                        forall|x: int| 0 <= x < next@.len() ==> #[trigger] next@[x] < t.nodes@.len(),
                        q <= cs@.len(),
                        next@.map_values(|x: usize| x as int) == nv + t.children(c as int).take(q as int),
                    decreases cs.len() - q,
                {
                    let ghost prev = next@.map_values(|x: usize| x as int);
                    assert(cs@[q as int] as int == t.children(c as int)[q as int]);
                    next.push(cs[q]);
                    assert(next@.map_values(|x: usize| x as int) =~= prev.push(cs@[q as int] as int));
                    assert(t.children(c as int).take(q + 1) =~= t.children(c as int).take(q as int).push(
                        t.children(c as int)[q as int],
                    ));
                    q = q + 1;
                    assert(next@.map_values(|x: usize| x as int) =~= nv + t.children(c as int).take(q as int));
                }
                proof {
                    assert(t.children(c as int).take(q as int) =~= t.children(c as int));
                    assert(lv.take(m + 1).drop_last() =~= lv.take(m as int));
                    assert(lv.take(m + 1).last() == c as int);
                }
                m = m + 1;
            }
            proof {
                assert(lv.take(m as int) =~= lv);
                lemma_append_assoc(before, concat_tables(lv, f), bfs_tables(t, children_of_all(t, lv), (depth - 1) as nat, f));
            }
            level = next;
            depth = depth - 1;
        }
        proof {
            lemma_append_none(rows.tables());
        }
    }

    /// The row of node `c` where it is a `type_spec` of a struct type.
    fn map_type_spec(&self, t: &SyntaxTree, c: usize, rows: &mut TableBatch)
        requires
            t.wf(),
            c < t.nodes@.len(),
        ensures
            final(rows).current_file == old(rows).current_file,
            final(rows).tables() == tables_append(
                old(rows).tables(),
                go_type_spec(t, old(rows).current_file@, c as int),
            ),
    {
        proof {
            lemma_append_none(rows.tables());
        }
        if !t.kind_is(c, "type_spec") {
            return;
        }
        let name = match t.field_text_of(c, "name") {
            Some(name) => name,
            None => {
                return;
            },
        };
        let ty = match t.child_by_field_name(c, "type") {
            Some(ty) => ty,
            None => {
                return;
            },
        };
        if !t.kind_is(ty, "struct_type") {
            return;
        }
        let field_list = match t.child_by_field_name(ty, "body") {
            Some(b) => Some(b),
            None => first_child_kind(t, ty, "field_declaration_list"),
        };
        let field_count = match field_list {
            Some(fl) => {
                let ks = vec!["field_declaration"];
                assert(ks@ =~= go_field_kinds());
                count_children_kinds(t, fl, &ks)
            },
            None => 0,
        };
        let row = StructRow {
            file: rows.current_file.clone(),
            line: t.line_of(c),
            name: name.clone(),
            field_count,
            visibility: visibility_of(Self::is_exported(name.as_str())),
            implements: String::new(),
        };
        rows.push_struct(row);
    }

    fn map_type_decl(&self, t: &SyntaxTree, i: usize, rows: &mut TableBatch)
        requires
            t.wf(),
            i < t.nodes@.len(),
        ensures
            final(rows).current_file == old(rows).current_file,
            final(rows).tables() == tables_append(
                old(rows).tables(),
                go_type_decl(t, old(rows).current_file@, i as int),
            ),
    {
        let ghost file = rows.current_file@;
        let ghost f = |c: int| go_type_spec(t, file, c);
        let ghost g = t.children(i as int);
        let ghost start = rows.tables();
        let cs = t.children_of(i);
        let mut k: usize = 0;
        assert(g.take(0) =~= Seq::<int>::empty());
        proof {
            lemma_append_none(start);
        }
        while k < cs.len()
            invariant
                t.wf(),
                file == rows.current_file@,
                f == (|c: int| go_type_spec(t, file, c)),
                g == t.children(i as int),
                rows.current_file == old(rows).current_file,
                start == old(rows).tables(),
                cs@.len() == g.len(),
                forall|x: int| 0 <= x < cs@.len() ==> cs@[x] as int == #[trigger] g[x],
                forall|x: int| 0 <= x < cs@.len() ==> i < #[trigger] cs@[x] < t.nodes@.len(),
                k <= cs@.len(),
                rows.tables() == tables_append(start, concat_tables(g.take(k as int), f)),
            decreases cs.len() - k,
        {
            self.map_type_spec(t, cs[k], rows);
            proof {
                lemma_concat_step(g, k as int, f);
                lemma_append_assoc(start, concat_tables(g.take(k as int), f), f(g[k as int]));
            }
            k = k + 1;
        }
        assert(g.take(k as int) =~= g);
    }

    /// The row of node `c`, a child of declaration `i`, where it is a
    /// `var_spec`.
    fn map_var_spec(&self, t: &SyntaxTree, i: usize, c: usize, rows: &mut TableBatch)
        requires
            t.wf(),
            i < t.nodes@.len(),
            c < t.nodes@.len(),
        ensures
            final(rows).current_file == old(rows).current_file,
            final(rows).tables() == tables_append(
                old(rows).tables(),
                go_var_spec(t, old(rows).current_file@, i as int, c as int),
            ),
    {
        proof {
            lemma_append_none(rows.tables());
        }
        if !t.kind_is(c, "var_spec") {
            return;
        }
        let name = match t.field_text_of(c, "name") {
            Some(name) => name,
            None => {
                return;
            },
        };
        let type_hint = text_or_empty(t.field_text_of(c, "type"));
        let scope = if t.parent_kind_is(i, "source_file") {
            owned("package")
        } else {
            owned("function")
        };
        let row = VariableRow {
            file: rows.current_file.clone(),
            line: t.line_of(c),
            name: name.clone(),
            type_hint,
            scope,
            is_mutated: false,
        };
        rows.push_variable(row);
    }

    fn map_var_decl(&self, t: &SyntaxTree, i: usize, rows: &mut TableBatch)
        requires
            t.wf(),
            i < t.nodes@.len(),
        ensures
            final(rows).current_file == old(rows).current_file,
            final(rows).tables() == tables_append(
                old(rows).tables(),
                go_var_decl(t, old(rows).current_file@, i as int),
            ),
    {
        let ghost file = rows.current_file@;
        let ghost f = |c: int| go_var_spec(t, file, i as int, c);
        let ghost g = t.children(i as int);
        let ghost start = rows.tables();
        let cs = t.children_of(i);
        let mut k: usize = 0;
        assert(g.take(0) =~= Seq::<int>::empty());
        proof {
            lemma_append_none(start);
        }
        while k < cs.len()
            invariant
                t.wf(),
                i < t.nodes@.len(),
                file == rows.current_file@,
                f == (|c: int| go_var_spec(t, file, i as int, c)),
                g == t.children(i as int),
                rows.current_file == old(rows).current_file,
                start == old(rows).tables(),
                cs@.len() == g.len(),
                forall|x: int| 0 <= x < cs@.len() ==> cs@[x] as int == #[trigger] g[x],
                forall|x: int| 0 <= x < cs@.len() ==> i < #[trigger] cs@[x] < t.nodes@.len(),
                k <= cs@.len(),
                rows.tables() == tables_append(start, concat_tables(g.take(k as int), f)),
            decreases cs.len() - k,
        {
            self.map_var_spec(t, i, cs[k], rows);
            proof {
                lemma_concat_step(g, k as int, f);
                lemma_append_assoc(start, concat_tables(g.take(k as int), f), f(g[k as int]));
            }
            k = k + 1;
        }
        assert(g.take(k as int) =~= g);
    }

    fn map_short_var(&self, t: &SyntaxTree, i: usize, rows: &mut TableBatch)
        requires
            t.wf(),
            i < t.nodes@.len(),
        ensures
            final(rows).current_file == old(rows).current_file,
            final(rows).tables() == tables_append(
                old(rows).tables(),
                go_short_var(t, old(rows).current_file@, i as int),
            ),
    {
        proof {
            lemma_append_none(rows.tables());
        }
        let name = match t.field_text_of(i, "left") {
            Some(name) => name,
            None => {
                return;
            },
        };
        let row = VariableRow {
            file: rows.current_file.clone(),
            line: t.line_of(i),
            name: name.clone(),
            type_hint: String::new(),
            scope: owned("function"),
            is_mutated: true,
        };
        rows.push_variable(row);
    }

    fn map_comment(&self, t: &SyntaxTree, i: usize, rows: &mut TableBatch)
        requires
            t.wf(),
            i < t.nodes@.len(),
        ensures
            final(rows).current_file == old(rows).current_file,
            final(rows).tables() == tables_append(
                old(rows).tables(),
                go_comment(t, old(rows).current_file@, i as int),
            ),
    {
        proof {
            lemma_append_none(rows.tables());
        }
        let text = match t.text_of(i) {
            Some(text) => text,
            None => {
                return;
            },
        };
        let text = trimmed(text.as_str());
        let v = chars_of(text.as_str());
        let is_doc = (str_starts_with(text.as_str(), "// ") && v.len() > 3 && is_uppercase(v[3]))
            || str_starts_with(text.as_str(), "/*");
        let row = CommentRow {
            file: rows.current_file.clone(),
            line: t.line_of(i),
            text,
            attached_to: String::new(),
            is_doc,
        };
        rows.push_comment(row);
    }
}

impl LanguageAdapter for GoAdapter {
    open spec fn name_spec(&self) -> Seq<char> {
        "go"@
    }

    open spec fn extensions_spec(&self) -> Seq<Seq<char>> {
        seq![".go"@]
    }

    open spec fn node_tables(&self, t: &SyntaxTree, file: Seq<char>, i: int) -> Tables {
        go_node(t, file, i)
    }

    fn language_name(&self) -> (r: &'static str) {
        "go"
    }

    fn extensions(&self) -> (r: Vec<&'static str>) {
        let r = vec![".go"];
        assert(r@.map_values(|e: &str| e@) =~= seq![".go"@]);
        r
    }

    open spec fn grammar_spec(&self) -> Grammar {
        Grammar::Go
    }

    fn grammar(&self) -> (r: Grammar) {
        Grammar::Go
    }

    fn map_node(&self, t: &SyntaxTree, i: usize, rows: &mut TableBatch) {
        proof {
            lemma_append_none(rows.tables());
        }
        if t.kind_is(i, "function_declaration") || t.kind_is(i, "method_declaration") {
            self.map_function(t, i, rows);
        } else if t.kind_is(i, "call_expression") {
            self.map_call(t, i, rows);
        } else if t.kind_is(i, "import_declaration") {
            self.map_imports(t, i, rows);
        } else if t.kind_is(i, "type_declaration") {
            self.map_type_decl(t, i, rows);
        } else if t.kind_is(i, "var_declaration") {
            self.map_var_decl(t, i, rows);
        } else if t.kind_is(i, "short_var_declaration") {
            self.map_short_var(t, i, rows);
        } else if t.kind_is(i, "comment") {
            self.map_comment(t, i, rows);
        }
    }
}

pub proof fn lemma_go_rows_in_file(t: &SyntaxTree, file: Seq<char>, i: int)
    ensures
        rows_in_file(go_node(t, file, i), file),
{
    let k = t.kind(i);
    if k == "function_declaration"@ || k == "method_declaration"@ {
        assert(rows_in_file(go_function(t, file, i), file));
    } else if k == "call_expression"@ {
        assert(rows_in_file(go_call(t, file, i), file));
    } else if k == "import_declaration"@ {
        assert forall|c: int| rows_in_file(#[trigger] go_import_spec(t, file, c), file) by {}
        lemma_rows_in_file_bfs(t, seq![i], t.size() as nat, |c: int| go_import_spec(t, file, c), file);
    } else if k == "type_declaration"@ {
        assert forall|c: int| rows_in_file(#[trigger] go_type_spec(t, file, c), file) by {}
        lemma_rows_in_file_concat(t.children(i), |c: int| go_type_spec(t, file, c), file);
    } else if k == "var_declaration"@ {
        assert forall|c: int| rows_in_file(#[trigger] go_var_spec(t, file, i, c), file) by {}
        lemma_rows_in_file_concat(t.children(i), |c: int| go_var_spec(t, file, i, c), file);
    } else if k == "short_var_declaration"@ {
        assert(rows_in_file(go_short_var(t, file, i), file));
    } else if k == "comment"@ {
        assert(rows_in_file(go_comment(t, file, i), file));
    }
}



/// The branch kinds are exactly the `if`, `for`, `switch`, `select` and `go`
/// statements, range clauses and case clauses.
proof fn lemma_go_branch_kind(k: Seq<char>)
    ensures
        one_of(k, go_branch_kinds()) <==> (k == "if_statement"@ || k == "for_statement"@
            || k == "range_clause"@ || k == "switch_statement"@ || k == "select_statement"@
            || k == "case_clause"@ || k == "go_statement"@),
{
    let ks = go_branch_kinds();
    assert(ks[0]@ == "if_statement"@);
    assert(ks[1]@ == "for_statement"@);
    assert(ks[2]@ == "range_clause"@);
    assert(ks[3]@ == "switch_statement"@);
    assert(ks[4]@ == "select_statement"@);
    assert(ks[5]@ == "case_clause"@);
    assert(ks[6]@ == "go_statement"@);
}

/// The complexity of a named Go function or method is one more than the
/// number of nodes in its subtree that are an `if`, `for`, `switch`,
/// `select` or `go` statement, a range clause or a case clause: each such
/// branch adds one.
pub proof fn lemma_go_complexity(t: &SyntaxTree, file: Seq<char>, i: int)
    requires
        t.wf(),
        0 <= i < t.nodes@.len(),
        t.kind(i) == "function_declaration"@ || t.kind(i) == "method_declaration"@,
        t.field_text(i, "name"@) is Some,
    ensures
        GoAdapter.node_tables(t, file, i).functions.len() == 1,
        GoAdapter.node_tables(t, file, i).functions[0].complexity == 1 + count_nodes(
            i,
            t.end(i),
            |j: int|
                {
                    let k = t.kind(j);
                    k == "if_statement"@ || k == "for_statement"@ || k == "range_clause"@
                        || k == "switch_statement"@ || k == "select_statement"@ || k
                        == "case_clause"@ || k == "go_statement"@
                },
        ),
{
    let p = |j: int| one_of(t.kind(j), go_branch_kinds());
    let q = |j: int|
        {
            let k = t.kind(j);
            k == "if_statement"@ || k == "for_statement"@ || k == "range_clause"@ || k
                == "switch_statement"@ || k == "select_statement"@ || k == "case_clause"@ || k
                == "go_statement"@
        };
    assert forall|j: int| i <= j < t.end(i) implies #[trigger] p(j) == q(j) by {
        lemma_go_branch_kind(t.kind(j));
    }
    crate::syntax::lemma_count_nodes_ext(i, t.end(i), p, q);
}

} // verus!
