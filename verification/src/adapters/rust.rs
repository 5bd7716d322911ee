//! The Rust adapter: functions, calls, `use` declarations, structs,
//! constants and statics, `let` bindings and comments.

use vstd::prelude::*;
use crate::adapter::LanguageAdapter;
use crate::adapters::rows_in_file;
use crate::adapters::{
    count_children_kinds, count_children_of, count_subtree_kinds, count_subtree_of, enclosing_name,
    find_enclosing_function, first_child_kind, first_child_of, or_empty, text_or_empty, visibility,
    visibility_of,
};
use crate::rows::{
    lemma_append_none, no_tables, one_call, one_comment, one_function, one_import, one_struct,
    one_variable, tables_append, CallRow, CallRowV, CommentRow, CommentRowV, FunctionRow,
    FunctionRowV, ImportRow, ImportRowV, StructRow, StructRowV, TableBatch, Tables, VariableRow,
    VariableRowV,
};
use crate::syntax::{count_nodes, first_of, one_of, Grammar, SyntaxTree};
use crate::text::{
    before_sep, contains, first_part, nth_part_one, owned, second_part, starts_with, str_contains,
    str_starts_with, strip_prefix_all, strip_suffix_all, trim, trim_end_matches,
    trim_start_matches, trimmed,
};

verus! {

pub struct RustAdapter;

/// Whether a child of an item is its `pub` modifier.
pub open spec fn is_pub_modifier(t: &SyntaxTree, c: int) -> bool {
    t.kind(c) == "visibility_modifier"@ && match t.text(c) {
        Some(text) => trim(text) == "pub"@,
        None => false,
    }
}

/// Whether an item is public: one of its children is exactly `pub`.
pub open spec fn rust_public(t: &SyntaxTree, i: int) -> bool {
    first_of(t.children(i), |c: int| is_pub_modifier(t, c)) is Some
}

pub open spec fn rust_branch_kinds() -> Seq<&'static str> {
    seq![
        "if_expression",
        "for_expression",
        "while_expression",
        "loop_expression",
        "match_expression",
        "match_arm",
    ]
}

pub open spec fn rust_param_kinds() -> Seq<&'static str> {
    seq!["parameter"]
}

pub open spec fn rust_field_kinds() -> Seq<&'static str> {
    seq!["field_declaration"]
}

pub open spec fn rust_function_kinds() -> Seq<&'static str> {
    seq!["function_item"]
}

/// The return type as written after `->`.
pub open spec fn rust_return_type(text: Seq<char>) -> Seq<char> {
    trim(strip_prefix_all(trim(text), "->"@))
}

pub open spec fn rust_function(t: &SyntaxTree, file: Seq<char>, i: int) -> Tables {
    match t.field_text(i, "name"@) {
        None => no_tables(),
        Some(name) => one_function(
            FunctionRowV {
                file,
                line: t.line(i),
                name,
                visibility: visibility(rust_public(t, i)),
                param_count: match t.field_child(i, "parameters"@) {
                    Some(p) => count_children_of(t, p, rust_param_kinds()) as int,
                    None => 0,
                },
                return_type: rust_return_type(or_empty(t.field_text(i, "return_type"@))),
                complexity: 1 + count_subtree_of(t, i, rust_branch_kinds()) as int,
                has_test: false,
            },
        ),
    }
}

pub open spec fn rust_call(t: &SyntaxTree, file: Seq<char>, i: int) -> Tables {
    match t.field_text(i, "function"@) {
        None => no_tables(),
        Some(callee) => one_call(
            CallRowV {
                file,
                line: t.line(i),
                caller: or_empty(enclosing_name(t, i, rust_function_kinds())),
                callee,
                is_external: contains(callee, "::"@) || contains(callee, "."@),
            },
        ),
    }
}

/// What a `use` declaration names: its text without `use`, the `;` and the
/// surrounding white space.
pub open spec fn use_body(text: Seq<char>) -> Seq<char> {
    strip_suffix_all(trim(strip_prefix_all(text, "use"@)), ";"@)
}

/// Whether a module path starts in `std`, `core` or `alloc`.
pub open spec fn rust_std_root(module: Seq<char>) -> bool {
    let root = before_sep(module, "::"@);
    root == "std"@ || root == "core"@ || root == "alloc"@
}

pub open spec fn rust_import(t: &SyntaxTree, file: Seq<char>, i: int) -> Tables {
    match t.text(i) {
        None => no_tables(),
        Some(text) => {
            let body = use_body(text);
            if body.len() == 0 {
                no_tables()
            } else {
                let module = trim(before_sep(body, " as "@));
                one_import(
                    ImportRowV {
                        file,
                        line: t.line(i),
                        module,
                        alias: match second_part(body, " as "@) {
                            Some(a) => trim(a),
                            None => Seq::empty(),
                        },
                        is_std: rust_std_root(module),
                    },
                )
            }
        },
    }
}

pub open spec fn rust_struct(t: &SyntaxTree, file: Seq<char>, i: int) -> Tables {
    match t.field_text(i, "name"@) {
        None => no_tables(),
        Some(name) => one_struct(
            StructRowV {
                file,
                line: t.line(i),
                name,
                field_count: match t.field_child(i, "body"@) {
                    Some(b) => count_children_of(t, b, rust_field_kinds()) as int,
                    None => 0,
                },
                visibility: visibility(rust_public(t, i)),
                implements: Seq::empty(),
            },
        ),
    }
}

pub open spec fn rust_const_or_static(t: &SyntaxTree, file: Seq<char>, i: int) -> Tables {
    match t.field_text(i, "name"@) {
        None => no_tables(),
        Some(name) => one_variable(
            VariableRowV {
                file,
                line: t.line(i),
                name,
                type_hint: or_empty(t.field_text(i, "type"@)),
                scope: "module"@,
                is_mutated: t.kind(i) == "static_item"@,
            },
        ),
    }
}

pub open spec fn rust_let(t: &SyntaxTree, file: Seq<char>, i: int) -> Tables {
    match t.field_text(i, "pattern"@) {
        None => no_tables(),
        Some(name) => one_variable(
            VariableRowV {
                file,
                line: t.line(i),
                name: trim(name),
                type_hint: or_empty(t.field_text(i, "type"@)),
                scope: "function"@,
                is_mutated: first_child_of(t, i, "mutable_specifier"@) is Some,
            },
        ),
    }
}

/// Whether a trimmed Rust comment is documentation.
pub open spec fn rust_doc_comment(text: Seq<char>) -> bool {
    starts_with(text, "///"@) || starts_with(text, "//!"@) || starts_with(text, "/**"@)
}

pub open spec fn rust_comment(t: &SyntaxTree, file: Seq<char>, i: int) -> Tables {
    match t.text(i) {
        None => no_tables(),
        Some(text) => one_comment(
            CommentRowV {
                file,
                line: t.line(i),
                text: trim(text),
                attached_to: Seq::empty(),
                is_doc: rust_doc_comment(trim(text)),
            },
        ),
    }
}

/// The rows of Rust node `i`.
pub open spec fn rust_node(t: &SyntaxTree, file: Seq<char>, i: int) -> Tables {
    let k = t.kind(i);
    if k == "function_item"@ {
        rust_function(t, file, i)
    } else if k == "call_expression"@ {
        rust_call(t, file, i)
    } else if k == "use_declaration"@ {
        rust_import(t, file, i)
    } else if k == "struct_item"@ {
        rust_struct(t, file, i)
    } else if k == "const_item"@ || k == "static_item"@ {
        rust_const_or_static(t, file, i)
    } else if k == "let_declaration"@ {
        rust_let(t, file, i)
    } else if k == "line_comment"@ || k == "block_comment"@ {
        rust_comment(t, file, i)
    } else {
        no_tables()
    }
}

impl RustAdapter {
    /// Whether one of the children of `i` is the modifier `pub`.
    fn is_public(t: &SyntaxTree, i: usize) -> (r: bool)
        requires
            t.wf(),
            i < t.nodes@.len(),
        ensures
            r == rust_public(t, i as int),
    {
        let cs = t.children_of(i);
        let ghost g = t.children(i as int);
        let ghost p = |c: int| is_pub_modifier(t, c);
        let mut m: usize = 0;
        assert(g.subrange(0, g.len() as int) =~= g);
        while m < cs.len()
            invariant
                t.wf(),
                g == t.children(i as int),
                p == (|c: int| is_pub_modifier(t, c)),
                cs@.len() == g.len(),
                forall|q: int| 0 <= q < cs@.len() ==> cs@[q] as int == #[trigger] g[q],
                forall|q: int| 0 <= q < cs@.len() ==> i < #[trigger] cs@[q] < t.nodes@.len(),
                m <= cs@.len(),
                first_of(g.subrange(m as int, g.len() as int), p) == first_of(g, p),
            decreases cs.len() - m,
        {
            let ghost rest = g.subrange(m as int, g.len() as int);
            assert(rest[0] == g[m as int]);
            let c = cs[m];
            if t.kind_is(c, "visibility_modifier") {
                match t.text_of(c) {
                    Some(text) => {
                        let x = trimmed(text.as_str());
                        if crate::text::same_text(x.as_str(), "pub") {
                            return true;
                        }
                    },
                    None => {},
                }
            }
            assert(rest.drop_first() =~= g.subrange(m + 1, g.len() as int));
            m = m + 1;
        }
        assert(g.subrange(m as int, g.len() as int) =~= Seq::<int>::empty());
        false
    }

    fn count_params(t: &SyntaxTree, p: usize) -> (r: usize)
        requires
            t.wf(),
            p < t.nodes@.len(),
        ensures
            r == count_children_of(t, p as int, rust_param_kinds()),
    {
        let ks = vec!["parameter"];
        assert(ks@ =~= rust_param_kinds());
        count_children_kinds(t, p, &ks)
    }

    fn count_complexity(t: &SyntaxTree, i: usize) -> (r: usize)
        requires
            t.wf(),
            i < t.nodes@.len(),
        ensures
            r == 1 + count_subtree_of(t, i as int, rust_branch_kinds()),
    {
        let ks = vec![
            "if_expression",
            "for_expression",
            "while_expression",
            "loop_expression",
            "match_expression",
            "match_arm",
        ];
        assert(ks@ =~= rust_branch_kinds());
        1 + count_subtree_kinds(t, i, &ks)
    }

    fn map_function(&self, t: &SyntaxTree, i: usize, rows: &mut TableBatch)
        requires
            t.wf(),
            i < t.nodes@.len(),
        ensures
            final(rows).current_file == old(rows).current_file,
            final(rows).tables() == tables_append(
                old(rows).tables(),
                rust_function(t, old(rows).current_file@, i as int),
            ),
    {
        proof {
            lemma_append_none(rows.tables());
        }
        let name = match t.field_text_of(i, "name") {
            Some(name) => name,
            None => {
                return;
            },
        };
        let param_count = match t.child_by_field_name(i, "parameters") {
            Some(p) => Self::count_params(t, p),
            None => 0,
        };
        let written = text_or_empty(t.field_text_of(i, "return_type"));
        let outer = trimmed(written.as_str());
        let no_arrow = trim_start_matches(outer.as_str(), "->");
        let return_type = trimmed(no_arrow.as_str());
        let row = FunctionRow {
            file: rows.current_file.clone(),
            line: t.line_of(i),
            name: name.clone(),
            visibility: visibility_of(Self::is_public(t, i)),
            param_count,
            return_type,
            complexity: Self::count_complexity(t, i),
            has_test: false,
        };
        rows.push_function(row);
    }

    fn map_call(&self, t: &SyntaxTree, i: usize, rows: &mut TableBatch)
        requires
            t.wf(),
            i < t.nodes@.len(),
        ensures
            final(rows).current_file == old(rows).current_file,
            final(rows).tables() == tables_append(
                old(rows).tables(),
                rust_call(t, old(rows).current_file@, i as int),
            ),
    {
        proof {
            lemma_append_none(rows.tables());
        }
        let callee = match t.field_text_of(i, "function") {
            Some(callee) => callee,
            None => {
                return;
            },
        };
        let fks = vec!["function_item"];
        assert(fks@ =~= rust_function_kinds());
        let caller = text_or_empty(find_enclosing_function(t, i, &fks));
        let is_external = str_contains(callee.as_str(), "::") || str_contains(callee.as_str(), ".");
        let row = CallRow {
            file: rows.current_file.clone(),
            line: t.line_of(i),
            caller,
            callee: callee.clone(),
            is_external,
        };
        rows.push_call(row);
    }

    fn map_import(&self, t: &SyntaxTree, i: usize, rows: &mut TableBatch)
        requires
            t.wf(),
            i < t.nodes@.len(),
        ensures
            final(rows).current_file == old(rows).current_file,
            final(rows).tables() == tables_append(
                old(rows).tables(),
                rust_import(t, old(rows).current_file@, i as int),
            ),
    {
        proof {
            lemma_append_none(rows.tables());
        }
        let text = match t.text_of(i) {
            Some(text) => text,
            None => {
                return;
            },
        };
        let no_use = trim_start_matches(text.as_str(), "use");
        let inner = trimmed(no_use.as_str());
        let body = trim_end_matches(inner.as_str(), ";");
        if body.as_str().is_empty() {
            return;
        }
        let alias = match nth_part_one(body.as_str(), " as ") {
            Some(a) => trimmed(a.as_str()),
            None => String::new(),
        };
        let head = first_part(body.as_str(), " as ");
        let module = trimmed(head.as_str());
        let root = first_part(module.as_str(), "::");
        let is_std = crate::text::same_text(root.as_str(), "std") || crate::text::same_text(
            root.as_str(),
            "core",
        ) || crate::text::same_text(root.as_str(), "alloc");
        let row = ImportRow {
            file: rows.current_file.clone(),
            line: t.line_of(i),
            module,
            alias,
            is_std,
        };
        rows.push_import(row);
    }

    fn map_struct(&self, t: &SyntaxTree, i: usize, rows: &mut TableBatch)
        requires
            t.wf(),
            i < t.nodes@.len(),
        ensures
            final(rows).current_file == old(rows).current_file,
            final(rows).tables() == tables_append(
                old(rows).tables(),
                rust_struct(t, old(rows).current_file@, i as int),
            ),
    {
        proof {
            lemma_append_none(rows.tables());
        }
        let name = match t.field_text_of(i, "name") {
            Some(name) => name,
            None => {
                return;
            },
        };
        let field_count = match t.child_by_field_name(i, "body") {
            Some(b) => {
                let ks = vec!["field_declaration"];
                assert(ks@ =~= rust_field_kinds());
                count_children_kinds(t, b, &ks)
            },
            None => 0,
        };
        let row = StructRow {
            file: rows.current_file.clone(),
            line: t.line_of(i),
            name: name.clone(),
            field_count,
            visibility: visibility_of(Self::is_public(t, i)),
            implements: String::new(),
        };
        rows.push_struct(row);
    }

    fn map_const_or_static(&self, t: &SyntaxTree, i: usize, rows: &mut TableBatch)
        requires
            t.wf(),
            i < t.nodes@.len(),
        ensures
            final(rows).current_file == old(rows).current_file,
            final(rows).tables() == tables_append(
                old(rows).tables(),
                rust_const_or_static(t, old(rows).current_file@, i as int),
            ),
    {
        proof {
            lemma_append_none(rows.tables());
        }
        let name = match t.field_text_of(i, "name") {
            Some(name) => name,
            None => {
                return;
            },
        };
        let row = VariableRow {
            file: rows.current_file.clone(),
            line: t.line_of(i),
            name: name.clone(),
            type_hint: text_or_empty(t.field_text_of(i, "type")),
            scope: owned("module"),
            is_mutated: t.kind_is(i, "static_item"),
        };
        rows.push_variable(row);
    }

    fn map_let(&self, t: &SyntaxTree, i: usize, rows: &mut TableBatch)
        requires
            t.wf(),
            i < t.nodes@.len(),
        ensures
            final(rows).current_file == old(rows).current_file,
            final(rows).tables() == tables_append(
                old(rows).tables(),
                rust_let(t, old(rows).current_file@, i as int),
            ),
    {
        proof {
            lemma_append_none(rows.tables());
        }
        let name = match t.field_text_of(i, "pattern") {
            Some(name) => name,
            None => {
                return;
            },
        };
        let is_mutated = match first_child_kind(t, i, "mutable_specifier") {
            Some(_) => true,
            None => false,
        };
        let row = VariableRow {
            file: rows.current_file.clone(),
            line: t.line_of(i),
            name: trimmed(name.as_str()),
            type_hint: text_or_empty(t.field_text_of(i, "type")),
            scope: owned("function"),
            is_mutated,
        };
        rows.push_variable(row);
    }

    fn map_comment(&self, t: &SyntaxTree, i: usize, rows: &mut TableBatch)
        requires
            t.wf(),
            i < t.nodes@.len(),
        ensures
            final(rows).current_file == old(rows).current_file,
            final(rows).tables() == tables_append(
                old(rows).tables(),
                rust_comment(t, old(rows).current_file@, i as int),
            ),
    {
        proof {
            lemma_append_none(rows.tables());
        }
        let text = match t.text_of(i) {
            Some(text) => text,
            None => {
                return;
            },
        };
        let text = trimmed(text.as_str());
        let is_doc = str_starts_with(text.as_str(), "///") || str_starts_with(text.as_str(), "//!")
            || str_starts_with(text.as_str(), "/**");
        let row = CommentRow {
            file: rows.current_file.clone(),
            line: t.line_of(i),
            text,
            attached_to: String::new(),
            is_doc,
        };
        rows.push_comment(row);
    }
}

impl LanguageAdapter for RustAdapter {
    open spec fn name_spec(&self) -> Seq<char> {
        "rust"@
    }

    open spec fn extensions_spec(&self) -> Seq<Seq<char>> {
        seq![".rs"@]
    }

    open spec fn node_tables(&self, t: &SyntaxTree, file: Seq<char>, i: int) -> Tables {
        rust_node(t, file, i)
    }

    fn language_name(&self) -> (r: &'static str) {
        "rust"
    }

    fn extensions(&self) -> (r: Vec<&'static str>) {
        let r = vec![".rs"];
        assert(r@.map_values(|e: &str| e@) =~= seq![".rs"@]);
        r
    }

    open spec fn grammar_spec(&self) -> Grammar {
        Grammar::Rust
    }

    fn grammar(&self) -> (r: Grammar) {
        Grammar::Rust
    }

    fn map_node(&self, t: &SyntaxTree, i: usize, rows: &mut TableBatch) {
        proof {
            lemma_append_none(rows.tables());
        }
        if t.kind_is(i, "function_item") {
            self.map_function(t, i, rows);
        } else if t.kind_is(i, "call_expression") {
            self.map_call(t, i, rows);
        } else if t.kind_is(i, "use_declaration") {
            self.map_import(t, i, rows);
        } else if t.kind_is(i, "struct_item") {
            self.map_struct(t, i, rows);
        } else if t.kind_is(i, "const_item") || t.kind_is(i, "static_item") {
            self.map_const_or_static(t, i, rows);
        } else if t.kind_is(i, "let_declaration") {
            self.map_let(t, i, rows);
        } else if t.kind_is(i, "line_comment") || t.kind_is(i, "block_comment") {
            self.map_comment(t, i, rows);
        }
    }
}

pub proof fn lemma_rust_rows_in_file(t: &SyntaxTree, file: Seq<char>, i: int)
    ensures
        rows_in_file(rust_node(t, file, i), file),
{
    let k = t.kind(i);
    if k == "function_item"@ {
        assert(rows_in_file(rust_function(t, file, i), file));
    } else if k == "call_expression"@ {
        assert(rows_in_file(rust_call(t, file, i), file));
    } else if k == "use_declaration"@ {
        assert(rows_in_file(rust_import(t, file, i), file));
    } else if k == "struct_item"@ {
        assert(rows_in_file(rust_struct(t, file, i), file));
    } else if k == "const_item"@ || k == "static_item"@ {
        assert(rows_in_file(rust_const_or_static(t, file, i), file));
    } else if k == "let_declaration"@ {
        assert(rows_in_file(rust_let(t, file, i), file));
    } else if k == "line_comment"@ || k == "block_comment"@ {
        assert(rows_in_file(rust_comment(t, file, i), file));
    }
}



/// The branch kinds are exactly the `if`, `for`, `while`, `loop` and `match`
/// expressions and the match arms.
proof fn lemma_rust_branch_kind(k: Seq<char>)
    ensures
        one_of(k, rust_branch_kinds()) <==> (k == "if_expression"@ || k == "for_expression"@
            || k == "while_expression"@ || k == "loop_expression"@ || k == "match_expression"@
            || k == "match_arm"@),
{
    let ks = rust_branch_kinds();
    assert(ks[0]@ == "if_expression"@);
    assert(ks[1]@ == "for_expression"@);
    assert(ks[2]@ == "while_expression"@);
    assert(ks[3]@ == "loop_expression"@);
    assert(ks[4]@ == "match_expression"@);
    assert(ks[5]@ == "match_arm"@);
}

/// The complexity of a named Rust function is one more than the number of
/// nodes in its subtree that are an `if`, `for`, `while`, `loop` or `match`
/// expression or a match arm: each such branch adds one.
pub proof fn lemma_rust_complexity(t: &SyntaxTree, file: Seq<char>, i: int)
    requires
        t.wf(),
        0 <= i < t.nodes@.len(),
        t.kind(i) == "function_item"@,
        t.field_text(i, "name"@) is Some,
    ensures
        RustAdapter.node_tables(t, file, i).functions.len() == 1,
        RustAdapter.node_tables(t, file, i).functions[0].complexity == 1 + count_nodes(
            i,
            t.end(i),
            |j: int|
                {
                    let k = t.kind(j);
                    k == "if_expression"@ || k == "for_expression"@ || k == "while_expression"@
                        || k == "loop_expression"@ || k == "match_expression"@ || k == "match_arm"@
                },
        ),
{
    let p = |j: int| one_of(t.kind(j), rust_branch_kinds());
    let q = |j: int|
        {
            let k = t.kind(j);
            k == "if_expression"@ || k == "for_expression"@ || k == "while_expression"@
                || k == "loop_expression"@ || k == "match_expression"@ || k == "match_arm"@
        };
    assert forall|j: int| i <= j < t.end(i) implies #[trigger] p(j) == q(j) by {
        lemma_rust_branch_kind(t.kind(j));
    }
    crate::syntax::lemma_count_nodes_ext(i, t.end(i), p, q);
}

} // verus!
