//! The TypeScript adapter: functions and methods, calls, imports, classes,
//! variable declarations and comments.

use vstd::prelude::*;
use crate::adapter::LanguageAdapter;
use crate::adapters::{lemma_rows_in_file_concat, rows_in_file};
use crate::adapters::{
    concat_tables, count_children_kinds, count_children_of, enclosing_name,
    find_enclosing_function, lemma_concat_step, or_empty, text_one_of, text_or_empty,
};
use crate::analysis::{join_strings, join_with};
use crate::rows::{
    lemma_append_assoc, lemma_append_none, no_tables, one_call, one_comment, one_function,
    one_import, one_struct, one_variable, tables_append, CallRow, CallRowV, CommentRow,
    CommentRowV, FunctionRow, FunctionRowV, ImportRow, ImportRowV, StructRow, StructRowV,
    TableBatch, Tables, VariableRow, VariableRowV,
};
use crate::syntax::{count_nodes, first_of, lemma_first_of_some, one_of, Grammar, SyntaxTree};
use crate::text::{
    chars_of, contains, owned, rfind, rfind_exec, rfind_from, same_text, starts_with, str_contains,
    str_starts_with, string_of_range, strip_prefix_all, strip_suffix_all, trim, trim_char,
    trim_end_matches, trim_matches, trim_start, trim_start_matches, trimmed, trimmed_start,
};

verus! {

pub struct TypeScriptAdapter;

/// Whether child `c` is the accessibility modifier `word`.
pub open spec fn ts_modifier(t: &SyntaxTree, c: int, word: Seq<char>) -> bool {
    t.kind(c) == "accessibility_modifier"@ && match t.text(c) {
        Some(x) => trim(x) == word,
        None => false,
    }
}

/// Whether one of the children of `i` is the accessibility modifier `word`.
pub open spec fn ts_has_modifier(t: &SyntaxTree, i: int, word: Seq<char>) -> bool {
    first_of(t.children(i), |c: int| ts_modifier(t, c, word)) is Some
}

/// The visibility of a declaration: `private` where marked so or where the
/// name starts with `_`, `internal` where marked `protected`, else `public`.
pub open spec fn ts_visibility(t: &SyntaxTree, i: int, name: Seq<char>) -> Seq<char> {
    if ts_has_modifier(t, i, "private"@) {
        "private"@
    } else if name.len() > 0 && name[0] == '_' {
        "private"@
    } else if ts_has_modifier(t, i, "protected"@) {
        "internal"@
    } else {
        "public"@
    }
}

pub open spec fn ts_param_kinds() -> Seq<&'static str> {
    seq!["required_parameter", "optional_parameter", "rest_parameter"]
}

pub open spec fn ts_branch_kinds() -> Seq<&'static str> {
    seq![
        "if_statement",
        "for_statement",
        "for_in_statement",
        "while_statement",
        "switch_case",
        "catch_clause",
        "conditional_expression",
    ]
}

pub open spec fn ts_member_kinds() -> Seq<&'static str> {
    seq![
        "method_definition",
        "public_field_definition",
        "property_signature",
        "public_method_definition",
        "index_signature",
    ]
}

pub open spec fn ts_function_kinds() -> Seq<&'static str> {
    seq!["function_declaration", "method_definition"]
}

pub open spec fn ts_std_modules() -> Seq<&'static str> {
    seq![
        "fs",
        "path",
        "url",
        "util",
        "os",
        "crypto",
        "events",
        "stream",
        "buffer",
        "assert",
        "http",
        "https",
        "tty",
        "net",
    ]
}

/// Whether node `j` adds a branch: a branching statement, or `&&` or `||`.
pub open spec fn ts_branch(t: &SyntaxTree, j: int) -> bool {
    one_of(t.kind(j), ts_branch_kinds()) || (t.kind(j) == "binary_expression"@ && {
        let op = trim(or_empty(t.field_text(j, "operator"@)));
        op == "&&"@ || op == "||"@
    })
}

/// One plus the branches in the subtree of `i`.
pub open spec fn ts_complexity(t: &SyntaxTree, i: int) -> int {
    1 + count_nodes(i, t.end(i), |j: int| ts_branch(t, j)) as int
}

/// The row of a function or method whose return type stands under the field
/// `ret`.
pub open spec fn ts_callable(t: &SyntaxTree, file: Seq<char>, i: int, ret: Seq<char>) -> Tables {
    match t.field_text(i, "name"@) {
        None => no_tables(),
        Some(name) => one_function(
            FunctionRowV {
                file,
                line: t.line(i),
                name,
                visibility: ts_visibility(t, i, name),
                param_count: match t.field_child(i, "parameters"@) {
                    Some(p) => count_children_of(t, p, ts_param_kinds()) as int,
                    None => 0,
                },
                return_type: trim(strip_prefix_all(trim(or_empty(t.field_text(i, ret))), ":"@)),
                complexity: ts_complexity(t, i),
                has_test: false,
            },
        ),
    }
}

pub open spec fn ts_call(t: &SyntaxTree, file: Seq<char>, i: int) -> Tables {
    match t.field_text(i, "function"@) {
        None => no_tables(),
        Some(callee) => one_call(
            CallRowV {
                file,
                line: t.line(i),
                caller: or_empty(enclosing_name(t, i, ts_function_kinds())),
                callee,
                is_external: contains(callee, "."@),
            },
        ),
    }
}

/// What follows the last ` as ` of an import, without trailing `;`.
pub open spec fn ts_alias(text: Seq<char>) -> Seq<char> {
    match rfind(text, " as "@) {
        Some(pos) => strip_suffix_all(text.subrange(pos + " as "@.len(), text.len() as int), ";"@),
        None => Seq::empty(),
    }
}

pub open spec fn ts_import(t: &SyntaxTree, file: Seq<char>, i: int) -> Tables {
    let text = trim(or_empty(t.text(i)));
    let module = match t.field_text(i, "source"@) {
        Some(s) => trim_char(s, '"'),
        None => strip_prefix_all(text, "import "@),
    };
    one_import(
        ImportRowV {
            file,
            line: t.line(i),
            module,
            alias: ts_alias(text),
            is_std: one_of(module, ts_std_modules()) || starts_with(module, "node:"@),
        },
    )
}

/// The texts of the named nodes among `cs`, in order.
pub open spec fn named_texts(t: &SyntaxTree, cs: Seq<int>) -> Seq<Seq<char>>
    decreases cs.len(),
{
    if cs.len() == 0 {
        Seq::empty()
    } else {
        let prev = named_texts(t, cs.drop_last());
        let c = cs.last();
        if t.nodes@[c].named {
            match t.text(c) {
                Some(x) => prev.push(x),
                None => prev,
            }
        } else {
            prev
        }
    }
}

/// The first named child of `i` of kind `k`.
pub open spec fn first_named_child(t: &SyntaxTree, i: int, k: Seq<char>) -> Option<int> {
    first_of(t.children(i), |c: int| t.nodes@[c].named && t.kind(c) == k)
}

/// The interfaces a class implements, joined with `,`.
pub open spec fn ts_implements(t: &SyntaxTree, i: int) -> Seq<char> {
    match first_named_child(t, i, "class_heritage"@) {
        None => Seq::empty(),
        Some(h) => match first_named_child(t, h, "implements_clause"@) {
            None => Seq::empty(),
            Some(clause) => join_with(named_texts(t, t.children(clause)), ','),
        },
    }
}

pub open spec fn ts_class(t: &SyntaxTree, file: Seq<char>, i: int) -> Tables {
    match t.field_text(i, "name"@) {
        None => no_tables(),
        Some(name) => match t.field_child(i, "body"@) {
            None => no_tables(),
            Some(body) => one_struct(
                StructRowV {
                    file,
                    line: t.line(i),
                    name,
                    field_count: count_children_of(t, body, ts_member_kinds()) as int,
                    visibility: ts_visibility(t, i, name),
                    implements: ts_implements(t, i),
                },
            ),
        },
    }
}

/// Whether the variables of declaration `i` can change: `let`, `var`.
pub open spec fn ts_mutated(t: &SyntaxTree, i: int) -> bool {
    if t.kind(i) == "lexical_declaration"@ {
        !starts_with(trim_start(or_empty(t.text(i))), "const "@)
    } else {
        t.kind(i) == "variable_declaration"@
    }
}

/// The row of child `c` of declaration `i` where it is a declarator.
pub open spec fn ts_declarator(t: &SyntaxTree, file: Seq<char>, i: int, c: int) -> Tables {
    if t.kind(c) != "variable_declarator"@ {
        no_tables()
    } else {
        match t.field_text(c, "name"@) {
            None => no_tables(),
            Some(name) => one_variable(
                VariableRowV {
                    file,
                    line: t.line(c),
                    name,
                    type_hint: or_empty(t.field_text(c, "type"@)),
                    scope: if t.parent_kind(i) == Some("source_file"@) {
                        "module"@
                    } else {
                        "function"@
                    },
                    is_mutated: ts_mutated(t, i),
                },
            ),
        }
    }
}

pub open spec fn ts_variables(t: &SyntaxTree, file: Seq<char>, i: int) -> Tables {
    concat_tables(t.children(i), |c: int| ts_declarator(t, file, i, c))
}

pub open spec fn ts_doc_comment(text: Seq<char>) -> bool {
    starts_with(text, "/**"@) || starts_with(text, "///"@) || starts_with(text, "/*!"@)
}

pub open spec fn ts_comment(t: &SyntaxTree, file: Seq<char>, i: int) -> Tables {
    match t.text(i) {
        None => no_tables(),
        Some(text) => one_comment(
            CommentRowV {
                file,
                line: t.line(i),
                text: trim(text),
                attached_to: Seq::empty(),
                is_doc: ts_doc_comment(trim(text)),
            },
        ),
    }
}

/// The rows of TypeScript node `i`.
pub open spec fn ts_node(t: &SyntaxTree, file: Seq<char>, i: int) -> Tables {
    let k = t.kind(i);
    if k == "function_declaration"@ {
        ts_callable(t, file, i, "return_type"@)
    } else if k == "method_definition"@ {
        ts_callable(t, file, i, "result"@)
    } else if k == "call_expression"@ {
        ts_call(t, file, i)
    } else if k == "import_statement"@ {
        ts_import(t, file, i)
    } else if k == "class_declaration"@ || k == "abstract_class_declaration"@ {
        ts_class(t, file, i)
    } else if k == "lexical_declaration"@ || k == "variable_declaration"@ {
        ts_variables(t, file, i)
    } else if k == "comment"@ {
        ts_comment(t, file, i)
    } else {
        no_tables()
    }
}

impl TypeScriptAdapter {
    /// The visibility of declaration `i` named `name`.
    fn is_public(name: &str, t: &SyntaxTree, i: usize) -> (r: String)
        requires
            t.wf(),
            i < t.nodes@.len(),
        ensures
            r@ == ts_visibility(t, i as int, name@),
    {
        let cs = t.children_of(i);
        let ghost g = t.children(i as int);
        let ghost pp = |c: int| ts_modifier(t, c, "private"@);
        let ghost pq = |c: int| ts_modifier(t, c, "protected"@);
        proof {
            lemma_first_of_some(g, pp);
            lemma_first_of_some(g, pq);
        }
        let mut protected = false;
        let mut m: usize = 0;
        while m < cs.len()
            invariant
                t.wf(),
                g == t.children(i as int),
                pp == (|c: int| ts_modifier(t, c, "private"@)),
                pq == (|c: int| ts_modifier(t, c, "protected"@)),
                cs@.len() == g.len(),
                forall|q: int| 0 <= q < cs@.len() ==> cs@[q] as int == #[trigger] g[q],
                forall|q: int| 0 <= q < cs@.len() ==> i < #[trigger] cs@[q] < t.nodes@.len(),
                m <= cs@.len(),
                forall|q: int| 0 <= q < m ==> !#[trigger] pp(g[q]),
                protected == (exists|q: int| 0 <= q < m && #[trigger] pq(g[q])),
            decreases cs.len() - m,
        {
            let c = cs[m];
            if t.kind_is(c, "accessibility_modifier") {
                match t.text_of(c) {
                    Some(text) => {
                        let word = trimmed(text.as_str());
                        if same_text(word.as_str(), "private") {
                            assert(pp(g[m as int]));
                            proof {
                                lemma_first_of_some(g, pp);
                            }
                            return owned("private");
                        }
                        if same_text(word.as_str(), "protected") {
                            assert(pq(g[m as int]));
                            protected = true;
                        }
                    },
                    None => {},
                }
            }
            assert(!pp(g[m as int]));
            m = m + 1;
        }
        let v = chars_of(name);
        if v.len() > 0 && v[0] == '_' {
            return owned("private");
        }
        if protected {
            owned("internal")
        } else {
            owned("public")
        }
    }

    fn count_params(t: &SyntaxTree, p: usize) -> (r: usize)
        requires
            t.wf(),
            p < t.nodes@.len(),
        ensures
            r == count_children_of(t, p as int, ts_param_kinds()),
    {
        let ks = vec!["required_parameter", "optional_parameter", "rest_parameter"];
        assert(ks@ =~= ts_param_kinds());
        count_children_kinds(t, p, &ks)
    }

    /// One plus the branching statements and `&&`/`||` operators in the
    /// subtree of `i`.
    fn count_complexity(t: &SyntaxTree, i: usize) -> (r: usize)
        requires
            t.wf(),
            i < t.nodes@.len(),
        ensures
            r == ts_complexity(t, i as int),
    {
        let ks = vec![
            "if_statement",
            "for_statement",
            "for_in_statement",
            "while_statement",
            "switch_case",
            "catch_clause",
            "conditional_expression",
        ];
        assert(ks@ =~= ts_branch_kinds());
        let end = t.ends[i];
        let ghost p = |j: int| ts_branch(t, j);
        let mut n: usize = 0;
        let mut j = i;
        while j < end
            invariant
                t.wf(),
                i < t.nodes@.len(),
                ks@ == ts_branch_kinds(),
                end == t.ends@[i as int],
                end <= t.nodes@.len(),
                i <= j <= end,
                p == (|j: int| ts_branch(t, j)),
                n <= j - i,
                n == count_nodes(i as int, j as int, p),
            decreases end - j,
        {
            if t.kind_in(j, &ks) {
                n = n + 1;
            } else if t.kind_is(j, "binary_expression") {
                let op = text_or_empty(t.field_text_of(j, "operator"));
                let op = trimmed(op.as_str());
                if same_text(op.as_str(), "&&") || same_text(op.as_str(), "||") {
                    n = n + 1;
                }
            }
            j = j + 1;
        }
        1 + n
    }

    /// The row of function or method `i`, its return type under `ret`.
    fn map_callable(&self, t: &SyntaxTree, i: usize, ret: &str, rows: &mut TableBatch)
        requires
            t.wf(),
            i < t.nodes@.len(),
        ensures
            final(rows).current_file == old(rows).current_file,
            final(rows).tables() == tables_append(
                old(rows).tables(),
                ts_callable(t, old(rows).current_file@, i as int, ret@),
            ),
    {
        proof {
            lemma_append_none(rows.tables());
        }
        let name = match t.field_text_of(i, "name") {
            Some(name) => name,
            None => {
                return;
            },
        };
        let param_count = match t.child_by_field_name(i, "parameters") {
            Some(p) => Self::count_params(t, p),
            None => 0,
        };
        let written = text_or_empty(t.field_text_of(i, ret));
        let outer = trimmed(written.as_str());
        let no_colon = trim_start_matches(outer.as_str(), ":");
        let return_type = trimmed(no_colon.as_str());
        let row = FunctionRow {
            file: rows.current_file.clone(),
            line: t.line_of(i),
            name: name.clone(),
            visibility: Self::is_public(name.as_str(), t, i),
            param_count,
            return_type,
            complexity: Self::count_complexity(t, i),
            has_test: false,
        };
        rows.push_function(row);
    }

    fn map_function(&self, t: &SyntaxTree, i: usize, rows: &mut TableBatch)
        requires
            t.wf(),
            i < t.nodes@.len(),
        ensures
            final(rows).current_file == old(rows).current_file,
            final(rows).tables() == tables_append(
                old(rows).tables(),
                ts_callable(t, old(rows).current_file@, i as int, "return_type"@),
            ),
    {
        self.map_callable(t, i, "return_type", rows);
    }

    fn map_method(&self, t: &SyntaxTree, i: usize, rows: &mut TableBatch)
        requires
            t.wf(),
            i < t.nodes@.len(),
        ensures
            final(rows).current_file == old(rows).current_file,
            final(rows).tables() == tables_append(
                old(rows).tables(),
                ts_callable(t, old(rows).current_file@, i as int, "result"@),
            ),
    {
        self.map_callable(t, i, "result", rows);
    }

    fn map_call(&self, t: &SyntaxTree, i: usize, rows: &mut TableBatch)
        requires
            t.wf(),
            i < t.nodes@.len(),
        ensures
            final(rows).current_file == old(rows).current_file,
            final(rows).tables() == tables_append(
                old(rows).tables(),
                ts_call(t, old(rows).current_file@, i as int),
            ),
    {
        proof {
            lemma_append_none(rows.tables());
        }
        let callee = match t.field_text_of(i, "function") {
            Some(callee) => callee,
            None => {
                return;
            },
        };
        let fks = vec!["function_declaration", "method_definition"];
        assert(fks@ =~= ts_function_kinds());
        let row = CallRow {
            file: rows.current_file.clone(),
            line: t.line_of(i),
            caller: text_or_empty(find_enclosing_function(t, i, &fks)),
            callee: callee.clone(),
            is_external: str_contains(callee.as_str(), "."),
        };
        rows.push_call(row);
    }

    fn map_import(&self, t: &SyntaxTree, i: usize, rows: &mut TableBatch)
        requires
            t.wf(),
            i < t.nodes@.len(),
        ensures
            final(rows).current_file == old(rows).current_file,
            final(rows).tables() == tables_append(
                old(rows).tables(),
                ts_import(t, old(rows).current_file@, i as int),
            ),
    {
        let whole = text_or_empty(t.text_of(i));
        let text = trimmed(whole.as_str());
        let module = match t.field_text_of(i, "source") {
            Some(s) => trim_matches(s.as_str(), '"'),
            None => trim_start_matches(text.as_str(), "import "),
        };
        let v = chars_of(text.as_str());
        let sep = chars_of(" as ");
        let alias = match rfind_exec(&v, &sep) {
            Some(pos) => {
                proof {
                    crate::adapters::python::lemma_rfind_bounds(v@, sep@, v@.len() - sep@.len());
                    assert(rfind_from(v@, sep@, v@.len() - sep@.len()) == Some(pos as int));
                }
                let vl = v.len();
                let rest = string_of_range(&v, pos + sep.len(), vl);
                trim_end_matches(rest.as_str(), ";")
            },
            None => String::new(),
        };
        let stds = vec![
            "fs",
            "path",
            "url",
            "util",
            "os",
            "crypto",
            "events",
            "stream",
            "buffer",
            "assert",
            "http",
            "https",
            "tty",
            "net",
        ];
        assert(stds@ =~= ts_std_modules());
        let is_std = text_one_of(module.as_str(), &stds) || str_starts_with(module.as_str(), "node:");
        let row = ImportRow {
            file: rows.current_file.clone(),
            line: t.line_of(i),
            module,
            alias,
            is_std,
        };
        rows.push_import(row);
    }

    /// The first named child of `i` of kind `k`.
    fn first_named_kind(t: &SyntaxTree, i: usize, k: &str) -> (r: Option<usize>)
        requires
            t.wf(),
            i < t.nodes@.len(),
        ensures
            match r {
                Some(c) => first_named_child(t, i as int, k@) == Some(c as int) && c < t.nodes@.len(),
                None => first_named_child(t, i as int, k@) is None,
            },
    {
        let cs = t.children_of(i);
        let ghost g = t.children(i as int);
        let ghost p = |c: int| t.nodes@[c].named && t.kind(c) == k@;
        let mut m: usize = 0;
        assert(g.subrange(0, g.len() as int) =~= g);
        while m < cs.len()
            invariant
                t.wf(),
                g == t.children(i as int),
                p == (|c: int| t.nodes@[c].named && t.kind(c) == k@),
                cs@.len() == g.len(),
                forall|q: int| 0 <= q < cs@.len() ==> cs@[q] as int == #[trigger] g[q],
                forall|q: int| 0 <= q < cs@.len() ==> i < #[trigger] cs@[q] < t.nodes@.len(),
                m <= cs@.len(),
                first_of(g.subrange(m as int, g.len() as int), p) == first_of(g, p),
            decreases cs.len() - m,
        {
            let ghost rest = g.subrange(m as int, g.len() as int);
            assert(rest[0] == g[m as int]);
            let c = cs[m];
            if t.nodes[c].named && t.kind_is(c, k) {
                return Some(c);
            }
            assert(rest.drop_first() =~= g.subrange(m + 1, g.len() as int));
            m = m + 1;
        }
        assert(g.subrange(m as int, g.len() as int) =~= Seq::<int>::empty());
        None
    }

    /// The interfaces class `i` implements, joined with `,`.
    fn implements(t: &SyntaxTree, i: usize) -> (r: String)
        requires
            t.wf(),
            i < t.nodes@.len(),
        ensures
            r@ == ts_implements(t, i as int),
    {
        let heritage = match Self::first_named_kind(t, i, "class_heritage") {
            Some(h) => h,
            None => {
                return String::new();
            },
        };
        let clause = match Self::first_named_kind(t, heritage, "implements_clause") {
            Some(c) => c,
            None => {
                return String::new();
            },
        };
        let cs = t.children_of(clause);
        let ghost g = t.children(clause as int);
        let mut names: Vec<String> = Vec::new();
        let mut m: usize = 0;
        assert(g.take(0) =~= Seq::<int>::empty());
        assert(names@.map_values(|s: String| s@) =~= Seq::<Seq<char>>::empty());
        while m < cs.len()
            invariant
                t.wf(),
                g == t.children(clause as int),
                cs@.len() == g.len(),
                forall|q: int| 0 <= q < cs@.len() ==> cs@[q] as int == #[trigger] g[q],
                forall|q: int| 0 <= q < cs@.len() ==> clause < #[trigger] cs@[q] < t.nodes@.len(),
                m <= cs@.len(),
                names@.map_values(|s: String| s@) == named_texts(t, g.take(m as int)),
            decreases cs.len() - m,
        {
            assert(g.take(m + 1).drop_last() =~= g.take(m as int));
            assert(g.take(m + 1).last() == g[m as int]);
            let c = cs[m];
            let ghost before = names@.map_values(|s: String| s@);
            if t.nodes[c].named {
                match t.text_of(c) {
                    Some(x) => {
                        names.push(x.clone());
                        assert(names@.map_values(|s: String| s@) =~= before.push(x@));
                    },
                    None => {},
                }
            }
            m = m + 1;
        }
        assert(g.take(m as int) =~= g);
        join_strings(&names, ',')
    }

    fn map_class(&self, t: &SyntaxTree, i: usize, rows: &mut TableBatch)
        requires
            t.wf(),
            i < t.nodes@.len(),
        ensures
            final(rows).current_file == old(rows).current_file,
            final(rows).tables() == tables_append(
                old(rows).tables(),
                ts_class(t, old(rows).current_file@, i as int),
            ),
    {
        proof {
            lemma_append_none(rows.tables());
        }
        let name = match t.field_text_of(i, "name") {
            Some(name) => name,
            None => {
                return;
            },
        };
        let body = match t.child_by_field_name(i, "body") {
            Some(body) => body,
            None => {
                return;
            },
        };
        let ks = vec![
            "method_definition",
            "public_field_definition",
            "property_signature",
            "public_method_definition",
            "index_signature",
        ];
        assert(ks@ =~= ts_member_kinds());
        let row = StructRow {
            file: rows.current_file.clone(),
            line: t.line_of(i),
            name: name.clone(),
            field_count: count_children_kinds(t, body, &ks),
            visibility: Self::is_public(name.as_str(), t, i),
            implements: Self::implements(t, i),
        };
        rows.push_struct(row);
    }

    /// The row of child `c` of declaration `i` where it is a declarator.
    fn map_declarator(&self, t: &SyntaxTree, i: usize, c: usize, rows: &mut TableBatch)
        requires
            t.wf(),
            i < t.nodes@.len(),
            c < t.nodes@.len(),
        ensures
            final(rows).current_file == old(rows).current_file,
            final(rows).tables() == tables_append(
                old(rows).tables(),
                ts_declarator(t, old(rows).current_file@, i as int, c as int),
            ),
    {
        proof {
            lemma_append_none(rows.tables());
        }
        if !t.kind_is(c, "variable_declarator") {
            return;
        }
        let name = match t.field_text_of(c, "name") {
            Some(name) => name,
            None => {
                return;
            },
        };
        let scope = if t.parent_kind_is(i, "source_file") {
            owned("module")
        } else {
            owned("function")
        };
        let is_mutated = if t.kind_is(i, "lexical_declaration") {
            let whole = text_or_empty(t.text_of(i));
            let start = trimmed_start(whole.as_str());
            !str_starts_with(start.as_str(), "const ")
        } else {
            t.kind_is(i, "variable_declaration")
        };
        let row = VariableRow {
            file: rows.current_file.clone(),
            line: t.line_of(c),
            name: name.clone(),
            type_hint: text_or_empty(t.field_text_of(c, "type")),
            scope,
            is_mutated,
        };
        rows.push_variable(row);
    }

    fn map_variable(&self, t: &SyntaxTree, i: usize, rows: &mut TableBatch)
        requires
            t.wf(),
            i < t.nodes@.len(),
        ensures
            final(rows).current_file == old(rows).current_file,
            final(rows).tables() == tables_append(
                old(rows).tables(),
                ts_variables(t, old(rows).current_file@, i as int),
            ),
    {
        let ghost file = rows.current_file@;
        let ghost f = |c: int| ts_declarator(t, file, i as int, c);
        let ghost g = t.children(i as int);
        let ghost start = rows.tables();
        let cs = t.children_of(i);
        let mut k: usize = 0;
        assert(g.take(0) =~= Seq::<int>::empty());
        proof {
            lemma_append_none(start);
        }
        while k < cs.len()
            invariant
                t.wf(),
                i < t.nodes@.len(),
                file == rows.current_file@,
                f == (|c: int| ts_declarator(t, file, i as int, c)),
                g == t.children(i as int),
                rows.current_file == old(rows).current_file,
                start == old(rows).tables(),
                cs@.len() == g.len(),
                forall|x: int| 0 <= x < cs@.len() ==> cs@[x] as int == #[trigger] g[x],
                forall|x: int| 0 <= x < cs@.len() ==> i < #[trigger] cs@[x] < t.nodes@.len(),
                k <= cs@.len(),
                rows.tables() == tables_append(start, concat_tables(g.take(k as int), f)),
            decreases cs.len() - k,
        {
            self.map_declarator(t, i, cs[k], rows);
            proof {
                lemma_concat_step(g, k as int, f);
                lemma_append_assoc(start, concat_tables(g.take(k as int), f), f(g[k as int]));
            }
            k = k + 1;
        }
        assert(g.take(k as int) =~= g);
    }

    fn map_comment(&self, t: &SyntaxTree, i: usize, rows: &mut TableBatch)
        requires
            t.wf(),
            i < t.nodes@.len(),
        ensures
            final(rows).current_file == old(rows).current_file,
            final(rows).tables() == tables_append(
                old(rows).tables(),
                ts_comment(t, old(rows).current_file@, i as int),
            ),
    {
        proof {
            lemma_append_none(rows.tables());
        }
        let text = match t.text_of(i) {
            Some(text) => text,
            None => {
                return;
            },
        };
        let text = trimmed(text.as_str());
        let is_doc = str_starts_with(text.as_str(), "/**") || str_starts_with(text.as_str(), "///")
            || str_starts_with(text.as_str(), "/*!");
        let row = CommentRow {
            file: rows.current_file.clone(),
            line: t.line_of(i),
            text,
            attached_to: String::new(),
            is_doc,
        };
        rows.push_comment(row);
    }
}

impl LanguageAdapter for TypeScriptAdapter {
    open spec fn name_spec(&self) -> Seq<char> {
        "typescript"@
    }

    open spec fn extensions_spec(&self) -> Seq<Seq<char>> {
        seq![".ts"@, ".tsx"@]
    }

    open spec fn node_tables(&self, t: &SyntaxTree, file: Seq<char>, i: int) -> Tables {
        ts_node(t, file, i)
    }

    fn language_name(&self) -> (r: &'static str) {
        "typescript"
    }

    fn extensions(&self) -> (r: Vec<&'static str>) {
        let r = vec![".ts", ".tsx"];
        assert(r@.map_values(|e: &str| e@) =~= seq![".ts"@, ".tsx"@]);
        r
    }

    open spec fn grammar_spec(&self) -> Grammar {
        Grammar::Tsx
    }

    fn grammar(&self) -> (r: Grammar) {
        Grammar::Tsx
    }

    fn map_node(&self, t: &SyntaxTree, i: usize, rows: &mut TableBatch) {
        proof {
            lemma_append_none(rows.tables());
        }
        if t.kind_is(i, "function_declaration") {
            self.map_function(t, i, rows);
        } else if t.kind_is(i, "method_definition") {
            self.map_method(t, i, rows);
        } else if t.kind_is(i, "call_expression") {
            self.map_call(t, i, rows);
        } else if t.kind_is(i, "import_statement") {
            self.map_import(t, i, rows);
        } else if t.kind_is(i, "class_declaration") || t.kind_is(i, "abstract_class_declaration") {
            self.map_class(t, i, rows);
        } else if t.kind_is(i, "lexical_declaration") || t.kind_is(i, "variable_declaration") {
            self.map_variable(t, i, rows);
        } else if t.kind_is(i, "comment") {
            self.map_comment(t, i, rows);
        }
    }
}

pub proof fn lemma_ts_rows_in_file(t: &SyntaxTree, file: Seq<char>, i: int)
    ensures
        rows_in_file(ts_node(t, file, i), file),
{
    let k = t.kind(i);
    if k == "function_declaration"@ {
        assert(rows_in_file(ts_callable(t, file, i, "return_type"@), file));
    } else if k == "method_definition"@ {
        assert(rows_in_file(ts_callable(t, file, i, "result"@), file));
    } else if k == "call_expression"@ {
        assert(rows_in_file(ts_call(t, file, i), file));
    } else if k == "import_statement"@ {
        assert(rows_in_file(ts_import(t, file, i), file));
    } else if k == "class_declaration"@ || k == "abstract_class_declaration"@ {
        assert(rows_in_file(ts_class(t, file, i), file));
    } else if k == "lexical_declaration"@ || k == "variable_declaration"@ {
        assert forall|c: int| rows_in_file(#[trigger] ts_declarator(t, file, i, c), file) by {}
        lemma_rows_in_file_concat(t.children(i), |c: int| ts_declarator(t, file, i, c), file);
    } else if k == "comment"@ {
        assert(rows_in_file(ts_comment(t, file, i), file));
    }
}



proof fn lemma_ts_std_module(m: Seq<char>)
    ensures
        one_of(m, ts_std_modules()) <==> (m == "fs"@ || m == "path"@ || m == "url"@ || m == "util"@ || m == "os"@ || m == "crypto"@ || m == "events"@ || m == "stream"@ || m == "buffer"@ || m == "assert"@ || m == "http"@ || m == "https"@ || m == "tty"@ || m == "net"@),
{
    let ks = ts_std_modules();
    assert(ks[0]@ == "fs"@);
    assert(ks[1]@ == "path"@);
    assert(ks[2]@ == "url"@);
    assert(ks[3]@ == "util"@);
    assert(ks[4]@ == "os"@);
    assert(ks[5]@ == "crypto"@);
    assert(ks[6]@ == "events"@);
    assert(ks[7]@ == "stream"@);
    assert(ks[8]@ == "buffer"@);
    assert(ks[9]@ == "assert"@);
    assert(ks[10]@ == "http"@);
    assert(ks[11]@ == "https"@);
    assert(ks[12]@ == "tty"@);
    assert(ks[13]@ == "net"@);
}

/// An import row from a TypeScript import marks the standard library exactly
/// when its module is one of Node's `fs`, `path`, `url`, `util`, `os`,
/// `crypto`, `events`, `stream`, `buffer`, `assert`, `http`, `https`, `tty`,
/// `net`, or starts with `node:`.
pub proof fn lemma_ts_import_std(t: &SyntaxTree, file: Seq<char>, i: int)
    requires
        t.kind(i) == "import_statement"@,
    ensures
        TypeScriptAdapter.node_tables(t, file, i).imports.len() == 1,
        ({
            let m = TypeScriptAdapter.node_tables(t, file, i).imports[0].module;
            TypeScriptAdapter.node_tables(t, file, i).imports[0].is_std <==> (m == "fs"@ || m == "path"@ || m == "url"@ || m == "util"@ || m == "os"@ || m == "crypto"@ || m == "events"@ || m == "stream"@ || m == "buffer"@ || m == "assert"@ || m == "http"@ || m == "https"@ || m == "tty"@ || m == "net"@ || (m.len()
                >= 5 && m.subrange(0, 5) == "node:"@))
        }),
{
    reveal_strlit("function_declaration");
    reveal_strlit("method_definition");
    reveal_strlit("call_expression");
    reveal_strlit("import_statement");
    reveal_strlit("node:");
    assert("function_declaration"@.len() == 20);
    assert("method_definition"@.len() == 17);
    assert("call_expression"@.len() == 15);
    assert("import_statement"@.len() == 16);
    assert("node:"@.len() == 5);
    assert(TypeScriptAdapter.node_tables(t, file, i) == ts_import(t, file, i));
    let m = TypeScriptAdapter.node_tables(t, file, i).imports[0].module;
    lemma_ts_std_module(m);
}

} // verus!
