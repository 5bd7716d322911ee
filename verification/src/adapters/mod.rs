//! The language adapters, what they share, and the registry that picks one
//! by file name.

pub mod go;
pub mod engine_go;
pub mod rust;
pub mod python;
pub mod typescript;
pub mod resolve;

use vstd::prelude::*;
use crate::adapter::LanguageAdapter;
use crate::adapters::go::GoAdapter;
use crate::adapters::python::PythonAdapter;
use crate::adapters::rust::RustAdapter;
use crate::adapters::typescript::TypeScriptAdapter;
use crate::rows::{no_tables, tables_append, TableBatch, Tables};
use crate::syntax::{count_nodes, count_of, first_of, one_of, Grammar, SyntaxTree};
use crate::text::{join_texts, last_segment, name_extension, owned, plain_name};

verus! {

/// The view of an optional string.
pub open spec fn opt_view(o: Option<&String>) -> Option<Seq<char>> {
    match o {
        Some(s) => Some(s@),
        None => None,
    }
}

/// The text, or empty where there is none.
pub open spec fn or_empty(o: Option<Seq<char>>) -> Seq<char> {
    match o {
        Some(s) => s,
        None => Seq::empty(),
    }
}

/// A copy of the text, or an empty string where there is none.
pub fn text_or_empty(o: Option<&String>) -> (r: String)
    ensures
        r@ == or_empty(opt_view(o)),
{
    match o {
        Some(s) => s.clone(),
        None => String::new(),
    }
}

/// The visibility column: `public` or `private`.
pub open spec fn visibility(public: bool) -> Seq<char> {
    if public {
        "public"@
    } else {
        "private"@
    }
}

pub fn visibility_of(public: bool) -> (r: String)
    ensures
        r@ == visibility(public),
{
    if public {
        owned("public")
    } else {
        owned("private")
    }
}

/// Walking up from node `c` (itself included): the name of the first node of
/// one of the kinds `fks`; none where a `source_file` or the root comes first.
pub open spec fn enclosing_from(t: &SyntaxTree, c: int, fks: Seq<&str>) -> Option<Seq<char>>
    decreases c,
{
    if !(t.wf() && 0 <= c < t.size()) {
        None
    } else if one_of(t.kind(c), fks) {
        t.field_text(c, "name"@)
    } else if t.kind(c) == "source_file"@ {
        None
    } else {
        match t.nodes@[c].parent {
            Some(p) => if 0 < c {
                enclosing_from(t, p as int, fks)
            } else {
                None
            },
            None => None,
        }
    }
}

/// The name of the function around node `i`: its nearest ancestor of one of
/// the kinds `fks`, searched up to the first `source_file`.
pub open spec fn enclosing_name(t: &SyntaxTree, i: int, fks: Seq<&str>) -> Option<Seq<char>> {
    match t.nodes@[i].parent {
        Some(p) => enclosing_from(t, p as int, fks),
        None => None,
    }
}

/// The name of the function around node `i`.
pub fn find_enclosing_function<'a>(t: &'a SyntaxTree, i: usize, fks: &Vec<&str>) -> (r: Option<
    &'a String,
>)
    requires
        t.wf(),
        i < t.nodes@.len(),
    ensures
        opt_view(r) == enclosing_name(t, i as int, fks@),
{
    let mut current = match t.nodes[i].parent {
        Some(p) => p,
        None => {
            return None;
        },
    };
    if i == 0 {
        return None;
    }
    loop
        invariant
            t.wf(),
            current < t.nodes@.len(),
            enclosing_from(t, current as int, fks@) == enclosing_name(t, i as int, fks@),
        decreases current,
    {
        if t.kind_in(current, fks) {
            return t.field_text_of(current, "name");
        }
        if t.kind_is(current, "source_file") {
            return None;
        }
        match t.nodes[current].parent {
            Some(p) => {
                if current == 0 {
                    return None;
                }
                current = p;
            },
            None => {
                return None;
            },
        }
    }
}

/// The number of children of `i` of one of the kinds `ks`.
pub open spec fn count_children_of(t: &SyntaxTree, i: int, ks: Seq<&str>) -> nat {
    count_of(t.children(i), |c: int| one_of(t.kind(c), ks))
}

pub fn count_children_kinds(t: &SyntaxTree, i: usize, ks: &Vec<&str>) -> (r: usize)
    requires
        t.wf(),
        i < t.nodes@.len(),
    ensures
        r == count_children_of(t, i as int, ks@),
{
    let cs = t.children_of(i);
    let ghost g = t.children(i as int);
    let ghost p = |c: int| one_of(t.kind(c), ks@);
    let mut n: usize = 0;
    let mut k: usize = 0;
    assert(g.take(0) =~= Seq::<int>::empty());
    while k < cs.len()
        invariant
            t.wf(),
            i < t.nodes@.len(),
            g == t.children(i as int),
            p == (|c: int| one_of(t.kind(c), ks@)),
            cs@.len() == g.len(),
            forall|m: int| 0 <= m < cs@.len() ==> cs@[m] as int == #[trigger] g[m],
            forall|m: int| 0 <= m < cs@.len() ==> i < #[trigger] cs@[m] < t.nodes@.len(),
            k <= cs@.len(),
            n <= k,
            n == count_of(g.take(k as int), p),
        decreases cs.len() - k,
    {
        assert(g.take(k + 1).drop_last() =~= g.take(k as int));
        assert(g.take(k + 1).last() == g[k as int]);
        if t.kind_in(cs[k], ks) {
            n = n + 1;
        }
        k = k + 1;
    }
    assert(g.take(k as int) =~= g);
    n
}

/// The number of nodes in the subtree of `i` (itself included) of one of
/// the kinds `ks`.
pub open spec fn count_subtree_of(t: &SyntaxTree, i: int, ks: Seq<&str>) -> nat {
    count_nodes(i, t.end(i), |j: int| one_of(t.kind(j), ks))
}

pub fn count_subtree_kinds(t: &SyntaxTree, i: usize, ks: &Vec<&str>) -> (r: usize)
    requires
        t.wf(),
        i < t.nodes@.len(),
    ensures
        r == count_subtree_of(t, i as int, ks@),
        r <= t.nodes@.len(),
{
    let end = t.ends[i];
    let ghost p = |j: int| one_of(t.kind(j), ks@);
    let mut n: usize = 0;
    let mut j = i;
    while j < end
        invariant
            t.wf(),
            i < t.nodes@.len(),
            end == t.ends@[i as int],
            end <= t.nodes@.len(),
            i <= j <= end,
            p == (|j: int| one_of(t.kind(j), ks@)),
            n <= j - i,
            n == count_nodes(i as int, j as int, p),
        decreases end - j,
    {
        if t.kind_in(j, ks) {
            n = n + 1;
        }
        j = j + 1;
    }
    n
}

/// The first child of `i` of kind `k`.
pub open spec fn first_child_of(t: &SyntaxTree, i: int, k: Seq<char>) -> Option<int> {
    first_of(t.children(i), |c: int| t.kind(c) == k)
}

pub fn first_child_kind(t: &SyntaxTree, i: usize, k: &str) -> (r: Option<usize>)
    requires
        t.wf(),
        i < t.nodes@.len(),
    ensures
        match r {
            Some(c) => first_child_of(t, i as int, k@) == Some(c as int) && c < t.nodes@.len(),
            None => first_child_of(t, i as int, k@) is None,
        },
{
    let cs = t.children_of(i);
    let ghost g = t.children(i as int);
    let ghost p = |c: int| t.kind(c) == k@;
    let mut m: usize = 0;
    assert(g.subrange(0, g.len() as int) =~= g);
    while m < cs.len()
        invariant
            t.wf(),
            g == t.children(i as int),
            p == (|c: int| t.kind(c) == k@),
            cs@.len() == g.len(),
            forall|q: int| 0 <= q < cs@.len() ==> cs@[q] as int == #[trigger] g[q],
            forall|q: int| 0 <= q < cs@.len() ==> i < #[trigger] cs@[q] < t.nodes@.len(),
            m <= cs@.len(),
            first_of(g.subrange(m as int, g.len() as int), p) == first_of(g, p),
        decreases cs.len() - m,
    {
        let ghost rest = g.subrange(m as int, g.len() as int);
        assert(rest[0] == g[m as int]);
        if t.kind_is(cs[m], k) {
            return Some(cs[m]);
        }
        assert(rest.drop_first() =~= g.subrange(m + 1, g.len() as int));
        m = m + 1;
    }
    assert(g.subrange(m as int, g.len() as int) =~= Seq::<int>::empty());
    None
}

/// The tables of `f(j)` for each `j` of `js`, in order.
pub open spec fn concat_tables(js: Seq<int>, f: spec_fn(int) -> Tables) -> Tables
    decreases js.len(),
{
    if js.len() == 0 {
        no_tables()
    } else {
        tables_append(concat_tables(js.drop_last(), f), f(js.last()))
    }
}

/// One more entry of `js` adds its tables at the end.
pub proof fn lemma_concat_step(js: Seq<int>, k: int, f: spec_fn(int) -> Tables)
    requires
        0 <= k < js.len(),
    ensures
        concat_tables(js.take(k + 1), f) == tables_append(concat_tables(js.take(k), f), f(js[k])),
{
    assert(js.take(k + 1).drop_last() =~= js.take(k));
    assert(js.take(k + 1).last() == js[k]);
}

/// The children of the nodes `js`, in order.
pub open spec fn children_of_all(t: &SyntaxTree, js: Seq<int>) -> Seq<int>
    decreases js.len(),
{
    if js.len() == 0 {
        Seq::empty()
    } else {
        children_of_all(t, js.drop_last()) + t.children(js.last())
    }
}

/// The tables of `f` over the nodes from `level` on, breadth first: the
/// level itself, then the children of its nodes, for at most `depth` levels.
pub open spec fn bfs_tables(t: &SyntaxTree, level: Seq<int>, depth: nat, f: spec_fn(int) -> Tables) -> Tables
    decreases depth,
{
    if depth == 0 {
        no_tables()
    } else {
        tables_append(
            concat_tables(level, f),
            bfs_tables(t, children_of_all(t, level), (depth - 1) as nat, f),
        )
    }
}

/// Whether `s` is one of the names `ks`.
pub fn text_one_of(s: &str, ks: &Vec<&str>) -> (r: bool)
    ensures
        r == one_of(s@, ks@),
{
    let mut j: usize = 0;
    while j < ks.len()
        invariant
            j <= ks@.len(),
            forall|m: int| 0 <= m < j ==> (#[trigger] ks@[m])@ != s@,
        decreases ks.len() - j,
    {
        if crate::text::same_text(s, ks[j]) {
            return true;
        }
        j = j + 1;
    }
    false
}

// ---------------------------------------------------------------------------
// The registry.
// ---------------------------------------------------------------------------

/// One of the adapters of the registry.
#[derive(Clone, Copy, Debug, PartialEq, Eq, Structural)]
pub enum Adapter {
    Go,
    Rust,
    TypeScript,
    Python,
}

impl LanguageAdapter for Adapter {
    open spec fn name_spec(&self) -> Seq<char> {
        match self {
            Adapter::Go => GoAdapter.name_spec(),
            Adapter::Rust => RustAdapter.name_spec(),
            Adapter::TypeScript => TypeScriptAdapter.name_spec(),
            Adapter::Python => PythonAdapter.name_spec(),
        }
    }

    open spec fn extensions_spec(&self) -> Seq<Seq<char>> {
        match self {
            Adapter::Go => GoAdapter.extensions_spec(),
            Adapter::Rust => RustAdapter.extensions_spec(),
            Adapter::TypeScript => TypeScriptAdapter.extensions_spec(),
            Adapter::Python => PythonAdapter.extensions_spec(),
        }
    }

    open spec fn node_tables(&self, t: &SyntaxTree, file: Seq<char>, i: int) -> Tables {
        match self {
            Adapter::Go => GoAdapter.node_tables(t, file, i),
            Adapter::Rust => RustAdapter.node_tables(t, file, i),
            Adapter::TypeScript => TypeScriptAdapter.node_tables(t, file, i),
            Adapter::Python => PythonAdapter.node_tables(t, file, i),
        }
    }

    fn language_name(&self) -> (r: &'static str) {
        match self {
            Adapter::Go => GoAdapter.language_name(),
            Adapter::Rust => RustAdapter.language_name(),
            Adapter::TypeScript => TypeScriptAdapter.language_name(),
            Adapter::Python => PythonAdapter.language_name(),
        }
    }

    fn extensions(&self) -> (r: Vec<&'static str>) {
        match self {
            Adapter::Go => GoAdapter.extensions(),
            Adapter::Rust => RustAdapter.extensions(),
            Adapter::TypeScript => TypeScriptAdapter.extensions(),
            Adapter::Python => PythonAdapter.extensions(),
        }
    }

    open spec fn grammar_spec(&self) -> Grammar {
        match self {
            Adapter::Go => Grammar::Go,
            Adapter::Rust => Grammar::Rust,
            Adapter::TypeScript => Grammar::Tsx,
            Adapter::Python => Grammar::Python,
        }
    }

    fn grammar(&self) -> (r: Grammar) {
        match self {
            Adapter::Go => GoAdapter.grammar(),
            Adapter::Rust => RustAdapter.grammar(),
            Adapter::TypeScript => TypeScriptAdapter.grammar(),
            Adapter::Python => PythonAdapter.grammar(),
        }
    }

    fn map_node(&self, t: &SyntaxTree, i: usize, rows: &mut TableBatch) {
        match self {
            Adapter::Go => GoAdapter.map_node(t, i, rows),
            Adapter::Rust => RustAdapter.map_node(t, i, rows),
            Adapter::TypeScript => TypeScriptAdapter.map_node(t, i, rows),
            Adapter::Python => PythonAdapter.map_node(t, i, rows),
        }
    }
}

/// The adapters, in the order a file name is matched against them.
pub open spec fn registry() -> Seq<Adapter> {
    seq![Adapter::Go, Adapter::Rust, Adapter::TypeScript, Adapter::Python]
}

/// Every adapter: Go, Rust, TypeScript, Python.
pub fn adapters() -> (r: Vec<Adapter>)
    ensures
        r@ == registry(),
{
    let r = vec![Adapter::Go, Adapter::Rust, Adapter::TypeScript, Adapter::Python];
    assert(r@ =~= registry());
    r
}

/// What `Path::extension` gives for a path, as text: the part of the file
/// name after its last `.`, where there is one that does not start it.
pub uninterp spec fn path_extension(path: Seq<char>) -> Option<Seq<char>>;

/// `Path::new(path).extension()`, as a string. Where the text after the
/// path's last `/` is a plain name, that name is the path's file name, and
/// the extension is what follows its last `.` unless that `.` starts it, as
/// the documentation of `Path::extension` and `Path::file_name` says. Of
/// other paths only the name `path_extension` is claimed.
#[verifier::external_body]
fn extension_of(path: &str) -> (r: Option<String>)
    ensures
        match r {
            Some(e) => path_extension(path@) == Some(e@),
            None => path_extension(path@) is None,
        },
        plain_name(last_segment(path@)) ==> match r {
            Some(e) => name_extension(last_segment(path@)) == Some(e@),
            None => name_extension(last_segment(path@)) is None,
        },
{
    match std::path::Path::new(path).extension() {
        Some(ext) => match ext.to_str() {
            Some(ext) => Some(ext.to_string()),
            None => None,
        },
        None => None,
    }
}

/// The extension of a path as text, empty where it has none.
pub fn extension_text(path: &str) -> (r: String)
    ensures
        r@ == match path_extension(path@) {
            Some(e) => e,
            None => Seq::empty(),
        },
{
    match extension_of(path) {
        Some(e) => e,
        None => String::new(),
    }
}

/// The first adapter among `ads` that reads files with extension `ext`
/// (dot included).
pub open spec fn find_adapter(ads: Seq<Adapter>, ext: Seq<char>) -> Option<Adapter>
    decreases ads.len(),
{
    if ads.len() == 0 {
        None
    } else if ads[0].extensions_spec().contains(ext) {
        Some(ads[0])
    } else {
        find_adapter(ads.drop_first(), ext)
    }
}

/// The adapter for a path: the first whose extensions hold the path's
/// extension with its dot.
pub open spec fn adapter_for(path: Seq<char>) -> Option<Adapter> {
    match path_extension(path) {
        Some(ext) => find_adapter(registry(), seq!['.'] + ext),
        None => None,
    }
}

/// Whether `adapter` reads files with extension `ext`.
fn reads_extension(adapter: &Adapter, ext: &str) -> (r: bool)
    ensures
        r == adapter.extensions_spec().contains(ext@),
{
    let exts = adapter.extensions();
    let ghost ev = exts@.map_values(|e: &str| e@);
    let mut k: usize = 0;
    while k < exts.len()
        invariant
            ev == exts@.map_values(|e: &str| e@),
            ev == adapter.extensions_spec(),
            k <= exts@.len(),
            forall|m: int| 0 <= m < k ==> ev[m] != ext@,
        decreases exts.len() - k,
    {
        if crate::text::same_text(exts[k], ext) {
            assert(ev[k as int] == ext@);
            return true;
        }
        k = k + 1;
    }
    false
}

/// The adapter that reads the file at `path`, by its extension.
pub fn adapter_for_path(path: &str) -> (r: Option<Adapter>)
    ensures
        r == adapter_for(path@),
        plain_name(last_segment(path@)) ==> r == match name_extension(last_segment(path@)) {
            Some(ext) => find_adapter(registry(), seq!['.'] + ext),
            None => None,
        },
{
    let ext = match extension_of(path) {
        Some(ext) => ext,
        None => {
            return None;
        },
    };
    let mut dotted = String::new();
    crate::text::push_char(&mut dotted, '.');
    crate::text::push_str(&mut dotted, ext.as_str());
    assert(dotted@ =~= seq!['.'] + ext@);
    let all = adapters();
    let mut k: usize = 0;
    assert(all@.subrange(0, 4) =~= registry());
    let ghost target = adapter_for(path@);
    assert(target == find_adapter(registry(), dotted@));
    while k < all.len()
        invariant
            all@ == registry(),
            k <= all@.len(),
            target == adapter_for(path@),
            target == find_adapter(registry(), dotted@),
            dotted@ == seq!['.'] + ext@,
            plain_name(last_segment(path@)) ==> name_extension(last_segment(path@)) == Some(ext@),
            find_adapter(all@.subrange(k as int, all@.len() as int), dotted@) == find_adapter(registry(), dotted@),
        decreases all.len() - k,
    {
        let ghost rest = all@.subrange(k as int, all@.len() as int);
        assert(rest[0] == all@[k as int]);
        if reads_extension(&all[k], dotted.as_str()) {
            return Some(all[k]);
        }
        assert(rest.drop_first() =~= all@.subrange(k + 1, all@.len() as int));
        k = k + 1;
    }
    assert(all@.subrange(k as int, all@.len() as int) =~= Seq::<Adapter>::empty());
    None
}

/// The line that names an adapter: its language, then its extensions in
/// parentheses, separated by `, `.
pub open spec fn language_line(a: Adapter) -> Seq<char> {
    a.name_spec() + " ("@ + join_texts(a.extensions_spec(), ", "@) + ")"@
}

fn describe(adapter: &Adapter) -> (r: String)
    ensures
        r@ == language_line(*adapter),
{
    let exts = adapter.extensions();
    let ghost ev = exts@.map_values(|e: &str| e@);
    let mut out = String::new();
    crate::text::push_str(&mut out, adapter.language_name());
    crate::text::push_str(&mut out, " (");
    let ghost head = out@;
    let mut k: usize = 0;
    assert(ev.take(0) =~= Seq::<Seq<char>>::empty());
    assert(head + join_texts(ev.take(0), ", "@) =~= head);
    while k < exts.len()
        invariant
            ev == exts@.map_values(|e: &str| e@),
            ev == adapter.extensions_spec(),
            head == adapter.name_spec() + " ("@,
            k <= exts@.len(),
            out@ == head + join_texts(ev.take(k as int), ", "@),
        decreases exts.len() - k,
    {
        assert(ev.take(k + 1).drop_last() =~= ev.take(k as int));
        let ghost before = out@;
        if k > 0 {
            crate::text::push_str(&mut out, ", ");
        }
        crate::text::push_str(&mut out, exts[k]);
        proof {
            if k == 0 {
                assert(ev.take(1) =~= seq![ev[0]]);
                assert(join_texts(ev.take(0), ", "@) =~= Seq::<char>::empty());
                assert(before =~= head);
                assert(out@ =~= head + join_texts(ev.take(1), ", "@));
            } else {
                assert(out@ =~= head + join_texts(ev.take(k + 1), ", "@));
            }
        }
        k = k + 1;
    }
    assert(ev.take(k as int) =~= ev);
    crate::text::push_str(&mut out, ")");
    out
}

/// One line per adapter, in registry order, naming its language and
/// extensions (`go (.go)`, `typescript (.ts, .tsx)`, ...).
pub fn supported_languages() -> (r: Vec<String>)
    ensures
        r@.map_values(|s: String| s@) == registry().map_values(|a: Adapter| language_line(a)),
{
    let all = adapters();
    let mut out: Vec<String> = Vec::new();
    let mut k: usize = 0;
    while k < all.len()
        invariant
            all@ == registry(),
            k <= all@.len(),
            out@.map_values(|s: String| s@) == registry().take(k as int).map_values(|a: Adapter| language_line(a)),
        decreases all.len() - k,
    {
        let line = describe(&all[k]);
        let ghost before = out@.map_values(|s: String| s@);
        let ghost lv = line@;
        assert(lv == language_line(registry()[k as int]));
        out.push(line);
        assert(out@.map_values(|s: String| s@) =~= before.push(lv));
        assert(registry().take(k + 1) =~= registry().take(k as int).push(registry()[k as int]));
        assert(registry().take(k + 1).map_values(|a: Adapter| language_line(a)) =~= registry().take(
            k as int,
        ).map_values(|a: Adapter| language_line(a)).push(lv));
        k = k + 1;
    }
    assert(registry().take(4) =~= registry());
    out
}

// ---------------------------------------------------------------------------
// Every row names the file it was read from, at a line from one on.
// ---------------------------------------------------------------------------

/// Whether every row of the tables names `file` and a line from one on.
pub open spec fn rows_in_file(ts: Tables, file: Seq<char>) -> bool {
    &&& forall|k: int| 0 <= k < ts.functions.len() ==> (#[trigger] ts.functions[k]).file == file && ts.functions[k].line >= 1
    &&& forall|k: int| 0 <= k < ts.calls.len() ==> (#[trigger] ts.calls[k]).file == file && ts.calls[k].line >= 1
    &&& forall|k: int| 0 <= k < ts.imports.len() ==> (#[trigger] ts.imports[k]).file == file && ts.imports[k].line >= 1
    &&& forall|k: int| 0 <= k < ts.structs.len() ==> (#[trigger] ts.structs[k]).file == file && ts.structs[k].line >= 1
    &&& forall|k: int| 0 <= k < ts.variables.len() ==> (#[trigger] ts.variables[k]).file == file && ts.variables[k].line >= 1
    &&& forall|k: int| 0 <= k < ts.comments.len() ==> (#[trigger] ts.comments[k]).file == file && ts.comments[k].line >= 1
}

pub proof fn lemma_rows_in_file_append(a: Tables, b: Tables, file: Seq<char>)
    requires
        rows_in_file(a, file),
        rows_in_file(b, file),
    ensures
        rows_in_file(tables_append(a, b), file),
{
    let c = tables_append(a, b);
    assert forall|k: int| 0 <= k < c.functions.len() implies (#[trigger] c.functions[k]).file == file && c.functions[k].line >= 1 by {
        if k >= a.functions.len() {
            assert(c.functions[k] == b.functions[k - a.functions.len()]);
        }
    }
    assert forall|k: int| 0 <= k < c.calls.len() implies (#[trigger] c.calls[k]).file == file && c.calls[k].line >= 1 by {
        if k >= a.calls.len() {
            assert(c.calls[k] == b.calls[k - a.calls.len()]);
        }
    }
    assert forall|k: int| 0 <= k < c.imports.len() implies (#[trigger] c.imports[k]).file == file && c.imports[k].line >= 1 by {
        if k >= a.imports.len() {
            assert(c.imports[k] == b.imports[k - a.imports.len()]);
        }
    }
    assert forall|k: int| 0 <= k < c.structs.len() implies (#[trigger] c.structs[k]).file == file && c.structs[k].line >= 1 by {
        if k >= a.structs.len() {
            assert(c.structs[k] == b.structs[k - a.structs.len()]);
        }
    }
    assert forall|k: int| 0 <= k < c.variables.len() implies (#[trigger] c.variables[k]).file == file && c.variables[k].line >= 1 by {
        if k >= a.variables.len() {
            assert(c.variables[k] == b.variables[k - a.variables.len()]);
        }
    }
    assert forall|k: int| 0 <= k < c.comments.len() implies (#[trigger] c.comments[k]).file == file && c.comments[k].line >= 1 by {
        if k >= a.comments.len() {
            assert(c.comments[k] == b.comments[k - a.comments.len()]);
        }
    }
}

pub proof fn lemma_rows_in_file_concat(js: Seq<int>, f: spec_fn(int) -> Tables, file: Seq<char>)
    requires
        forall|j: int| rows_in_file(#[trigger] f(j), file),
    ensures
        rows_in_file(concat_tables(js, f), file),
    decreases js.len(),
{
    if js.len() > 0 {
        lemma_rows_in_file_concat(js.drop_last(), f, file);
        lemma_rows_in_file_append(concat_tables(js.drop_last(), f), f(js.last()), file);
    }
}

pub proof fn lemma_rows_in_file_bfs(t: &SyntaxTree, level: Seq<int>, depth: nat, f: spec_fn(int) -> Tables, file: Seq<char>)
    requires
        forall|j: int| rows_in_file(#[trigger] f(j), file),
    ensures
        rows_in_file(bfs_tables(t, level, depth, f), file),
    decreases depth,
{
    if depth > 0 {
        lemma_rows_in_file_concat(level, f, file);
        lemma_rows_in_file_bfs(t, children_of_all(t, level), (depth - 1) as nat, f, file);
        lemma_rows_in_file_append(
            concat_tables(level, f),
            bfs_tables(t, children_of_all(t, level), (depth - 1) as nat, f),
            file,
        );
    }
}

/// Every row an adapter reads from a tree names the file it was read from,
/// at a line counted from one.
pub proof fn lemma_walk_rows_in_file(a: Adapter, t: &SyntaxTree, file: Seq<char>, n: int)
    ensures
        rows_in_file(crate::adapter::walk_tables(&a, t, file, n), file),
    decreases n,
{
    if n > 0 {
        lemma_walk_rows_in_file(a, t, file, n - 1);
        lemma_node_rows_in_file(a, t, file, n - 1);
        lemma_rows_in_file_append(
            crate::adapter::walk_tables(&a, t, file, n - 1),
            a.node_tables(t, file, n - 1),
            file,
        );
    }
}

/// The rows of one node name the file, at a line from one on.
pub proof fn lemma_node_rows_in_file(a: Adapter, t: &SyntaxTree, file: Seq<char>, i: int)
    ensures
        rows_in_file(a.node_tables(t, file, i), file),
{
    match a {
        Adapter::Go => crate::adapters::go::lemma_go_rows_in_file(t, file, i),
        Adapter::Rust => crate::adapters::rust::lemma_rust_rows_in_file(t, file, i),
        Adapter::TypeScript => crate::adapters::typescript::lemma_ts_rows_in_file(t, file, i),
        Adapter::Python => crate::adapters::python::lemma_python_rows_in_file(t, file, i),
    }
}

} // verus!
