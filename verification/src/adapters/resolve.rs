//! The language-specific passes over a whole batch: which functions have a
//! test file beside them, and which definition each comment documents. The
//! names of the test files found under the root are handed in.

use vstd::prelude::*;
use crate::adapters::Adapter;
use crate::adapters::python::PythonAdapter;
use crate::adapters::rust::RustAdapter;
use crate::adapters::typescript::TypeScriptAdapter;
use crate::analysis::{
    fdef, fdefs, follows, is_nearest, lemma_nearest_any, lemma_nearest_none, nearest, sdef, sdefs,
    with_has_test, DefV,
};
use crate::rows::{CommentRow, FunctionRow, StructRow, TableBatch};
use crate::text::{
    ends_with, last_segment, owned, plain_name, push_str, replace_all, replace_text, same_text,
    starts_with, str_ends_with, str_starts_with, strip_suffix_once, strip_suffix_or_keep, trim,
    trimmed,
};

verus! {

/// What `Path::file_name` gives for a path, as text (empty where there is
/// none).
pub uninterp spec fn path_file_name(path: Seq<char>) -> Seq<char>;

/// `Path::new(path).file_name()`, as a string; empty where there is none.
/// Where the text after the path's last `/` is a plain name, that text is
/// the path's final component and so its file name, as the documentation of
/// `Path::file_name` says. Of other paths only the name `path_file_name` is
/// claimed.
#[verifier::external_body]
fn file_name_of(path: &str) -> (r: String)
    ensures
        r@ == path_file_name(path@),
        plain_name(last_segment(path@)) ==> r@ == last_segment(path@),
{
    match std::path::Path::new(path).file_name() {
        Some(name) => match name.to_str() {
            Some(name) => name.to_string(),
            None => String::new(),
        },
        None => String::new(),
    }
}

/// Whether `name` is among the test file names.
pub open spec fn listed(tests: Seq<Seq<char>>, name: Seq<char>) -> bool {
    tests.contains(name)
}

fn is_listed(tests: &Vec<String>, name: &str) -> (r: bool)
    ensures
        r == listed(tests@.map_values(|s: String| s@), name@),
{
    let ghost tv = tests@.map_values(|s: String| s@);
    let mut k: usize = 0;
    while k < tests.len()
        invariant
            tv == tests@.map_values(|s: String| s@),
            k <= tests@.len(),
            forall|j: int| 0 <= j < k ==> tv[j] != name@,
        decreases tests.len() - k,
    {
        if same_text(tests[k].as_str(), name) {
            assert(tv[k as int] == name@);
            return true;
        }
        k = k + 1;
    }
    false
}

/// The name of the definition a comment at `line` of `file` documents: the
/// nearest function or struct after it in the same file, the function where
/// both are on the same line.
pub open spec fn nearest_name(fds: Seq<DefV>, sds: Seq<DefV>, file: Seq<char>, line: int) -> Option<
    Seq<char>,
> {
    match (nearest(fds, file, line), nearest(sds, file, line)) {
        (Some(f), None) => Some(fds[f].name),
        (None, Some(s)) => Some(sds[s].name),
        (Some(f), Some(s)) => if fds[f].line <= sds[s].line {
            Some(fds[f].name)
        } else {
            Some(sds[s].name)
        },
        (None, None) => None,
    }
}

fn scan_functions(fs: &Vec<FunctionRow>, file: &String, line: usize) -> (r: Option<usize>)
    ensures
        match r {
            Some(j) => is_nearest(fdefs(fs@), file@, line as int, j as int),
            None => forall|k: int| 0 <= k < fs@.len() ==> !follows(#[trigger] fdefs(fs@)[k], file@, line as int),
        },
{
    let ghost ds = fdefs(fs@);
    let mut best: Option<usize> = None;
    let mut k: usize = 0;
    while k < fs.len()
        invariant
            ds == fdefs(fs@),
            k <= fs@.len(),
            match best {
                Some(j) => {
                    &&& j < k
                    &&& follows(ds[j as int], file@, line as int)
                    &&& forall|m: int| 0 <= m < k && follows(#[trigger] ds[m], file@, line as int) ==> ds[j as int].line <= ds[m].line
                    &&& forall|m: int| 0 <= m < j && follows(#[trigger] ds[m], file@, line as int) ==> ds[j as int].line < ds[m].line
                },
                None => forall|m: int| 0 <= m < k ==> !follows(#[trigger] ds[m], file@, line as int),
            },
        decreases fs.len() - k,
    {
        assert(ds[k as int] == fdef(fs@[k as int]));
        if same_text(fs[k].file.as_str(), file.as_str()) && fs[k].line > line {
            match best {
                Some(j) => {
                    assert(ds[j as int] == fdef(fs@[j as int]));
                    if fs[k].line < fs[j].line {
                        best = Some(k);
                    }
                },
                None => {
                    best = Some(k);
                },
            }
        }
        k = k + 1;
    }
    best
}

fn scan_structs(ss: &Vec<StructRow>, file: &String, line: usize) -> (r: Option<usize>)
    ensures
        match r {
            Some(j) => is_nearest(sdefs(ss@), file@, line as int, j as int),
            None => forall|k: int| 0 <= k < ss@.len() ==> !follows(#[trigger] sdefs(ss@)[k], file@, line as int),
        },
{
    let ghost ds = sdefs(ss@);
    let mut best: Option<usize> = None;
    let mut k: usize = 0;
    while k < ss.len()
        invariant
            ds == sdefs(ss@),
            k <= ss@.len(),
            match best {
                Some(j) => {
                    &&& j < k
                    &&& follows(ds[j as int], file@, line as int)
                    &&& forall|m: int| 0 <= m < k && follows(#[trigger] ds[m], file@, line as int) ==> ds[j as int].line <= ds[m].line
                    &&& forall|m: int| 0 <= m < j && follows(#[trigger] ds[m], file@, line as int) ==> ds[j as int].line < ds[m].line
                },
                None => forall|m: int| 0 <= m < k ==> !follows(#[trigger] ds[m], file@, line as int),
            },
        decreases ss.len() - k,
    {
        assert(ds[k as int] == sdef(ss@[k as int]));
        if same_text(ss[k].file.as_str(), file.as_str()) && ss[k].line > line {
            match best {
                Some(j) => {
                    assert(ds[j as int] == sdef(ss@[j as int]));
                    if ss[k].line < ss[j].line {
                        best = Some(k);
                    }
                },
                None => {
                    best = Some(k);
                },
            }
        }
        k = k + 1;
    }
    best
}

/// The name of the definition a comment at `line` of `file` documents.
fn find_nearest_name(fs: &Vec<FunctionRow>, ss: &Vec<StructRow>, file: &String, line: usize) -> (r: Option<String>)
    ensures
        match r {
            Some(n) => nearest_name(fdefs(fs@), sdefs(ss@), file@, line as int) == Some(n@),
            None => nearest_name(fdefs(fs@), sdefs(ss@), file@, line as int) is None,
        },
{
    let ghost fds = fdefs(fs@);
    let ghost sds = sdefs(ss@);
    let nf = scan_functions(fs, file, line);
    let ns = scan_structs(ss, file, line);
    proof {
        match nf {
            Some(j) => lemma_nearest_any(fds, file@, line as int, j as int),
            None => lemma_nearest_none(fds, file@, line as int),
        }
        match ns {
            Some(j) => lemma_nearest_any(sds, file@, line as int, j as int),
            None => lemma_nearest_none(sds, file@, line as int),
        }
    }
    match (nf, ns) {
        (Some(f), None) => Some(fs[f].name.clone()),
        (None, Some(s)) => Some(ss[s].name.clone()),
        (Some(f), Some(s)) => if fs[f].line <= ss[s].line {
            Some(fs[f].name.clone())
        } else {
            Some(ss[s].name.clone())
        },
        (None, None) => None,
    }
}

/// Whether the functions `after` are `before` with `has_test` set where
/// `marks` says so.
pub open spec fn functions_marked(before: Seq<FunctionRow>, after: Seq<FunctionRow>, marks: spec_fn(int) -> bool) -> bool {
    &&& after.len() == before.len()
    &&& forall|k: int|
        #![trigger after[k]]
        0 <= k < before.len() ==> after[k] == with_has_test(before[k], before[k].has_test || marks(k))
}

/// Sets `has_test` on every function where `marks` holds.
fn mark_functions(batch: &mut TableBatch, marks: &Vec<bool>)
    requires
        marks@.len() == old(batch).functions@.len(),
    ensures
        functions_marked(old(batch).functions@, final(batch).functions@, |k: int| marks@[k]),
        final(batch).current_file == old(batch).current_file,
        final(batch).calls == old(batch).calls,
        final(batch).imports == old(batch).imports,
        final(batch).structs == old(batch).structs,
        final(batch).variables == old(batch).variables,
        final(batch).comments == old(batch).comments,
{
    let fs = &batch.functions;
    let mut updated: Vec<FunctionRow> = Vec::new();
    let mut k: usize = 0;
    while k < fs.len()
        invariant
            marks@.len() == fs@.len(),
            k <= fs@.len(),
            updated@.len() == k,
            forall|j: int|
                #![trigger updated@[j]]
                0 <= j < k ==> updated@[j] == with_has_test(fs@[j], fs@[j].has_test || marks@[j]),
        decreases fs.len() - k,
    {
        let f = &fs[k];
        updated.push(
            FunctionRow {
                file: f.file.clone(),
                line: f.line,
                name: f.name.clone(),
                visibility: f.visibility.clone(),
                param_count: f.param_count,
                return_type: f.return_type.clone(),
                complexity: f.complexity,
                has_test: f.has_test || marks[k],
            },
        );
        k = k + 1;
    }
    batch.functions = updated;
}

/// Whether `b` is comment `a` with `is_doc` set to `doc` and attached to
/// `name`, or, where there is no name, attached as before (`keep`) or to
/// nothing.
pub open spec fn comment_resolved(a: CommentRow, b: CommentRow, doc: bool, name: Option<Seq<char>>, keep: bool) -> bool {
    &&& b.file == a.file
    &&& b.line == a.line
    &&& b.text == a.text
    &&& b.is_doc == doc
    &&& b.attached_to@ == match name {
        Some(n) => n,
        None => if keep {
            a.attached_to@
        } else {
            Seq::empty()
        },
    }
}

/// Whether the comments `after` are `before` with `is_doc` from `docs` and
/// attached to what they document among the functions and structs.
pub open spec fn comments_resolved(
    before: Seq<CommentRow>,
    after: Seq<CommentRow>,
    fs: Seq<FunctionRow>,
    ss: Seq<StructRow>,
    docs: spec_fn(int) -> bool,
    keep: bool,
) -> bool {
    &&& after.len() == before.len()
    &&& forall|k: int|
        #![trigger after[k]]
        0 <= k < before.len() ==> comment_resolved(
            before[k],
            after[k],
            docs(k),
            nearest_name(fdefs(fs), sdefs(ss), before[k].file@, before[k].line as int),
            keep,
        )
}

/// Sets `is_doc` from `docs` on every comment and attaches it to what it
/// documents; where nothing follows it, it keeps its attachment (`keep`) or
/// loses it.
fn resolve_comments(batch: &mut TableBatch, docs: &Vec<bool>, keep: bool)
    requires
        docs@.len() == old(batch).comments@.len(),
    ensures
        comments_resolved(
            old(batch).comments@,
            final(batch).comments@,
            old(batch).functions@,
            old(batch).structs@,
            |k: int| docs@[k],
            keep,
        ),
        final(batch).current_file == old(batch).current_file,
        final(batch).functions == old(batch).functions,
        final(batch).calls == old(batch).calls,
        final(batch).imports == old(batch).imports,
        final(batch).structs == old(batch).structs,
        final(batch).variables == old(batch).variables,
{
    let fs = &batch.functions;
    let ss = &batch.structs;
    let cs = &batch.comments;
    let mut updated: Vec<CommentRow> = Vec::new();
    let mut k: usize = 0;
    while k < cs.len()
        invariant
            docs@.len() == cs@.len(),
            k <= cs@.len(),
            updated@.len() == k,
            forall|j: int|
                #![trigger updated@[j]]
                0 <= j < k ==> comment_resolved(
                    cs@[j],
                    updated@[j],
                    docs@[j],
                    nearest_name(fdefs(fs@), sdefs(ss@), cs@[j].file@, cs@[j].line as int),
                    keep,
                ),
        decreases cs.len() - k,
    {
        let c = &cs[k];
        let attached_to = match find_nearest_name(fs, ss, &c.file, c.line) {
            Some(n) => n,
            None => if keep {
                c.attached_to.clone()
            } else {
                String::new()
            },
        };
        updated.push(
            CommentRow {
                file: c.file.clone(),
                line: c.line,
                text: c.text.clone(),
                attached_to,
                is_doc: docs[k],
            },
        );
        k = k + 1;
    }
    batch.comments = updated;
}

// ---------------------------------------------------------------------------
// Rust
// ---------------------------------------------------------------------------

/// Whether a Rust file has a test file: `x_test.rs` beside `x.rs`, or the
/// file itself among the test files.
pub open spec fn rust_tested(file: Seq<char>, tests: Seq<Seq<char>>) -> bool {
    (ends_with(file, ".rs"@) && listed(tests, replace_all(file, ".rs"@, "_test.rs"@))) || listed(tests, file)
}

impl RustAdapter {
    /// Marks the functions of files with a test file, and attaches every
    /// comment to what it documents (to nothing where nothing follows it).
    pub fn second_pass(&self, batch: &mut TableBatch, test_files: &Vec<String>)
        ensures
            functions_marked(
                old(batch).functions@,
                final(batch).functions@,
                |k: int| rust_tested(old(batch).functions@[k].file@, test_files@.map_values(|s: String| s@)),
            ),
            comments_resolved(
                old(batch).comments@,
                final(batch).comments@,
                old(batch).functions@,
                old(batch).structs@,
                |k: int| old(batch).comments@[k].is_doc,
                false,
            ),
            final(batch).current_file == old(batch).current_file,
            final(batch).calls == old(batch).calls,
            final(batch).imports == old(batch).imports,
            final(batch).structs == old(batch).structs,
            final(batch).variables == old(batch).variables,
    {
        let ghost tv = test_files@.map_values(|s: String| s@);
        let ghost fs0 = batch.functions@;
        let mut marks: Vec<bool> = Vec::new();
        let mut k: usize = 0;
        proof {
            reveal_strlit(".rs");
        }
        while k < batch.functions.len()
            invariant
                tv == test_files@.map_values(|s: String| s@),
                fs0 == batch.functions@,
                ".rs"@.len() > 0,
                k <= fs0.len(),
                marks@.len() == k,
                forall|j: int| 0 <= j < k ==> marks@[j] == rust_tested(#[trigger] fs0[j].file@, tv),
            decreases fs0.len() - k,
        {
            let file = batch.functions[k].file.as_str();
            let neighbor = str_ends_with(file, ".rs") && is_listed(
                test_files,
                replace_text(file, ".rs", "_test.rs").as_str(),
            );
            let same = is_listed(test_files, file);
            marks.push(neighbor || same);
            k = k + 1;
        }
        let ghost b1 = *batch;
        mark_functions(batch, &marks);
        assert(fdefs(batch.functions@) =~= fdefs(b1.functions@)) by {
            assert forall|j: int| 0 <= j < b1.functions@.len() implies fdefs(batch.functions@)[j] == fdefs(
                b1.functions@,
            )[j] by {
                assert(batch.functions@[j] == with_has_test(b1.functions@[j], b1.functions@[j].has_test || marks@[j]));
            }
        }
        let mut docs: Vec<bool> = Vec::new();
        let mut m: usize = 0;
        while m < batch.comments.len()
            invariant
                docs@.len() == m,
                m <= batch.comments@.len(),
                forall|j: int| 0 <= j < m ==> docs@[j] == (#[trigger] batch.comments@[j]).is_doc,
            decreases batch.comments.len() - m,
        {
            docs.push(batch.comments[m].is_doc);
            m = m + 1;
        }
        resolve_comments(batch, &docs, false);
    }
}

// ---------------------------------------------------------------------------
// Python
// ---------------------------------------------------------------------------

/// The test files that would cover a Python file.
pub open spec fn python_test_candidates(file: Seq<char>) -> Seq<Seq<char>> {
    let base = strip_suffix_once(file, ".py"@);
    let name = path_file_name(file);
    seq![base + "_test.py"@, "test_"@ + name, "tests/"@ + name, "tests/test_"@ + name]
}

/// Whether one of `cands` is among the test files.
pub open spec fn any_listed(tests: Seq<Seq<char>>, cands: Seq<Seq<char>>) -> bool {
    exists|k: int| 0 <= k < cands.len() && listed(tests, #[trigger] cands[k])
}

fn any_is_listed(tests: &Vec<String>, cands: &Vec<String>) -> (r: bool)
    ensures
        r == any_listed(tests@.map_values(|s: String| s@), cands@.map_values(|s: String| s@)),
{
    let ghost tv = tests@.map_values(|s: String| s@);
    let ghost cv = cands@.map_values(|s: String| s@);
    let mut k: usize = 0;
    while k < cands.len()
        invariant
            tv == tests@.map_values(|s: String| s@),
            cv == cands@.map_values(|s: String| s@),
            k <= cands@.len(),
            forall|j: int| 0 <= j < k ==> !listed(tv, #[trigger] cv[j]),
        decreases cands.len() - k,
    {
        if is_listed(tests, cands[k].as_str()) {
            assert(listed(tv, cv[k as int]));
            return true;
        }
        k = k + 1;
    }
    false
}

/// `prefix` then `s`.
fn concat(prefix: &str, s: &str) -> (r: String)
    ensures
        r@ == prefix@ + s@,
{
    let mut r = owned(prefix);
    push_str(&mut r, s);
    r
}

fn python_candidates(file: &str) -> (r: Vec<String>)
    ensures
        r@.map_values(|s: String| s@) == python_test_candidates(file@),
{
    let base = strip_suffix_or_keep(file, ".py");
    let name = file_name_of(file);
    let r = vec![
        concat(base.as_str(), "_test.py"),
        concat("test_", name.as_str()),
        concat("tests/", name.as_str()),
        concat("tests/test_", name.as_str()),
    ];
    assert(r@.map_values(|s: String| s@) =~= python_test_candidates(file@));
    r
}

impl PythonAdapter {
    /// Marks the functions of files with a test file, marks `#:` comments
    /// as documentation, and attaches every comment to what it documents
    /// (leaving it as it was where nothing follows it).
    pub fn second_pass(&self, batch: &mut TableBatch, test_files: &Vec<String>)
        ensures
            functions_marked(
                old(batch).functions@,
                final(batch).functions@,
                |k: int| any_listed(
                    test_files@.map_values(|s: String| s@),
                    python_test_candidates(old(batch).functions@[k].file@),
                ),
            ),
            comments_resolved(
                old(batch).comments@,
                final(batch).comments@,
                old(batch).functions@,
                old(batch).structs@,
                |k: int| old(batch).comments@[k].is_doc || starts_with(trim(old(batch).comments@[k].text@), "#:"@),
                true,
            ),
            final(batch).current_file == old(batch).current_file,
            final(batch).calls == old(batch).calls,
            final(batch).imports == old(batch).imports,
            final(batch).structs == old(batch).structs,
            final(batch).variables == old(batch).variables,
    {
        let ghost tv = test_files@.map_values(|s: String| s@);
        let ghost fs0 = batch.functions@;
        let mut marks: Vec<bool> = Vec::new();
        let mut k: usize = 0;
        while k < batch.functions.len()
            invariant
                tv == test_files@.map_values(|s: String| s@),
                fs0 == batch.functions@,
                k <= fs0.len(),
                marks@.len() == k,
                forall|j: int| 0 <= j < k ==> marks@[j] == any_listed(tv, python_test_candidates(#[trigger] fs0[j].file@)),
            decreases fs0.len() - k,
        {
            let cands = python_candidates(batch.functions[k].file.as_str());
            marks.push(any_is_listed(test_files, &cands));
            k = k + 1;
        }
        let ghost b1 = *batch;
        mark_functions(batch, &marks);
        assert(fdefs(batch.functions@) =~= fdefs(b1.functions@)) by {
            assert forall|j: int| 0 <= j < b1.functions@.len() implies fdefs(batch.functions@)[j] == fdefs(
                b1.functions@,
            )[j] by {
                assert(batch.functions@[j] == with_has_test(b1.functions@[j], b1.functions@[j].has_test || marks@[j]));
            }
        }
        let mut docs: Vec<bool> = Vec::new();
        let mut m: usize = 0;
        while m < batch.comments.len()
            invariant
                docs@.len() == m,
                m <= batch.comments@.len(),
                forall|j: int| 0 <= j < m ==> docs@[j] == ((#[trigger] batch.comments@[j]).is_doc || starts_with(trim(batch.comments@[j].text@), "#:"@)),
            decreases batch.comments.len() - m,
        {
            let c = &batch.comments[m];
            let text = trimmed(c.text.as_str());
            docs.push(c.is_doc || str_starts_with(text.as_str(), "#:"));
            m = m + 1;
        }
        resolve_comments(batch, &docs, true);
    }
}

// ---------------------------------------------------------------------------
// TypeScript
// ---------------------------------------------------------------------------

/// A TypeScript file without its `.tsx` or `.ts` extension.
pub open spec fn ts_base(file: Seq<char>) -> Seq<char> {
    if ends_with(file, ".tsx"@) {
        strip_suffix_once(file, ".tsx"@)
    } else {
        strip_suffix_once(file, ".ts"@)
    }
}

/// The test files that would cover a TypeScript file.
pub open spec fn ts_test_candidates(file: Seq<char>) -> Seq<Seq<char>> {
    let base = ts_base(file);
    seq![base + ".test.ts"@, base + ".spec.ts"@, base + ".test.tsx"@, base + ".spec.tsx"@]
}

fn ts_candidates(file: &str) -> (r: Vec<String>)
    ensures
        r@.map_values(|s: String| s@) == ts_test_candidates(file@),
{
    let base = if str_ends_with(file, ".tsx") {
        strip_suffix_or_keep(file, ".tsx")
    } else {
        strip_suffix_or_keep(file, ".ts")
    };
    let r = vec![
        concat(base.as_str(), ".test.ts"),
        concat(base.as_str(), ".spec.ts"),
        concat(base.as_str(), ".test.tsx"),
        concat(base.as_str(), ".spec.tsx"),
    ];
    assert(r@.map_values(|s: String| s@) =~= ts_test_candidates(file@));
    r
}

/// Whether a trimmed TypeScript comment opens a documentation block.
pub open spec fn ts_doc_block(text: Seq<char>) -> bool {
    starts_with(text, "/**"@) || starts_with(text, "/*!"@)
}

impl TypeScriptAdapter {
    /// Marks the functions of files with a `.test`/`.spec` file, marks
    /// `/**` and `/*!` comments as documentation, and attaches every comment
    /// to what it documents (leaving it as it was where nothing follows it).
    pub fn second_pass(&self, batch: &mut TableBatch, test_files: &Vec<String>)
        ensures
            functions_marked(
                old(batch).functions@,
                final(batch).functions@,
                |k: int| any_listed(
                    test_files@.map_values(|s: String| s@),
                    ts_test_candidates(old(batch).functions@[k].file@),
                ),
            ),
            comments_resolved(
                old(batch).comments@,
                final(batch).comments@,
                old(batch).functions@,
                old(batch).structs@,
                |k: int| old(batch).comments@[k].is_doc || ts_doc_block(trim(old(batch).comments@[k].text@)),
                true,
            ),
            final(batch).current_file == old(batch).current_file,
            final(batch).calls == old(batch).calls,
            final(batch).imports == old(batch).imports,
            final(batch).structs == old(batch).structs,
            final(batch).variables == old(batch).variables,
    {
        let ghost tv = test_files@.map_values(|s: String| s@);
        let ghost fs0 = batch.functions@;
        let mut marks: Vec<bool> = Vec::new();
        let mut k: usize = 0;
        while k < batch.functions.len()
            invariant
                tv == test_files@.map_values(|s: String| s@),
                fs0 == batch.functions@,
                k <= fs0.len(),
                marks@.len() == k,
                forall|j: int| 0 <= j < k ==> marks@[j] == any_listed(tv, ts_test_candidates(#[trigger] fs0[j].file@)),
            decreases fs0.len() - k,
        {
            let cands = ts_candidates(batch.functions[k].file.as_str());
            marks.push(any_is_listed(test_files, &cands));
            k = k + 1;
        }
        let ghost b1 = *batch;
        mark_functions(batch, &marks);
        assert(fdefs(batch.functions@) =~= fdefs(b1.functions@)) by {
            assert forall|j: int| 0 <= j < b1.functions@.len() implies fdefs(batch.functions@)[j] == fdefs(
                b1.functions@,
            )[j] by {
                assert(batch.functions@[j] == with_has_test(b1.functions@[j], b1.functions@[j].has_test || marks@[j]));
            }
        }
        let mut docs: Vec<bool> = Vec::new();
        let mut m: usize = 0;
        while m < batch.comments.len()
            invariant
                docs@.len() == m,
                m <= batch.comments@.len(),
                forall|j: int| 0 <= j < m ==> docs@[j] == ((#[trigger] batch.comments@[j]).is_doc || ts_doc_block(trim(batch.comments@[j].text@))),
            decreases batch.comments.len() - m,
        {
            let c = &batch.comments[m];
            let text = trimmed(c.text.as_str());
            docs.push(c.is_doc || str_starts_with(text.as_str(), "/**") || str_starts_with(text.as_str(), "/*!"));
            m = m + 1;
        }
        resolve_comments(batch, &docs, true);
    }
}

// ---------------------------------------------------------------------------
// Which file names are test files.
// ---------------------------------------------------------------------------

/// A Rust test file: `*_test.rs`, or any file under a `tests` directory.
pub open spec fn rust_test_file(name: Seq<char>, under_tests: bool) -> bool {
    ends_with(name, "_test.rs"@) || under_tests
}

/// A Python test file: `test_*.py` or `*_test.py`.
pub open spec fn python_test_file(name: Seq<char>) -> bool {
    (starts_with(name, "test_"@) && ends_with(name, ".py"@)) || ends_with(name, "_test.py"@)
}

/// A TypeScript test file: `*.test.ts`, `*.spec.ts`, `*.test.tsx` or
/// `*.spec.tsx`.
pub open spec fn ts_test_file(name: Seq<char>) -> bool {
    ends_with(name, ".test.ts"@) || ends_with(name, ".spec.ts"@) || ends_with(name, ".test.tsx"@)
        || ends_with(name, ".spec.tsx"@)
}

impl RustAdapter {
    /// Whether a file named `name`, under a `tests` directory or not, is a
    /// test file.
    pub fn is_test_file(name: &str, under_tests: bool) -> (r: bool)
        ensures
            r == rust_test_file(name@, under_tests),
    {
        str_ends_with(name, "_test.rs") || under_tests
    }
}

impl PythonAdapter {
    /// Whether a file named `name` is a test file.
    pub fn is_test_file(name: &str) -> (r: bool)
        ensures
            r == python_test_file(name@),
    {
        (str_starts_with(name, "test_") && str_ends_with(name, ".py")) || str_ends_with(name, "_test.py")
    }
}

impl TypeScriptAdapter {
    /// Whether a file named `name` is a test file.
    pub fn is_test_file(name: &str) -> (r: bool)
        ensures
            r == ts_test_file(name@),
    {
        str_ends_with(name, ".test.ts") || str_ends_with(name, ".spec.ts") || str_ends_with(
            name,
            ".test.tsx",
        ) || str_ends_with(name, ".spec.tsx")
    }
}

// ---------------------------------------------------------------------------
// The pass of whichever adapter.
// ---------------------------------------------------------------------------

/// What the language pass of `a` makes of batch `b`, given the test files:
/// Go has none and leaves the batch as it is.
pub open spec fn language_pass(a: Adapter, b: TableBatch, c: TableBatch, tests: Seq<Seq<char>>) -> bool {
    &&& c.current_file == b.current_file
    &&& c.calls == b.calls
    &&& c.imports == b.imports
    &&& c.structs == b.structs
    &&& c.variables == b.variables
    &&& match a {
        Adapter::Go => c.functions == b.functions && c.comments == b.comments,
        Adapter::Rust => {
            &&& functions_marked(b.functions@, c.functions@, |k: int| rust_tested(b.functions@[k].file@, tests))
            &&& comments_resolved(b.comments@, c.comments@, b.functions@, b.structs@, |k: int| b.comments@[k].is_doc, false)
        },
        Adapter::Python => {
            &&& functions_marked(
                b.functions@,
                c.functions@,
                |k: int| any_listed(tests, python_test_candidates(b.functions@[k].file@)),
            )
            &&& comments_resolved(
                b.comments@,
                c.comments@,
                b.functions@,
                b.structs@,
                |k: int| b.comments@[k].is_doc || starts_with(trim(b.comments@[k].text@), "#:"@),
                true,
            )
        },
        Adapter::TypeScript => {
            &&& functions_marked(
                b.functions@,
                c.functions@,
                |k: int| any_listed(tests, ts_test_candidates(b.functions@[k].file@)),
            )
            &&& comments_resolved(
                b.comments@,
                c.comments@,
                b.functions@,
                b.structs@,
                |k: int| b.comments@[k].is_doc || ts_doc_block(trim(b.comments@[k].text@)),
                true,
            )
        },
    }
}

impl Adapter {
    /// Runs the language pass of this adapter over `batch`, with the names
    /// of the test files found under the root.
    pub fn second_pass(&self, batch: &mut TableBatch, test_files: &Vec<String>)
        ensures
            language_pass(*self, *old(batch), *final(batch), test_files@.map_values(|s: String| s@)),
    {
        match self {
            Adapter::Go => {},
            Adapter::Rust => RustAdapter.second_pass(batch, test_files),
            Adapter::Python => PythonAdapter.second_pass(batch, test_files),
            Adapter::TypeScript => TypeScriptAdapter.second_pass(batch, test_files),
        }
    }
}

} // verus!
