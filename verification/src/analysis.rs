//! The second pass over a whole batch: which functions have tests, the
//! normalized `implements` lists, and which definition each comment
//! documents.

use std::collections::HashMap;
use vstd::prelude::*;
use crate::rows::{CommentRow, FunctionRow, StructRow, TableBatch};
use crate::text::{
    chars_of, ends_with, ends_with_exec, last_segment, lower, lower_range, plain_dirs, plain_name,
    push_char, push_str, rfind, starts_with, starts_with_exec, trim, trim_bounds,
};

verus! {

broadcast use vstd::std_specs::hash::group_hash_axioms;

// ---------------------------------------------------------------------------
// The pass as a whole.
// ---------------------------------------------------------------------------

/// Whether `b` is `a` with its `implements` list normalized.
pub open spec fn implements_normalized(a: StructRow, b: StructRow) -> bool {
    &&& b.file == a.file
    &&& b.line == a.line
    &&& b.name == a.name
    &&& b.field_count == a.field_count
    &&& b.visibility == a.visibility
    &&& b.implements@ == normalize_csv(a.implements@)
}

/// Whether `b` is the batch that the second pass makes of `a`: `has_test`
/// set for every function a test of its package points at, every
/// `implements` list normalized, every comment attached to the definition it
/// documents; nothing else changes.
pub open spec fn second_pass_result(a: TableBatch, b: TableBatch) -> bool {
    &&& b.current_file == a.current_file
    &&& b.functions@ == resolve_has_test_spec(a.functions@)
    &&& b.calls == a.calls
    &&& b.imports == a.imports
    &&& b.variables == a.variables
    &&& b.structs@.len() == a.structs@.len()
    &&& forall|i: int|
        #![trigger b.structs@[i]]
        0 <= i < a.structs@.len() ==> implements_normalized(a.structs@[i], b.structs@[i])
    &&& b.comments@.len() == a.comments@.len()
    &&& forall|i: int|
        #![trigger b.comments@[i]]
        0 <= i < a.comments@.len() ==> attached(
            a.comments@[i],
            b.comments@[i],
            attachment(
                fdefs(a.functions@),
                sdefs(a.structs@),
                a.comments@[i].file@,
                a.comments@[i].line as int,
            ),
        )
}

/// Resolves what needs the whole batch: which functions have tests, the
/// normalized `implements` lists, and which definition each comment documents.
pub fn second_pass(batch: &mut TableBatch)
    ensures
        second_pass_result(*old(batch), *final(batch)),
{
    let ghost a = *batch;
    resolve_has_test(batch);
    resolve_implements(batch);
    proof {
        lemma_fdefs_resolved(a.functions@);
        assert(sdefs(batch.structs@) =~= sdefs(a.structs@)) by {
            assert forall|i: int| 0 <= i < a.structs@.len() implies sdefs(batch.structs@)[i]
                == sdefs(a.structs@)[i] by {
                assert(implements_normalized(a.structs@[i], batch.structs@[i]));
            }
        }
    }
    resolve_comment_attachments(batch);
}

/// Setting `has_test` leaves what comments attach to unchanged.
proof fn lemma_fdefs_resolved(fs: Seq<FunctionRow>)
    ensures
        fdefs(resolve_has_test_spec(fs)) == fdefs(fs),
{
    assert(fdefs(resolve_has_test_spec(fs)) =~= fdefs(fs));
}

/// `tested` reads only names and files, which `has_test` leaves alone.
proof fn lemma_tested_resolved(fs: Seq<FunctionRow>, i: int)
    requires
        0 <= i < fs.len(),
    ensures
        tested(resolve_has_test_spec(fs), i) == tested(fs, i),
{
    let r = resolve_has_test_spec(fs);
    if tested(fs, i) {
        let j = choose|j: int|
            #![trigger fs[j]]
            0 <= j < fs.len() && test_key_spec(fs[j].name@) == Some(lower(fs[i].name@))
                && path_parent(fs[j].file@) == path_parent(fs[i].file@);
        assert(r[j].name == fs[j].name && r[j].file == fs[j].file);
    }
    if tested(r, i) {
        let j = choose|j: int|
            #![trigger r[j]]
            0 <= j < r.len() && test_key_spec(r[j].name@) == Some(lower(r[i].name@))
                && path_parent(r[j].file@) == path_parent(r[i].file@);
        assert(r[j].name == fs[j].name && r[j].file == fs[j].file);
    }
}

/// Running the second pass on its own result changes nothing: the same
/// functions, calls, imports and variables, and structs and comments that
/// agree in every field.
pub proof fn lemma_second_pass_idempotent(a: TableBatch, b: TableBatch, c: TableBatch)
    requires
        second_pass_result(a, b),
        second_pass_result(b, c),
    ensures
        c.current_file == b.current_file,
        c.functions@ == b.functions@,
        c.calls == b.calls,
        c.imports == b.imports,
        c.variables == b.variables,
        c.structs@.len() == b.structs@.len(),
        forall|i: int|
            #![trigger c.structs@[i]]
            0 <= i < b.structs@.len() ==> {
                &&& c.structs@[i].file == b.structs@[i].file
                &&& c.structs@[i].line == b.structs@[i].line
                &&& c.structs@[i].name == b.structs@[i].name
                &&& c.structs@[i].field_count == b.structs@[i].field_count
                &&& c.structs@[i].visibility == b.structs@[i].visibility
                &&& c.structs@[i].implements@ == b.structs@[i].implements@
            },
        c.comments@.len() == b.comments@.len(),
        forall|i: int|
            #![trigger c.comments@[i]]
            0 <= i < b.comments@.len() ==> {
                &&& c.comments@[i].file == b.comments@[i].file
                &&& c.comments@[i].line == b.comments@[i].line
                &&& c.comments@[i].text == b.comments@[i].text
                &&& c.comments@[i].is_doc == b.comments@[i].is_doc
                &&& c.comments@[i].attached_to@ == b.comments@[i].attached_to@
            },
{
    let fs = a.functions@;
    let r = resolve_has_test_spec(fs);
    assert(resolve_has_test_spec(r) =~= r) by {
        assert forall|i: int| 0 <= i < r.len() implies resolve_has_test_spec(r)[i] == r[i] by {
            lemma_tested_resolved(fs, i);
        }
    }
    lemma_fdefs_resolved(fs);
    assert(sdefs(b.structs@) =~= sdefs(a.structs@)) by {
        assert forall|i: int| 0 <= i < a.structs@.len() implies sdefs(b.structs@)[i]
            == sdefs(a.structs@)[i] by {
            assert(implements_normalized(a.structs@[i], b.structs@[i]));
        }
    }
    assert forall|i: int| 0 <= i < b.structs@.len() implies c.structs@[i].implements@
        == b.structs@[i].implements@ by {
        assert(implements_normalized(a.structs@[i], b.structs@[i]));
        assert(implements_normalized(b.structs@[i], c.structs@[i]));
        lemma_normalize_csv_idempotent(a.structs@[i].implements@);
    }
    assert forall|i: int| 0 <= i < b.comments@.len() implies c.comments@[i].attached_to@
        == b.comments@[i].attached_to@ by {
        assert(attached(a.comments@[i], b.comments@[i], attachment(fdefs(a.functions@), sdefs(a.structs@), a.comments@[i].file@, a.comments@[i].line as int)));
        assert(attached(b.comments@[i], c.comments@[i], attachment(fdefs(b.functions@), sdefs(b.structs@), b.comments@[i].file@, b.comments@[i].line as int)));
    }
}

// ---------------------------------------------------------------------------
// Keys and hashing.
// ---------------------------------------------------------------------------

/// What `Path::parent` gives for a file path, as text (`""` where there is no
/// parent).
pub uninterp spec fn path_parent(file: Seq<char>) -> Seq<char>;

/// The directory part of a file path: `Path::new(file).parent()`, as a
/// string, or `""` where the path has no parent. As the documentation of
/// `Path::parent` says, a plain name alone has the parent `""`, and a plain
/// name after a relative directory path of plain names has that directory
/// path as its parent. Of other paths only the name `path_parent` is
/// claimed.
#[verifier::external_body]
fn parent_dir(file: &str) -> (r: String)
    ensures
        r@ == path_parent(file@),
        rfind(file@, seq!['/']) is None && plain_name(file@) ==> r@ == Seq::<char>::empty(),
        rfind(file@, seq!['/']) matches Some(k) ==> (plain_dirs(file@.subrange(0, k)) && plain_name(
            last_segment(file@),
        ) ==> r@ == file@.subrange(0, k)),
{
    match std::path::Path::new(file).parent() {
        Some(parent) => parent.to_string_lossy().into_owned(),
        None => String::new(),
    }
}

/// The package that a file belongs to: its parent directory.
pub fn package_key(file: &str) -> (r: String)
    ensures
        r@ == path_parent(file@),
        rfind(file@, seq!['/']) is None && plain_name(file@) ==> r@ == Seq::<char>::empty(),
        rfind(file@, seq!['/']) matches Some(k) ==> (plain_dirs(file@.subrange(0, k)) && plain_name(
            last_segment(file@),
        ) ==> r@ == file@.subrange(0, k)),
{
    parent_dir(file)
}

/// The key under which a function name is looked up: its ASCII lower case.
pub fn function_key(name: &str) -> (r: String)
    ensures
        r@ == lower(name@),
{
    let v = chars_of(name);
    let r = lower_range(&v, 0, v.len());
    assert(v@.subrange(0, v@.len() as int) =~= v@);
    r
}

/// The function that a test's name points at, lower-cased: `test_add`,
/// `add_test` and `TestAdd` all point at `add`; `Test` alone points nowhere.
pub open spec fn test_key_spec(name: Seq<char>) -> Option<Seq<char>> {
    if starts_with(name, "test_"@) {
        Some(lower(name.subrange(5, name.len() as int)))
    } else if ends_with(name, "_test"@) {
        Some(lower(name.subrange(0, name.len() - 5)))
    } else if starts_with(name, "Test"@) {
        if name.len() == 4 {
            None
        } else {
            Some(lower(name.subrange(4, name.len() as int)))
        }
    } else {
        None
    }
}

pub fn test_key(name: &str) -> (r: Option<String>)
    ensures
        match test_key_spec(name@) {
            Some(k) => match r {
                Some(x) => x@ == k,
                None => false,
            },
            None => r is None,
        },
{
    let v = chars_of(name);
    proof {
        reveal_strlit("test_");
        reveal_strlit("_test");
        reveal_strlit("Test");
    }
    if starts_with_exec(&v, "test_") {
        return Some(lower_range(&v, 5, v.len()));
    }
    if ends_with_exec(&v, "_test") {
        return Some(lower_range(&v, 0, v.len() - 5));
    }
    if starts_with_exec(&v, "Test") {
        if v.len() == 4 {
            return None;
        }
        return Some(lower_range(&v, 4, v.len()));
    }
    None
}

pub open spec fn hash_step(h: u64, c: char) -> u64 {
    (((h as int) * 1099511628211 + (c as u32 as int)) % 0x1_0000_0000_0000_0000) as u64
}

/// An FNV-style hash of a text, used to bucket rows by file.
pub open spec fn text_hash(s: Seq<char>) -> u64
    decreases s.len(),
{
    if s.len() == 0 {
        14695981039346656037u64
    } else {
        hash_step(text_hash(s.drop_last()), s.last())
    }
}

fn hash_text(s: &str) -> (h: u64)
    ensures
        h == text_hash(s@),
{
    let v = chars_of(s);
    let mut h: u64 = 14695981039346656037u64;
    let mut k: usize = 0;
    while k < v.len()
        invariant
            k <= v.len(),
            v@ == s@,
            h == text_hash(v@.take(k as int)),
        decreases v.len() - k,
    {
        assert(v@.take(k + 1).drop_last() =~= v@.take(k as int));
        let c = v[k];
        h = (((h as u128) * 1099511628211u128 + (c as u32) as u128) % 0x1_0000_0000_0000_0000u128) as u64;
        k = k + 1;
    }
    assert(v@.take(k as int) =~= v@);
    h
}

/// Groups row indices by key: each key maps to the increasing list of the
/// indices whose key it is; rows without a key are left out.
pub open spec fn grouped(m: Map<u64, Vec<usize>>, keys: Seq<Option<u64>>) -> bool {
    &&& forall|k: u64, j: int|
        #![trigger m[k]@[j]]
        m.contains_key(k) && 0 <= j < m[k]@.len() ==> m[k]@[j] < keys.len() && keys[m[k]@[j] as int]
            == Some(k)
    &&& forall|k: u64, j1: int, j2: int|
        #![trigger m[k]@[j1], m[k]@[j2]]
        m.contains_key(k) && 0 <= j1 < j2 < m[k]@.len() ==> m[k]@[j1] < m[k]@[j2]
    &&& forall|i: int|
        #![trigger keys[i]]
        0 <= i < keys.len() && keys[i] is Some ==> m.contains_key(keys[i]->Some_0) && m[keys[i]->Some_0]@.contains(i as usize)
}

fn group_rows(keys: &Vec<Option<u64>>) -> (m: HashMap<u64, Vec<usize>>)
    ensures
        grouped(m@, keys@),
{
    let mut m: HashMap<u64, Vec<usize>> = HashMap::new();
    let mut i: usize = 0;
    while i < keys.len()
        invariant
            i <= keys.len(),
            grouped(m@, keys@.take(i as int)),
            forall|k: u64, j: int| #![trigger m@[k]@[j]]
                m@.contains_key(k) && 0 <= j < m@[k]@.len() ==> m@[k]@[j] < i,
        decreases keys.len() - i,
    {
        let ghost before = m@;
        let ghost kt = keys@.take(i as int);
        let ghost kt2 = keys@.take(i + 1);
        assert(forall|x: int| 0 <= x < i ==> kt2[x] == kt[x]);
        match keys[i] {
            None => {},
            Some(h) => {
                let bucket = match m.remove(&h) {
                    Some(mut b) => {
                        b.push(i);
                        b
                    },
                    None => {
                        let mut b: Vec<usize> = Vec::new();
                        b.push(i);
                        b
                    },
                };
                m.insert(h, bucket);
                proof {
                    assert(m@ == before.insert(h, bucket));
                    assert forall|x: int|
                        #![trigger kt2[x]]
                        0 <= x < kt2.len() && kt2[x] is Some implies m@.contains_key(kt2[x]->Some_0)
                        && m@[kt2[x]->Some_0]@.contains(x as usize) by {
                        if x < i {
                            assert(kt[x] == kt2[x]);
                            let k2 = kt2[x]->Some_0;
                            if k2 == h {
                                let p = choose|p: int| 0 <= p < before[h]@.len() && before[h]@[p] == x as usize;
                                assert(bucket@[p] == x as usize);
                            } else {
                                assert(before[k2]@.contains(x as usize));
                            }
                        } else {
                            assert(bucket@[bucket@.len() - 1] == i);
                        }
                    }
                }
            },
        }
        assert(grouped(m@, kt2));
        i = i + 1;
    }
    assert(keys@.take(i as int) =~= keys@);
    m
}

// ---------------------------------------------------------------------------
// has_test
// ---------------------------------------------------------------------------

/// Whether some function of the batch is a test, in the same package, for the
/// function at `i`.
pub open spec fn tested(fs: Seq<FunctionRow>, i: int) -> bool {
    exists|j: int|
        #![trigger fs[j]]
        0 <= j < fs.len() && test_key_spec(fs[j].name@) == Some(lower(fs[i].name@)) && path_parent(
            fs[j].file@,
        ) == path_parent(fs[i].file@)
}

pub open spec fn with_has_test(f: FunctionRow, h: bool) -> FunctionRow {
    FunctionRow {
        file: f.file,
        line: f.line,
        name: f.name,
        visibility: f.visibility,
        param_count: f.param_count,
        return_type: f.return_type,
        complexity: f.complexity,
        has_test: h,
    }
}

/// The functions after `has_test` is set on every function that a test of its
/// package points at.
pub open spec fn resolve_has_test_spec(fs: Seq<FunctionRow>) -> Seq<FunctionRow> {
    Seq::new(fs.len(), |i: int| with_has_test(fs[i], fs[i].has_test || tested(fs, i)))
}

fn copy_function(f: &FunctionRow, has_test: bool) -> (r: FunctionRow)
    ensures
        r == with_has_test(*f, has_test),
{
    FunctionRow {
        file: f.file.clone(),
        line: f.line,
        name: f.name.clone(),
        visibility: f.visibility.clone(),
        param_count: f.param_count,
        return_type: f.return_type.clone(),
        complexity: f.complexity,
        has_test,
    }
}

fn resolve_has_test(batch: &mut TableBatch)
    ensures
        final(batch).functions@ == resolve_has_test_spec(old(batch).functions@),
        final(batch).current_file == old(batch).current_file,
        final(batch).calls == old(batch).calls,
        final(batch).imports == old(batch).imports,
        final(batch).structs == old(batch).structs,
        final(batch).variables == old(batch).variables,
        final(batch).comments == old(batch).comments,
{
    let fs = &batch.functions;
    let n = fs.len();
    let mut test_keys: Vec<Option<String>> = Vec::new();
    let mut packages: Vec<String> = Vec::new();
    let mut hashes: Vec<Option<u64>> = Vec::new();
    let mut i: usize = 0;
    while i < n
        invariant
            n == fs.len(),
            i <= n,
            test_keys.len() == i,
            packages.len() == i,
            hashes.len() == i,
            forall|j: int| #![trigger test_keys@[j]] 0 <= j < i ==> match test_key_spec(fs@[j].name@) {
                Some(k) => test_keys@[j] matches Some(x) && x@ == k && hashes@[j] == Some(text_hash(k)),
                None => test_keys@[j] is None && hashes@[j] is None,
            },
            forall|j: int| #![trigger packages@[j]] 0 <= j < i ==> packages@[j]@ == path_parent(fs@[j].file@),
        decreases n - i,
    {
        let key = test_key(fs[i].name.as_str());
        let h = match &key {
            Some(k) => Some(hash_text(k.as_str())),
            None => None,
        };
        test_keys.push(key);
        hashes.push(h);
        packages.push(package_key(fs[i].file.as_str()));
        i = i + 1;
    }
    let buckets = group_rows(&hashes);

    let mut updated: Vec<FunctionRow> = Vec::new();
    let mut i: usize = 0;
    while i < n
        invariant
            n == fs.len(),
            i <= n,
            test_keys.len() == n,
            packages.len() == n,
            hashes.len() == n,
            forall|j: int| #![trigger test_keys@[j]] 0 <= j < n ==> match test_key_spec(fs@[j].name@) {
                Some(k) => test_keys@[j] matches Some(x) && x@ == k && hashes@[j] == Some(text_hash(k)),
                None => test_keys@[j] is None && hashes@[j] is None,
            },
            forall|j: int| #![trigger packages@[j]] 0 <= j < n ==> packages@[j]@ == path_parent(fs@[j].file@),
            grouped(buckets@, hashes@),
            updated@.len() == i,
            forall|j: int| 0 <= j < i ==> #[trigger] updated@[j] == resolve_has_test_spec(fs@)[j],
        decreases n - i,
    {
        let key = function_key(fs[i].name.as_str());
        let h = hash_text(key.as_str());
        let mut found = false;
        match buckets.get(&h) {
            None => {
                proof {
                    assert forall|j: int| 0 <= j < n implies !(test_key_spec(fs@[j].name@) == Some(lower(fs@[i as int].name@))) by {
                        if test_key_spec(fs@[j].name@) == Some(lower(fs@[i as int].name@)) {
                            assert(test_keys@[j] is Some);
                            assert(hashes@[j] == Some(h));
                        }
                    }
                }
            },
            Some(bucket) => {
                let mut t: usize = 0;
                while t < bucket.len()
                    invariant
                        t <= bucket.len(),
                        n == fs.len(),
                        i < n,
                        key@ == lower(fs@[i as int].name@),
                        buckets@.contains_key(h),
                        bucket == buckets@[h],
                        test_keys.len() == n,
                        packages.len() == n,
                        hashes.len() == n,
                        forall|j: int| #![trigger test_keys@[j]] 0 <= j < n ==> match test_key_spec(fs@[j].name@) {
                            Some(k) => test_keys@[j] matches Some(x) && x@ == k && hashes@[j] == Some(text_hash(k)),
                            None => test_keys@[j] is None && hashes@[j] is None,
                        },
                        forall|j: int| #![trigger packages@[j]] 0 <= j < n ==> packages@[j]@ == path_parent(fs@[j].file@),
                        grouped(buckets@, hashes@),
                        found ==> tested(fs@, i as int),
                        !found ==> forall|p: int| 0 <= p < t ==> {
                            let j = #[trigger] bucket@[p] as int;
                            !(test_key_spec(fs@[j].name@) == Some(lower(fs@[i as int].name@)) && path_parent(fs@[j].file@) == path_parent(fs@[i as int].file@))
                        },
                    decreases bucket.len() - t,
                {
                    let j = bucket[t];
                    assert(j < n);
                    let same_key = match &test_keys[j] {
                        Some(k) => *k == key,
                        None => false,
                    };
                    if same_key && packages[j] == packages[i] {
                        assert(fs@[j as int] == fs@[j as int]);
                        found = true;
                    }
                    t = t + 1;
                }
                proof {
                    if !found {
                        assert forall|j: int| 0 <= j < n implies !(test_key_spec(fs@[j].name@) == Some(lower(fs@[i as int].name@)) && path_parent(fs@[j].file@) == path_parent(fs@[i as int].file@)) by {
                            if test_key_spec(fs@[j].name@) == Some(lower(fs@[i as int].name@)) && path_parent(fs@[j].file@) == path_parent(fs@[i as int].file@) {
                                assert(test_keys@[j] is Some);
                                assert(hashes@[j] == Some(h));
                                assert(bucket@.contains(j as usize));
                                let p = choose|p: int| 0 <= p < bucket@.len() && bucket@[p] == j as usize;
                                assert(bucket@[p] == j as usize);
                            }
                        }
                    }
                }
            },
        }
        let has_test = fs[i].has_test || found;
        let row = copy_function(&fs[i], has_test);
        updated.push(row);
        i = i + 1;
    }
    assert(updated@ =~= resolve_has_test_spec(fs@));
    batch.functions = updated;
}

// ---------------------------------------------------------------------------
// implements
// ---------------------------------------------------------------------------

/// `s` split at every `c`, as `str::split` gives it (always at least one part).
pub open spec fn split_on(s: Seq<char>, c: char) -> Seq<Seq<char>>
    decreases s.len(),
{
    if s.len() == 0 {
        seq![Seq::<char>::empty()]
    } else {
        let parts = split_on(s.drop_last(), c);
        if s.last() == c {
            parts.push(Seq::empty())
        } else {
            parts.update(parts.len() - 1, parts.last().push(s.last()))
        }
    }
}

/// The trimmed, non-empty parts, each kept at its first occurrence only.
pub open spec fn distinct_fields(parts: Seq<Seq<char>>) -> Seq<Seq<char>>
    decreases parts.len(),
{
    if parts.len() == 0 {
        Seq::empty()
    } else {
        let prev = distinct_fields(parts.drop_last());
        let x = trim(parts.last());
        if x.len() == 0 || prev.contains(x) {
            prev
        } else {
            prev.push(x)
        }
    }
}

/// The items joined with the separator `sep`.
pub open spec fn join_with(items: Seq<Seq<char>>, sep: char) -> Seq<char>
    decreases items.len(),
{
    if items.len() == 0 {
        Seq::empty()
    } else if items.len() == 1 {
        items[0]
    } else {
        join_with(items.drop_last(), sep).push(sep) + items.last()
    }
}

/// The strings joined with the separator `sep`.
pub fn join_strings(items: &Vec<String>, sep: char) -> (r: String)
    ensures
        r@ == join_with(items@.map_values(|s: String| s@), sep),
{
    let ghost iv = items@.map_values(|s: String| s@);
    let mut out = String::new();
    let mut k: usize = 0;
    while k < items.len()
        invariant
            k <= items.len(),
            iv == items@.map_values(|s: String| s@),
            out@ == join_with(iv.take(k as int), sep),
        decreases items.len() - k,
    {
        assert(iv.take(k + 1).drop_last() =~= iv.take(k as int));
        let ghost before = out@;
        if k > 0 {
            push_char(&mut out, sep);
        }
        push_str(&mut out, items[k].as_str());
        proof {
            if k == 0 {
                assert(before =~= Seq::<char>::empty());
                assert(out@ =~= iv.take(1)[0]);
            } else {
                assert(out@ =~= join_with(iv.take(k as int), sep).push(sep) + iv.take(k + 1).last());
            }
        }
        k = k + 1;
    }
    assert(iv.take(k as int) =~= iv);
    out
}

/// A comma-separated list with its items trimmed, empty items dropped and
/// repeated items kept once, in order of first appearance.
pub open spec fn normalize_csv(s: Seq<char>) -> Seq<char> {
    join_with(distinct_fields(split_on(s, ',')), ',')
}

pub proof fn lemma_split_on_len(s: Seq<char>, c: char)
    ensures
        split_on(s, c).len() >= 1,
    decreases s.len(),
{
    if s.len() > 0 {
        lemma_split_on_len(s.drop_last(), c);
    }
}

/// Text without the separator `c` splits into itself alone.
proof fn lemma_split_without_sep(s: Seq<char>, c: char)
    requires
        !s.contains(c),
    ensures
        split_on(s, c) == seq![s],
    decreases s.len(),
{
    if s.len() > 0 {
        assert(!s.drop_last().contains(c)) by {
            if s.drop_last().contains(c) {
                let k = choose|k: int| 0 <= k < s.drop_last().len() && s.drop_last()[k] == c;
                assert(s[k] == c);
            }
        }
        lemma_split_without_sep(s.drop_last(), c);
        assert(s.last() != c) by {
            assert(s[s.len() - 1] == s.last());
        }
        assert(s.drop_last().push(s.last()) =~= s);
        assert(seq![s.drop_last()].update(0, seq![s.drop_last()].last().push(s.last())) =~= seq![s]);
    } else {
        assert(s =~= Seq::<char>::empty());
    }
}

/// Appending text without the separator extends the last part.
proof fn lemma_split_append(a: Seq<char>, b: Seq<char>, c: char)
    requires
        !b.contains(c),
    ensures
        split_on(a + b, c) == split_on(a, c).update(
            split_on(a, c).len() - 1,
            split_on(a, c).last() + b,
        ),
    decreases b.len(),
{
    lemma_split_on_len(a, c);
    if b.len() == 0 {
        assert(a + b =~= a);
        assert(split_on(a, c).last() + b =~= split_on(a, c).last());
        assert(split_on(a, c).update(split_on(a, c).len() - 1, split_on(a, c).last())
            =~= split_on(a, c));
    } else {
        let b0 = b.drop_last();
        assert(!b0.contains(c)) by {
            if b0.contains(c) {
                let k = choose|k: int| 0 <= k < b0.len() && b0[k] == c;
                assert(b[k] == c);
            }
        }
        lemma_split_append(a, b0, c);
        assert((a + b).drop_last() =~= a + b0);
        assert((a + b).last() == b.last());
        assert(b.last() != c) by {
            assert(b[b.len() - 1] == b.last());
        }
        lemma_split_on_len(a + b0, c);
        let p = split_on(a, c);
        assert(split_on(a + b0, c).last() == p.last() + b0);
        assert((p.last() + b0).push(b.last()) =~= p.last() + b);
        assert(split_on(a + b, c) =~= p.update(p.len() - 1, p.last() + b));
    }
}

/// Joining parts that do not hold the separator and splitting again gives the
/// parts back.
proof fn lemma_split_join(items: Seq<Seq<char>>, c: char)
    requires
        items.len() >= 1,
        forall|k: int| 0 <= k < items.len() ==> !(#[trigger] items[k]).contains(c),
    ensures
        split_on(join_with(items, c), c) == items,
    decreases items.len(),
{
    if items.len() == 1 {
        lemma_split_without_sep(items[0], c);
        assert(items =~= seq![items[0]]);
    } else {
        let init = items.drop_last();
        assert forall|k: int| 0 <= k < init.len() implies !(#[trigger] init[k]).contains(c) by {
            assert(init[k] == items[k]);
        }
        lemma_split_join(init, c);
        let j = join_with(init, c);
        assert(j.push(c).drop_last() =~= j);
        assert(j.push(c).last() == c);
        assert(split_on(j.push(c), c) == split_on(j, c).push(Seq::empty()));
        assert(!items.last().contains(c)) by {
            assert(items[items.len() - 1] == items.last());
        }
        lemma_split_append(j.push(c), items.last(), c);
        assert(Seq::<char>::empty() + items.last() =~= items.last());
        assert(split_on(j, c).push(Seq::empty()).update(init.len() as int, items.last())
            =~= items);
    }
}

/// No part of a split holds the separator.
proof fn lemma_split_parts(s: Seq<char>, c: char)
    ensures
        forall|k: int|
            0 <= k < split_on(s, c).len() ==> !(#[trigger] split_on(s, c)[k]).contains(c),
    decreases s.len(),
{
    if s.len() > 0 {
        lemma_split_parts(s.drop_last(), c);
        lemma_split_on_len(s.drop_last(), c);
        let parts = split_on(s.drop_last(), c);
        if s.last() != c {
            let l = parts.last();
            assert(!l.contains(c)) by {
                assert(parts[parts.len() - 1] == l);
            }
            assert forall|k: int|
                0 <= k < split_on(s, c).len() implies !(#[trigger] split_on(s, c)[k]).contains(c) by {
                if k == parts.len() - 1 {
                    if l.push(s.last()).contains(c) {
                        let m = choose|m: int| 0 <= m < l.push(s.last()).len() && l.push(s.last())[m] == c;
                        if m < l.len() {
                            assert(l[m] == c);
                        }
                    }
                } else {
                    assert(split_on(s, c)[k] == parts[k]);
                }
            }
        } else {
            assert forall|k: int|
                0 <= k < split_on(s, c).len() implies !(#[trigger] split_on(s, c)[k]).contains(c) by {
                if k < parts.len() {
                    assert(split_on(s, c)[k] == parts[k]);
                }
            }
        }
    }
}

/// Whether the items are what `distinct_fields` keeps: trimmed, non-empty,
/// without the separator, and each once.
pub open spec fn clean_fields(items: Seq<Seq<char>>, c: char) -> bool {
    &&& items.no_duplicates()
    &&& forall|k: int|
        #![trigger items[k]]
        0 <= k < items.len() ==> {
            &&& items[k].len() > 0
            &&& trim(items[k]) == items[k]
            &&& !items[k].contains(c)
        }
}

/// The fields that `distinct_fields` keeps of parts without the separator
/// are clean.
proof fn lemma_distinct_fields_clean(parts: Seq<Seq<char>>, c: char)
    requires
        forall|k: int| 0 <= k < parts.len() ==> !(#[trigger] parts[k]).contains(c),
    ensures
        clean_fields(distinct_fields(parts), c),
    decreases parts.len(),
{
    if parts.len() > 0 {
        let init = parts.drop_last();
        assert forall|k: int| 0 <= k < init.len() implies !(#[trigger] init[k]).contains(c) by {
            assert(init[k] == parts[k]);
        }
        lemma_distinct_fields_clean(init, c);
        let prev = distinct_fields(init);
        let x = trim(parts.last());
        if !(x.len() == 0 || prev.contains(x)) {
            crate::text::lemma_trim_idempotent(parts.last());
            crate::text::lemma_trim_shape(parts.last());
            let (lo, hi) = choose|lo: int, hi: int|
                0 <= lo <= hi <= parts.last().len() && x == parts.last().subrange(lo, hi);
            assert(!x.contains(c)) by {
                assert(!parts.last().contains(c)) by {
                    assert(parts[parts.len() - 1] == parts.last());
                }
                if x.contains(c) {
                    let m = choose|m: int| 0 <= m < x.len() && x[m] == c;
                    assert(parts.last()[lo + m] == c);
                }
            }
            let next = prev.push(x);
            assert forall|a: int, b: int| 0 <= a < next.len() && 0 <= b < next.len() && a != b implies
                next[a] != next[b] by {
                if a == prev.len() {
                    assert(next[b] == prev[b]);
                } else if b == prev.len() {
                    assert(next[a] == prev[a]);
                } else {
                    assert(next[a] == prev[a] && next[b] == prev[b]);
                }
            }
            assert forall|k: int| #![trigger next[k]] 0 <= k < next.len() implies {
                &&& next[k].len() > 0
                &&& trim(next[k]) == next[k]
                &&& !next[k].contains(c)
            } by {
                if k < prev.len() {
                    assert(next[k] == prev[k]);
                }
            }
        }
    }
}

/// Clean fields are kept as they are.
proof fn lemma_distinct_fields_fixed(items: Seq<Seq<char>>, c: char)
    requires
        clean_fields(items, c),
    ensures
        distinct_fields(items) == items,
    decreases items.len(),
{
    if items.len() > 0 {
        let init = items.drop_last();
        assert(clean_fields(init, c)) by {
            assert forall|a: int, b: int| 0 <= a < init.len() && 0 <= b < init.len() && a != b implies
                init[a] != init[b] by {
                assert(init[a] == items[a] && init[b] == items[b]);
            }
            assert forall|k: int| #![trigger init[k]] 0 <= k < init.len() implies {
                &&& init[k].len() > 0
                &&& trim(init[k]) == init[k]
                &&& !init[k].contains(c)
            } by {
                assert(init[k] == items[k]);
            }
        }
        lemma_distinct_fields_fixed(init, c);
        let l = items.last();
        assert(items[items.len() - 1] == l);
        assert(!init.contains(l)) by {
            if init.contains(l) {
                let k = choose|k: int| 0 <= k < init.len() && init[k] == l;
                assert(items[k] == items[items.len() - 1]);
            }
        }
        assert(init.push(l) =~= items);
    }
}

/// Normalizing a list twice is normalizing it once.
pub proof fn lemma_normalize_csv_idempotent(s: Seq<char>)
    ensures
        normalize_csv(normalize_csv(s)) == normalize_csv(s),
{
    let items = distinct_fields(split_on(s, ','));
    lemma_split_parts(s, ',');
    lemma_distinct_fields_clean(split_on(s, ','), ',');
    if items.len() == 0 {
        assert(join_with(items, ',') =~= Seq::<char>::empty());
        assert(split_on(Seq::<char>::empty(), ',') == seq![Seq::<char>::empty()]);
        assert(seq![Seq::<char>::empty()].drop_last() =~= Seq::<Seq<char>>::empty());
        assert(trim(Seq::<char>::empty()) =~= Seq::<char>::empty()) by {
            crate::text::lemma_trim_fixed(Seq::<char>::empty());
        }
        let one = seq![Seq::<char>::empty()];
        assert(one.last() == Seq::<char>::empty());
        assert(distinct_fields(one.drop_last()) =~= Seq::<Seq<char>>::empty());
        assert(distinct_fields(one) =~= Seq::<Seq<char>>::empty());
    } else {
        lemma_split_join(items, ',');
        lemma_distinct_fields_fixed(items, ',');
    }
}

fn contains_field(items: &Vec<Vec<char>>, x: &Vec<char>) -> (r: bool)
    ensures
        r == items@.map_values(|v: Vec<char>| v@).contains(x@),
{
    let ghost iv = items@.map_values(|v: Vec<char>| v@);
    let mut k: usize = 0;
    while k < items.len()
        invariant
            k <= items.len(),
            iv == items@.map_values(|v: Vec<char>| v@),
            forall|j: int| 0 <= j < k ==> iv[j] != x@,
        decreases items.len() - k,
    {
        if crate::text::chars_equal(&items[k], x) {
            assert(iv[k as int] == x@);
            return true;
        }
        k = k + 1;
    }
    false
}

/// Trims each item of a comma-separated list, drops empty items and keeps
/// each item once, at its first appearance.
pub fn normalize_csv_list(value: &str) -> (r: String)
    ensures
        r@ == normalize_csv(value@),
{
    let v = chars_of(value);
    let ghost s = v@;
    let mut items: Vec<Vec<char>> = Vec::new();
    let mut start: usize = 0;
    let mut k: usize = 0;
    assert(s.take(0) =~= Seq::<char>::empty());
    assert(items@.map_values(|v: Vec<char>| v@) =~= Seq::<Seq<char>>::empty());
    assert(split_on(s.take(0), ',').drop_last() =~= Seq::<Seq<char>>::empty());
    while k <= v.len()
        invariant
            s == v@,
            s == value@,
            start <= k <= v.len(),
            split_on(s.take(k as int), ',').last() == s.subrange(start as int, k as int),
            distinct_fields(split_on(s.take(k as int), ',').drop_last())
                == items@.map_values(|v: Vec<char>| v@),
        decreases v.len() + 1 - k,
    {
        let ghost parts = split_on(s.take(k as int), ',');
        proof {
            lemma_split_on_len(s.take(k as int), ',');
        }
        if k == v.len() || v[k] == ',' {
            // The field `v[start..k]` is complete.
            let ghost before = items@.map_values(|v: Vec<char>| v@);
            let mut field: Vec<char> = Vec::new();
            let lo_hi = trim_bounds_range(&v, start, k);
            let lo = lo_hi.0;
            let hi = lo_hi.1;
            let mut m = lo;
            while m < hi
                invariant
                    lo <= m <= hi <= v.len(),
                    field@ == v@.subrange(lo as int, m as int),
                decreases hi - m,
            {
                field.push(v[m]);
                m = m + 1;
            }
            let x = field;
            assert(x@ == trim(s.subrange(start as int, k as int)));
            if x.len() != 0 && !contains_field(&items, &x) {
                items.push(x);
                assert(items@.map_values(|v: Vec<char>| v@) =~= before.push(x@));
            }
            proof {
                assert(distinct_fields(parts) == items@.map_values(|v: Vec<char>| v@)) by {
                    assert(parts.drop_last().push(parts.last()) =~= parts);
                }
                if k < v.len() {
                    assert(s.take(k + 1).drop_last() =~= s.take(k as int));
                    assert(split_on(s.take(k + 1), ',') == parts.push(Seq::empty()));
                    assert(split_on(s.take(k + 1), ',').drop_last() =~= parts);
                    assert(s.subrange(k + 1, k + 1) =~= Seq::<char>::empty());
                } else {
                    assert(s.take(k as int) =~= s);
                }
            }
            if k == v.len() {
                return join_fields(&items);
            }
            k = k + 1;
            start = k;
        } else {
            proof {
                assert(s.take(k + 1).drop_last() =~= s.take(k as int));
                let p2 = split_on(s.take(k + 1), ',');
                assert(p2 == parts.update(parts.len() - 1, parts.last().push(s[k as int])));
                assert(p2.drop_last() =~= parts.drop_last());
                assert(p2.last() =~= s.subrange(start as int, k + 1));
            }
            k = k + 1;
        }
    }
    join_fields(&items)
}

/// The bounds of `v[lo..hi]` without surrounding white space.
fn trim_bounds_range(v: &Vec<char>, lo: usize, hi: usize) -> (r: (usize, usize))
    requires
        lo <= hi <= v.len(),
    ensures
        lo <= r.0 <= r.1 <= hi,
        v@.subrange(r.0 as int, r.1 as int) == trim(v@.subrange(lo as int, hi as int)),
{
    let mut w: Vec<char> = Vec::new();
    let mut m = lo;
    while m < hi
        invariant
            lo <= m <= hi <= v.len(),
            w@ == v@.subrange(lo as int, m as int),
        decreases hi - m,
    {
        w.push(v[m]);
        m = m + 1;
    }
    let (a, b) = trim_bounds(&w);
    proof {
        assert(w@.subrange(a as int, b as int) =~= v@.subrange(lo + a, lo + b));
    }
    (lo + a, lo + b)
}

fn join_fields(items: &Vec<Vec<char>>) -> (r: String)
    ensures
        r@ == join_with(items@.map_values(|v: Vec<char>| v@), ','),
{
    let ghost iv = items@.map_values(|v: Vec<char>| v@);
    let mut out = String::new();
    let mut k: usize = 0;
    while k < items.len()
        invariant
            k <= items.len(),
            iv == items@.map_values(|v: Vec<char>| v@),
            out@ == join_with(iv.take(k as int), ','),
        decreases items.len() - k,
    {
        assert(iv.take(k + 1).drop_last() =~= iv.take(k as int));
        let ghost before = out@;
        if k > 0 {
            push_char(&mut out, ',');
        }
        let item = &items[k];
        let mut m: usize = 0;
        while m < item.len()
            invariant
                m <= item.len(),
                out@ == (if k > 0 { before.push(',') } else { before }) + item@.take(m as int),
            decreases item.len() - m,
        {
            push_char(&mut out, item[m]);
            m = m + 1;
            assert(((if k > 0 { before.push(',') } else { before }) + item@.take(m - 1)).push(item@[m - 1])
                =~= (if k > 0 { before.push(',') } else { before }) + item@.take(m as int));
        }
        assert(item@.take(m as int) =~= item@);
        proof {
            if k == 0 {
                assert(before =~= Seq::<char>::empty());
                assert(out@ =~= iv.take(1)[0]);
            }
        }
        k = k + 1;
    }
    assert(iv.take(k as int) =~= iv);
    out
}

fn resolve_implements(batch: &mut TableBatch)
    ensures
        final(batch).structs@.len() == old(batch).structs@.len(),
        forall|i: int|
            #![trigger final(batch).structs@[i]]
            0 <= i < old(batch).structs@.len() ==> implements_normalized(
                old(batch).structs@[i],
                final(batch).structs@[i],
            ),
        final(batch).current_file == old(batch).current_file,
        final(batch).functions == old(batch).functions,
        final(batch).calls == old(batch).calls,
        final(batch).imports == old(batch).imports,
        final(batch).variables == old(batch).variables,
        final(batch).comments == old(batch).comments,
{
    let ss = &batch.structs;
    let mut updated: Vec<StructRow> = Vec::new();
    let mut i: usize = 0;
    while i < ss.len()
        invariant
            i <= ss.len(),
            updated@.len() == i,
            forall|j: int|
                #![trigger updated@[j]]
                0 <= j < i ==> {
                    let a = ss@[j];
                    let b = updated@[j];
                    &&& b.file == a.file
                    &&& b.line == a.line
                    &&& b.name == a.name
                    &&& b.field_count == a.field_count
                    &&& b.visibility == a.visibility
                    &&& b.implements@ == normalize_csv(a.implements@)
                },
        decreases ss.len() - i,
    {
        let row = &ss[i];
        updated.push(
            StructRow {
                file: row.file.clone(),
                line: row.line,
                name: row.name.clone(),
                field_count: row.field_count,
                visibility: row.visibility.clone(),
                implements: normalize_csv_list(row.implements.as_str()),
            },
        );
        i = i + 1;
    }
    batch.structs = updated;
}

// ---------------------------------------------------------------------------
// Comment attachment
// ---------------------------------------------------------------------------

/// A definition as the attachment rule sees it.
pub struct DefV {
    pub file: Seq<char>,
    pub line: int,
    pub name: Seq<char>,
}

pub open spec fn fdef(f: FunctionRow) -> DefV {
    DefV { file: f.file@, line: f.line as int, name: f.name@ }
}

pub open spec fn sdef(s: StructRow) -> DefV {
    DefV { file: s.file@, line: s.line as int, name: s.name@ }
}

pub open spec fn fdefs(fs: Seq<FunctionRow>) -> Seq<DefV> {
    fs.map_values(|f: FunctionRow| fdef(f))
}

pub open spec fn sdefs(ss: Seq<StructRow>) -> Seq<DefV> {
    ss.map_values(|s: StructRow| sdef(s))
}

/// Whether `d` is declared in `file` after `line`.
pub open spec fn follows(d: DefV, file: Seq<char>, line: int) -> bool {
    d.file == file && d.line > line
}

/// Whether `ds[j]` is the first of the nearest definitions after `line` in
/// `file`.
pub open spec fn is_nearest(ds: Seq<DefV>, file: Seq<char>, line: int, j: int) -> bool {
    &&& 0 <= j < ds.len()
    &&& follows(ds[j], file, line)
    &&& forall|k: int| 0 <= k < ds.len() && follows(#[trigger] ds[k], file, line) ==> ds[j].line <= ds[k].line
    &&& forall|k: int| 0 <= k < j && follows(#[trigger] ds[k], file, line) ==> ds[j].line < ds[k].line
}

/// The index of the nearest definition after `line` in `file`, the first one
/// where several share a line.
pub open spec fn nearest(ds: Seq<DefV>, file: Seq<char>, line: int) -> Option<int> {
    if exists|j: int| is_nearest(ds, file, line, j) {
        Some(choose|j: int| is_nearest(ds, file, line, j))
    } else {
        None
    }
}

pub proof fn lemma_nearest_unique(ds: Seq<DefV>, file: Seq<char>, line: int, j1: int, j2: int)
    requires
        is_nearest(ds, file, line, j1),
        is_nearest(ds, file, line, j2),
    ensures
        j1 == j2,
{
    assert(follows(ds[j1], file, line));
    assert(follows(ds[j2], file, line));
}

/// The name a comment at `line` of `file` attaches to: the nearest function or
/// struct declared after it in the same file, the function where both are on
/// the same line; empty where none follows.
pub open spec fn attachment(fds: Seq<DefV>, sds: Seq<DefV>, file: Seq<char>, line: int) -> Seq<char> {
    match (nearest(fds, file, line), nearest(sds, file, line)) {
        (Some(f), None) => fds[f].name,
        (None, Some(s)) => sds[s].name,
        (Some(f), Some(s)) => if fds[f].line <= sds[s].line {
            fds[f].name
        } else {
            sds[s].name
        },
        (None, None) => Seq::empty(),
    }
}

/// Whether `b` is `a` with `attached_to` set to `name`.
pub open spec fn attached(a: CommentRow, b: CommentRow, name: Seq<char>) -> bool {
    &&& b.file == a.file
    &&& b.line == a.line
    &&& b.text == a.text
    &&& b.is_doc == a.is_doc
    &&& b.attached_to@ == name
}

fn nearest_function(
    fs: &Vec<FunctionRow>,
    hashes: &Vec<Option<u64>>,
    buckets: &HashMap<u64, Vec<usize>>,
    file: &String,
    line: usize,
) -> (r: Option<usize>)
    requires
        hashes.len() == fs.len(),
        forall|i: int| #![trigger hashes@[i]] 0 <= i < fs.len() ==> hashes@[i] == Some(text_hash(fs@[i].file@)),
        grouped(buckets@, hashes@),
    ensures
        match r {
            Some(j) => is_nearest(fdefs(fs@), file@, line as int, j as int),
            None => forall|k: int| 0 <= k < fs.len() ==> !follows(#[trigger] fdefs(fs@)[k], file@, line as int),
        },
{
    let ghost ds = fdefs(fs@);
    let h = hash_text(file.as_str());
    match buckets.get(&h) {
        None => {
            proof {
                assert forall|k: int| 0 <= k < fs.len() implies !follows(#[trigger] ds[k], file@, line as int) by {
                    if follows(ds[k], file@, line as int) {
                        assert(hashes@[k] == Some(h));
                    }
                }
            }
            None
        },
        Some(bucket) => {
            let mut best: Option<usize> = None;
            let mut t: usize = 0;
            while t < bucket.len()
                invariant
                    t <= bucket.len(),
                    ds == fdefs(fs@),
                    hashes.len() == fs.len(),
                    grouped(buckets@, hashes@),
                    buckets@.contains_key(h),
                    bucket == buckets@[h],
                    match best {
                        Some(j) => {
                            &&& j < fs.len()
                            &&& follows(ds[j as int], file@, line as int)
                            &&& exists|p: int| 0 <= p < t && bucket@[p] == j
                            &&& forall|p: int| 0 <= p < t && follows(#[trigger] ds[bucket@[p] as int], file@, line as int)
                                ==> ds[j as int].line <= ds[bucket@[p] as int].line && (bucket@[p] < j ==> ds[j as int].line < ds[bucket@[p] as int].line)
                        },
                        None => forall|p: int| 0 <= p < t ==> !follows(#[trigger] ds[bucket@[p] as int], file@, line as int),
                    },
                decreases bucket.len() - t,
            {
                let j = bucket[t];
                assert(j < fs.len());
                let candidate = fs[j].file == *file && fs[j].line > line;
                proof {
                    assert(ds[j as int] == fdef(fs@[j as int]));
                }
                if candidate {
                    match best {
                        None => {
                            best = Some(j);
                        },
                        Some(b) => {
                            if fs[j].line < fs[b].line {
                                proof {
                                    assert(ds[b as int] == fdef(fs@[b as int]));
                                    let pb = choose|p: int| 0 <= p < t && bucket@[p] == b;
                                    assert forall|p: int| 0 <= p < t + 1 && follows(#[trigger] ds[bucket@[p] as int], file@, line as int)
                                        implies ds[j as int].line <= ds[bucket@[p] as int].line && (bucket@[p] < j ==> ds[j as int].line < ds[bucket@[p] as int].line) by {
                                        if p < t {
                                            assert(bucket@[p] < bucket@[t as int]);
                                        }
                                    }
                                }
                                best = Some(j);
                            } else {
                                proof {
                                    assert(ds[b as int] == fdef(fs@[b as int]));
                                    let pb = choose|p: int| 0 <= p < t && bucket@[p] == b;
                                    assert(bucket@[pb] < bucket@[t as int]);
                                }
                            }
                        },
                    }
                }
                t = t + 1;
            }
            proof {
                match best {
                    Some(j) => {
                        assert forall|k: int| 0 <= k < ds.len() && follows(#[trigger] ds[k], file@, line as int)
                            implies ds[j as int].line <= ds[k].line && (k < j ==> ds[j as int].line < ds[k].line) by {
                            assert(hashes@[k] == Some(h));
                            assert(bucket@.contains(k as usize));
                            let p = choose|p: int| 0 <= p < bucket@.len() && bucket@[p] == k as usize;
                            assert(ds[bucket@[p] as int] == ds[k]);
                        }
                    },
                    None => {
                        assert forall|k: int| 0 <= k < fs.len() implies !follows(#[trigger] ds[k], file@, line as int) by {
                            if follows(ds[k], file@, line as int) {
                                assert(hashes@[k] == Some(h));
                                assert(bucket@.contains(k as usize));
                                let p = choose|p: int| 0 <= p < bucket@.len() && bucket@[p] == k as usize;
                                assert(ds[bucket@[p] as int] == ds[k]);
                            }
                        }
                    },
                }
            }
            best
        },
    }
}

fn nearest_struct(
    fs: &Vec<StructRow>,
    hashes: &Vec<Option<u64>>,
    buckets: &HashMap<u64, Vec<usize>>,
    file: &String,
    line: usize,
) -> (r: Option<usize>)
    requires
        hashes.len() == fs.len(),
        forall|i: int| #![trigger hashes@[i]] 0 <= i < fs.len() ==> hashes@[i] == Some(text_hash(fs@[i].file@)),
        grouped(buckets@, hashes@),
    ensures
        match r {
            Some(j) => is_nearest(sdefs(fs@), file@, line as int, j as int),
            None => forall|k: int| 0 <= k < fs.len() ==> !follows(#[trigger] sdefs(fs@)[k], file@, line as int),
        },
{
    let ghost ds = sdefs(fs@);
    let h = hash_text(file.as_str());
    match buckets.get(&h) {
        None => {
            proof {
                assert forall|k: int| 0 <= k < fs.len() implies !follows(#[trigger] ds[k], file@, line as int) by {
                    if follows(ds[k], file@, line as int) {
                        assert(hashes@[k] == Some(h));
                    }
                }
            }
            None
        },
        Some(bucket) => {
            let mut best: Option<usize> = None;
            let mut t: usize = 0;
            while t < bucket.len()
                invariant
                    t <= bucket.len(),
                    ds == sdefs(fs@),
                    hashes.len() == fs.len(),
                    grouped(buckets@, hashes@),
                    buckets@.contains_key(h),
                    bucket == buckets@[h],
                    match best {
                        Some(j) => {
                            &&& j < fs.len()
                            &&& follows(ds[j as int], file@, line as int)
                            &&& exists|p: int| 0 <= p < t && bucket@[p] == j
                            &&& forall|p: int| 0 <= p < t && follows(#[trigger] ds[bucket@[p] as int], file@, line as int)
                                ==> ds[j as int].line <= ds[bucket@[p] as int].line && (bucket@[p] < j ==> ds[j as int].line < ds[bucket@[p] as int].line)
                        },
                        None => forall|p: int| 0 <= p < t ==> !follows(#[trigger] ds[bucket@[p] as int], file@, line as int),
                    },
                decreases bucket.len() - t,
            {
                let j = bucket[t];
                assert(j < fs.len());
                let candidate = fs[j].file == *file && fs[j].line > line;
                proof {
                    assert(ds[j as int] == sdef(fs@[j as int]));
                }
                if candidate {
                    match best {
                        None => {
                            best = Some(j);
                        },
                        Some(b) => {
                            if fs[j].line < fs[b].line {
                                proof {
                                    assert(ds[b as int] == sdef(fs@[b as int]));
                                    let pb = choose|p: int| 0 <= p < t && bucket@[p] == b;
                                    assert forall|p: int| 0 <= p < t + 1 && follows(#[trigger] ds[bucket@[p] as int], file@, line as int)
                                        implies ds[j as int].line <= ds[bucket@[p] as int].line && (bucket@[p] < j ==> ds[j as int].line < ds[bucket@[p] as int].line) by {
                                        if p < t {
                                            assert(bucket@[p] < bucket@[t as int]);
                                        }
                                    }
                                }
                                best = Some(j);
                            } else {
                                proof {
                                    assert(ds[b as int] == sdef(fs@[b as int]));
                                    let pb = choose|p: int| 0 <= p < t && bucket@[p] == b;
                                    assert(bucket@[pb] < bucket@[t as int]);
                                }
                            }
                        },
                    }
                }
                t = t + 1;
            }
            proof {
                match best {
                    Some(j) => {
                        assert forall|k: int| 0 <= k < ds.len() && follows(#[trigger] ds[k], file@, line as int)
                            implies ds[j as int].line <= ds[k].line && (k < j ==> ds[j as int].line < ds[k].line) by {
                            assert(hashes@[k] == Some(h));
                            assert(bucket@.contains(k as usize));
                            let p = choose|p: int| 0 <= p < bucket@.len() && bucket@[p] == k as usize;
                            assert(ds[bucket@[p] as int] == ds[k]);
                        }
                    },
                    None => {
                        assert forall|k: int| 0 <= k < fs.len() implies !follows(#[trigger] ds[k], file@, line as int) by {
                            if follows(ds[k], file@, line as int) {
                                assert(hashes@[k] == Some(h));
                                assert(bucket@.contains(k as usize));
                                let p = choose|p: int| 0 <= p < bucket@.len() && bucket@[p] == k as usize;
                                assert(ds[bucket@[p] as int] == ds[k]);
                            }
                        }
                    },
                }
            }
            best
        },
    }
}

/// Sets `attached_to` on every comment: the name of the nearest function or
/// struct declared after it in the same file (the function where both are on
/// the same line, the first where several share a line), or empty.
fn resolve_comment_attachments(batch: &mut TableBatch)
    ensures
        final(batch).comments@.len() == old(batch).comments@.len(),
        forall|i: int|
            #![trigger final(batch).comments@[i]]
            0 <= i < old(batch).comments@.len() ==> attached(
                old(batch).comments@[i],
                final(batch).comments@[i],
                attachment(
                    fdefs(old(batch).functions@),
                    sdefs(old(batch).structs@),
                    old(batch).comments@[i].file@,
                    old(batch).comments@[i].line as int,
                ),
            ),
        final(batch).current_file == old(batch).current_file,
        final(batch).functions == old(batch).functions,
        final(batch).calls == old(batch).calls,
        final(batch).imports == old(batch).imports,
        final(batch).structs == old(batch).structs,
        final(batch).variables == old(batch).variables,
{
    let fs = &batch.functions;
    let ss = &batch.structs;
    let cs = &batch.comments;
    let ghost fds = fdefs(fs@);
    let ghost sds = sdefs(ss@);

    let mut fhashes: Vec<Option<u64>> = Vec::new();
    let mut i: usize = 0;
    while i < fs.len()
        invariant
            i <= fs.len(),
            fhashes.len() == i,
            forall|j: int| #![trigger fhashes@[j]] 0 <= j < i ==> fhashes@[j] == Some(text_hash(fs@[j].file@)),
        decreases fs.len() - i,
    {
        fhashes.push(Some(hash_text(fs[i].file.as_str())));
        i = i + 1;
    }
    let fbuckets = group_rows(&fhashes);

    let mut shashes: Vec<Option<u64>> = Vec::new();
    let mut i: usize = 0;
    while i < ss.len()
        invariant
            i <= ss.len(),
            shashes.len() == i,
            forall|j: int| #![trigger shashes@[j]] 0 <= j < i ==> shashes@[j] == Some(text_hash(ss@[j].file@)),
        decreases ss.len() - i,
    {
        shashes.push(Some(hash_text(ss[i].file.as_str())));
        i = i + 1;
    }
    let sbuckets = group_rows(&shashes);

    let mut updated: Vec<CommentRow> = Vec::new();
    let mut i: usize = 0;
    while i < cs.len()
        invariant
            i <= cs.len(),
            fds == fdefs(fs@),
            sds == sdefs(ss@),
            fhashes.len() == fs.len(),
            shashes.len() == ss.len(),
            forall|j: int| #![trigger fhashes@[j]] 0 <= j < fs.len() ==> fhashes@[j] == Some(text_hash(fs@[j].file@)),
            forall|j: int| #![trigger shashes@[j]] 0 <= j < ss.len() ==> shashes@[j] == Some(text_hash(ss@[j].file@)),
            grouped(fbuckets@, fhashes@),
            grouped(sbuckets@, shashes@),
            updated@.len() == i,
            forall|j: int|
                #![trigger updated@[j]]
                0 <= j < i ==> attached(
                    cs@[j],
                    updated@[j],
                    attachment(fds, sds, cs@[j].file@, cs@[j].line as int),
                ),
        decreases cs.len() - i,
    {
        let c = &cs[i];
        let nf = nearest_function(fs, &fhashes, &fbuckets, &c.file, c.line);
        let ns = nearest_struct(ss, &shashes, &sbuckets, &c.file, c.line);
        let ghost file = c.file@;
        let ghost line = c.line as int;
        proof {
            match nf {
                Some(j) => {
                    lemma_nearest_any(fds, file, line, j as int);
                },
                None => {
                    lemma_nearest_none(fds, file, line);
                },
            }
            match ns {
                Some(j) => {
                    lemma_nearest_any(sds, file, line, j as int);
                },
                None => {
                    lemma_nearest_none(sds, file, line);
                },
            }
        }
        let name = match (nf, ns) {
            (Some(f), None) => fs[f].name.clone(),
            (None, Some(s)) => ss[s].name.clone(),
            (Some(f), Some(s)) => if fs[f].line <= ss[s].line {
                fs[f].name.clone()
            } else {
                ss[s].name.clone()
            },
            (None, None) => String::new(),
        };
        updated.push(
            CommentRow {
                file: c.file.clone(),
                line: c.line,
                text: c.text.clone(),
                attached_to: name,
                is_doc: c.is_doc,
            },
        );
        i = i + 1;
    }
    batch.comments = updated;
}

pub proof fn lemma_nearest_any(ds: Seq<DefV>, file: Seq<char>, line: int, j: int)
    requires
        is_nearest(ds, file, line, j),
    ensures
        nearest(ds, file, line) == Some(j),
{
    let c = choose|x: int| is_nearest(ds, file, line, x);
    lemma_nearest_unique(ds, file, line, j, c);
}

pub proof fn lemma_nearest_none(ds: Seq<DefV>, file: Seq<char>, line: int)
    requires
        forall|k: int| 0 <= k < ds.len() ==> !follows(#[trigger] ds[k], file, line),
    ensures
        nearest(ds, file, line) is None,
{
}


/// The second pass marks a function as tested exactly when it was marked
/// already, or some function whose test key names it lies in the same
/// package (the same parent directory): a test in another directory does
/// not mark it.
pub proof fn lemma_has_test_same_package(a: TableBatch, b: TableBatch, i: int)
    requires
        second_pass_result(a, b),
        0 <= i < a.functions@.len(),
    ensures
        b.functions@.len() == a.functions@.len(),
        b.functions@[i].has_test <==> (a.functions@[i].has_test || exists|j: int|
            #![trigger a.functions@[j]]
            0 <= j < a.functions@.len() && test_key_spec(a.functions@[j].name@) == Some(
                lower(a.functions@[i].name@),
            ) && path_parent(a.functions@[j].file@) == path_parent(a.functions@[i].file@)),
{
}

} // verus!
