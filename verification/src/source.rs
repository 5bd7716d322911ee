//! Which files are source files, which languages a tree holds, snapshots of
//! modification times, and the per-file cache entries.

use vstd::prelude::*;
use crate::adapter::LanguageAdapter;
use crate::adapters::{
    adapter_for, adapter_for_path, extension_text, find_adapter, path_extension, registry,
};
use crate::analysis::{second_pass, second_pass_result};
use crate::rows::{no_tables, tables_append, TableBatch, Tables};
use crate::text::{last_segment, name_extension, owned, plain_name, push_str};

verus! {

/// Whether some adapter reads the file at `path`.
pub fn is_source_file(path: &str) -> (r: bool)
    ensures
        r == (adapter_for(path@) is Some),
        plain_name(last_segment(path@)) ==> r == match name_extension(last_segment(path@)) {
            Some(ext) => find_adapter(registry(), seq!['.'] + ext) is Some,
            None => false,
        },
{
    adapter_for_path(path).is_some()
}

/// The directories that a walk always skips, ignore files or not.
pub open spec fn default_ignored_dirs() -> Seq<Seq<char>> {
    seq![
        "target"@,
        "node_modules"@,
        ".venv"@,
        "venv"@,
        ".git"@,
        "vendor"@,
        "dist"@,
        "build"@,
        "__pycache__"@,
    ]
}

/// Whether a directory named `name` is always skipped.
pub fn is_default_ignored(name: &str) -> (r: bool)
    ensures
        r == default_ignored_dirs().contains(name@),
{
    let dirs: Vec<&str> = vec![
        "target",
        "node_modules",
        ".venv",
        "venv",
        ".git",
        "vendor",
        "dist",
        "build",
        "__pycache__",
    ];
    let ghost dv = dirs@.map_values(|d: &str| d@);
    assert(dv =~= default_ignored_dirs());
    let mut k: usize = 0;
    while k < dirs.len()
        invariant
            dv == dirs@.map_values(|d: &str| d@),
            dv == default_ignored_dirs(),
            k <= dirs@.len(),
            forall|m: int| 0 <= m < k ==> dv[m] != name@,
        decreases dirs.len() - k,
    {
        if crate::text::same_text(dirs[k], name) {
            assert(dv[k as int] == name@);
            return true;
        }
        k = k + 1;
    }
    assert(!dv.contains(name@));
    false
}

/// Whether one of `paths` is read by the adapter of language `name`.
pub open spec fn language_present(paths: Seq<Seq<char>>, name: Seq<char>) -> bool {
    exists|k: int|
        0 <= k < paths.len() && match #[trigger] adapter_for(paths[k]) {
            Some(a) => a.name_spec() == name,
            None => false,
        }
}

/// `name` where one of `paths` is in that language, else nothing.
pub open spec fn if_present(paths: Seq<Seq<char>>, name: Seq<char>) -> Seq<Seq<char>> {
    if language_present(paths, name) {
        seq![name]
    } else {
        Seq::empty()
    }
}

/// The languages of `paths`, each once, in order of name.
pub open spec fn languages_of(paths: Seq<Seq<char>>) -> Seq<Seq<char>> {
    if_present(paths, "go"@) + if_present(paths, "python"@) + if_present(paths, "rust"@)
        + if_present(paths, "typescript"@)
}

/// The languages of the files at `paths`, each once, sorted by name.
pub fn detect_languages(paths: &Vec<String>) -> (r: Vec<String>)
    ensures
        r@.map_values(|s: String| s@) == languages_of(paths@.map_values(|s: String| s@)),
{
    let ghost pv = paths@.map_values(|s: String| s@);
    let mut go = false;
    let mut python = false;
    let mut rust = false;
    let mut typescript = false;
    let mut k: usize = 0;
    while k < paths.len()
        invariant
            pv == paths@.map_values(|s: String| s@),
            k <= paths@.len(),
            go == language_present(pv.take(k as int), "go"@),
            python == language_present(pv.take(k as int), "python"@),
            rust == language_present(pv.take(k as int), "rust"@),
            typescript == language_present(pv.take(k as int), "typescript"@),
        decreases paths.len() - k,
    {
        let ghost prev = pv.take(k as int);
        let ghost next = pv.take(k + 1);
        assert(next =~= prev.push(pv[k as int]));
        proof {
            assert forall|name: Seq<char>| language_present(next, name) == (language_present(
                prev,
                name,
            ) || match adapter_for(pv[k as int]) {
                Some(a) => a.name_spec() == name,
                None => false,
            }) by {
                if language_present(next, name) {
                    let j = choose|j: int|
                        0 <= j < next.len() && match #[trigger] adapter_for(next[j]) {
                            Some(a) => a.name_spec() == name,
                            None => false,
                        };
                    if j < prev.len() {
                        assert(prev[j] == next[j]);
                    }
                }
                if language_present(prev, name) {
                    let j = choose|j: int|
                        0 <= j < prev.len() && match #[trigger] adapter_for(prev[j]) {
                            Some(a) => a.name_spec() == name,
                            None => false,
                        };
                    assert(next[j] == prev[j]);
                }
                if match adapter_for(pv[k as int]) {
                    Some(a) => a.name_spec() == name,
                    None => false,
                } {
                    assert(next[k as int] == pv[k as int]);
                }
            }
        }
        match adapter_for_path(paths[k].as_str()) {
            Some(a) => {
                let name = a.language_name();
                if crate::text::same_text(name, "go") {
                    go = true;
                }
                if crate::text::same_text(name, "python") {
                    python = true;
                }
                if crate::text::same_text(name, "rust") {
                    rust = true;
                }
                if crate::text::same_text(name, "typescript") {
                    typescript = true;
                }
            },
            None => {},
        }
        k = k + 1;
    }
    assert(pv.take(k as int) =~= pv);
    let mut out: Vec<String> = Vec::new();
    if go {
        out.push(owned("go"));
    }
    if python {
        out.push(owned("python"));
    }
    if rust {
        out.push(owned("rust"));
    }
    if typescript {
        out.push(owned("typescript"));
    }
    assert(out@.map_values(|s: String| s@) =~= languages_of(pv));
    out
}

/// When a file was last changed: before or after the Unix epoch, and how
/// far from it in whole seconds and the nanoseconds beyond.
#[derive(Clone, Copy, Debug, PartialEq, Eq, Structural)]
pub struct FileTime {
    pub before_epoch: bool,
    pub secs: u64,
    pub nanos: u32,
}

/// A file path with the time it was last changed.
pub struct FileStamp {
    pub path: String,
    pub modified: FileTime,
}

/// The modification times of the source files of a tree, by relative path;
/// each path at most once.
pub struct Snapshot {
    pub stamps: Vec<FileStamp>,
}

impl Snapshot {
    /// No path occurs twice.
    pub open spec fn wf(&self) -> bool {
        forall|a: int, b: int|
            0 <= a < b < self.stamps@.len() ==> #[trigger] self.stamps@[a].path@ != #[trigger] self.stamps@[b].path@
    }

    /// Whether `path` has a time in the snapshot.
    pub open spec fn has(&self, path: Seq<char>) -> bool {
        exists|k: int| 0 <= k < self.stamps@.len() && #[trigger] self.stamps@[k].path@ == path
    }

    /// The time of `path`.
    pub open spec fn time_of(&self, path: Seq<char>) -> FileTime {
        self.stamps@[choose|k: int| 0 <= k < self.stamps@.len() && #[trigger] self.stamps@[k].path@ == path].modified
    }

    /// The snapshot as a map from path to time.
    pub open spec fn as_map(&self) -> Map<Seq<char>, FileTime> {
        Map::new(|p: Seq<char>| self.has(p), |p: Seq<char>| self.time_of(p))
    }

    /// An empty snapshot.
    pub fn new() -> (r: Snapshot)
        ensures
            r.wf(),
            r.as_map() == Map::<Seq<char>, FileTime>::empty(),
    {
        let r = Snapshot { stamps: Vec::new() };
        assert(r.as_map() =~= Map::<Seq<char>, FileTime>::empty());
        r
    }

    /// The number of paths.
    pub fn len(&self) -> (r: usize)
        requires
            self.wf(),
        ensures
            r == self.stamps@.len(),
    {
        self.stamps.len()
    }

    /// The index of `path`, where it has a time.
    fn position(&self, path: &str) -> (r: Option<usize>)
        requires
            self.wf(),
        ensures
            match r {
                Some(k) => k < self.stamps@.len() && self.stamps@[k as int].path@ == path@,
                None => !self.has(path@),
            },
    {
        let mut k: usize = 0;
        while k < self.stamps.len()
            invariant
                k <= self.stamps@.len(),
                forall|j: int| 0 <= j < k ==> #[trigger] self.stamps@[j].path@ != path@,
            decreases self.stamps.len() - k,
        {
            if crate::text::same_text(self.stamps[k].path.as_str(), path) {
                return Some(k);
            }
            k = k + 1;
        }
        None
    }

    /// The time of `path`, where it has one.
    pub fn get(&self, path: &str) -> (r: Option<FileTime>)
        requires
            self.wf(),
        ensures
            match r {
                Some(t) => self.as_map().contains_key(path@) && self.as_map()[path@] == t,
                None => !self.as_map().contains_key(path@),
            },
    {
        match self.position(path) {
            Some(k) => {
                proof {
                    let c = choose|j: int| 0 <= j < self.stamps@.len() && #[trigger] self.stamps@[j].path@ == path@;
                    if c != k {
                        if c < k {
                            assert(self.stamps@[c].path@ != self.stamps@[k as int].path@);
                        } else {
                            assert(self.stamps@[k as int].path@ != self.stamps@[c].path@);
                        }
                    }
                }
                Some(self.stamps[k].modified)
            },
            None => None,
        }
    }

    /// Sets the time of `path`, replacing any it had.
    pub fn insert(&mut self, path: String, modified: FileTime)
        requires
            old(self).wf(),
        ensures
            final(self).wf(),
            final(self).as_map() == old(self).as_map().insert(path@, modified),
    {
        let ghost before = self.as_map();
        let ghost p = path@;
        match self.position(path.as_str()) {
            Some(k) => {
                let ghost old_stamps = self.stamps@;
                self.stamps.set(k, FileStamp { path, modified });
                proof {
                    assert forall|a: int, b: int|
                        0 <= a < b < self.stamps@.len() implies #[trigger] self.stamps@[a].path@
                        != #[trigger] self.stamps@[b].path@ by {
                        assert(old_stamps[a].path@ != old_stamps[b].path@);
                    }
                    assert forall|q: Seq<char>| self.has(q) == (before.contains_key(q) || q == p) by {
                        if self.has(q) {
                            let j = choose|j: int| 0 <= j < self.stamps@.len() && #[trigger] self.stamps@[j].path@ == q;
                            if j != k {
                                assert(old_stamps[j].path@ == q);
                            }
                        }
                        if before.contains_key(q) {
                            let j = choose|j: int| 0 <= j < old_stamps.len() && #[trigger] old_stamps[j].path@ == q;
                            if j != k {
                                assert(self.stamps@[j].path@ == q);
                            } else {
                                assert(self.stamps@[k as int].path@ == q);
                            }
                        }
                        if q == p {
                            assert(self.stamps@[k as int].path@ == q);
                        }
                    }
                    assert forall|q: Seq<char>| self.has(q) implies self.time_of(q) == before.insert(p, modified)[q] by {
                        let j = choose|j: int| 0 <= j < self.stamps@.len() && #[trigger] self.stamps@[j].path@ == q;
                        if q == p {
                            if j != k {
                                if j < k {
                                    assert(self.stamps@[j].path@ != self.stamps@[k as int].path@);
                                } else {
                                    assert(self.stamps@[k as int].path@ != self.stamps@[j].path@);
                                }
                            }
                        } else {
                            let c = choose|c: int| 0 <= c < old_stamps.len() && #[trigger] old_stamps[c].path@ == q;
                            assert(old_stamps[j].path@ == q);
                            if c != j {
                                if c < j {
                                    assert(old_stamps[c].path@ != old_stamps[j].path@);
                                } else {
                                    assert(old_stamps[j].path@ != old_stamps[c].path@);
                                }
                            }
                        }
                    }
                    assert(self.as_map() =~= before.insert(p, modified));
                }
            },
            None => {
                let ghost old_stamps = self.stamps@;
                self.stamps.push(FileStamp { path, modified });
                proof {
                    let n = old_stamps.len() as int;
                    assert forall|a: int, b: int|
                        0 <= a < b < self.stamps@.len() implies #[trigger] self.stamps@[a].path@
                        != #[trigger] self.stamps@[b].path@ by {
                        if b == n {
                            assert(old_stamps[a].path@ != p);
                        } else {
                            assert(old_stamps[a].path@ != old_stamps[b].path@);
                        }
                    }
                    assert forall|q: Seq<char>| self.has(q) == (before.contains_key(q) || q == p) by {
                        if self.has(q) {
                            let j = choose|j: int| 0 <= j < self.stamps@.len() && #[trigger] self.stamps@[j].path@ == q;
                            if j < n {
                                assert(old_stamps[j].path@ == q);
                            }
                        }
                        if before.contains_key(q) {
                            let j = choose|j: int| 0 <= j < old_stamps.len() && #[trigger] old_stamps[j].path@ == q;
                            assert(self.stamps@[j].path@ == q);
                        }
                        if q == p {
                            assert(self.stamps@[n].path@ == q);
                        }
                    }
                    assert forall|q: Seq<char>| self.has(q) implies self.time_of(q) == before.insert(p, modified)[q] by {
                        let j = choose|j: int| 0 <= j < self.stamps@.len() && #[trigger] self.stamps@[j].path@ == q;
                        if q == p {
                            if j < n {
                                assert(old_stamps[j].path@ == p);
                            }
                        } else {
                            assert(j < n);
                            let c = choose|c: int| 0 <= c < old_stamps.len() && #[trigger] old_stamps[c].path@ == q;
                            assert(old_stamps[j].path@ == q);
                            if c != j {
                                if c < j {
                                    assert(old_stamps[c].path@ != old_stamps[j].path@);
                                } else {
                                    assert(old_stamps[j].path@ != old_stamps[c].path@);
                                }
                            }
                        }
                    }
                    assert(self.as_map() =~= before.insert(p, modified));
                }
            },
        }
    }
}

/// Whether every path of `a` has the same time in `b`.
fn times_within(a: &Snapshot, b: &Snapshot) -> (r: bool)
    requires
        a.wf(),
        b.wf(),
    ensures
        r == (forall|p: Seq<char>| #[trigger] a.as_map().contains_key(p) ==> b.as_map().contains_key(p) && b.as_map()[p] == a.as_map()[p]),
{
    let mut k: usize = 0;
    while k < a.stamps.len()
        invariant
            a.wf(),
            b.wf(),
            k <= a.stamps@.len(),
            forall|j: int|
                0 <= j < k ==> b.as_map().contains_key(#[trigger] a.stamps@[j].path@) && b.as_map()[a.stamps@[j].path@]
                    == a.stamps@[j].modified,
        decreases a.stamps.len() - k,
    {
        let stamp = &a.stamps[k];
        match b.get(stamp.path.as_str()) {
            Some(t) => {
                if !(t == stamp.modified) {
                    proof {
                        lemma_time_at(a, k as int);
                    }
                    return false;
                }
            },
            None => {
                proof {
                    lemma_time_at(a, k as int);
                }
                return false;
            },
        }
        k = k + 1;
    }
    proof {
        assert forall|p: Seq<char>| #[trigger] a.as_map().contains_key(p) implies b.as_map().contains_key(p)
            && b.as_map()[p] == a.as_map()[p] by {
            let j = choose|j: int| 0 <= j < a.stamps@.len() && #[trigger] a.stamps@[j].path@ == p;
            lemma_time_at(a, j);
        }
    }
    true
}

/// In a snapshot without repeated paths, the time of the path at `k` is
/// the time stored at `k`.
proof fn lemma_time_at(a: &Snapshot, k: int)
    requires
        a.wf(),
        0 <= k < a.stamps@.len(),
    ensures
        a.as_map().contains_key(a.stamps@[k].path@),
        a.as_map()[a.stamps@[k].path@] == a.stamps@[k].modified,
{
    let p = a.stamps@[k].path@;
    assert(a.has(p));
    let c = choose|j: int| 0 <= j < a.stamps@.len() && #[trigger] a.stamps@[j].path@ == p;
    if c != k {
        if c < k {
            assert(a.stamps@[c].path@ != a.stamps@[k].path@);
        } else {
            assert(a.stamps@[k].path@ != a.stamps@[c].path@);
        }
    }
}

/// Whether two snapshots hold the same paths with the same times.
pub fn snapshots_equal(left: &Snapshot, right: &Snapshot) -> (r: bool)
    requires
        left.wf(),
        right.wf(),
    ensures
        r == (left.as_map() == right.as_map()),
{
    if left.len() != right.len() {
        proof {
            if left.as_map() == right.as_map() {
                lemma_len_of_map(left);
                lemma_len_of_map(right);
            }
        }
        return false;
    }
    let there = times_within(left, right);
    let back = times_within(right, left);
    proof {
        if there && back {
            assert(left.as_map() =~= right.as_map());
        }
    }
    there && back
}

/// A snapshot holds as many paths as its map.
proof fn lemma_len_of_map(a: &Snapshot)
    requires
        a.wf(),
    ensures
        a.as_map().dom().len() == a.stamps@.len(),
        a.as_map().dom().finite(),
{
    lemma_seq_dom_len(a.stamps@);
    assert(a.as_map().dom() =~= Set::new(
        |p: Seq<char>| exists|k: int| 0 <= k < a.stamps@.len() && #[trigger] a.stamps@[k].path@ == p,
    ));
}

/// The paths of stamps without repeats are as many as the stamps.
proof fn lemma_seq_dom_len(s: Seq<FileStamp>)
    requires
        forall|a: int, b: int| 0 <= a < b < s.len() ==> #[trigger] s[a].path@ != #[trigger] s[b].path@,
    ensures
        Set::new(|p: Seq<char>| exists|k: int| 0 <= k < s.len() && #[trigger] s[k].path@ == p).finite(),
        Set::new(|p: Seq<char>| exists|k: int| 0 <= k < s.len() && #[trigger] s[k].path@ == p).len() == s.len(),
    decreases s.len(),
{
    let d = Set::new(|p: Seq<char>| exists|k: int| 0 <= k < s.len() && #[trigger] s[k].path@ == p);
    if s.len() == 0 {
        assert(d =~= Set::<Seq<char>>::empty());
    } else {
        let rest = s.drop_last();
        let last = s.last().path@;
        let dr = Set::new(|p: Seq<char>| exists|k: int| 0 <= k < rest.len() && #[trigger] rest[k].path@ == p);
        assert forall|a: int, b: int| 0 <= a < b < rest.len() implies #[trigger] rest[a].path@ != #[trigger] rest[b].path@ by {
            assert(rest[a] == s[a] && rest[b] == s[b]);
        }
        lemma_seq_dom_len(rest);
        assert(d =~= dr.insert(last)) by {
            assert forall|p: Seq<char>| d.contains(p) implies dr.insert(last).contains(p) by {
                let j = choose|j: int| 0 <= j < s.len() && #[trigger] s[j].path@ == p;
                if j < s.len() - 1 {
                    assert(rest[j].path@ == p);
                }
            }
            assert forall|p: Seq<char>| dr.insert(last).contains(p) implies d.contains(p) by {
                if p == last {
                    assert(s[s.len() - 1].path@ == p);
                } else {
                    let j = choose|j: int| 0 <= j < rest.len() && #[trigger] rest[j].path@ == p;
                    assert(s[j].path@ == p);
                }
            }
        }
        assert(!dr.contains(last)) by {
            if dr.contains(last) {
                let j = choose|j: int| 0 <= j < rest.len() && #[trigger] rest[j].path@ == last;
                assert(s[j].path@ != s[s.len() - 1].path@);
            }
        }
    }
}

/// A file's rows as cached, with the modification time and length the file
/// had when they were read.
pub struct CachedFile {
    pub modified_secs: u64,
    pub modified_nanos: u32,
    pub len: u64,
    pub batch: TableBatch,
}

impl CachedFile {
    /// Whether the cached rows are still those of a file with this
    /// modification time and length.
    pub fn matches(&self, modified: (u64, u32), len: u64) -> (r: bool)
        ensures
            r == (self.modified_secs == modified.0 && self.modified_nanos == modified.1 && self.len
                == len),
    {
        self.modified_secs == modified.0 && self.modified_nanos == modified.1 && self.len == len
    }
}

// ---------------------------------------------------------------------------
// Collecting the rows of a tree.
// ---------------------------------------------------------------------------

/// The key under which a skipped extension is warned about once:
/// `<no-extension>`, or the extension with its dot.
pub open spec fn warning_key(ext: Seq<char>) -> Seq<char> {
    if ext.len() == 0 {
        "<no-extension>"@
    } else {
        seq!['.'] + ext
    }
}

/// The warning for a file that no adapter reads.
pub open spec fn skip_warning(ext: Seq<char>) -> Seq<char> {
    if ext.len() == 0 {
        "warning: no adapter for files without an extension, skipping"@
    } else {
        "warning: no adapter for ."@ + ext + ", skipping"@
    }
}

/// The extension of a path, empty where it has none.
pub open spec fn ext_or_empty(path: Seq<char>) -> Seq<char> {
    match path_extension(path) {
        Some(e) => e,
        None => Seq::empty(),
    }
}

/// The rows of a tree as they are gathered file by file: the batch so far,
/// the cache entries for the next run, and the extensions already warned
/// about.
pub struct Collector {
    pub batch: TableBatch,
    pub next_cache: Vec<(String, CachedFile)>,
    pub warned: Vec<String>,
}

/// Whether collector `b` is `a` after one more file, whose rows `rows` were
/// appended to the batch.
pub open spec fn collected(a: Collector, b: Collector, rows: Tables) -> bool {
    &&& b.batch.tables() == tables_append(a.batch.tables(), rows)
    &&& b.batch.current_file == a.batch.current_file
}

/// The rows of files, one file after another.
pub open spec fn rows_in_order(rows: Seq<Tables>) -> Tables
    decreases rows.len(),
{
    if rows.len() == 0 {
        no_tables()
    } else {
        tables_append(rows_in_order(rows.drop_last()), rows.last())
    }
}

/// A run of the collection, from a new collector through one step per file
/// (a skipped file adds no rows, a reused cache entry its cached rows, a
/// parsed file the rows read from it), gathers the files' rows in the order
/// of the files. A cache entry whose rows are those the file parses to thus
/// leaves the batch as parsing it would.
pub proof fn lemma_collection_run(cs: Seq<Collector>, rows: Seq<Tables>)
    requires
        cs.len() == rows.len() + 1,
        cs[0].batch.is_empty_batch(),
        forall|i: int| 0 <= i < rows.len() ==> collected(cs[i], cs[i + 1], #[trigger] rows[i]),
    ensures
        cs.last().batch.tables() == rows_in_order(rows),
        cs.last().batch.current_file == cs[0].batch.current_file,
    decreases rows.len(),
{
    if rows.len() == 0 {
        let t = cs[0].batch.tables();
        assert(t.functions =~= no_tables().functions);
        assert(t.calls =~= no_tables().calls);
        assert(t.imports =~= no_tables().imports);
        assert(t.structs =~= no_tables().structs);
        assert(t.variables =~= no_tables().variables);
        assert(t.comments =~= no_tables().comments);
    } else {
        let n = rows.len() - 1;
        assert forall|i: int| 0 <= i < rows.drop_last().len() implies collected(
            cs.drop_last()[i],
            cs.drop_last()[i + 1],
            #[trigger] rows.drop_last()[i],
        ) by {
            assert(collected(cs[i], cs[i + 1], rows[i]));
        }
        lemma_collection_run(cs.drop_last(), rows.drop_last());
        assert(collected(cs[n], cs[n + 1], rows[n]));
    }
}

impl Collector {
    /// Nothing gathered yet.
    pub fn new() -> (r: Collector)
        ensures
            r.batch.current_file@ == Seq::<char>::empty(),
            r.batch.is_empty_batch(),
            r.next_cache@.len() == 0,
            r.warned@.len() == 0,
    {
        proof {
            reveal_strlit("");
        }
        Collector { batch: TableBatch::new(""), next_cache: Vec::new(), warned: Vec::new() }
    }

    /// Records that no adapter reads the file at `path`. Gives the warning
    /// to print the first time its extension is met, and nothing after.
    pub fn skip_unsupported(&mut self, path: &str) -> (r: Option<String>)
        ensures
            collected(*old(self), *final(self), no_tables()),
            final(self).batch == old(self).batch,
            final(self).next_cache == old(self).next_cache,
            ({
                let key = warning_key(ext_or_empty(path@));
                let seen = old(self).warned@.map_values(|w: String| w@);
                if seen.contains(key) {
                    r is None && final(self).warned == old(self).warned
                } else {
                    r matches Some(m) && m@ == skip_warning(ext_or_empty(path@))
                        && final(self).warned@.map_values(|w: String| w@) == seen.push(key)
                }
            }),
    {
        let ext = extension_text(path);
        let mut key = String::new();
        let mut message = String::new();
        if ext.as_str().is_empty() {
            push_str(&mut key, "<no-extension>");
            push_str(&mut message, "warning: no adapter for files without an extension, skipping");
        } else {
            crate::text::push_char(&mut key, '.');
            push_str(&mut key, ext.as_str());
            push_str(&mut message, "warning: no adapter for .");
            push_str(&mut message, ext.as_str());
            push_str(&mut message, ", skipping");
        }
        assert(key@ =~= warning_key(ext_or_empty(path@)));
        assert(message@ =~= skip_warning(ext_or_empty(path@)));
        let ghost seen = self.warned@.map_values(|w: String| w@);
        let mut k: usize = 0;
        while k < self.warned.len()
            invariant
                seen == self.warned@.map_values(|w: String| w@),
                key@ == warning_key(ext_or_empty(path@)),
                k <= self.warned@.len(),
                forall|j: int| 0 <= j < k ==> seen[j] != key@,
            decreases self.warned.len() - k,
        {
            if crate::text::same_text(self.warned[k].as_str(), key.as_str()) {
                assert(seen[k as int] == key@);
                assert(seen.contains(key@));
                return None;
            }
            k = k + 1;
        }
        self.warned.push(key);
        assert(self.warned@.map_values(|w: String| w@) =~= seen.push(key@));
        Some(message)
    }

    /// Takes the cached rows of the file at `relative` where the file still
    /// has the modification time and length they were read at: the rows
    /// join the batch and the entry is kept for the next run. Gives whether
    /// it did; otherwise nothing changes and the entry is dropped.
    pub fn reuse_cached(&mut self, relative: String, cached: CachedFile, key: (u64, u32), len: u64) -> (r: bool)
        ensures
            collected(
                *old(self),
                *final(self),
                if r {
                    cached.batch.tables()
                } else {
                    no_tables()
                },
            ),
            r == (cached.modified_secs == key.0 && cached.modified_nanos == key.1 && cached.len == len),
            r ==> final(self).batch.tables() == tables_append(old(self).batch.tables(), cached.batch.tables())
                && final(self).next_cache@ == old(self).next_cache@.push((relative, cached)),
            !r ==> final(self).batch.tables() == old(self).batch.tables()
                && final(self).next_cache@ == old(self).next_cache@,
            final(self).batch.current_file == old(self).batch.current_file,
            final(self).warned == old(self).warned,
    {
        if !cached.matches(key, len) {
            return false;
        }
        let rows = cached.batch.duplicate();
        self.batch.extend(rows);
        self.next_cache.push((relative, cached));
        true
    }

    /// Adds the rows read from a file, and, where the file's modification
    /// time is known, keeps them as its cache entry for the next run.
    pub fn add_parsed(&mut self, file_batch: TableBatch, key: Option<(u64, u32)>, len: u64)
        ensures
            collected(*old(self), *final(self), file_batch.tables()),
            final(self).batch.tables() == tables_append(old(self).batch.tables(), file_batch.tables()),
            final(self).batch.current_file == old(self).batch.current_file,
            final(self).warned == old(self).warned,
            match key {
                Some(k) => final(self).next_cache@.len() == old(self).next_cache@.len() + 1 && ({
                    let entry = final(self).next_cache@.last();
                    &&& final(self).next_cache@.drop_last() == old(self).next_cache@
                    &&& entry.0@ == file_batch.current_file@
                    &&& entry.1.modified_secs == k.0
                    &&& entry.1.modified_nanos == k.1
                    &&& entry.1.len == len
                    &&& entry.1.batch.tables() == file_batch.tables()
                    &&& entry.1.batch.current_file@ == file_batch.current_file@
                }),
                None => final(self).next_cache@ == old(self).next_cache@,
            },
    {
        match key {
            Some((secs, nanos)) => {
                let ghost before = self.next_cache@;
                let copy = file_batch.duplicate();
                let name = file_batch.current_file.clone();
                self.next_cache.push(
                    (name, CachedFile { modified_secs: secs, modified_nanos: nanos, len, batch: copy }),
                );
                assert(self.next_cache@.drop_last() =~= before);
            },
            None => {},
        }
        self.batch.extend(file_batch);
    }

    /// The gathered rows after the second pass, and the cache entries for
    /// the next run.
    pub fn finish(self) -> (r: (TableBatch, Vec<(String, CachedFile)>))
        ensures
            second_pass_result(self.batch, r.0),
            r.1 == self.next_cache,
    {
        let mut batch = self.batch;
        second_pass(&mut batch);
        (batch, self.next_cache)
    }
}

} // verus!
