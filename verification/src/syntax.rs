//! Syntax trees as plain data: tree-sitter parses the source, and the tree is
//! copied, node by node in pre-order, into a `SyntaxTree` that the adapters
//! read.

use vstd::prelude::*;
use crate::text::same_text;

verus! {

// ---------------------------------------------------------------------------
// tree-sitter, behind trusted items.
// ---------------------------------------------------------------------------

#[verifier::external_type_specification]
#[verifier::external_body]
pub struct ExTree(tree_sitter::Tree);

/// The grammars that sources are parsed with.
#[derive(Clone, Copy, Debug, PartialEq, Eq)]
pub enum Grammar {
    Go,
    Rust,
    Python,
    Tsx,
}

/// A source text together with the tree that tree-sitter parsed from it
/// with a grammar. Only the parse functions below build one (its fields are
/// private to this module), so its tree is always the parse of its text.
pub struct Parsed {
    tree: tree_sitter::Tree,
    grammar: Grammar,
    source: String,
}

impl Parsed {
    /// The grammar the text was parsed with.
    pub closed spec fn grammar_of(&self) -> Grammar {
        self.grammar
    }

    /// The text that was parsed.
    pub closed spec fn text(&self) -> Seq<char> {
        self.source@
    }
}

// What tree-sitter gives for the tree it parses from `text` with `g`. Nodes
// are numbered in pre-order from 0 at the root, as `TreeCursor::goto_descendant`
// counts them.

/// The number of nodes of the tree (`Node::descendant_count` of the root).
pub uninterp spec fn syntax_size(g: Grammar, text: Seq<char>) -> usize;

/// The kind of node `i` (`Node::kind`).
pub uninterp spec fn syntax_kind(g: Grammar, text: Seq<char>, i: int) -> Seq<char>;

/// Whether node `i` is named (`Node::is_named`).
pub uninterp spec fn syntax_named(g: Grammar, text: Seq<char>, i: int) -> bool;

/// The zero-based row where node `i` starts (`Node::start_position`).
pub uninterp spec fn syntax_row(g: Grammar, text: Seq<char>, i: int) -> usize;

/// The field under which node `i` stands in its parent
/// (`TreeCursor::field_name`).
pub uninterp spec fn syntax_field(g: Grammar, text: Seq<char>, i: int) -> Option<Seq<char>>;

/// The number of the parent of node `i`, `None` for the root
/// (`TreeCursor::goto_parent`, `TreeCursor::descendant_index`).
pub uninterp spec fn syntax_parent(g: Grammar, text: Seq<char>, i: int) -> Option<usize>;

/// The number of nodes in the subtree of node `i`, itself included
/// (`Node::descendant_count`).
pub uninterp spec fn syntax_span(g: Grammar, text: Seq<char>, i: int) -> usize;

/// The text that node `i` covers (`Node::byte_range` of the text, by
/// `str::get`), where that range falls on character boundaries.
pub uninterp spec fn syntax_text(g: Grammar, text: Seq<char>, i: int) -> Option<Seq<char>>;

/// Parses `source` with the Go grammar (`tree_sitter_go::LANGUAGE`):
/// `Parser::new`, `Parser::set_language`, `Parser::parse`. The grammar's ABI
/// version (15) lies in the range this tree-sitter reads (13 to 15) and it
/// has a lexer, so `set_language` accepts it, and `parse` without options
/// gives `None` only where no language is set: the parse succeeds.
#[verifier::external_body]
fn parse_go(source: &str) -> (r: Option<Parsed>)
    ensures
        r is Some,
        r matches Some(p) ==> p.grammar_of() == Grammar::Go && p.text() == source@,
{
    let mut parser = tree_sitter::Parser::new();
    if parser.set_language(&tree_sitter_go::LANGUAGE.into()).is_err() {
        return None;
    }
    match parser.parse(source, None) {
        Some(tree) => Some(Parsed { tree, grammar: Grammar::Go, source: source.to_string() }),
        None => None,
    }
}

/// Parses `source` with the Rust grammar (`tree_sitter_rust::LANGUAGE`),
/// as `parse_go` does with Go's; its ABI version (15) is accepted too.
#[verifier::external_body]
fn parse_rust(source: &str) -> (r: Option<Parsed>)
    ensures
        r is Some,
        r matches Some(p) ==> p.grammar_of() == Grammar::Rust && p.text() == source@,
{
    let mut parser = tree_sitter::Parser::new();
    if parser.set_language(&tree_sitter_rust::LANGUAGE.into()).is_err() {
        return None;
    }
    match parser.parse(source, None) {
        Some(tree) => Some(Parsed { tree, grammar: Grammar::Rust, source: source.to_string() }),
        None => None,
    }
}

/// Parses `source` with the Python grammar (`tree_sitter_python::LANGUAGE`),
/// as `parse_go` does with Go's; its ABI version (15) is accepted too.
#[verifier::external_body]
fn parse_python(source: &str) -> (r: Option<Parsed>)
    ensures
        r is Some,
        r matches Some(p) ==> p.grammar_of() == Grammar::Python && p.text() == source@,
{
    let mut parser = tree_sitter::Parser::new();
    if parser.set_language(&tree_sitter_python::LANGUAGE.into()).is_err() {
        return None;
    }
    match parser.parse(source, None) {
        Some(tree) => Some(Parsed { tree, grammar: Grammar::Python, source: source.to_string() }),
        None => None,
    }
}

/// Parses `source` with the TSX grammar
/// (`tree_sitter_typescript::LANGUAGE_TSX`), as `parse_go` does with Go's;
/// its ABI version (14) is accepted too.
#[verifier::external_body]
fn parse_tsx(source: &str) -> (r: Option<Parsed>)
    ensures
        r is Some,
        r matches Some(p) ==> p.grammar_of() == Grammar::Tsx && p.text() == source@,
{
    let mut parser = tree_sitter::Parser::new();
    if parser.set_language(&tree_sitter_typescript::LANGUAGE_TSX.into()).is_err() {
        return None;
    }
    match parser.parse(source, None) {
        Some(tree) => Some(Parsed { tree, grammar: Grammar::Tsx, source: source.to_string() }),
        None => None,
    }
}

/// The number of nodes of the parsed tree: `Node::descendant_count` of
/// `Tree::root_node`.
#[verifier::external_body]
fn size_of(p: &Parsed) -> (r: usize)
    ensures
        r == syntax_size(p.grammar_of(), p.text()),
{
    p.tree.root_node().descendant_count()
}

/// `Node::kind` of node `i`, reached by `TreeCursor::goto_descendant` from
/// the root, copied into a `String`.
#[verifier::external_body]
fn kind_at(p: &Parsed, i: usize) -> (r: String)
    requires
        i < syntax_size(p.grammar_of(), p.text()),
    ensures
        r@ == syntax_kind(p.grammar_of(), p.text(), i as int),
{
    let mut cursor = p.tree.walk();
    cursor.goto_descendant(i);
    cursor.node().kind().to_string()
}

/// `Node::is_named` of node `i`.
#[verifier::external_body]
fn named_at(p: &Parsed, i: usize) -> (r: bool)
    requires
        i < syntax_size(p.grammar_of(), p.text()),
    ensures
        r == syntax_named(p.grammar_of(), p.text(), i as int),
{
    let mut cursor = p.tree.walk();
    cursor.goto_descendant(i);
    cursor.node().is_named()
}

/// The row of `Node::start_position` of node `i`.
#[verifier::external_body]
fn row_at(p: &Parsed, i: usize) -> (r: usize)
    requires
        i < syntax_size(p.grammar_of(), p.text()),
    ensures
        r == syntax_row(p.grammar_of(), p.text(), i as int),
{
    let mut cursor = p.tree.walk();
    cursor.goto_descendant(i);
    cursor.node().start_position().row
}

/// `TreeCursor::field_name` at node `i`, copied into a `String`.
#[verifier::external_body]
fn field_at(p: &Parsed, i: usize) -> (r: Option<String>)
    requires
        i < syntax_size(p.grammar_of(), p.text()),
    ensures
        opt_text(&r) == syntax_field(p.grammar_of(), p.text(), i as int),
{
    let mut cursor = p.tree.walk();
    cursor.goto_descendant(i);
    match cursor.field_name() {
        Some(name) => Some(name.to_string()),
        None => None,
    }
}

/// The number of the parent of node `i`: `TreeCursor::goto_parent`, then
/// `TreeCursor::descendant_index`; `None` where there is no parent.
#[verifier::external_body]
fn parent_at(p: &Parsed, i: usize) -> (r: Option<usize>)
    requires
        i < syntax_size(p.grammar_of(), p.text()),
    ensures
        r == syntax_parent(p.grammar_of(), p.text(), i as int),
{
    let mut cursor = p.tree.walk();
    cursor.goto_descendant(i);
    match cursor.goto_parent() {
        true => Some(cursor.descendant_index()),
        false => None,
    }
}

/// `Node::descendant_count` of node `i`.
#[verifier::external_body]
fn span_at(p: &Parsed, i: usize) -> (r: usize)
    requires
        i < syntax_size(p.grammar_of(), p.text()),
    ensures
        r == syntax_span(p.grammar_of(), p.text(), i as int),
{
    let mut cursor = p.tree.walk();
    cursor.goto_descendant(i);
    cursor.node().descendant_count()
}

/// The text of node `i`: `str::get` of the parsed text at `Node::byte_range`,
/// copied into a `String`. `str::get` gives `None`, and never panics, where
/// the range does not fall on character boundaries of the text.
#[verifier::external_body]
fn text_at(p: &Parsed, i: usize) -> (r: Option<String>)
    requires
        i < syntax_size(p.grammar_of(), p.text()),
    ensures
        opt_text(&r) == syntax_text(p.grammar_of(), p.text(), i as int),
{
    let mut cursor = p.tree.walk();
    cursor.goto_descendant(i);
    match p.source.get(cursor.node().byte_range()) {
        Some(t) => Some(t.to_string()),
        None => None,
    }
}

/// The view of an optional string.
pub open spec fn opt_text(o: &Option<String>) -> Option<Seq<char>> {
    match o {
        Some(s) => Some(s@),
        None => None,
    }
}

// ---------------------------------------------------------------------------
// The plain tree.
// ---------------------------------------------------------------------------

/// One node of a syntax tree.
pub struct SyntaxNode {
    /// The grammar's name for the node (`function_item`, `identifier`, ...).
    pub kind: String,
    /// The field under which the node stands in its parent, if any.
    pub field: Option<String>,
    /// Whether the node is named (not a bare token of the grammar).
    pub named: bool,
    /// The zero-based row where the node starts.
    pub row: usize,
    /// The node's source text, where it is valid UTF-8.
    pub text: Option<String>,
    /// The index of the parent node; `None` for the root.
    pub parent: Option<usize>,
}

/// A syntax tree with its nodes in pre-order: the root first, and the
/// subtree of node `i` the nodes `i..ends[i]`. The children of `i` are
/// `i + 1`, then each next one where the subtree of the one before ends.
pub struct SyntaxTree {
    pub nodes: Vec<SyntaxNode>,
    pub ends: Vec<usize>,
}

impl SyntaxTree {
    /// The shape every tree has: a root that spans all nodes, every subtree
    /// a non-empty range inside the tree, every other node inside the
    /// subtree of an earlier parent.
    pub open spec fn wf(&self) -> bool {
        let n = self.nodes@.len();
        &&& 1 <= n < usize::MAX
        &&& self.ends@.len() == n
        &&& self.ends@[0] == n
        &&& self.nodes@[0].parent is None
        &&& forall|i: int| #![trigger self.ends@[i]] 0 <= i < n ==> i < self.ends@[i] <= n
        &&& forall|i: int| #![trigger self.nodes@[i].row] 0 <= i < n ==> self.nodes@[i].row < usize::MAX
        &&& forall|i: int|
            #![trigger self.nodes@[i].parent]
            0 < i < n ==> match self.nodes@[i].parent {
                Some(p) => p < i && i < self.ends@[p as int],
                None => false,
            }
    }

    /// The number of nodes.
    pub open spec fn size(&self) -> int {
        self.nodes@.len() as int
    }

    pub open spec fn kind(&self, i: int) -> Seq<char> {
        self.nodes@[i].kind@
    }

    pub open spec fn end(&self, i: int) -> int {
        self.ends@[i] as int
    }

    pub open spec fn text(&self, i: int) -> Option<Seq<char>> {
        match self.nodes@[i].text {
            Some(t) => Some(t@),
            None => None,
        }
    }

    pub open spec fn field(&self, i: int) -> Option<Seq<char>> {
        match self.nodes@[i].field {
            Some(f) => Some(f@),
            None => None,
        }
    }

    /// The line, one-based, where node `i` starts.
    pub open spec fn line(&self, i: int) -> int {
        self.nodes@[i].row + 1
    }

    /// The children of `i` from `j` on, where `j` is a child of `i` or the
    /// end of its subtree.
    pub open spec fn children_from(&self, i: int, j: int) -> Seq<int>
        decreases self.size() - j,
    {
        if self.wf() && 0 <= i < self.size() && i < j < self.end(i) {
            proof {
                assert(j < self.ends@[j]);
            }
            seq![j].add(self.children_from(i, self.end(j)))
        } else {
            Seq::empty()
        }
    }

    /// The children of node `i`, in order.
    pub open spec fn children(&self, i: int) -> Seq<int> {
        self.children_from(i, i + 1)
    }

    /// The first child of `i`, from `j` on, that stands under field `f`.
    pub open spec fn field_child_from(&self, i: int, j: int, f: Seq<char>) -> Option<int>
        decreases self.size() - j,
    {
        if self.wf() && 0 <= i < self.size() && i < j < self.end(i) {
            proof {
                assert(j < self.ends@[j]);
            }
            if self.field(j) == Some(f) {
                Some(j)
            } else {
                self.field_child_from(i, self.end(j), f)
            }
        } else {
            None
        }
    }

    /// `child_by_field_name`: the first child of `i` under field `f`.
    pub open spec fn field_child(&self, i: int, f: Seq<char>) -> Option<int> {
        self.field_child_from(i, i + 1, f)
    }

    /// The text of the first child of `i` under field `f`.
    pub open spec fn field_text(&self, i: int, f: Seq<char>) -> Option<Seq<char>> {
        match self.field_child(i, f) {
            Some(c) => self.text(c),
            None => None,
        }
    }

    /// The kind of the parent of `i`, where it has one.
    pub open spec fn parent_kind(&self, i: int) -> Option<Seq<char>> {
        match self.nodes@[i].parent {
            Some(p) => Some(self.kind(p as int)),
            None => None,
        }
    }
}

pub proof fn lemma_children_from_bounds(t: &SyntaxTree, i: int, j: int)
    requires
        t.wf(),
        0 <= i < t.size(),
    ensures
        forall|k: int|
            0 <= k < t.children_from(i, j).len() ==> j <= #[trigger] t.children_from(i, j)[k] && t.children_from(i, j)[k] < t.end(i),
    decreases t.size() - j,
{
    if i < j < t.end(i) {
        assert(j < t.ends@[j]);
        lemma_children_from_bounds(t, i, t.end(j));
        let rest = t.children_from(i, t.end(j));
        assert forall|k: int|
            0 <= k < t.children_from(i, j).len() implies j <= #[trigger] t.children_from(i, j)[k] && t.children_from(i, j)[k] < t.end(i) by {
            if k > 0 {
                assert(t.children_from(i, j)[k] == rest[k - 1]);
            }
        }
    }
}

/// Whether `k` is one of the names `ks`.
pub open spec fn one_of(k: Seq<char>, ks: Seq<&str>) -> bool {
    exists|j: int| 0 <= j < ks.len() && (#[trigger] ks[j])@ == k
}

/// The number of nodes `j` in `lo..hi` for which `p(j)` holds.
pub open spec fn count_nodes(lo: int, hi: int, p: spec_fn(int) -> bool) -> nat
    decreases hi - lo,
{
    if lo < hi {
        count_nodes(lo, hi - 1, p) + if p(hi - 1) { 1nat } else { 0nat }
    } else {
        0
    }
}

/// The number of entries of `js` for which `p` holds.
pub open spec fn count_of(js: Seq<int>, p: spec_fn(int) -> bool) -> nat
    decreases js.len(),
{
    if js.len() == 0 {
        0
    } else {
        count_of(js.drop_last(), p) + if p(js.last()) { 1nat } else { 0nat }
    }
}

/// The first entry of `js` for which `p` holds.
pub open spec fn first_of(js: Seq<int>, p: spec_fn(int) -> bool) -> Option<int>
    decreases js.len(),
{
    if js.len() == 0 {
        None
    } else if p(js[0]) {
        Some(js[0])
    } else {
        first_of(js.drop_first(), p)
    }
}

/// `first_of` finds an entry exactly when one satisfies the predicate.
pub proof fn lemma_first_of_some(js: Seq<int>, p: spec_fn(int) -> bool)
    ensures
        (first_of(js, p) is Some) == (exists|k: int| 0 <= k < js.len() && #[trigger] p(js[k])),
        first_of(js, p) matches Some(j) ==> p(j),
    decreases js.len(),
{
    if js.len() > 0 {
        lemma_first_of_some(js.drop_first(), p);
        if !p(js[0]) {
            assert forall|k: int| 0 <= k < js.len() && #[trigger] p(js[k]) implies exists|m: int|
                0 <= m < js.drop_first().len() && #[trigger] p(js.drop_first()[m]) by {
                assert(js.drop_first()[k - 1] == js[k]);
            }
            assert forall|m: int| 0 <= m < js.drop_first().len() && #[trigger] p(js.drop_first()[m]) implies exists|k: int|
                0 <= k < js.len() && #[trigger] p(js[k]) by {
                assert(js[m + 1] == js.drop_first()[m]);
            }
        }
    }
}

impl SyntaxTree {
    /// Whether node `i` is of kind `k`.
    pub fn kind_is(&self, i: usize, k: &str) -> (r: bool)
        requires
            i < self.nodes@.len(),
        ensures
            r == (self.kind(i as int) == k@),
    {
        same_text(self.nodes[i].kind.as_str(), k)
    }

    /// Whether node `i` is of one of the kinds `ks`.
    pub fn kind_in(&self, i: usize, ks: &Vec<&str>) -> (r: bool)
        requires
            i < self.nodes@.len(),
        ensures
            r == one_of(self.kind(i as int), ks@),
    {
        let mut j: usize = 0;
        while j < ks.len()
            invariant
                i < self.nodes@.len(),
                j <= ks@.len(),
                forall|m: int| 0 <= m < j ==> (#[trigger] ks@[m])@ != self.kind(i as int),
            decreases ks.len() - j,
        {
            if self.kind_is(i, ks[j]) {
                return true;
            }
            j = j + 1;
        }
        false
    }

    /// The text of node `i`.
    pub fn text_of(&self, i: usize) -> (r: Option<&String>)
        requires
            i < self.nodes@.len(),
        ensures
            match r {
                Some(s) => self.text(i as int) == Some(s@),
                None => self.text(i as int) is None,
            },
    {
        match &self.nodes[i].text {
            Some(s) => Some(s),
            None => None,
        }
    }

    /// The line, one-based, where node `i` starts.
    pub fn line_of(&self, i: usize) -> (r: usize)
        requires
            self.wf(),
            i < self.nodes@.len(),
        ensures
            r == self.line(i as int),
    {
        self.nodes[i].row + 1
    }

    /// `child_by_field_name`: the first child of `i` under the field `f`.
    pub fn child_by_field_name(&self, i: usize, f: &str) -> (r: Option<usize>)
        requires
            self.wf(),
            i < self.nodes@.len(),
        ensures
            match r {
                Some(c) => self.field_child(i as int, f@) == Some(c as int) && c < self.nodes@.len(),
                None => self.field_child(i as int, f@) is None,
            },
    {
        let n = self.nodes.len();
        let end = self.ends[i];
        let mut j = i + 1;
        while j < end
            invariant
                self.wf(),
                n == self.nodes@.len(),
                i < n,
                end == self.ends@[i as int],
                i < j <= n,
                self.field_child_from(i as int, j as int, f@) == self.field_child(i as int, f@),
            decreases n - j,
        {
            assert(j < self.ends@[j as int]);
            match &self.nodes[j].field {
                Some(g) => {
                    if same_text(g.as_str(), f) {
                        return Some(j);
                    }
                },
                None => {},
            }
            j = self.ends[j];
        }
        None
    }

    /// The text of the first child of `i` under the field `f`.
    pub fn field_text_of(&self, i: usize, f: &str) -> (r: Option<&String>)
        requires
            self.wf(),
            i < self.nodes@.len(),
        ensures
            match r {
                Some(s) => self.field_text(i as int, f@) == Some(s@),
                None => self.field_text(i as int, f@) is None,
            },
    {
        match self.child_by_field_name(i, f) {
            Some(c) => self.text_of(c),
            None => None,
        }
    }

    /// The children of node `i`, in order.
    pub fn children_of(&self, i: usize) -> (r: Vec<usize>)
        requires
            self.wf(),
            i < self.nodes@.len(),
        ensures
            r@.len() == self.children(i as int).len(),
            forall|k: int| 0 <= k < r@.len() ==> r@[k] as int == #[trigger] self.children(i as int)[k],
            forall|k: int| 0 <= k < r@.len() ==> i < #[trigger] r@[k] < self.nodes@.len(),
    {
        let n = self.nodes.len();
        let end = self.ends[i];
        let mut out: Vec<usize> = Vec::new();
        let mut j = i + 1;
        proof {
            lemma_children_from_bounds(self, i as int, i + 1);
        }
        while j < end
            invariant
                self.wf(),
                n == self.nodes@.len(),
                i < n,
                end == self.ends@[i as int],
                i < j <= n,
                end <= n,
                out@.len() + self.children_from(i as int, j as int).len() == self.children(i as int).len(),
                forall|k: int| 0 <= k < out@.len() ==> out@[k] as int == #[trigger] self.children(i as int)[k],
                forall|k: int| 0 <= k < self.children_from(i as int, j as int).len() ==>
                    #[trigger] self.children_from(i as int, j as int)[k] == self.children(i as int)[out@.len() + k],
                forall|k: int| 0 <= k < out@.len() ==> i < #[trigger] out@[k] < n,
            decreases n - j,
        {
            assert(j < self.ends@[j as int]);
            let ghost rest = self.children_from(i as int, self.ends@[j as int] as int);
            assert(self.children_from(i as int, j as int) == seq![j as int].add(rest));
            assert(self.children_from(i as int, j as int)[0] == j);
            out.push(j);
            assert forall|k: int| 0 <= k < rest.len() implies #[trigger] rest[k] == self.children(i as int)[out@.len() + k] by {
                assert(rest[k] == self.children_from(i as int, j as int)[k + 1]);
            }
            j = self.ends[j];
        }
        out
    }

    /// Whether the parent of `i` is of kind `k`.
    pub fn parent_kind_is(&self, i: usize, k: &str) -> (r: bool)
        requires
            self.wf(),
            i < self.nodes@.len(),
        ensures
            r == (self.parent_kind(i as int) == Some(k@)),
    {
        match self.nodes[i].parent {
            Some(p) => {
                if i == 0 {
                    false
                } else {
                    self.kind_is(p, k)
                }
            },
            None => false,
        }
    }
}

/// Whether the tree is shaped as `wf` says, checked node by node.
fn check_shape(t: &SyntaxTree) -> (r: bool)
    ensures
        r == t.wf(),
{
    let n = t.nodes.len();
    if n == 0 || n == usize::MAX || t.ends.len() != n || t.ends[0] != n || t.nodes[0].parent.is_some() {
        return false;
    }
    let mut i: usize = 0;
    while i < n
        invariant
            n == t.nodes@.len(),
            1 <= n < usize::MAX,
            t.ends@.len() == n,
            t.ends@[0] == n,
            t.nodes@[0].parent is None,
            i <= n,
            forall|k: int| #![trigger t.ends@[k]] 0 <= k < i ==> k < t.ends@[k] <= n,
            forall|k: int| #![trigger t.nodes@[k].row] 0 <= k < i ==> t.nodes@[k].row < usize::MAX,
            forall|k: int|
                #![trigger t.nodes@[k].parent]
                0 < k < i ==> match t.nodes@[k].parent {
                    Some(p) => p < k && k < t.ends@[p as int],
                    None => false,
                },
        decreases n - i,
    {
        if !(i < t.ends[i] && t.ends[i] <= n && t.nodes[i].row < usize::MAX) {
            return false;
        }
        if i > 0 {
            match t.nodes[i].parent {
                Some(p) => {
                    if !(p < i && i < t.ends[p]) {
                        return false;
                    }
                },
                None => {
                    return false;
                },
            }
        }
        i = i + 1;
    }
    true
}

/// Whether node `i` of a copy holds what tree-sitter gives for node `i`.
pub open spec fn node_copied(x: SyntaxNode, g: Grammar, text: Seq<char>, i: int) -> bool {
    &&& x.kind@ == syntax_kind(g, text, i)
    &&& x.named == syntax_named(g, text, i)
    &&& x.row == syntax_row(g, text, i)
    &&& opt_text(&x.field) == syntax_field(g, text, i)
    &&& opt_text(&x.text) == syntax_text(g, text, i)
    &&& x.parent == syntax_parent(g, text, i)
}

/// Whether `t` is, node for node, the tree that tree-sitter parses from
/// `text` with `g`.
pub open spec fn copies(t: SyntaxTree, g: Grammar, text: Seq<char>) -> bool {
    let n = t.nodes@.len();
    &&& n == syntax_size(g, text)
    &&& t.ends@.len() == n
    &&& forall|i: int|
        0 <= i < n ==> node_copied(#[trigger] t.nodes@[i], g, text, i) && t.ends@[i] == i
            + syntax_span(g, text, i)
}

/// Whether the tree that tree-sitter parses from `text` with `g` has the
/// shape that `SyntaxTree::wf` asks for.
pub open spec fn syntax_wf(g: Grammar, text: Seq<char>) -> bool {
    let n = syntax_size(g, text) as int;
    &&& 1 <= n < usize::MAX
    &&& syntax_span(g, text, 0) == n
    &&& syntax_parent(g, text, 0) is None
    &&& forall|i: int|
        #![trigger syntax_span(g, text, i)]
        0 <= i < n ==> 1 <= syntax_span(g, text, i) && i + syntax_span(g, text, i) <= n
    &&& forall|i: int| #![trigger syntax_row(g, text, i)] 0 <= i < n ==> syntax_row(g, text, i) < usize::MAX
    &&& forall|i: int|
        #![trigger syntax_parent(g, text, i)]
        0 < i < n ==> match syntax_parent(g, text, i) {
            Some(p) => p < i && i < p + syntax_span(g, text, p as int),
            None => false,
        }
}

/// A copy of the parse is well formed exactly when the parse has that shape.
proof fn lemma_copy_wf(t: SyntaxTree, g: Grammar, text: Seq<char>)
    requires
        copies(t, g, text),
    ensures
        t.wf() <==> syntax_wf(g, text),
{
    let n = t.nodes@.len();
    if n > 0 {
        assert(node_copied(t.nodes@[0], g, text, 0));
    }
    if t.wf() {
        assert forall|i: int| #![trigger syntax_span(g, text, i)] 0 <= i < n implies 1 <= syntax_span(
            g,
            text,
            i,
        ) && i + syntax_span(g, text, i) <= n by {
            assert(node_copied(t.nodes@[i], g, text, i));
            assert(i < t.ends@[i] <= n);
        }
        assert forall|i: int| #![trigger syntax_row(g, text, i)] 0 <= i < n implies syntax_row(
            g,
            text,
            i,
        ) < usize::MAX by {
            assert(node_copied(t.nodes@[i], g, text, i));
            assert(t.nodes@[i].row < usize::MAX);
        }
        assert forall|i: int| #![trigger syntax_parent(g, text, i)] 0 < i < n implies match syntax_parent(
            g,
            text,
            i,
        ) {
            Some(p) => p < i && i < p + syntax_span(g, text, p as int),
            None => false,
        } by {
            assert(node_copied(t.nodes@[i], g, text, i));
            match t.nodes@[i].parent {
                Some(p) => {
                    assert(node_copied(t.nodes@[p as int], g, text, p as int));
                    assert(t.ends@[p as int] == p + syntax_span(g, text, p as int));
                },
                None => {},
            }
        }
    }
    if syntax_wf(g, text) {
        assert forall|i: int| #![trigger t.ends@[i]] 0 <= i < n implies i < t.ends@[i] <= n by {
            assert(node_copied(t.nodes@[i], g, text, i));
            assert(1 <= syntax_span(g, text, i));
        }
        assert forall|i: int| #![trigger t.nodes@[i].row] 0 <= i < n implies t.nodes@[i].row
            < usize::MAX by {
            assert(node_copied(t.nodes@[i], g, text, i));
            assert(syntax_row(g, text, i) < usize::MAX);
        }
        assert forall|i: int| #![trigger t.nodes@[i].parent] 0 < i < n implies match t.nodes@[i].parent {
            Some(p) => p < i && i < t.ends@[p as int],
            None => false,
        } by {
            assert(node_copied(t.nodes@[i], g, text, i));
            match syntax_parent(g, text, i) {
                Some(p) => {
                    assert(node_copied(t.nodes@[p as int], g, text, p as int));
                },
                None => {},
            }
        }
    }
}

/// Copies the parsed tree node by node; `None` where a subtree reaches past
/// what a `usize` counts, which no well-shaped parse does.
fn copy_tree(p: &Parsed) -> (r: Option<SyntaxTree>)
    ensures
        match r {
            Some(t) => copies(t, p.grammar_of(), p.text()),
            None => !syntax_wf(p.grammar_of(), p.text()),
        },
{
    let ghost g = p.grammar_of();
    let ghost text = p.text();
    let n = size_of(p);
    let mut t = SyntaxTree { nodes: Vec::new(), ends: Vec::new() };
    let mut i: usize = 0;
    while i < n
        invariant
            n == syntax_size(g, text),
            g == p.grammar_of(),
            text == p.text(),
            i <= n,
            t.nodes@.len() == i,
            t.ends@.len() == i,
            forall|k: int|
                0 <= k < i ==> node_copied(#[trigger] t.nodes@[k], g, text, k) && t.ends@[k] == k
                    + syntax_span(g, text, k),
        decreases n - i,
    {
        let span = span_at(p, i);
        if span > usize::MAX - i {
            proof {
                assert(!(i + syntax_span(g, text, i as int) <= n));
            }
            return None;
        }
        let node = SyntaxNode {
            kind: kind_at(p, i),
            field: field_at(p, i),
            named: named_at(p, i),
            row: row_at(p, i),
            text: text_at(p, i),
            parent: parent_at(p, i),
        };
        assert(node_copied(node, g, text, i as int));
        let ghost nodes0 = t.nodes@;
        let ghost ends0 = t.ends@;
        t.nodes.push(node);
        t.ends.push(i + span);
        proof {
            assert forall|k: int| 0 <= k < i + 1 implies node_copied(#[trigger] t.nodes@[k], g, text, k)
                && t.ends@[k] == k + syntax_span(g, text, k) by {
                if k < i {
                    assert(t.nodes@[k] == nodes0[k]);
                    assert(t.ends@[k] == ends0[k]);
                } else {
                    assert(t.nodes@[k] == node);
                    assert(t.ends@[k] == i + span);
                }
            }
        }
        assert(forall|k: int|
            0 <= k < i + 1 ==> node_copied(#[trigger] t.nodes@[k], g, text, k) && t.ends@[k] == k
                + syntax_span(g, text, k));
        assert(t.nodes@.len() == i + 1);
        i = i + 1;
    }
    Some(t)
}

/// Parses `source` with `grammar` and copies the tree, node for node; `None`
/// exactly where the parse is not shaped as `SyntaxTree::wf` asks.
pub fn parse_source(grammar: Grammar, source: &str) -> (r: Option<SyntaxTree>)
    ensures
        r is Some <==> syntax_wf(grammar, source@),
        r matches Some(t) ==> t.wf() && copies(t, grammar, source@),
{
    let parsed = match grammar {
        Grammar::Go => parse_go(source),
        Grammar::Rust => parse_rust(source),
        Grammar::Python => parse_python(source),
        Grammar::Tsx => parse_tsx(source),
    };
    let p = match parsed {
        Some(p) => p,
        None => {
            return None;
        },
    };
    match copy_tree(&p) {
        Some(t) => {
            proof {
                lemma_copy_wf(t, grammar, source@);
            }
            if check_shape(&t) {
                Some(t)
            } else {
                None
            }
        },
        None => None,
    }
}


/// Counting nodes by two tests that agree on every node counted gives the
/// same number.
pub proof fn lemma_count_nodes_ext(lo: int, hi: int, p: spec_fn(int) -> bool, q: spec_fn(int) -> bool)
    requires
        forall|j: int| lo <= j < hi ==> #[trigger] p(j) == q(j),
    ensures
        count_nodes(lo, hi, p) == count_nodes(lo, hi, q),
    decreases hi - lo,
{
    if lo < hi {
        lemma_count_nodes_ext(lo, hi - 1, p, q);
    }
}

} // verus!
