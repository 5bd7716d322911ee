//! The rows of the six tables, and the batch that collects them.

use vstd::prelude::*;
use crate::text::owned;

verus! {

#[derive(Debug, Clone, PartialEq, Eq, Default)]
pub struct FunctionRow {
    pub file: String,
    pub line: usize,
    pub name: String,
    pub visibility: String,
    pub param_count: usize,
    pub return_type: String,
    pub complexity: usize,
    pub has_test: bool,
}

#[derive(Debug, Clone, PartialEq, Eq, Default)]
pub struct CallRow {
    pub file: String,
    pub line: usize,
    pub caller: String,
    pub callee: String,
    pub is_external: bool,
}

#[derive(Debug, Clone, PartialEq, Eq, Default)]
pub struct ImportRow {
    pub file: String,
    pub line: usize,
    pub module: String,
    pub alias: String,
    pub is_std: bool,
}

#[derive(Debug, Clone, PartialEq, Eq, Default)]
pub struct StructRow {
    pub file: String,
    pub line: usize,
    pub name: String,
    pub field_count: usize,
    pub visibility: String,
    pub implements: String,
}

#[derive(Debug, Clone, PartialEq, Eq, Default)]
pub struct VariableRow {
    pub file: String,
    pub line: usize,
    pub name: String,
    pub type_hint: String,
    pub scope: String,
    pub is_mutated: bool,
}

#[derive(Debug, Clone, PartialEq, Eq, Default)]
pub struct CommentRow {
    pub file: String,
    pub line: usize,
    pub text: String,
    pub attached_to: String,
    pub is_doc: bool,
}

/// A function row as values.
pub struct FunctionRowV {
    pub file: Seq<char>,
    pub line: int,
    pub name: Seq<char>,
    pub visibility: Seq<char>,
    pub param_count: int,
    pub return_type: Seq<char>,
    pub complexity: int,
    pub has_test: bool,
}

pub struct CallRowV {
    pub file: Seq<char>,
    pub line: int,
    pub caller: Seq<char>,
    pub callee: Seq<char>,
    pub is_external: bool,
}

pub struct ImportRowV {
    pub file: Seq<char>,
    pub line: int,
    pub module: Seq<char>,
    pub alias: Seq<char>,
    pub is_std: bool,
}

pub struct StructRowV {
    pub file: Seq<char>,
    pub line: int,
    pub name: Seq<char>,
    pub field_count: int,
    pub visibility: Seq<char>,
    pub implements: Seq<char>,
}

pub struct VariableRowV {
    pub file: Seq<char>,
    pub line: int,
    pub name: Seq<char>,
    pub type_hint: Seq<char>,
    pub scope: Seq<char>,
    pub is_mutated: bool,
}

pub struct CommentRowV {
    pub file: Seq<char>,
    pub line: int,
    pub text: Seq<char>,
    pub attached_to: Seq<char>,
    pub is_doc: bool,
}

impl View for FunctionRow {
    type V = FunctionRowV;

    open spec fn view(&self) -> FunctionRowV {
        FunctionRowV {
            file: self.file@,
            line: self.line as int,
            name: self.name@,
            visibility: self.visibility@,
            param_count: self.param_count as int,
            return_type: self.return_type@,
            complexity: self.complexity as int,
            has_test: self.has_test,
        }
    }
}

impl View for CallRow {
    type V = CallRowV;

    open spec fn view(&self) -> CallRowV {
        CallRowV {
            file: self.file@,
            line: self.line as int,
            caller: self.caller@,
            callee: self.callee@,
            is_external: self.is_external,
        }
    }
}

impl View for ImportRow {
    type V = ImportRowV;

    open spec fn view(&self) -> ImportRowV {
        ImportRowV {
            file: self.file@,
            line: self.line as int,
            module: self.module@,
            alias: self.alias@,
            is_std: self.is_std,
        }
    }
}

impl View for StructRow {
    type V = StructRowV;

    open spec fn view(&self) -> StructRowV {
        StructRowV {
            file: self.file@,
            line: self.line as int,
            name: self.name@,
            field_count: self.field_count as int,
            visibility: self.visibility@,
            implements: self.implements@,
        }
    }
}

impl View for VariableRow {
    type V = VariableRowV;

    open spec fn view(&self) -> VariableRowV {
        VariableRowV {
            file: self.file@,
            line: self.line as int,
            name: self.name@,
            type_hint: self.type_hint@,
            scope: self.scope@,
            is_mutated: self.is_mutated,
        }
    }
}

impl View for CommentRow {
    type V = CommentRowV;

    open spec fn view(&self) -> CommentRowV {
        CommentRowV {
            file: self.file@,
            line: self.line as int,
            text: self.text@,
            attached_to: self.attached_to@,
            is_doc: self.is_doc,
        }
    }
}

/// The six tables as values.
pub struct Tables {
    pub functions: Seq<FunctionRowV>,
    pub calls: Seq<CallRowV>,
    pub imports: Seq<ImportRowV>,
    pub structs: Seq<StructRowV>,
    pub variables: Seq<VariableRowV>,
    pub comments: Seq<CommentRowV>,
}

/// Six empty tables.
pub open spec fn no_tables() -> Tables {
    Tables {
        functions: Seq::empty(),
        calls: Seq::empty(),
        imports: Seq::empty(),
        structs: Seq::empty(),
        variables: Seq::empty(),
        comments: Seq::empty(),
    }
}

/// Each table of `b` after the same table of `a`.
pub open spec fn tables_append(a: Tables, b: Tables) -> Tables {
    Tables {
        functions: a.functions + b.functions,
        calls: a.calls + b.calls,
        imports: a.imports + b.imports,
        structs: a.structs + b.structs,
        variables: a.variables + b.variables,
        comments: a.comments + b.comments,
    }
}

/// Appending no rows changes nothing.
pub proof fn lemma_append_none(a: Tables)
    ensures
        tables_append(a, no_tables()) == a,
{
    assert(tables_append(a, no_tables()).functions =~= a.functions);
    assert(tables_append(a, no_tables()).calls =~= a.calls);
    assert(tables_append(a, no_tables()).imports =~= a.imports);
    assert(tables_append(a, no_tables()).structs =~= a.structs);
    assert(tables_append(a, no_tables()).variables =~= a.variables);
    assert(tables_append(a, no_tables()).comments =~= a.comments);
}

/// Appending is associative.
pub proof fn lemma_append_assoc(a: Tables, b: Tables, c: Tables)
    ensures
        tables_append(tables_append(a, b), c) == tables_append(a, tables_append(b, c)),
{
    assert(tables_append(tables_append(a, b), c).functions =~= tables_append(a, tables_append(b, c)).functions);
    assert(tables_append(tables_append(a, b), c).calls =~= tables_append(a, tables_append(b, c)).calls);
    assert(tables_append(tables_append(a, b), c).imports =~= tables_append(a, tables_append(b, c)).imports);
    assert(tables_append(tables_append(a, b), c).structs =~= tables_append(a, tables_append(b, c)).structs);
    assert(tables_append(tables_append(a, b), c).variables =~= tables_append(a, tables_append(b, c)).variables);
    assert(tables_append(tables_append(a, b), c).comments =~= tables_append(a, tables_append(b, c)).comments);
}

/// Tables that hold one function row.
pub open spec fn one_function(r: FunctionRowV) -> Tables {
    Tables { functions: seq![r], ..no_tables() }
}

pub open spec fn one_call(r: CallRowV) -> Tables {
    Tables { calls: seq![r], ..no_tables() }
}

pub open spec fn one_import(r: ImportRowV) -> Tables {
    Tables { imports: seq![r], ..no_tables() }
}

pub open spec fn one_struct(r: StructRowV) -> Tables {
    Tables { structs: seq![r], ..no_tables() }
}

pub open spec fn one_variable(r: VariableRowV) -> Tables {
    Tables { variables: seq![r], ..no_tables() }
}

pub open spec fn one_comment(r: CommentRowV) -> Tables {
    Tables { comments: seq![r], ..no_tables() }
}

/// The rows found in one file or a whole tree; `current_file` names the file
/// that rows are being collected for.
#[derive(Debug, Clone, PartialEq, Eq, Default)]
pub struct TableBatch {
    pub current_file: String,
    pub functions: Vec<FunctionRow>,
    pub calls: Vec<CallRow>,
    pub imports: Vec<ImportRow>,
    pub structs: Vec<StructRow>,
    pub variables: Vec<VariableRow>,
    pub comments: Vec<CommentRow>,
}

impl TableBatch {
    /// Whether every table of the batch is empty.
    pub open spec fn is_empty_batch(&self) -> bool {
        &&& self.functions@.len() == 0
        &&& self.calls@.len() == 0
        &&& self.imports@.len() == 0
        &&& self.structs@.len() == 0
        &&& self.variables@.len() == 0
        &&& self.comments@.len() == 0
    }

    /// The tables of the batch as values.
    pub open spec fn tables(&self) -> Tables {
        Tables {
            functions: self.functions@.map_values(|r: FunctionRow| r@),
            calls: self.calls@.map_values(|r: CallRow| r@),
            imports: self.imports@.map_values(|r: ImportRow| r@),
            structs: self.structs@.map_values(|r: StructRow| r@),
            variables: self.variables@.map_values(|r: VariableRow| r@),
            comments: self.comments@.map_values(|r: CommentRow| r@),
        }
    }

    /// An empty batch for `file`.
    pub fn new(file: &str) -> (r: TableBatch)
        ensures
            r.current_file@ == file@,
            r.is_empty_batch(),
    {
        TableBatch {
            current_file: owned(file),
            functions: Vec::new(),
            calls: Vec::new(),
            imports: Vec::new(),
            structs: Vec::new(),
            variables: Vec::new(),
            comments: Vec::new(),
        }
    }

    /// Appends one row to the functions table.
    pub fn push_function(&mut self, r: FunctionRow)
        ensures
            final(self).current_file == old(self).current_file,
            final(self).tables() == tables_append(old(self).tables(), one_function(r@)),
    {
        let ghost before = self.tables();
        self.functions.push(r);
        proof {
            let after = self.tables();
            let more = one_function(r@);
            assert(after.functions =~= before.functions + more.functions);
            assert(after.calls =~= before.calls + more.calls);
            assert(after.imports =~= before.imports + more.imports);
            assert(after.structs =~= before.structs + more.structs);
            assert(after.variables =~= before.variables + more.variables);
            assert(after.comments =~= before.comments + more.comments);
        }
    }

    /// Appends one row to the calls table.
    pub fn push_call(&mut self, r: CallRow)
        ensures
            final(self).current_file == old(self).current_file,
            final(self).tables() == tables_append(old(self).tables(), one_call(r@)),
    {
        let ghost before = self.tables();
        self.calls.push(r);
        proof {
            let after = self.tables();
            let more = one_call(r@);
            assert(after.functions =~= before.functions + more.functions);
            assert(after.calls =~= before.calls + more.calls);
            assert(after.imports =~= before.imports + more.imports);
            assert(after.structs =~= before.structs + more.structs);
            assert(after.variables =~= before.variables + more.variables);
            assert(after.comments =~= before.comments + more.comments);
        }
    }

    /// Appends one row to the imports table.
    pub fn push_import(&mut self, r: ImportRow)
        ensures
            final(self).current_file == old(self).current_file,
            final(self).tables() == tables_append(old(self).tables(), one_import(r@)),
    {
        let ghost before = self.tables();
        self.imports.push(r);
        proof {
            let after = self.tables();
            let more = one_import(r@);
            assert(after.functions =~= before.functions + more.functions);
            assert(after.calls =~= before.calls + more.calls);
            assert(after.imports =~= before.imports + more.imports);
            assert(after.structs =~= before.structs + more.structs);
            assert(after.variables =~= before.variables + more.variables);
            assert(after.comments =~= before.comments + more.comments);
        }
    }

    /// Appends one row to the structs table.
    pub fn push_struct(&mut self, r: StructRow)
        ensures
            final(self).current_file == old(self).current_file,
            final(self).tables() == tables_append(old(self).tables(), one_struct(r@)),
    {
        let ghost before = self.tables();
        self.structs.push(r);
        proof {
            let after = self.tables();
            let more = one_struct(r@);
            assert(after.functions =~= before.functions + more.functions);
            assert(after.calls =~= before.calls + more.calls);
            assert(after.imports =~= before.imports + more.imports);
            assert(after.structs =~= before.structs + more.structs);
            assert(after.variables =~= before.variables + more.variables);
            assert(after.comments =~= before.comments + more.comments);
        }
    }

    /// Appends one row to the variables table.
    pub fn push_variable(&mut self, r: VariableRow)
        ensures
            final(self).current_file == old(self).current_file,
            final(self).tables() == tables_append(old(self).tables(), one_variable(r@)),
    {
        let ghost before = self.tables();
        self.variables.push(r);
        proof {
            let after = self.tables();
            let more = one_variable(r@);
            assert(after.functions =~= before.functions + more.functions);
            assert(after.calls =~= before.calls + more.calls);
            assert(after.imports =~= before.imports + more.imports);
            assert(after.structs =~= before.structs + more.structs);
            assert(after.variables =~= before.variables + more.variables);
            assert(after.comments =~= before.comments + more.comments);
        }
    }

    /// Appends one row to the comments table.
    pub fn push_comment(&mut self, r: CommentRow)
        ensures
            final(self).current_file == old(self).current_file,
            final(self).tables() == tables_append(old(self).tables(), one_comment(r@)),
    {
        let ghost before = self.tables();
        self.comments.push(r);
        proof {
            let after = self.tables();
            let more = one_comment(r@);
            assert(after.functions =~= before.functions + more.functions);
            assert(after.calls =~= before.calls + more.calls);
            assert(after.imports =~= before.imports + more.imports);
            assert(after.structs =~= before.structs + more.structs);
            assert(after.variables =~= before.variables + more.variables);
            assert(after.comments =~= before.comments + more.comments);
        }
    }

    /// A copy of the batch.
    pub fn duplicate(&self) -> (r: TableBatch)
        ensures
            r.current_file@ == self.current_file@,
            r.tables() == self.tables(),
    {
        let mut r = TableBatch::new(self.current_file.as_str());
        assert(r.tables() == no_tables()) by {
            assert(r.tables().functions =~= Seq::empty());
            assert(r.tables().calls =~= Seq::empty());
            assert(r.tables().imports =~= Seq::empty());
            assert(r.tables().structs =~= Seq::empty());
            assert(r.tables().variables =~= Seq::empty());
            assert(r.tables().comments =~= Seq::empty());
        }
        let ghost src = self.tables();
        assert(src.functions.take(0) =~= Seq::<FunctionRowV>::empty());
        let mut k: usize = 0;
        while k < self.functions.len()
            invariant
                src == self.tables(),
                r.current_file@ == self.current_file@,
                k <= self.functions@.len(),
                r.tables() == (Tables { functions: src.functions.take(k as int), ..no_tables() }),
            decreases self.functions.len() - k,
        {
            let f = &self.functions[k];
            r.push_function(FunctionRow {
                file: f.file.clone(),
                line: f.line,
                name: f.name.clone(),
                visibility: f.visibility.clone(),
                param_count: f.param_count,
                return_type: f.return_type.clone(),
                complexity: f.complexity,
                has_test: f.has_test,
            });
            k = k + 1;
            assert(r.tables().functions =~= src.functions.take(k as int));
        }
        assert(src.functions.take(src.functions.len() as int) =~= src.functions);
        assert(src.calls.take(0) =~= Seq::<CallRowV>::empty());
        let mut k: usize = 0;
        while k < self.calls.len()
            invariant
                src == self.tables(),
                r.current_file@ == self.current_file@,
                k <= self.calls@.len(),
                r.tables() == (Tables { functions: src.functions, calls: src.calls.take(k as int), ..no_tables() }),
            decreases self.calls.len() - k,
        {
            let c = &self.calls[k];
            r.push_call(CallRow {
                file: c.file.clone(),
                line: c.line,
                caller: c.caller.clone(),
                callee: c.callee.clone(),
                is_external: c.is_external,
            });
            k = k + 1;
            assert(r.tables().calls =~= src.calls.take(k as int));
        }
        assert(src.calls.take(src.calls.len() as int) =~= src.calls);
        assert(src.imports.take(0) =~= Seq::<ImportRowV>::empty());
        let mut k: usize = 0;
        while k < self.imports.len()
            invariant
                src == self.tables(),
                r.current_file@ == self.current_file@,
                k <= self.imports@.len(),
                r.tables() == (Tables {
                    functions: src.functions,
                    calls: src.calls,
                    imports: src.imports.take(k as int),
                    ..no_tables()
                }),
            decreases self.imports.len() - k,
        {
            let m = &self.imports[k];
            r.push_import(ImportRow {
                file: m.file.clone(),
                line: m.line,
                module: m.module.clone(),
                alias: m.alias.clone(),
                is_std: m.is_std,
            });
            k = k + 1;
            assert(r.tables().imports =~= src.imports.take(k as int));
        }
        assert(src.imports.take(src.imports.len() as int) =~= src.imports);
        assert(src.structs.take(0) =~= Seq::<StructRowV>::empty());
        let mut k: usize = 0;
        while k < self.structs.len()
            invariant
                src == self.tables(),
                r.current_file@ == self.current_file@,
                k <= self.structs@.len(),
                r.tables() == (Tables {
                    functions: src.functions,
                    calls: src.calls,
                    imports: src.imports,
                    structs: src.structs.take(k as int),
                    ..no_tables()
                }),
            decreases self.structs.len() - k,
        {
            let st = &self.structs[k];
            r.push_struct(StructRow {
                file: st.file.clone(),
                line: st.line,
                name: st.name.clone(),
                field_count: st.field_count,
                visibility: st.visibility.clone(),
                implements: st.implements.clone(),
            });
            k = k + 1;
            assert(r.tables().structs =~= src.structs.take(k as int));
        }
        assert(src.structs.take(src.structs.len() as int) =~= src.structs);
        assert(src.variables.take(0) =~= Seq::<VariableRowV>::empty());
        let mut k: usize = 0;
        while k < self.variables.len()
            invariant
                src == self.tables(),
                r.current_file@ == self.current_file@,
                k <= self.variables@.len(),
                r.tables() == (Tables {
                    functions: src.functions,
                    calls: src.calls,
                    imports: src.imports,
                    structs: src.structs,
                    variables: src.variables.take(k as int),
                    ..no_tables()
                }),
            decreases self.variables.len() - k,
        {
            let v = &self.variables[k];
            r.push_variable(VariableRow {
                file: v.file.clone(),
                line: v.line,
                name: v.name.clone(),
                type_hint: v.type_hint.clone(),
                scope: v.scope.clone(),
                is_mutated: v.is_mutated,
            });
            k = k + 1;
            assert(r.tables().variables =~= src.variables.take(k as int));
        }
        assert(src.variables.take(src.variables.len() as int) =~= src.variables);
        assert(src.comments.take(0) =~= Seq::<CommentRowV>::empty());
        let mut k: usize = 0;
        while k < self.comments.len()
            invariant
                src == self.tables(),
                r.current_file@ == self.current_file@,
                k <= self.comments@.len(),
                r.tables() == (Tables {
                    functions: src.functions,
                    calls: src.calls,
                    imports: src.imports,
                    structs: src.structs,
                    variables: src.variables,
                    comments: src.comments.take(k as int),
                }),
            decreases self.comments.len() - k,
        {
            let c = &self.comments[k];
            r.push_comment(CommentRow {
                file: c.file.clone(),
                line: c.line,
                text: c.text.clone(),
                attached_to: c.attached_to.clone(),
                is_doc: c.is_doc,
            });
            k = k + 1;
            assert(r.tables().comments =~= src.comments.take(k as int));
        }
        assert(src.functions.take(src.functions.len() as int) =~= src.functions);
        assert(src.calls.take(src.calls.len() as int) =~= src.calls);
        assert(src.imports.take(src.imports.len() as int) =~= src.imports);
        assert(src.structs.take(src.structs.len() as int) =~= src.structs);
        assert(src.variables.take(src.variables.len() as int) =~= src.variables);
        assert(src.comments.take(src.comments.len() as int) =~= src.comments);
        r
    }

    /// Appends every table of `other` to the same table of `self`, keeping
    /// the order of both.
    pub fn extend(&mut self, other: TableBatch)
        ensures
            final(self).current_file == old(self).current_file,
            final(self).functions@ == old(self).functions@ + other.functions@,
            final(self).calls@ == old(self).calls@ + other.calls@,
            final(self).imports@ == old(self).imports@ + other.imports@,
            final(self).structs@ == old(self).structs@ + other.structs@,
            final(self).variables@ == old(self).variables@ + other.variables@,
            final(self).comments@ == old(self).comments@ + other.comments@,
            final(self).tables() == tables_append(old(self).tables(), other.tables()),
    {
        let ghost a = self.tables();
        let ghost b = other.tables();
        let mut other = other;
        self.functions.append(&mut other.functions);
        self.calls.append(&mut other.calls);
        self.imports.append(&mut other.imports);
        self.structs.append(&mut other.structs);
        self.variables.append(&mut other.variables);
        self.comments.append(&mut other.comments);
        proof {
            let c = self.tables();
            assert(c.functions =~= a.functions + b.functions);
            assert(c.calls =~= a.calls + b.calls);
            assert(c.imports =~= a.imports + b.imports);
            assert(c.structs =~= a.structs + b.structs);
            assert(c.variables =~= a.variables + b.variables);
            assert(c.comments =~= a.comments + b.comments);
        }
    }
}

} // verus!
