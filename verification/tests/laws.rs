use ql::adapter::walk_source;
use ql::adapters::{adapter_for_path, adapters, supported_languages, Adapter};
use ql::analysis::second_pass;
use ql::protocol::{describe_parse_error, EngineResponse, QueryResult};
use ql::parser::ParseError;
use ql::rows::{CommentRow, FunctionRow, StructRow, TableBatch};
use ql::source::{CachedFile, Collector};

#[test]
fn second_pass_twice_is_second_pass_once() {
    let mut batch = TableBatch::new("");
    batch.functions.push(FunctionRow {
        file: "src/a.rs".to_string(),
        line: 2,
        name: "go".to_string(),
        ..FunctionRow::default()
    });
    batch.functions.push(FunctionRow {
        file: "src/b.rs".to_string(),
        line: 9,
        name: "test_go".to_string(),
        ..FunctionRow::default()
    });
    batch.structs.push(StructRow {
        file: "src/a.rs".to_string(),
        line: 5,
        name: "S".to_string(),
        implements: " X ,Y, X,".to_string(),
        ..StructRow::default()
    });
    batch.comments.push(CommentRow {
        file: "src/a.rs".to_string(),
        line: 1,
        text: "// c".to_string(),
        attached_to: String::new(),
        is_doc: false,
    });

    second_pass(&mut batch);
    let once = batch.clone();
    second_pass(&mut batch);

    assert_eq!(batch, once);
    assert!(once.functions[0].has_test);
    assert_eq!(once.structs[0].implements, "X,Y");
    assert_eq!(once.comments[0].attached_to, "go");
}

#[test]
fn every_row_names_its_file() {
    let source = "package main\n// Run runs\nfunc Run() { helper() }\nvar x int\n";
    let batch = walk_source(&Adapter::Go, "cmd/main.go", source).expect("go grammar should parse");
    assert!(!batch.functions.is_empty());
    for f in &batch.functions {
        assert_eq!(f.file, "cmd/main.go");
        assert!(f.line >= 1);
    }
    for c in &batch.calls {
        assert_eq!(c.file, "cmd/main.go");
        assert_eq!(c.caller, "Run");
    }
    for v in &batch.variables {
        assert_eq!(v.file, "cmd/main.go");
        assert_eq!(v.scope, "package");
    }
    assert!(batch.comments[0].is_doc);
}

#[test]
fn go_imports_come_breadth_first() {
    let source = "package main\nimport (\n  f \"fmt\"\n  \"github.com/x/y\"\n)\n";
    let batch = walk_source(&Adapter::Go, "main.go", source).expect("go grammar should parse");
    assert_eq!(batch.imports.len(), 2);
    assert_eq!(batch.imports[0].module, "fmt");
    assert_eq!(batch.imports[0].alias, "f");
    assert!(batch.imports[0].is_std);
    assert_eq!(batch.imports[1].module, "github.com/x/y");
    assert!(!batch.imports[1].is_std);
}

#[test]
fn go_struct_types_count_fields() {
    let source = "package main\ntype Point struct {\n  X int\n  Y int\n}\ntype Name string\n";
    let batch = walk_source(&Adapter::Go, "main.go", source).expect("go grammar should parse");
    assert_eq!(batch.structs.len(), 1);
    assert_eq!(batch.structs[0].name, "Point");
    assert_eq!(batch.structs[0].field_count, 2);
    assert_eq!(batch.structs[0].visibility, "public");
}

#[test]
fn registry_order_and_lookup() {
    assert_eq!(adapters(), vec![Adapter::Go, Adapter::Rust, Adapter::TypeScript, Adapter::Python]);
    assert_eq!(adapter_for_path("a/b.tsx"), Some(Adapter::TypeScript));
    assert_eq!(adapter_for_path("a/b.py"), Some(Adapter::Python));
    assert_eq!(adapter_for_path("Makefile"), None);
    assert_eq!(adapter_for_path(".rs"), None);
    assert_eq!(
        supported_languages(),
        vec!["go (.go)", "rust (.rs)", "typescript (.ts, .tsx)", "python (.py)"]
    );
}

#[test]
fn collector_warns_once_per_extension() {
    let mut collector = Collector::new();
    assert_eq!(
        collector.skip_unsupported("a.txt"),
        Some("warning: no adapter for .txt, skipping".to_string())
    );
    assert_eq!(collector.skip_unsupported("b.txt"), None);
    assert_eq!(
        collector.skip_unsupported("Makefile"),
        Some("warning: no adapter for files without an extension, skipping".to_string())
    );
    assert_eq!(collector.skip_unsupported("README"), None);
}

#[test]
fn collector_reuses_matching_cache_entries_only() {
    let mut cached_batch = TableBatch::new("a.rs");
    cached_batch.functions.push(FunctionRow { file: "a.rs".to_string(), line: 1, name: "a".to_string(), ..FunctionRow::default() });
    let entry = |secs| CachedFile { modified_secs: secs, modified_nanos: 7, len: 10, batch: cached_batch.clone() };

    let mut collector = Collector::new();
    assert!(!collector.reuse_cached("a.rs".to_string(), entry(1), (2, 7), 10));
    assert!(collector.batch.functions.is_empty());
    assert!(collector.reuse_cached("a.rs".to_string(), entry(2), (2, 7), 10));
    assert_eq!(collector.batch.functions.len(), 1);
    assert_eq!(collector.next_cache.len(), 1);

    let mut parsed = TableBatch::new("b.rs");
    parsed.functions.push(FunctionRow { file: "b.rs".to_string(), line: 3, name: "b".to_string(), ..FunctionRow::default() });
    collector.add_parsed(parsed, Some((5, 6)), 20);
    assert_eq!(collector.next_cache.len(), 2);
    assert_eq!(collector.next_cache[1].0, "b.rs");
    assert_eq!(collector.next_cache[1].1.len, 20);
    let (batch, cache) = collector.finish();
    assert_eq!(batch.functions.len(), 2);
    assert_eq!(cache.len(), 2);
}

#[test]
fn responses_carry_results_or_errors() {
    let ok = EngineResponse::from_result(QueryResult { columns: vec!["name".to_string()], rows: vec![] });
    assert_eq!(ok.columns, Some(vec!["name".to_string()]));
    assert!(ok.error.is_none());
    let err = EngineResponse::from_error("boom".to_string());
    assert!(err.columns.is_none() && err.rows.is_none());
    assert_eq!(err.error, Some("boom".to_string()));
}

#[test]
fn parse_errors_are_described_with_their_position() {
    let e = ParseError { message: "expected FROM".to_string(), position: 12 };
    assert_eq!(describe_parse_error(&e), "error: expected FROM at position 12");
}
