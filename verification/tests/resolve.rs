use ql::adapters::go::GoAdapter;
use ql::adapters::python::PythonAdapter;
use ql::adapters::rust::RustAdapter;
use ql::adapters::typescript::TypeScriptAdapter;
use ql::analysis::{function_key, normalize_csv_list, package_key, test_key};
use ql::rows::{CommentRow, FunctionRow, StructRow, TableBatch};

fn function(file: &str, line: usize, name: &str) -> FunctionRow {
    FunctionRow { file: file.to_string(), line, name: name.to_string(), ..FunctionRow::default() }
}

fn comment(file: &str, line: usize, text: &str) -> CommentRow {
    CommentRow {
        file: file.to_string(),
        line,
        text: text.to_string(),
        attached_to: "earlier".to_string(),
        is_doc: false,
    }
}

#[test]
fn package_key_is_the_parent_directory() {
    assert_eq!(package_key("src/lib.rs"), "src");
    assert_eq!(package_key("lib.rs"), "");
}

#[test]
fn function_key_lowers_ascii() {
    assert_eq!(function_key("AddÉ"), "addÉ");
}

#[test]
fn test_key_strips_test_markers() {
    assert_eq!(test_key("test_Add"), Some("add".to_string()));
    assert_eq!(test_key("add_test"), Some("add".to_string()));
    assert_eq!(test_key("TestAdd"), Some("add".to_string()));
    assert_eq!(test_key("Test"), None);
    assert_eq!(test_key("add"), None);
}

#[test]
fn normalizes_implements_lists() {
    assert_eq!(normalize_csv_list(" A, B ,A,, C "), "A,B,C");
    assert_eq!(normalize_csv_list(""), "");
    assert_eq!(normalize_csv_list(normalize_csv_list(" A, B ,A").as_str()), "A,B");
}

#[test]
fn go_names_are_exported_when_capitalized() {
    assert!(GoAdapter::is_exported("Add"));
    assert!(!GoAdapter::is_exported("add"));
    assert!(!GoAdapter::is_exported(""));
}

#[test]
fn python_underscore_names_are_private() {
    assert_eq!(PythonAdapter::is_private("_hidden"), "private");
    assert_eq!(PythonAdapter::is_private("shown"), "public");
}

#[test]
fn rust_pass_marks_neighbor_tests_and_attaches_comments() {
    let mut batch = TableBatch::new("");
    batch.functions.push(function("lib.rs", 3, "run"));
    batch.functions.push(function("other.rs", 3, "other"));
    batch.comments.push(comment("lib.rs", 1, "// runs"));
    batch.comments.push(comment("lib.rs", 9, "// trailing"));

    RustAdapter.second_pass(&mut batch, &vec!["lib_test.rs".to_string()]);

    assert!(batch.functions[0].has_test);
    assert!(!batch.functions[1].has_test);
    assert_eq!(batch.comments[0].attached_to, "run");
    assert_eq!(batch.comments[1].attached_to, "");
}

#[test]
fn python_pass_marks_candidates_docs_and_keeps_unattached() {
    let mut batch = TableBatch::new("");
    batch.functions.push(function("pkg/app.py", 4, "run"));
    batch.functions.push(function("pkg/other.py", 4, "other"));
    batch.structs.push(StructRow {
        file: "pkg/app.py".to_string(),
        line: 2,
        name: "Config".to_string(),
        ..StructRow::default()
    });
    batch.comments.push(comment("pkg/app.py", 1, "  #: doc"));
    batch.comments.push(comment("pkg/app.py", 9, "# trailing"));

    PythonAdapter.second_pass(&mut batch, &vec!["test_app.py".to_string()]);

    assert!(batch.functions[0].has_test);
    assert!(!batch.functions[1].has_test);
    assert!(batch.comments[0].is_doc);
    assert_eq!(batch.comments[0].attached_to, "Config");
    assert!(!batch.comments[1].is_doc);
    assert_eq!(batch.comments[1].attached_to, "earlier");
}

#[test]
fn typescript_pass_marks_spec_files_and_doc_blocks() {
    let mut batch = TableBatch::new("");
    batch.functions.push(function("src/app.tsx", 4, "run"));
    batch.comments.push(comment("src/app.tsx", 2, "/** doc */"));

    TypeScriptAdapter.second_pass(&mut batch, &vec!["src/app.spec.ts".to_string()]);

    assert!(batch.functions[0].has_test);
    assert!(batch.comments[0].is_doc);
    assert_eq!(batch.comments[0].attached_to, "run");
}

#[test]
fn recognizes_test_file_names() {
    assert!(RustAdapter::is_test_file("lib_test.rs", false));
    assert!(RustAdapter::is_test_file("lib.rs", true));
    assert!(!RustAdapter::is_test_file("lib.rs", false));
    assert!(PythonAdapter::is_test_file("test_app.py"));
    assert!(PythonAdapter::is_test_file("app_test.py"));
    assert!(!PythonAdapter::is_test_file("test_app.txt"));
    assert!(TypeScriptAdapter::is_test_file("app.spec.tsx"));
    assert!(!TypeScriptAdapter::is_test_file("app.ts"));
}
