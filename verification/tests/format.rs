use ql::format::{render_csv, render_table, validate_format};
use ql::protocol::{Cell, QueryResult};

#[test]
fn validates_known_formats() {
    for fmt in &["table", "json", "csv"] {
        assert!(validate_format(fmt).is_ok());
    }
    assert!(validate_format("xml").is_err());
}

#[test]
fn formats_table_output() {
    let result = QueryResult {
        columns: vec!["name".to_string(), "line".to_string()],
        rows: vec![
            vec![Cell::Text("main".to_string()), Cell::Number("4".to_string())],
            vec![Cell::Text("add".to_string()), Cell::Number("12".to_string())],
        ],
    };

    let output = render_table(&result);

    let expected = "name  line\n----  ----\nmain     4\nadd     12\n";
    assert_eq!(output, expected);
}

#[test]
fn truncates_long_cells() {
    let result = QueryResult {
        columns: vec!["description".to_string()],
        rows: vec![vec![Cell::Text("a".repeat(70))]],
    };

    let output = render_table(&result);

    assert!(output.contains(&format!("{}...", "a".repeat(57))));
}

#[test]
fn formats_csv_output() {
    let result = QueryResult {
        columns: vec!["name".to_string(), "line".to_string()],
        rows: vec![vec![Cell::Text("main".to_string()), Cell::Number("4".to_string())]],
    };

    let output = render_csv(&result);

    let expected = "name,line\nmain,4\n";
    assert_eq!(output, expected);
}

#[test]
fn handles_empty_columns() {
    let result = QueryResult {
        columns: vec![],
        rows: vec![],
    };

    let output = render_table(&result);
    assert!(output.is_empty());
}

#[test]
fn refuses_unknown_format_with_quoted_name() {
    let error = validate_format("xml").unwrap_err();
    assert_eq!(error, "unsupported format \"xml\"");
}

#[test]
fn quotes_csv_fields_that_need_it() {
    let result = QueryResult {
        columns: vec!["text".to_string(), "flag".to_string(), "none".to_string()],
        rows: vec![vec![
            Cell::Text("a,\"b\"".to_string()),
            Cell::Bool(true),
            Cell::Null,
        ]],
    };

    assert_eq!(render_csv(&result), "text,flag,none\n\"a,\"\"b\"\"\",true,null\n");
}

#[test]
fn aligns_mixed_columns_left_and_shows_null_as_empty() {
    let result = QueryResult {
        columns: vec!["n".to_string(), "v".to_string()],
        rows: vec![
            vec![Cell::Null, Cell::Text("x".to_string())],
            vec![Cell::Number("10".to_string()), Cell::Bool(false)],
        ],
    };

    assert_eq!(render_table(&result), "n   v    \n--  -----\n    x    \n10  false\n");
}

#[test]
fn measures_widths_in_bytes_and_cuts_at_57_bytes() {
    let result = QueryResult {
        columns: vec!["é".to_string()],
        rows: vec![vec![Cell::Text("a".to_string())]],
    };
    // "é" takes two bytes, so the column is two wide while the name is one character.
    assert_eq!(render_table(&result), "é \n--\na \n");
}
