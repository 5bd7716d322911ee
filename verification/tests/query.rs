use ql::protocol::Cell;
use ql::query::{function_cells, function_columns, functions_result};
use ql::rows::FunctionRow;

#[test]
fn converts_functions_to_protocol_shape() {
    let functions = vec![FunctionRow {
        file: "main.rs".to_string(),
        line: 4,
        name: "main".to_string(),
        visibility: "private".to_string(),
        param_count: 0,
        return_type: "".to_string(),
        complexity: 1,
        has_test: false,
    }];

    let result = functions_result(&functions);

    assert_eq!(result.columns, function_columns());
    assert_eq!(
        result.rows,
        vec![vec![
            Cell::Text("main.rs".to_string()),
            Cell::Number("4".to_string()),
            Cell::Text("main".to_string()),
            Cell::Text("private".to_string()),
            Cell::Number("0".to_string()),
            Cell::Text(String::new()),
            Cell::Number("1".to_string()),
            Cell::Bool(false),
        ]]
    );
}

#[test]
fn lists_function_columns_in_table_order() {
    assert_eq!(
        function_columns(),
        vec!["file", "line", "name", "visibility", "param_count", "return_type", "complexity", "has_test"]
    );
}

#[test]
fn renders_large_numbers_in_decimal() {
    let row = FunctionRow {
        line: 1234567,
        ..FunctionRow::default()
    };
    assert_eq!(function_cells(&row)[1], Cell::Number("1234567".to_string()));
}
