use ql::ast::{BinaryOperator, Expr, Literal, SelectItem, SelectStatement, TableRef, UnaryOperator};
use ql::parser::parse_query;
use ql::plan::plan_select;

fn parse(query: &str) -> SelectStatement {
    parse_query(query).expect("query should parse")
}

#[test]
fn renders_filter_order_and_limit() {
    let statement =
        parse("SELECT name, file FROM functions WHERE complexity > 3 ORDER BY line DESC LIMIT 5");

    let plan = plan_select(&statement).expect("query should plan");

    assert_eq!(
        plan.sql,
        "SELECT name, file FROM functions WHERE (complexity > 3) ORDER BY line DESC LIMIT 5"
    );
}

#[test]
fn renders_join_query() {
    let statement = parse(
        "SELECT functions.name, calls.callee FROM functions JOIN calls ON functions.name = calls.caller",
    );

    let plan = plan_select(&statement).expect("join should plan");

    assert_eq!(
        plan.sql,
        "SELECT functions.name, calls.callee FROM functions JOIN calls ON (functions.name = calls.caller)"
    );
}

#[test]
fn rejects_invalid_identifier() {
    let statement = SelectStatement {
        select: vec![SelectItem::Column("bad-name".to_string())],
        from: TableRef {
            name: "functions".to_string(),
        },
        joins: Vec::new(),
        where_clause: None,
        order_by: Vec::new(),
        limit: None,
    };

    let error = plan_select(&statement).expect_err("bad identifier should fail");

    assert_eq!(error.message, "invalid identifier: bad-name");
}

#[test]
fn planned_sql_parses_back_to_the_same_filter() {
    let statement = parse("SELECT name FROM functions WHERE name = 'it''s' AND line > 12 ORDER BY name");
    let plan = plan_select(&statement).expect("query should plan");
    assert_eq!(
        plan.sql,
        "SELECT name FROM functions WHERE ((name = 'it''s') AND (line > 12)) ORDER BY name ASC"
    );
    let again = parse(&plan.sql);
    assert_eq!(again, statement);
}

#[test]
fn planned_sql_parses_back_with_joins_lists_and_negation() {
    let statement = parse(
        "SELECT functions.name, * FROM functions JOIN calls ON functions.name = calls.caller \
         WHERE NOT (complexity > 3 AND name NOT IN ('a', 'b')) OR file LIKE '%x%' \
         ORDER BY line DESC, name LIMIT 10",
    );
    let plan = plan_select(&statement).expect("query should plan");
    assert_eq!(
        plan.sql,
        "SELECT functions.name, * FROM functions JOIN calls ON (functions.name = calls.caller) \
         WHERE (NOT (((complexity > 3) AND (name NOT IN ('a', 'b')))) OR (file LIKE '%x%')) \
         ORDER BY line DESC, name ASC LIMIT 10"
    );
    let again = parse(&plan.sql);
    assert_eq!(again, statement);
}

#[test]
fn not_as_comparison_operand_reads_back_differently() {
    let statement = SelectStatement {
        select: vec![SelectItem::Wildcard],
        from: TableRef { name: "functions".to_string() },
        joins: Vec::new(),
        where_clause: Some(Expr::Binary {
            left: Box::new(Expr::Unary {
                operator: UnaryOperator::Not,
                expr: Box::new(Expr::Identifier("has_test".to_string())),
            }),
            operator: BinaryOperator::Eq,
            right: Box::new(Expr::Literal(Literal::Integer(1))),
        }),
        order_by: Vec::new(),
        limit: None,
    };
    let plan = plan_select(&statement).expect("query should plan");
    assert_eq!(plan.sql, "SELECT * FROM functions WHERE (NOT (has_test) = 1)");
    let again = parse(&plan.sql);
    assert_eq!(
        again.where_clause,
        Some(Expr::Unary {
            operator: UnaryOperator::Not,
            expr: Box::new(Expr::Binary {
                left: Box::new(Expr::Identifier("has_test".to_string())),
                operator: BinaryOperator::Eq,
                right: Box::new(Expr::Literal(Literal::Integer(1))),
            }),
        })
    );
}

#[test]
fn rejects_empty_in_list() {
    let statement = SelectStatement {
        select: vec![SelectItem::Wildcard],
        from: TableRef { name: "functions".to_string() },
        joins: Vec::new(),
        where_clause: Some(Expr::InList {
            expr: Box::new(Expr::Identifier("name".to_string())),
            values: Vec::new(),
            negated: false,
        }),
        order_by: Vec::new(),
        limit: None,
    };
    let error = plan_select(&statement).expect_err("empty IN list should fail");
    assert_eq!(error.message, "empty IN lists are not supported");
}
