use std::sync::Arc;

use qualified_rewriter::error::ErrorCode;
use qualified_rewriter::error::ErrorKind;
use qualified_rewriter::expr::Expression;
use qualified_rewriter::ir::QueryASTIR;
use qualified_rewriter::rewriter::QualifiedRewriter;
use qualified_rewriter::schema::ColumnDesc;
use qualified_rewriter::schema::JoinedSchema;
use qualified_rewriter::schema::JoinedTableDesc;
use qualified_rewriter::schema::QueryContext;

fn column(name: &str, ambiguous: bool) -> ColumnDesc {
    ColumnDesc { short_name: name.to_string(), is_ambiguity: ambiguous }
}

fn table(parts: &[&str], cols: Vec<ColumnDesc>) -> JoinedTableDesc {
    JoinedTableDesc {
        name_parts: parts.iter().map(|p| p.to_string()).collect(),
        columns_desc: cols,
    }
}

/// Tables `t1(a)` and `t2(a)`, the second `a` flagged ambiguous.
fn scenario_schema() -> JoinedSchema {
    JoinedSchema {
        tables_desc: vec![
            table(&["t1"], vec![column("a", false)]),
            table(&["t2"], vec![column("a", true)]),
        ],
    }
}

fn rewriter(schema: JoinedSchema, db: &str) -> QualifiedRewriter {
    QualifiedRewriter::create(schema, Arc::new(QueryContext::create(db.to_string())))
}

fn empty_ir() -> QueryASTIR {
    QueryASTIR {
        group_by_expressions: vec![],
        order_by_expressions: vec![],
        aggregate_expressions: vec![],
        projection_expressions: vec![],
        filter_predicate: None,
        having_predicate: None,
    }
}

fn qualified(parts: &[&str]) -> Expression {
    Expression::QualifiedColumn(parts.iter().map(|p| p.to_string()).collect())
}

fn column_name(e: &Expression) -> String {
    match e {
        Expression::Column(n) => n.clone(),
        _ => panic!("expected a bare column"),
    }
}

fn expect_err(r: Result<Expression, ErrorCode>) -> ErrorCode {
    match r {
        Err(e) => e,
        Ok(_) => panic!("expected an error"),
    }
}

#[test]
fn wildcard_expands_in_schema_order() {
    let rw = rewriter(scenario_schema(), "db1");
    let mut ir = empty_ir();
    ir.projection_expressions = vec![Expression::Wildcard];
    let out = rw.rewrite(ir).unwrap();
    let names: Vec<String> = out.projection_expressions.iter().map(column_name).collect();
    assert_eq!(names, vec!["a".to_string(), "t2.a".to_string()]);
}

#[test]
fn wildcard_expansion_is_deterministic() {
    let rw = rewriter(scenario_schema(), "db1");
    let mut first: Vec<Expression> = vec![];
    let mut second: Vec<Expression> = vec![];
    rw.expand_wildcard(&mut first);
    rw.expand_wildcard(&mut second);
    assert_eq!(first.len(), 2);
    assert_eq!(second.len(), 2);
    let a: Vec<String> = first.iter().map(column_name).collect();
    let b: Vec<String> = second.iter().map(column_name).collect();
    assert_eq!(a, b);
}

#[test]
fn wildcard_over_empty_schema_expands_to_nothing() {
    let rw = rewriter(JoinedSchema { tables_desc: vec![] }, "db1");
    let mut ir = empty_ir();
    ir.projection_expressions = vec![Expression::Wildcard];
    let out = rw.rewrite(ir).unwrap();
    assert!(out.projection_expressions.is_empty());
}

#[test]
fn qualified_reference_to_ambiguous_column_is_qualified() {
    let rw = rewriter(scenario_schema(), "db1");
    let out = rw.rewrite_expr(&qualified(&["t2", "a"])).unwrap();
    assert_eq!(column_name(&out), "t2.a");
}

#[test]
fn qualified_reference_to_unambiguous_column_is_bare() {
    let rw = rewriter(scenario_schema(), "db1");
    let out = rw.rewrite_expr(&qualified(&["t1", "a"])).unwrap();
    assert_eq!(column_name(&out), "a");
}

#[test]
fn current_database_elision_resolves_table_column() {
    let mut schema = scenario_schema();
    schema.tables_desc.push(table(&["db1", "t3"], vec![column("b", false)]));
    let rw = rewriter(schema, "db1");
    let out = rw.rewrite_expr(&qualified(&["t3", "b"])).unwrap();
    assert_eq!(column_name(&out), "b");
}

#[test]
fn elision_fails_under_another_current_database() {
    let mut schema = scenario_schema();
    schema.tables_desc.push(table(&["db1", "t3"], vec![column("b", false)]));
    let rw = rewriter(schema, "db2");
    let err = expect_err(rw.rewrite_expr(&qualified(&["t3", "b"])));
    assert_eq!(err.kind(), ErrorKind::UnknownColumn);
    assert_eq!(err.message(), "Unknown column t3.b");
}

#[test]
fn full_database_qualified_reference_resolves() {
    let mut schema = scenario_schema();
    schema.tables_desc.push(table(&["db1", "t3"], vec![column("b", false)]));
    let rw = rewriter(schema, "db2");
    let out = rw.rewrite_expr(&qualified(&["db1", "t3", "b"])).unwrap();
    assert_eq!(column_name(&out), "b");
}

#[test]
fn aliased_wildcard_is_a_syntax_error() {
    let rw = rewriter(scenario_schema(), "db1");
    let mut ir = empty_ir();
    ir.projection_expressions = vec![Expression::Alias(
        "x".to_string(),
        Box::new(Expression::Wildcard),
    )];
    let err = match rw.rewrite(ir) {
        Err(e) => e,
        Ok(_) => panic!("expected an error"),
    };
    assert_eq!(err.kind(), ErrorKind::Syntax);
    assert_eq!(err.message(), "* AS alias is wrong syntax");
}

#[test]
fn unknown_table_reference_names_the_dotted_reference() {
    let rw = rewriter(scenario_schema(), "db1");
    let err = expect_err(rw.rewrite_expr(&qualified(&["unknown", "col"])));
    assert_eq!(err.kind(), ErrorKind::UnknownColumn);
    assert_eq!(err.message(), "Unknown column unknown.col");
}

#[test]
fn nested_field_access_is_a_syntax_error() {
    let rw = rewriter(scenario_schema(), "db1");
    let err = expect_err(rw.rewrite_expr(&qualified(&["t1", "a", "field"])));
    assert_eq!(err.kind(), ErrorKind::Syntax);
    assert_eq!(err.message(), "Unsupported complex type field access");
}

#[test]
fn missing_column_in_matched_table_names_the_qualified_name() {
    let rw = rewriter(scenario_schema(), "db1");
    let err = expect_err(rw.rewrite_expr(&qualified(&["t1", "nope"])));
    assert_eq!(err.kind(), ErrorKind::UnknownColumn);
    assert_eq!(err.message(), "Unknown column: t1.nope");
}

#[test]
fn unknown_bare_column_fails() {
    let rw = rewriter(scenario_schema(), "db1");
    let err = expect_err(rw.rewrite_expr(&Expression::Column("nope".to_string())));
    assert_eq!(err.kind(), ErrorKind::UnknownColumn);
    assert_eq!(err.message(), "Unknown column nope");
}

#[test]
fn first_declared_table_wins_precedence() {
    // Two tables under the same alias: only the first is ever matched, so the
    // unambiguous rendering of its column comes back, both times.
    let schema = JoinedSchema {
        tables_desc: vec![
            table(&["x"], vec![column("c1", false)]),
            table(&["x"], vec![column("c1", true)]),
        ],
    };
    let rw = rewriter(schema, "db1");
    let first = rw.rewrite_expr(&qualified(&["x", "c1"])).unwrap();
    let again = rw.rewrite_expr(&qualified(&["x", "c1"])).unwrap();
    assert_eq!(column_name(&first), "c1");
    assert_eq!(column_name(&again), "c1");
}

#[test]
fn group_clause_failure_names_clause_and_expression() {
    let rw = rewriter(scenario_schema(), "db1");
    let mut ir = empty_ir();
    ir.group_by_expressions = vec![Expression::Column("zz".to_string())];
    ir.projection_expressions = vec![Expression::Column("a".to_string())];
    let err = match rw.rewrite(ir) {
        Err(e) => e,
        Ok(_) => panic!("expected an error"),
    };
    assert_eq!(err.kind(), ErrorKind::UnknownColumn);
    assert_eq!(
        err.message(),
        "Unknown column zz (while in analyze group expr: zz)"
    );
}

#[test]
fn order_clause_failure_names_clause_and_expression() {
    let rw = rewriter(scenario_schema(), "db1");
    let mut ir = empty_ir();
    ir.order_by_expressions = vec![Expression::Sort {
        expr: Box::new(Expression::Column("zz".to_string())),
        asc: true,
        nulls_first: false,
        origin_expr: Box::new(Expression::Column("zz".to_string())),
    }];
    let err = match rw.rewrite(ir) {
        Err(e) => e,
        Ok(_) => panic!("expected an error"),
    };
    assert_eq!(err.kind(), ErrorKind::UnknownColumn);
    assert_eq!(
        err.message(),
        "Unknown column zz (while in analyze order expr: zz)"
    );
}

#[test]
fn filter_failure_names_clause_and_expression() {
    let rw = rewriter(scenario_schema(), "db1");
    let mut ir = empty_ir();
    ir.filter_predicate = Some(Expression::Column("zz".to_string()));
    let err = match rw.rewrite(ir) {
        Err(e) => e,
        Ok(_) => panic!("expected an error"),
    };
    assert_eq!(err.kind(), ErrorKind::UnknownColumn);
    assert_eq!(
        err.message(),
        "Unknown column zz (while in analyze filter predicate zz)"
    );
}

#[test]
fn having_failure_names_clause_and_expression() {
    let rw = rewriter(scenario_schema(), "db1");
    let mut ir = empty_ir();
    ir.having_predicate = Some(Expression::Column("zz".to_string()));
    let err = match rw.rewrite(ir) {
        Err(e) => e,
        Ok(_) => panic!("expected an error"),
    };
    assert_eq!(err.kind(), ErrorKind::UnknownColumn);
    assert_eq!(
        err.message(),
        "Unknown column zz (while in analyze having predicate zz)"
    );
}

#[test]
fn compound_expressions_are_rebuilt_with_resolved_children() {
    let rw = rewriter(scenario_schema(), "db1");
    let expr = Expression::BinaryExpression {
        left: Box::new(Expression::Column("a".to_string())),
        op: "+".to_string(),
        right: Box::new(qualified(&["t2", "a"])),
    };
    let out = rw.rewrite_expr(&expr).unwrap();
    match out {
        Expression::BinaryExpression { left, op, right } => {
            assert_eq!(op, "+");
            assert_eq!(column_name(&left), "a");
            assert_eq!(column_name(&right), "t2.a");
        }
        _ => panic!("expected a binary expression"),
    }
}

#[test]
fn function_arguments_are_resolved_in_order() {
    let rw = rewriter(scenario_schema(), "db1");
    let expr = Expression::ScalarFunction {
        op: "concat".to_string(),
        args: vec![qualified(&["t1", "a"]), qualified(&["t2", "a"])],
    };
    let out = rw.rewrite_expr(&expr).unwrap();
    match out {
        Expression::ScalarFunction { op, args } => {
            assert_eq!(op, "concat");
            let names: Vec<String> = args.iter().map(column_name).collect();
            assert_eq!(names, vec!["a".to_string(), "t2.a".to_string()]);
        }
        _ => panic!("expected a scalar function"),
    }
}

#[test]
fn leaves_pass_through_unchanged() {
    let rw = rewriter(scenario_schema(), "db1");
    let out = rw.rewrite_expr(&Expression::Literal("1".to_string())).unwrap();
    assert!(matches!(out, Expression::Literal(v) if v == "1"));
    let out = rw.rewrite_expr(&Expression::Subquery("sq".to_string())).unwrap();
    assert!(matches!(out, Expression::Subquery(v) if v == "sq"));
}

#[test]
fn reference_consumed_whole_by_table_match_is_a_syntax_error() {
    let schema = JoinedSchema {
        tables_desc: vec![table(&["db1", "t3"], vec![column("b", false)])],
    };
    let rw = rewriter(schema, "db1");
    let err = expect_err(rw.rewrite_expr(&qualified(&["db1", "t3"])));
    assert_eq!(err.kind(), ErrorKind::Syntax);
    assert_eq!(err.message(), "Unsupported complex type field access");
}

#[test]
fn whole_ir_is_rewritten_field_by_field() {
    let mut schema = scenario_schema();
    schema.tables_desc.push(table(&["db1", "t3"], vec![column("b", false)]));
    let rw = rewriter(schema, "db1");
    let ir = QueryASTIR {
        group_by_expressions: vec![Expression::Column("a".to_string())],
        order_by_expressions: vec![Expression::Sort {
            expr: Box::new(qualified(&["t2", "a"])),
            asc: false,
            nulls_first: true,
            origin_expr: Box::new(qualified(&["t2", "a"])),
        }],
        aggregate_expressions: vec![Expression::AggregateFunction {
            op: "sum".to_string(),
            distinct: true,
            params: vec!["p".to_string()],
            args: vec![qualified(&["t3", "b"])],
        }],
        projection_expressions: vec![Expression::Wildcard, qualified(&["t1", "a"])],
        filter_predicate: Some(Expression::UnaryExpression {
            op: "not".to_string(),
            expr: Box::new(Expression::Column("b".to_string())),
        }),
        having_predicate: Some(Expression::Cast {
            expr: Box::new(qualified(&["t2", "a"])),
            data_type: "Int64".to_string(),
        }),
    };
    let out = rw.rewrite(ir).unwrap();
    assert_eq!(column_name(&out.group_by_expressions[0]), "a");
    match &out.order_by_expressions[0] {
        Expression::Sort { expr, asc, nulls_first, origin_expr } => {
            assert_eq!(column_name(expr), "t2.a");
            assert_eq!(column_name(origin_expr), "t2.a");
            assert!(!asc);
            assert!(nulls_first);
        }
        _ => panic!("expected a sort key"),
    }
    match &out.aggregate_expressions[0] {
        Expression::AggregateFunction { op, distinct, params, args } => {
            assert_eq!(op, "sum");
            assert!(distinct);
            assert_eq!(params, &vec!["p".to_string()]);
            assert_eq!(column_name(&args[0]), "b");
        }
        _ => panic!("expected an aggregate"),
    }
    let projected: Vec<String> = out.projection_expressions.iter().map(column_name).collect();
    assert_eq!(
        projected,
        vec!["a".to_string(), "t2.a".to_string(), "b".to_string(), "a".to_string()]
    );
    match &out.filter_predicate {
        Some(Expression::UnaryExpression { op, expr }) => {
            assert_eq!(op, "not");
            assert_eq!(column_name(expr), "b");
        }
        _ => panic!("expected the rewritten filter"),
    }
    match &out.having_predicate {
        Some(Expression::Cast { expr, data_type }) => {
            assert_eq!(data_type, "Int64");
            assert_eq!(column_name(expr), "t2.a");
        }
        _ => panic!("expected the rewritten having predicate"),
    }
}

#[test]
fn projection_failure_keeps_underlying_error_and_adds_breadcrumb() {
    let rw = rewriter(scenario_schema(), "db1");
    let mut ir = empty_ir();
    ir.projection_expressions = vec![Expression::Alias(
        "y".to_string(),
        Box::new(Expression::Column("zz".to_string())),
    )];
    let err = match rw.rewrite(ir) {
        Err(e) => e,
        Ok(_) => panic!("expected an error"),
    };
    assert_eq!(err.kind(), ErrorKind::UnknownColumn);
    assert_eq!(
        err.message(),
        "Unknown column zz (while in analyze projection expr: zz as y)"
    );
}

#[test]
fn schema_accessors_expose_declaration_order() {
    let schema = scenario_schema();
    let tables = schema.get_tables_desc();
    assert_eq!(tables.len(), 2);
    assert_eq!(tables[0].get_name_parts(), &vec!["t1".to_string()]);
    assert_eq!(tables[1].get_name_parts(), &vec!["t2".to_string()]);
    let cols = tables[1].get_columns_desc();
    assert_eq!(cols[0].short_name, "a");
    assert!(cols[0].is_ambiguity);
    assert!(tables[0].has_column(&"a".to_string()));
    assert!(!tables[0].has_column(&"b".to_string()));
    assert!(schema.contains_column(&"a".to_string()));
    assert!(!schema.contains_column(&"t2.a".to_string()));
}

#[test]
fn expression_text_renders_compound_shapes() {
    let expr = Expression::BinaryExpression {
        left: Box::new(Expression::Column("a".to_string())),
        op: "+".to_string(),
        right: Box::new(Expression::ScalarFunction {
            op: "f".to_string(),
            args: vec![qualified(&["t2", "a"]), Expression::Literal("1".to_string())],
        }),
    };
    assert_eq!(expr.display_text(), "(a + f(t2.a, 1))");
}

#[test]
fn first_diff_pos_measures_the_common_prefix() {
    let a = vec!["db".to_string(), "t".to_string(), "c".to_string()];
    let b = vec!["db".to_string(), "t".to_string()];
    let c = vec!["db".to_string(), "u".to_string()];
    assert_eq!(QualifiedRewriter::first_diff_pos(&a, &b), 2);
    assert_eq!(QualifiedRewriter::first_diff_pos(&a, &c), 1);
    assert_eq!(QualifiedRewriter::first_diff_pos(&c, &c), 2);
    assert_eq!(QualifiedRewriter::first_diff_pos(&a, &[]), 0);
}
