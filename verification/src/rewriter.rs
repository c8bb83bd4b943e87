//! The rewriter: walks the six expression sites of one query's IR in fixed
//! order, resolving every column reference against the joined schema and the
//! session's current database, expanding projection wildcards, and failing
//! fast with a clause breadcrumb on the first invalid reference.

use std::sync::Arc;

use vstd::prelude::*;
use vstd::slice::slice_subrange;
use vstd::string::StringExecFns;

use crate::error::ErrorCode;
use crate::error::ErrorV;
use crate::expr::ExprV;
use crate::expr::Expression;
use crate::expr::lemma_view_seq_concat;
use crate::expr::lemma_view_seq_index;
use crate::expr::lemma_view_seq_len;
use crate::expr::lemma_view_wildcard;
use crate::ir::IrV;
use crate::ir::QueryASTIR;
use crate::resolution::aggregate_label;
use crate::resolution::best_match_index;
use crate::resolution::expand_table;
use crate::resolution::filter_label;
use crate::resolution::group_label;
use crate::resolution::having_label;
use crate::resolution::is_aliased_wildcard;
use crate::resolution::lemma_rewrite_clause_err_prefix;
use crate::resolution::lemma_rewrite_clause_snoc;
use crate::resolution::lemma_rewrite_projection_err_prefix;
use crate::resolution::lemma_rewrite_projection_snoc;
use crate::resolution::order_label;
use crate::resolution::projection_label;
use crate::resolution::spec_rewrite_clause;
use crate::resolution::spec_rewrite_ir;
use crate::resolution::spec_rewrite_projection;
use crate::resolution::lemma_rewrite_seq_err_prefix;
use crate::resolution::lemma_rewrite_seq_snoc;
use crate::resolution::spec_expand_wildcard;
use crate::resolution::spec_rewrite_expr;
use crate::resolution::spec_rewrite_seq;
use crate::resolution::lemma_col_index;
use crate::resolution::rendered_column;
use crate::resolution::spec_col_index;
use crate::resolution::spec_find_column;
use crate::resolution::spec_resolve_qualified;
use crate::resolution::elision_match;
use crate::resolution::full_prefix_match;
use crate::resolution::lemma_best_match_at;
use crate::resolution::lemma_best_match_none;
use crate::resolution::lemma_first_diff_pos;
use crate::resolution::spec_best_match;
use crate::resolution::spec_first_diff_pos;
use crate::resolution::table_matches;
use crate::schema::JoinedSchema;
use crate::schema::JoinedTableDesc;
use crate::schema::join_name_parts;
use crate::schema::QueryContext;
use crate::schema::TableV;
use crate::schema::views_of_strings;

verus! {

/// The model of an expression rewrite's outcome.
pub open spec fn res_expr_view(r: Result<Expression, ErrorCode>) -> Result<ExprV, ErrorV> {
    match r {
        Ok(e) => Ok(e@),
        Err(c) => Err(c@),
    }
}

/// The per-query rewriter: an immutable joined schema and a context snapshot,
/// read-only for the duration of a rewrite.
pub struct QualifiedRewriter {
    pub tables_schema: JoinedSchema,
    pub ctx: Arc<QueryContext>,
}

impl QualifiedRewriter {
    /// The models of the schema's tables, in declaration order.
    pub open spec fn tables(&self) -> Seq<TableV> {
        self.tables_schema@
    }

    /// The session's current database name.
    pub open spec fn db(&self) -> Seq<char> {
        self.ctx@
    }

    /// A rewriter over the given schema and session context.
    pub fn create(tables_schema: JoinedSchema, ctx: Arc<QueryContext>) -> (r: QualifiedRewriter)
        ensures
            r.tables_schema == tables_schema,
            r.ctx == ctx,
    {
        QualifiedRewriter { tables_schema, ctx }
    }

    /// Index of the first position where two name-part lists differ, bounded
    /// by the shorter length, as `spec_first_diff_pos` describes.
    pub fn first_diff_pos(left: &[String], right: &[String]) -> (r: usize)
        ensures
            r as int == spec_first_diff_pos(views_of_strings(left@), views_of_strings(right@)),
            r <= left@.len(),
            r <= right@.len(),
    {
        let ghost l = views_of_strings(left@);
        let ghost rv = views_of_strings(right@);
        let min_len = if left.len() < right.len() {
            left.len()
        } else {
            right.len()
        };
        let mut index: usize = 0;
        while index < min_len
            invariant
                index <= min_len,
                min_len <= left@.len(),
                min_len <= right@.len(),
                min_len == if l.len() < rv.len() {
                    l.len()
                } else {
                    rv.len()
                },
                l == views_of_strings(left@),
                rv == views_of_strings(right@),
                forall|k: int| 0 <= k < index ==> l[k] == rv[k],
            decreases min_len - index,
        {
            if !left[index].eq(&right[index]) {
                proof {
                    lemma_first_diff_pos(l, rv);
                    let p = spec_first_diff_pos(l, rv);
                    assert(l[index as int] == left@[index as int]@);
                    assert(rv[index as int] == right@[index as int]@);
                    assert(l[index as int] != rv[index as int]);
                    if p < index {
                        assert(l[p] != rv[p]);
                    }
                    if p > index {
                        assert(l[index as int] == rv[index as int]);
                    }
                }
                return index;
            }
            index += 1;
        }
        proof {
            lemma_first_diff_pos(l, rv);
            let p = spec_first_diff_pos(l, rv);
            if p < min_len {
                assert(l[p] != rv[p]);
            }
        }
        min_len
    }

    /// Scans the tables in declaration order for the first satisfying a match
    /// rule — the full-prefix rule tried before current-database elision —
    /// returning the matched prefix length and the table, as
    /// `spec_best_match` describes.
    pub fn best_match_table<'a>(&'a self, ref_names: &[String]) -> (r: Option<
        (usize, &'a JoinedTableDesc),
    >)
        ensures
            match r {
                None => spec_best_match(self.tables(), views_of_strings(ref_names@), self.db())
                    is None,
                Some(pt) => ({
                    let names = views_of_strings(ref_names@);
                    let i = best_match_index(self.tables(), names, self.db());
                    &&& spec_best_match(self.tables(), names, self.db()) == Some(
                        (pt.0 as int, i),
                    )
                    &&& 0 <= i < self.tables().len()
                    &&& pt.1@ == self.tables()[i]
                    &&& pt.0 <= ref_names@.len()
                }),
            },
    {
        let ghost names = views_of_strings(ref_names@);
        let ghost tables = self.tables();
        let ghost db = self.db();
        if ref_names.len() <= 1 {
            return None;
        }
        let current_database = self.ctx.get_current_database();
        let n = self.tables_schema.tables_desc.len();
        let mut i: usize = 0;
        while i < n
            invariant
                i <= n,
                n == self.tables_schema.tables_desc.len(),
                names == views_of_strings(ref_names@),
                tables == self.tables(),
                db == self.db(),
                names.len() >= 2,
                current_database@ == db,
                forall|k: int| 0 <= k < i ==> !table_matches(tables[k], names, db),
            decreases n - i,
        {
            let table_desc = &self.tables_schema.tables_desc[i];
            proof {
                assert(tables[i as int] == self.tables_schema.tables_desc@[i as int]@);
            }
            let name_parts = &table_desc.name_parts;
            let pos = Self::first_diff_pos(ref_names, name_parts.as_slice());
            if pos == name_parts.len() {
                proof {
                    assert(full_prefix_match(tables[i as int], names));
                    lemma_best_match_at(tables, names, db, i as int);
                }
                return Some((pos, table_desc));
            }
            let mut elides = false;
            if name_parts.len() > 1 {
                let tail = slice_subrange(name_parts.as_slice(), 1, name_parts.len());
                let pos2 = Self::first_diff_pos(ref_names, tail);
                proof {
                    assert(views_of_strings(tail@) =~= tables[i as int].parts.drop_first());
                }
                if pos2 == 1 && current_database.eq(&name_parts[0]) {
                    proof {
                        assert(tables[i as int].parts[0] == name_parts@[0]@);
                    }
                    elides = true;
                }
                proof {
                    assert(elides == elision_match(tables[i as int], names, db));
                }
            }
            if elides {
                proof {
                    assert(!full_prefix_match(tables[i as int], names));
                    lemma_best_match_at(tables, names, db, i as int);
                }
                return Some((1, table_desc));
            }
            proof {
                assert(!table_matches(tables[i as int], names, db));
            }
            i += 1;
        }
        proof {
            lemma_best_match_none(tables, names, db);
        }
        None
    }

    /// Looks up the residual name in the matched table's columns, in declared
    /// order, as `spec_find_column` describes: qualified when the matched
    /// column is flagged ambiguous, bare otherwise, Unknown-Column when the
    /// table has no such column.
    pub fn find_column(table_desc: &JoinedTableDesc, name: &String) -> (r: Result<
        Expression,
        ErrorCode,
    >)
        ensures
            res_expr_view(r) == spec_find_column(table_desc@, name@),
    {
        let ghost table = table_desc@;
        let ncols = table_desc.columns_desc.len();
        let mut j: usize = 0;
        while j < ncols
            invariant
                j <= ncols,
                ncols == table_desc.columns_desc.len(),
                table == table_desc@,
                forall|b: int| 0 <= b < j ==> table.cols[b].name != name@,
            decreases ncols - j,
        {
            if table_desc.columns_desc[j].short_name.eq(name) {
                proof {
                    assert(table.cols[j as int] == table_desc.columns_desc@[j as int]@);
                    lemma_col_index(table.cols, name@);
                    let idx = spec_col_index(table.cols, name@);
                    if idx < 0 {
                        assert(table.cols[j as int].name != name@);
                    }
                    assert(idx == j as int);
                }
                if table_desc.columns_desc[j].is_ambiguity {
                    let mut qualified = join_name_parts(&table_desc.name_parts);
                    qualified.append(".");
                    qualified.append(name.as_str());
                    return Ok(Expression::Column(qualified));
                } else {
                    return Ok(Expression::Column(name.clone()));
                }
            }
            j += 1;
        }
        proof {
            lemma_col_index(table.cols, name@);
            let idx = spec_col_index(table.cols, name@);
            if idx >= 0 {
                assert(table.cols[idx].name == name@);
            }
        }
        let mut message = String::from_str("Unknown column: ");
        let prefix = join_name_parts(&table_desc.name_parts);
        message.append(prefix.as_str());
        message.append(".");
        message.append(name.as_str());
        Err(ErrorCode::unknown_column(message))
    }

    /// Resolves a dotted reference to a disambiguated `Column`, as
    /// `spec_resolve_qualified` describes: table match, residual check,
    /// column lookup.
    pub fn rewrite_qualified_column(&self, ref_names: &Vec<String>) -> (r: Result<
        Expression,
        ErrorCode,
    >)
        ensures
            res_expr_view(r) == spec_resolve_qualified(
                self.tables(),
                self.db(),
                views_of_strings(ref_names@),
            ),
    {
        let ghost names = views_of_strings(ref_names@);
        match self.best_match_table(ref_names.as_slice()) {
            None => {
                let mut message = String::from_str("Unknown column ");
                let joined = join_name_parts(ref_names);
                message.append(joined.as_str());
                Err(ErrorCode::unknown_column(message))
            },
            Some((pos, table_desc)) => {
                if ref_names.len() - pos == 1 {
                    proof {
                        assert(names.skip(pos as int) =~= seq![names[pos as int]]);
                        assert(names[pos as int] == ref_names@[pos as int]@);
                    }
                    Self::find_column(table_desc, &ref_names[pos])
                } else {
                    Err(
                        ErrorCode::syntax_exception(
                            String::from_str("Unsupported complex type field access"),
                        ),
                    )
                }
            },
        }
    }

    /// The wildcard expansion of one table, as `expand_table` describes.
    fn expand_table_columns(table_desc: &JoinedTableDesc) -> (r: Vec<Expression>)
        ensures
            Expression::view_seq(r@) == expand_table(table_desc@),
    {
        let ghost table = table_desc@;
        let mut out: Vec<Expression> = Vec::new();
        let ncols = table_desc.columns_desc.len();
        let mut j: usize = 0;
        while j < ncols
            invariant
                j <= ncols,
                ncols == table_desc.columns_desc.len(),
                table == table_desc@,
                Expression::view_seq(out@) == expand_table(table).take(j as int),
            decreases ncols - j,
        {
            let column_desc = &table_desc.columns_desc[j];
            proof {
                assert(table.cols[j as int] == table_desc.columns_desc@[j as int]@);
            }
            let ghost prev = out@;
            let name = column_desc.short_name.clone();
            let element = if column_desc.is_ambiguity {
                let mut qualified = join_name_parts(&table_desc.name_parts);
                qualified.append(".");
                qualified.append(name.as_str());
                Expression::Column(qualified)
            } else {
                Expression::Column(name)
            };
            proof {
                assert(element@ == rendered_column(table, table.cols[j as int]));
                assert(expand_table(table)[j as int] == rendered_column(
                    table,
                    table.cols[j as int],
                ));
            }
            out.push(element);
            proof {
                assert(out@.drop_last() =~= prev);
                assert(out@.last() == element);
                assert(expand_table(table).take(j + 1).drop_last() =~= expand_table(table).take(
                    j as int,
                ));
                assert(expand_table(table).take(j + 1).last() == expand_table(table)[j as int]);
                assert(Expression::view_seq(out@) == expand_table(table).take(j + 1));
            }
            j += 1;
        }
        proof {
            assert(expand_table(table).take(ncols as int) =~= expand_table(table));
        }
        out
    }

    /// Appends the expansion of `*` — every column of every table, tables in
    /// declaration order, columns in declared order, qualified exactly when
    /// ambiguous — to the caller's output list, as `spec_expand_wildcard`
    /// describes.
    pub fn expand_wildcard(&self, columns_expression: &mut Vec<Expression>)
        ensures
            Expression::view_seq(final(columns_expression)@) == Expression::view_seq(
                old(columns_expression)@,
            ) + spec_expand_wildcard(self.tables()),
    {
        let ghost base = old(columns_expression)@;
        let ghost tables = self.tables();
        let n = self.tables_schema.tables_desc.len();
        let mut i: usize = 0;
        while i < n
            invariant
                i <= n,
                n == self.tables_schema.tables_desc.len(),
                tables == self.tables(),
                Expression::view_seq(columns_expression@) == Expression::view_seq(base)
                    + spec_expand_wildcard(tables.take(i as int)),
            decreases n - i,
        {
            let mut cols = Self::expand_table_columns(&self.tables_schema.tables_desc[i]);
            let ghost colsv = cols@;
            let ghost prev = columns_expression@;
            columns_expression.append(&mut cols);
            proof {
                assert(tables[i as int] == self.tables_schema.tables_desc@[i as int]@);
                lemma_view_seq_concat(prev, colsv);
                assert(tables.take(i + 1).drop_last() =~= tables.take(i as int));
                assert(tables.take(i + 1).last() == tables[i as int]);
                assert(spec_expand_wildcard(tables.take(i + 1)) == spec_expand_wildcard(
                    tables.take(i as int),
                ) + expand_table(tables[i as int]));
                assert(Expression::view_seq(base) + spec_expand_wildcard(tables.take(i + 1))
                    =~= Expression::view_seq(base) + spec_expand_wildcard(tables.take(i as int))
                    + expand_table(tables[i as int]));
            }
            i += 1;
        }
        proof {
            assert(tables.take(n as int) =~= tables);
        }
    }

    /// Copies a list of strings.
    fn clone_strings(strings: &Vec<String>) -> (r: Vec<String>)
        ensures
            views_of_strings(r@) == views_of_strings(strings@),
    {
        let mut out: Vec<String> = Vec::new();
        let mut k: usize = 0;
        while k < strings.len()
            invariant
                k <= strings.len(),
                out@.len() == k,
                forall|b: int| 0 <= b < k ==> out@[b]@ == strings@[b]@,
            decreases strings.len() - k,
        {
            out.push(strings[k].clone());
            k += 1;
        }
        proof {
            assert(views_of_strings(out@) =~= views_of_strings(strings@));
        }
        out
    }

    /// Rewrites an argument list in original positional order, as
    /// `spec_rewrite_seq` describes: the first child failure aborts the list.
    fn rewrite_args(&self, args: &Vec<Expression>) -> (r: Result<Vec<Expression>, ErrorCode>)
        ensures
            match r {
                Ok(v) => spec_rewrite_seq(self.tables(), self.db(), Expression::view_seq(args@))
                    == Ok::<Seq<ExprV>, ErrorV>(Expression::view_seq(v@)),
                Err(e) => spec_rewrite_seq(self.tables(), self.db(), Expression::view_seq(args@))
                    == Err::<Seq<ExprV>, ErrorV>(e@),
            },
        decreases args@,
    {
        let ghost vs = Expression::view_seq(args@);
        proof {
            lemma_view_seq_len(args@);
        }
        let mut new_args: Vec<Expression> = Vec::new();
        let mut k: usize = 0;
        while k < args.len()
            invariant
                k <= args.len(),
                vs == Expression::view_seq(args@),
                vs.len() == args@.len(),
                spec_rewrite_seq(self.tables(), self.db(), vs.take(k as int)) == Ok::<
                    Seq<ExprV>,
                    ErrorV,
                >(Expression::view_seq(new_args@)),
            decreases args.len() - k,
        {
            match self.rewrite_expr(&args[k]) {
                Ok(e) => {
                    let ghost prev = new_args@;
                    new_args.push(e);
                    proof {
                        lemma_view_seq_index(args@, k as int);
                        lemma_rewrite_seq_snoc(self.tables(), self.db(), vs, k as int);
                        assert(new_args@.drop_last() =~= prev);
                    }
                },
                Err(cause) => {
                    proof {
                        lemma_view_seq_index(args@, k as int);
                        lemma_rewrite_seq_snoc(self.tables(), self.db(), vs, k as int);
                        lemma_rewrite_seq_err_prefix(self.tables(), self.db(), vs, k as int + 1);
                    }
                    return Err(cause);
                },
            }
            k += 1;
        }
        proof {
            assert(vs.take(args@.len() as int) =~= vs);
        }
        Ok(new_args)
    }

    /// Rewrites one expression tree, as `spec_rewrite_expr` describes: pure
    /// over the input, depth-first, left-to-right, total over the variant
    /// set, failing on the first invalid reference.
    pub fn rewrite_expr(&self, expr: &Expression) -> (r: Result<Expression, ErrorCode>)
        ensures
            res_expr_view(r) == spec_rewrite_expr(self.tables(), self.db(), expr@),
        decreases *expr,
    {
        match expr {
            Expression::Column(v) => {
                if self.tables_schema.contains_column(v) {
                    Ok(Expression::Column(v.clone()))
                } else {
                    let mut message = String::from_str("Unknown column ");
                    message.append(v.as_str());
                    Err(ErrorCode::unknown_column(message))
                }
            },
            Expression::QualifiedColumn(names) => self.rewrite_qualified_column(names),
            Expression::Alias(alias, child) => match self.rewrite_expr(child) {
                Ok(c) => Ok(Expression::Alias(alias.clone(), Box::new(c))),
                Err(cause) => Err(cause),
            },
            Expression::UnaryExpression { op, expr: child } => match self.rewrite_expr(child) {
                Ok(c) => Ok(Expression::UnaryExpression { op: op.clone(), expr: Box::new(c) }),
                Err(cause) => Err(cause),
            },
            Expression::BinaryExpression { left, op, right } => match self.rewrite_expr(left) {
                Ok(l) => match self.rewrite_expr(right) {
                    Ok(rr) => Ok(
                        Expression::BinaryExpression {
                            left: Box::new(l),
                            op: op.clone(),
                            right: Box::new(rr),
                        },
                    ),
                    Err(cause) => Err(cause),
                },
                Err(cause) => Err(cause),
            },
            Expression::ScalarFunction { op, args } => match self.rewrite_args(args) {
                Ok(new_args) => Ok(
                    Expression::ScalarFunction { op: op.clone(), args: new_args },
                ),
                Err(cause) => Err(cause),
            },
            Expression::AggregateFunction { op, distinct, params, args } => match self.rewrite_args(
                args,
            ) {
                Ok(new_args) => Ok(
                    Expression::AggregateFunction {
                        op: op.clone(),
                        distinct: *distinct,
                        params: Self::clone_strings(params),
                        args: new_args,
                    },
                ),
                Err(cause) => Err(cause),
            },
            Expression::Sort { expr: child, asc, nulls_first, origin_expr } => match self
                .rewrite_expr(child) {
                Ok(c) => match self.rewrite_expr(origin_expr) {
                    Ok(o) => Ok(
                        Expression::Sort {
                            expr: Box::new(c),
                            asc: *asc,
                            nulls_first: *nulls_first,
                            origin_expr: Box::new(o),
                        },
                    ),
                    Err(cause) => Err(cause),
                },
                Err(cause) => Err(cause),
            },
            Expression::Cast { expr: child, data_type } => match self.rewrite_expr(child) {
                Ok(c) => Ok(Expression::Cast { expr: Box::new(c), data_type: data_type.clone() }),
                Err(cause) => Err(cause),
            },
            Expression::Wildcard => Ok(Expression::Wildcard),
            Expression::Literal(value) => Ok(Expression::Literal(value.clone())),
            Expression::Subquery(name) => Ok(Expression::Subquery(name.clone())),
            Expression::ScalarSubquery(name) => Ok(Expression::ScalarSubquery(name.clone())),
        }
    }

    /// Rewrites one clause's expression list, as `spec_rewrite_clause`
    /// describes; a failure gets the clause breadcrumb built from
    /// `context_prefix`, the rendered offending item and a closing bracket.
    fn rewrite_expression_list(
        &self,
        exprs: &Vec<Expression>,
        context_prefix: &str,
        Ghost(label): Ghost<Seq<char>>,
    ) -> (r: Result<Vec<Expression>, ErrorCode>)
        requires
            context_prefix@ == label,
        ensures
            match r {
                Ok(v) => spec_rewrite_clause(
                    self.tables(),
                    self.db(),
                    Expression::view_seq(exprs@),
                    label,
                ) == Ok::<Seq<ExprV>, ErrorV>(Expression::view_seq(v@)),
                Err(e) => spec_rewrite_clause(
                    self.tables(),
                    self.db(),
                    Expression::view_seq(exprs@),
                    label,
                ) == Err::<Seq<ExprV>, ErrorV>(e@),
            },
    {
        let ghost vs = Expression::view_seq(exprs@);
        proof {
            lemma_view_seq_len(exprs@);
        }
        let mut rewritten: Vec<Expression> = Vec::new();
        let mut k: usize = 0;
        while k < exprs.len()
            invariant
                k <= exprs.len(),
                vs == Expression::view_seq(exprs@),
                vs.len() == exprs@.len(),
                context_prefix@ == label,
                spec_rewrite_clause(self.tables(), self.db(), vs.take(k as int), label) == Ok::<
                    Seq<ExprV>,
                    ErrorV,
                >(Expression::view_seq(rewritten@)),
            decreases exprs.len() - k,
        {
            let item = &exprs[k];
            match self.rewrite_expr(item) {
                Ok(e) => {
                    let ghost prev = rewritten@;
                    rewritten.push(e);
                    proof {
                        lemma_view_seq_index(exprs@, k as int);
                        lemma_rewrite_clause_snoc(self.tables(), self.db(), vs, label, k as int);
                        assert(rewritten@.drop_last() =~= prev);
                    }
                },
                Err(cause) => {
                    let mut context = String::from_str(context_prefix);
                    let text = item.display_text();
                    context.append(text.as_str());
                    context.append(")");
                    proof {
                        lemma_view_seq_index(exprs@, k as int);
                        lemma_rewrite_clause_snoc(self.tables(), self.db(), vs, label, k as int);
                        lemma_rewrite_clause_err_prefix(
                            self.tables(),
                            self.db(),
                            vs,
                            label,
                            k as int + 1,
                        );
                        assert(cause@.message + (label + vs[k as int].text() + ")"@)
                            =~= cause@.message + label + vs[k as int].text() + ")"@);
                    }
                    return Err(cause.add_message_back(context.as_str()));
                },
            }
            k += 1;
        }
        proof {
            assert(vs.take(exprs@.len() as int) =~= vs);
        }
        Ok(rewritten)
    }

    /// Rewrites the group-by list in place; on failure the IR is unchanged
    /// and the error carries the group clause breadcrumb.
    pub fn rewrite_group(&self, ir: &mut QueryASTIR) -> (r: Result<(), ErrorCode>)
        ensures
            match r {
                Ok(()) => {
                    &&& spec_rewrite_clause(
                        self.tables(),
                        self.db(),
                        old(ir)@.group_by,
                        group_label(),
                    ) == Ok::<Seq<ExprV>, ErrorV>(final(ir)@.group_by)
                    &&& final(ir).order_by_expressions == old(ir).order_by_expressions
                    &&& final(ir).aggregate_expressions == old(ir).aggregate_expressions
                    &&& final(ir).projection_expressions == old(ir).projection_expressions
                    &&& final(ir).filter_predicate == old(ir).filter_predicate
                    &&& final(ir).having_predicate == old(ir).having_predicate
                },
                Err(e) => {
                    &&& spec_rewrite_clause(
                        self.tables(),
                        self.db(),
                        old(ir)@.group_by,
                        group_label(),
                    ) == Err::<Seq<ExprV>, ErrorV>(e@)
                    &&& *final(ir) == *old(ir)
                },
            },
    {
        match self.rewrite_expression_list(
            &ir.group_by_expressions,
            " (while in analyze group expr: ",
            Ghost(group_label()),
        ) {
            Ok(group_expressions) => {
                ir.group_by_expressions = group_expressions;
                Ok(())
            },
            Err(cause) => Err(cause),
        }
    }

    /// Rewrites the order-by list in place; on failure the IR is unchanged
    /// and the error carries the order clause breadcrumb.
    pub fn rewrite_order(&self, ir: &mut QueryASTIR) -> (r: Result<(), ErrorCode>)
        ensures
            match r {
                Ok(()) => {
                    &&& spec_rewrite_clause(
                        self.tables(),
                        self.db(),
                        old(ir)@.order_by,
                        order_label(),
                    ) == Ok::<Seq<ExprV>, ErrorV>(final(ir)@.order_by)
                    &&& final(ir).group_by_expressions == old(ir).group_by_expressions
                    &&& final(ir).aggregate_expressions == old(ir).aggregate_expressions
                    &&& final(ir).projection_expressions == old(ir).projection_expressions
                    &&& final(ir).filter_predicate == old(ir).filter_predicate
                    &&& final(ir).having_predicate == old(ir).having_predicate
                },
                Err(e) => {
                    &&& spec_rewrite_clause(
                        self.tables(),
                        self.db(),
                        old(ir)@.order_by,
                        order_label(),
                    ) == Err::<Seq<ExprV>, ErrorV>(e@)
                    &&& *final(ir) == *old(ir)
                },
            },
    {
        match self.rewrite_expression_list(
            &ir.order_by_expressions,
            " (while in analyze order expr: ",
            Ghost(order_label()),
        ) {
            Ok(order_expressions) => {
                ir.order_by_expressions = order_expressions;
                Ok(())
            },
            Err(cause) => Err(cause),
        }
    }

    /// Rewrites the aggregate list in place; on failure the IR is unchanged
    /// and the error carries the aggregate clause breadcrumb.
    pub fn rewrite_aggregate(&self, ir: &mut QueryASTIR) -> (r: Result<(), ErrorCode>)
        ensures
            match r {
                Ok(()) => {
                    &&& spec_rewrite_clause(
                        self.tables(),
                        self.db(),
                        old(ir)@.aggregate,
                        aggregate_label(),
                    ) == Ok::<Seq<ExprV>, ErrorV>(final(ir)@.aggregate)
                    &&& final(ir).group_by_expressions == old(ir).group_by_expressions
                    &&& final(ir).order_by_expressions == old(ir).order_by_expressions
                    &&& final(ir).projection_expressions == old(ir).projection_expressions
                    &&& final(ir).filter_predicate == old(ir).filter_predicate
                    &&& final(ir).having_predicate == old(ir).having_predicate
                },
                Err(e) => {
                    &&& spec_rewrite_clause(
                        self.tables(),
                        self.db(),
                        old(ir)@.aggregate,
                        aggregate_label(),
                    ) == Err::<Seq<ExprV>, ErrorV>(e@)
                    &&& *final(ir) == *old(ir)
                },
            },
    {
        match self.rewrite_expression_list(
            &ir.aggregate_expressions,
            " (while in analyze aggregate expr: ",
            Ghost(aggregate_label()),
        ) {
            Ok(aggregate_expressions) => {
                ir.aggregate_expressions = aggregate_expressions;
                Ok(())
            },
            Err(cause) => Err(cause),
        }
    }

    /// Rewrites the projection list in place, as `spec_rewrite_projection`
    /// describes: an aliased wildcard is rejected, a bare wildcard expands to
    /// the schema's column list, anything else is rewritten.
    pub fn rewrite_projection(&self, ir: &mut QueryASTIR) -> (r: Result<(), ErrorCode>)
        ensures
            match r {
                Ok(()) => {
                    &&& spec_rewrite_projection(self.tables(), self.db(), old(ir)@.projection)
                        == Ok::<Seq<ExprV>, ErrorV>(final(ir)@.projection)
                    &&& final(ir).group_by_expressions == old(ir).group_by_expressions
                    &&& final(ir).order_by_expressions == old(ir).order_by_expressions
                    &&& final(ir).aggregate_expressions == old(ir).aggregate_expressions
                    &&& final(ir).filter_predicate == old(ir).filter_predicate
                    &&& final(ir).having_predicate == old(ir).having_predicate
                },
                Err(e) => {
                    &&& spec_rewrite_projection(self.tables(), self.db(), old(ir)@.projection)
                        == Err::<Seq<ExprV>, ErrorV>(e@)
                    &&& *final(ir) == *old(ir)
                },
            },
    {
        let ghost vs = ir@.projection;
        proof {
            lemma_view_seq_len(ir.projection_expressions@);
        }
        let mut projection_expressions: Vec<Expression> = Vec::new();
        let n = ir.projection_expressions.len();
        let mut k: usize = 0;
        while k < n
            invariant
                k <= n,
                n == ir.projection_expressions.len(),
                vs == Expression::view_seq(ir.projection_expressions@),
                vs.len() == n,
                spec_rewrite_projection(self.tables(), self.db(), vs.take(k as int)) == Ok::<
                    Seq<ExprV>,
                    ErrorV,
                >(Expression::view_seq(projection_expressions@)),
            decreases n - k,
        {
            let item = &ir.projection_expressions[k];
            proof {
                lemma_view_seq_index(ir.projection_expressions@, k as int);
            }
            let mut aliased_wildcard = false;
            match item {
                Expression::Alias(_, x) => {
                    match &**x {
                        Expression::Wildcard => {
                            aliased_wildcard = true;
                        },
                        _ => {},
                    }
                    proof {
                        lemma_view_wildcard(**x);
                    }
                },
                _ => {},
            }
            proof {
                assert(aliased_wildcard == is_aliased_wildcard(vs[k as int]));
            }
            if aliased_wildcard {
                proof {
                    lemma_rewrite_projection_snoc(self.tables(), self.db(), vs, k as int);
                    lemma_rewrite_projection_err_prefix(
                        self.tables(),
                        self.db(),
                        vs,
                        k as int + 1,
                    );
                }
                return Err(
                    ErrorCode::syntax_exception(String::from_str("* AS alias is wrong syntax")),
                );
            }
            let is_wildcard = match item {
                Expression::Wildcard => true,
                _ => false,
            };
            proof {
                lemma_view_wildcard(ir.projection_expressions@[k as int]);
            }
            if is_wildcard {
                self.expand_wildcard(&mut projection_expressions);
                proof {
                    lemma_rewrite_projection_snoc(self.tables(), self.db(), vs, k as int);
                }
            } else {
                match self.rewrite_expr(item) {
                    Ok(e) => {
                        let ghost prev = projection_expressions@;
                        projection_expressions.push(e);
                        proof {
                            lemma_rewrite_projection_snoc(self.tables(), self.db(), vs, k as int);
                            assert(projection_expressions@.drop_last() =~= prev);
                        }
                    },
                    Err(cause) => {
                        let mut context = String::from_str(" (while in analyze projection expr: ");
                        let text = item.display_text();
                        context.append(text.as_str());
                        context.append(")");
                        proof {
                            lemma_rewrite_projection_snoc(self.tables(), self.db(), vs, k as int);
                            lemma_rewrite_projection_err_prefix(
                                self.tables(),
                                self.db(),
                                vs,
                                k as int + 1,
                            );
                            assert(cause@.message + (projection_label() + vs[k as int].text()
                                + ")"@) =~= cause@.message + projection_label()
                                + vs[k as int].text() + ")"@);
                        }
                        return Err(cause.add_message_back(context.as_str()));
                    },
                }
            }
            k += 1;
        }
        ir.projection_expressions = projection_expressions;
        proof {
            assert(vs.take(n as int) =~= vs);
        }
        Ok(())
    }

    /// Rewrites every clause of the IR in fixed order — group by, order by,
    /// aggregates, projection, filter predicate, having predicate — as
    /// `spec_rewrite_ir` describes: the resolved IR, or the first error with
    /// its clause breadcrumb appended.
    pub fn rewrite(&self, ir: QueryASTIR) -> (r: Result<QueryASTIR, ErrorCode>)
        ensures
            match r {
                Ok(out) => spec_rewrite_ir(self.tables(), self.db(), ir@) == Ok::<IrV, ErrorV>(
                    out@,
                ),
                Err(e) => spec_rewrite_ir(self.tables(), self.db(), ir@) == Err::<IrV, ErrorV>(e@),
            },
    {
        let mut out_ir = ir;
        match self.rewrite_group(&mut out_ir) {
            Ok(()) => {},
            Err(cause) => {
                return Err(cause);
            },
        }
        match self.rewrite_order(&mut out_ir) {
            Ok(()) => {},
            Err(cause) => {
                return Err(cause);
            },
        }
        match self.rewrite_aggregate(&mut out_ir) {
            Ok(()) => {},
            Err(cause) => {
                return Err(cause);
            },
        }
        match self.rewrite_projection(&mut out_ir) {
            Ok(()) => {},
            Err(cause) => {
                return Err(cause);
            },
        }
        match &out_ir.filter_predicate {
            Some(predicate) => {
                match self.rewrite_expr(predicate) {
                    Ok(rewritten) => {
                        out_ir.filter_predicate = Some(rewritten);
                    },
                    Err(cause) => {
                        let mut context = String::from_str(" (while in analyze filter predicate ");
                        let text = predicate.display_text();
                        context.append(text.as_str());
                        context.append(")");
                        proof {
                            let e = ir@.filter->0;
                            assert(cause@.message + (filter_label() + e.text() + ")"@)
                                =~= cause@.message + filter_label() + e.text() + ")"@);
                        }
                        return Err(cause.add_message_back(context.as_str()));
                    },
                }
            },
            None => {},
        }
        match &out_ir.having_predicate {
            Some(predicate) => {
                match self.rewrite_expr(predicate) {
                    Ok(rewritten) => {
                        out_ir.having_predicate = Some(rewritten);
                    },
                    Err(cause) => {
                        let mut context = String::from_str(" (while in analyze having predicate ");
                        let text = predicate.display_text();
                        context.append(text.as_str());
                        context.append(")");
                        proof {
                            let e = ir@.having->0;
                            assert(cause@.message + (having_label() + e.text() + ")"@)
                                =~= cause@.message + having_label() + e.text() + ")"@);
                        }
                        return Err(cause.add_message_back(context.as_str()));
                    },
                }
            },
            None => {},
        }
        Ok(out_ir)
    }
}

} // verus!
