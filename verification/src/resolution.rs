//! The mathematical model of name resolution: what each rewriting step
//! returns, for every schema, session database and expression. The executable
//! rewriter's contracts are stated against these functions.

use vstd::prelude::*;

use crate::error::ErrorKind;
use crate::error::ErrorV;
use crate::expr::ExprV;
use crate::ir::IrV;
use crate::schema::ColumnV;
use crate::schema::TableV;
use crate::schema::join_parts;
use crate::schema::qualified_name;
use crate::schema::spec_contains_column;

verus! {

/// An Unknown-Column error with the given message.
pub open spec fn err_unknown(message: Seq<char>) -> ErrorV {
    ErrorV { kind: ErrorKind::UnknownColumn, message }
}

/// A Syntax error with the given message.
pub open spec fn err_syntax(message: Seq<char>) -> ErrorV {
    ErrorV { kind: ErrorKind::Syntax, message }
}

/// Index of the first position where the two part lists differ, bounded by
/// the shorter length.
pub open spec fn spec_first_diff_pos(left: Seq<Seq<char>>, right: Seq<Seq<char>>) -> int
    decreases left.len(),
{
    if left.len() == 0 || right.len() == 0 {
        0
    } else if left[0] != right[0] {
        0
    } else {
        1 + spec_first_diff_pos(left.drop_first(), right.drop_first())
    }
}

/// `spec_first_diff_pos` returns the length of the longest common prefix,
/// bounded by the shorter list.
pub proof fn lemma_first_diff_pos(left: Seq<Seq<char>>, right: Seq<Seq<char>>)
    ensures
        0 <= spec_first_diff_pos(left, right) <= left.len(),
        spec_first_diff_pos(left, right) <= right.len(),
        forall|k: int| 0 <= k < spec_first_diff_pos(left, right) ==> left[k] == right[k],
        spec_first_diff_pos(left, right) < left.len() && spec_first_diff_pos(left, right)
            < right.len() ==> left[spec_first_diff_pos(left, right)] != right[spec_first_diff_pos(
            left,
            right,
        )],
    decreases left.len(),
{
    if left.len() > 0 && right.len() > 0 && left[0] == right[0] {
        lemma_first_diff_pos(left.drop_first(), right.drop_first());
        let p = spec_first_diff_pos(left, right);
        assert forall|k: int| 0 <= k < p implies left[k] == right[k] by {
            if k > 0 {
                assert(left.drop_first()[k - 1] == right.drop_first()[k - 1]);
            }
        }
    }
}

/// Full-prefix rule: the table's entire qualifier is a literal prefix of the
/// reference. Covers `alias.column` and `database.table.column`.
pub open spec fn full_prefix_match(table: TableV, names: Seq<Seq<char>>) -> bool {
    spec_first_diff_pos(names, table.parts) == table.parts.len()
}

/// Current-database elision rule: the reference omits the database part of a
/// `db.table` qualifier and `db` is the session's current database. Covers
/// writing `table.column` for a table declared as `currentdb.table`.
pub open spec fn elision_match(table: TableV, names: Seq<Seq<char>>, db: Seq<char>) -> bool {
    table.parts.len() > 1 && spec_first_diff_pos(names, table.parts.drop_first()) == 1
        && table.parts[0] == db
}

/// Whether a table satisfies either match rule.
pub open spec fn table_matches(table: TableV, names: Seq<Seq<char>>, db: Seq<char>) -> bool {
    full_prefix_match(table, names) || elision_match(table, names, db)
}

/// The matched prefix length of a matching table; the full-prefix rule is
/// tried first.
pub open spec fn match_prefix_len(table: TableV, names: Seq<Seq<char>>, db: Seq<char>) -> int {
    if full_prefix_match(table, names) {
        table.parts.len() as int
    } else {
        1
    }
}

/// The first table, in FROM/JOIN declaration order, that satisfies a match
/// rule: `Some((matched prefix length, table index))`, or `None` when no
/// table matches or the reference has fewer than two parts.
pub open spec fn spec_best_match(tables: Seq<TableV>, names: Seq<Seq<char>>, db: Seq<char>) -> Option<
    (int, int),
>
    decreases tables.len(),
{
    if names.len() <= 1 {
        None
    } else if tables.len() == 0 {
        None
    } else if table_matches(tables[0], names, db) {
        Some((match_prefix_len(tables[0], names, db), 0))
    } else {
        match spec_best_match(tables.drop_first(), names, db) {
            None => None,
            Some(pi) => Some((pi.0, pi.1 + 1)),
        }
    }
}

/// Declaration order breaks ties: a match is the first matching table, and no
/// table at all matches when the result is `None`.
pub proof fn lemma_best_match_characterization(
    tables: Seq<TableV>,
    names: Seq<Seq<char>>,
    db: Seq<char>,
)
    ensures
        match spec_best_match(tables, names, db) {
            None => names.len() <= 1 || forall|k: int|
                0 <= k < tables.len() ==> !table_matches(tables[k], names, db),
            Some(pi) => {
                &&& names.len() >= 2
                &&& 0 <= pi.1 < tables.len()
                &&& table_matches(tables[pi.1], names, db)
                &&& forall|k: int| 0 <= k < pi.1 ==> !table_matches(tables[k], names, db)
                &&& pi.0 == match_prefix_len(tables[pi.1], names, db)
            },
        },
    decreases tables.len(),
{
    if names.len() <= 1 || tables.len() == 0 {
    } else if table_matches(tables[0], names, db) {
    } else {
        lemma_best_match_characterization(tables.drop_first(), names, db);
        match spec_best_match(tables.drop_first(), names, db) {
            None => {
                assert forall|k: int|
                    0 <= k < tables.len() implies !table_matches(tables[k], names, db) by {
                    if k > 0 {
                        assert(tables.drop_first()[k - 1] == tables[k]);
                    }
                }
            },
            Some(pi) => {
                assert(tables.drop_first()[pi.1] == tables[pi.1 + 1]);
                assert forall|k: int|
                    0 <= k < pi.1 + 1 implies !table_matches(tables[k], names, db) by {
                    if k > 0 {
                        assert(tables.drop_first()[k - 1] == tables[k]);
                    }
                }
            },
        }
    }
}

/// The matched prefix length of the best match, when one exists.
pub open spec fn best_match_prefix(tables: Seq<TableV>, names: Seq<Seq<char>>, db: Seq<char>) -> int {
    match spec_best_match(tables, names, db) {
        Some(pi) => pi.0,
        None => 0,
    }
}

/// The table index of the best match, when one exists.
pub open spec fn best_match_index(tables: Seq<TableV>, names: Seq<Seq<char>>, db: Seq<char>) -> int {
    match spec_best_match(tables, names, db) {
        Some(pi) => pi.1,
        None => 0,
    }
}

/// A first matching table pins the best match.
pub proof fn lemma_best_match_at(tables: Seq<TableV>, names: Seq<Seq<char>>, db: Seq<char>, i: int)
    requires
        names.len() >= 2,
        0 <= i < tables.len(),
        table_matches(tables[i], names, db),
        forall|k: int| 0 <= k < i ==> !table_matches(tables[k], names, db),
    ensures
        spec_best_match(tables, names, db) == Some(
            (match_prefix_len(tables[i], names, db), i),
        ),
    decreases i,
{
    if i == 0 {
    } else {
        lemma_best_match_at(tables.drop_first(), names, db, i - 1);
        assert(tables.drop_first()[i - 1] == tables[i]);
        assert forall|k: int|
            0 <= k < i - 1 implies !table_matches(tables.drop_first()[k], names, db) by {
            assert(tables.drop_first()[k] == tables[k + 1]);
        }
    }
}

/// No matching table anywhere means no best match.
pub proof fn lemma_best_match_none(tables: Seq<TableV>, names: Seq<Seq<char>>, db: Seq<char>)
    requires
        forall|k: int| 0 <= k < tables.len() ==> !table_matches(tables[k], names, db),
    ensures
        spec_best_match(tables, names, db) is None,
    decreases tables.len(),
{
    if names.len() >= 2 && tables.len() > 0 {
        assert forall|k: int|
            0 <= k < tables.drop_first().len() implies !table_matches(
            tables.drop_first()[k],
            names,
            db,
        ) by {
            assert(tables.drop_first()[k] == tables[k + 1]);
        }
        lemma_best_match_none(tables.drop_first(), names, db);
    }
}

/// Index of the first column of the table with the given short name, or a
/// negative value when the table has none.
pub open spec fn spec_col_index(cols: Seq<ColumnV>, name: Seq<char>) -> int
    decreases cols.len(),
{
    if cols.len() == 0 {
        -1
    } else if cols[0].name == name {
        0
    } else {
        let rest = spec_col_index(cols.drop_first(), name);
        if rest < 0 {
            -1
        } else {
            rest + 1
        }
    }
}

/// `spec_col_index` finds the first column with the given name, if any.
pub proof fn lemma_col_index(cols: Seq<ColumnV>, name: Seq<char>)
    ensures
        spec_col_index(cols, name) < 0 ==> forall|j: int|
            0 <= j < cols.len() ==> cols[j].name != name,
        spec_col_index(cols, name) >= 0 ==> {
            &&& spec_col_index(cols, name) < cols.len()
            &&& cols[spec_col_index(cols, name)].name == name
            &&& forall|j: int| 0 <= j < spec_col_index(cols, name) ==> cols[j].name != name
        },
    decreases cols.len(),
{
    if cols.len() > 0 && cols[0].name != name {
        lemma_col_index(cols.drop_first(), name);
        let rest = spec_col_index(cols.drop_first(), name);
        if rest < 0 {
            assert forall|j: int| 0 <= j < cols.len() implies cols[j].name != name by {
                if j > 0 {
                    assert(cols.drop_first()[j - 1] == cols[j]);
                }
            }
        } else {
            assert(cols.drop_first()[rest] == cols[rest + 1]);
            assert forall|j: int| 0 <= j < rest + 1 implies cols[j].name != name by {
                if j > 0 {
                    assert(cols.drop_first()[j - 1] == cols[j]);
                }
            }
        }
    }
}

/// The output rendering of one column of one table: qualified exactly when
/// the column is flagged ambiguous, bare otherwise.
pub open spec fn rendered_column(table: TableV, col: ColumnV) -> ExprV {
    if col.ambiguous {
        ExprV::Column(qualified_name(table.parts, col.name))
    } else {
        ExprV::Column(col.name)
    }
}

/// Column lookup in a matched table: the first column with the given short
/// name, rendered; Unknown-Column naming the table-qualified name otherwise.
pub open spec fn spec_find_column(table: TableV, name: Seq<char>) -> Result<ExprV, ErrorV> {
    let idx = spec_col_index(table.cols, name);
    if idx >= 0 {
        Ok(rendered_column(table, table.cols[idx]))
    } else {
        Err(err_unknown("Unknown column: "@ + join_parts(table.parts) + "."@ + name))
    }
}

/// Resolution of a dotted reference: table match, residual check, column
/// lookup.
pub open spec fn spec_resolve_qualified(
    tables: Seq<TableV>,
    db: Seq<char>,
    names: Seq<Seq<char>>,
) -> Result<ExprV, ErrorV> {
    match spec_best_match(tables, names, db) {
        None => Err(err_unknown("Unknown column "@ + join_parts(names))),
        Some(pi) => {
            let residual = names.skip(pi.0);
            if residual.len() == 1 {
                spec_find_column(tables[pi.1], residual[0])
            } else {
                Err(err_syntax("Unsupported complex type field access"@))
            }
        },
    }
}

/// What rewriting one expression returns: a new tree with every column
/// reference disambiguated, or the first error of a depth-first,
/// left-to-right traversal.
pub open spec fn spec_rewrite_expr(tables: Seq<TableV>, db: Seq<char>, e: ExprV) -> Result<
    ExprV,
    ErrorV,
>
    decreases e,
{
    match e {
        ExprV::Column(name) => {
            if spec_contains_column(tables, name) {
                Ok(ExprV::Column(name))
            } else {
                Err(err_unknown("Unknown column "@ + name))
            }
        },
        ExprV::QualifiedColumn(names) => spec_resolve_qualified(tables, db, names),
        ExprV::Alias(alias, child) => match spec_rewrite_expr(tables, db, *child) {
            Ok(c) => Ok(ExprV::Alias(alias, Box::new(c))),
            Err(err) => Err(err),
        },
        ExprV::UnaryExpression(op, child) => match spec_rewrite_expr(tables, db, *child) {
            Ok(c) => Ok(ExprV::UnaryExpression(op, Box::new(c))),
            Err(err) => Err(err),
        },
        ExprV::BinaryExpression(left, op, right) => match spec_rewrite_expr(tables, db, *left) {
            Ok(l) => match spec_rewrite_expr(tables, db, *right) {
                Ok(r) => Ok(ExprV::BinaryExpression(Box::new(l), op, Box::new(r))),
                Err(err) => Err(err),
            },
            Err(err) => Err(err),
        },
        ExprV::ScalarFunction(op, args) => match spec_rewrite_seq(tables, db, args) {
            Ok(a) => Ok(ExprV::ScalarFunction(op, a)),
            Err(err) => Err(err),
        },
        ExprV::AggregateFunction(op, distinct, params, args) => match spec_rewrite_seq(
            tables,
            db,
            args,
        ) {
            Ok(a) => Ok(ExprV::AggregateFunction(op, distinct, params, a)),
            Err(err) => Err(err),
        },
        ExprV::Sort(child, asc, nulls_first, origin) => match spec_rewrite_expr(
            tables,
            db,
            *child,
        ) {
            Ok(c) => match spec_rewrite_expr(tables, db, *origin) {
                Ok(o) => Ok(ExprV::Sort(Box::new(c), asc, nulls_first, Box::new(o))),
                Err(err) => Err(err),
            },
            Err(err) => Err(err),
        },
        ExprV::Cast(child, data_type) => match spec_rewrite_expr(tables, db, *child) {
            Ok(c) => Ok(ExprV::Cast(Box::new(c), data_type)),
            Err(err) => Err(err),
        },
        ExprV::Wildcard => Ok(e),
        ExprV::Literal(value) => Ok(e),
        ExprV::Subquery(name) => Ok(e),
        ExprV::ScalarSubquery(name) => Ok(e),
    }
}

/// Rewriting an argument list: every element in order, first error wins.
pub open spec fn spec_rewrite_seq(tables: Seq<TableV>, db: Seq<char>, es: Seq<ExprV>) -> Result<
    Seq<ExprV>,
    ErrorV,
>
    decreases es,
{
    if es.len() == 0 {
        Ok(Seq::empty())
    } else {
        match spec_rewrite_seq(tables, db, es.drop_last()) {
            Err(err) => Err(err),
            Ok(rs) => match spec_rewrite_expr(tables, db, es.last()) {
                Err(err) => Err(err),
                Ok(r) => Ok(rs.push(r)),
            },
        }
    }
}

/// One table's wildcard expansion, in declared column order.
pub open spec fn expand_table(table: TableV) -> Seq<ExprV> {
    table.cols.map_values(|c: ColumnV| rendered_column(table, c))
}

/// Wildcard expansion of the whole schema: every table in declaration order,
/// every column in declared order, rendered by ambiguity.
pub open spec fn spec_expand_wildcard(tables: Seq<TableV>) -> Seq<ExprV>
    decreases tables.len(),
{
    if tables.len() == 0 {
        Seq::empty()
    } else {
        spec_expand_wildcard(tables.drop_last()) + expand_table(tables.last())
    }
}

/// The breadcrumb opening for a group-by clause failure.
pub open spec fn group_label() -> Seq<char> {
    " (while in analyze group expr: "@
}

/// The breadcrumb opening for an order-by clause failure.
pub open spec fn order_label() -> Seq<char> {
    " (while in analyze order expr: "@
}

/// The breadcrumb opening for an aggregate clause failure.
pub open spec fn aggregate_label() -> Seq<char> {
    " (while in analyze aggregate expr: "@
}

/// The breadcrumb opening for a projection clause failure.
pub open spec fn projection_label() -> Seq<char> {
    " (while in analyze projection expr: "@
}

/// The breadcrumb opening for a filter predicate failure.
pub open spec fn filter_label() -> Seq<char> {
    " (while in analyze filter predicate "@
}

/// The breadcrumb opening for a having predicate failure.
pub open spec fn having_label() -> Seq<char> {
    " (while in analyze having predicate "@
}

/// An error crossing a clause boundary: the kind is preserved and a
/// breadcrumb naming the clause and the original expression is appended.
pub open spec fn wrap_err(err: ErrorV, label: Seq<char>, item: ExprV) -> ErrorV {
    ErrorV { kind: err.kind, message: err.message + label + item.text() + ")"@ }
}

/// Rewriting one clause's expression list: every element in order, the first
/// error wrapped with the clause breadcrumb naming the offending item.
pub open spec fn spec_rewrite_clause(
    tables: Seq<TableV>,
    db: Seq<char>,
    es: Seq<ExprV>,
    label: Seq<char>,
) -> Result<Seq<ExprV>, ErrorV>
    decreases es,
{
    if es.len() == 0 {
        Ok(Seq::empty())
    } else {
        match spec_rewrite_clause(tables, db, es.drop_last(), label) {
            Err(err) => Err(err),
            Ok(rs) => match spec_rewrite_expr(tables, db, es.last()) {
                Err(err) => Err(wrap_err(err, label, es.last())),
                Ok(r) => Ok(rs.push(r)),
            },
        }
    }
}

/// One unfolding step of `spec_rewrite_clause` over a growing prefix.
pub proof fn lemma_rewrite_clause_snoc(
    tables: Seq<TableV>,
    db: Seq<char>,
    es: Seq<ExprV>,
    label: Seq<char>,
    i: int,
)
    requires
        0 <= i < es.len(),
    ensures
        spec_rewrite_clause(tables, db, es.take(i + 1), label) == (match spec_rewrite_clause(
            tables,
            db,
            es.take(i),
            label,
        ) {
            Err(err) => Err(err),
            Ok(rs) => match spec_rewrite_expr(tables, db, es[i]) {
                Err(err) => Err(wrap_err(err, label, es[i])),
                Ok(r) => Ok(rs.push(r)),
            },
        }),
{
    assert(es.take(i + 1).drop_last() =~= es.take(i));
    assert(es.take(i + 1).last() == es[i]);
}

/// An error over a prefix of a clause is the error over the whole clause.
pub proof fn lemma_rewrite_clause_err_prefix(
    tables: Seq<TableV>,
    db: Seq<char>,
    es: Seq<ExprV>,
    label: Seq<char>,
    n: int,
)
    requires
        0 <= n <= es.len(),
        spec_rewrite_clause(tables, db, es.take(n), label) is Err,
    ensures
        spec_rewrite_clause(tables, db, es, label) == spec_rewrite_clause(
            tables,
            db,
            es.take(n),
            label,
        ),
    decreases es.len() - n,
{
    if n == es.len() {
        assert(es.take(n) =~= es);
    } else {
        lemma_rewrite_clause_snoc(tables, db, es, label, n);
        lemma_rewrite_clause_err_prefix(tables, db, es, label, n + 1);
    }
}

/// Whether a projection item is `Alias` directly over `Wildcard`, which is
/// rejected before any other processing of the item.
pub open spec fn is_aliased_wildcard(e: ExprV) -> bool {
    match e {
        ExprV::Alias(alias, child) => *child is Wildcard,
        _ => false,
    }
}

/// Rewriting the projection list: an aliased wildcard is rejected, a bare
/// wildcard expands to the schema's column list, any other item is rewritten;
/// one input item may produce many output items.
pub open spec fn spec_rewrite_projection(
    tables: Seq<TableV>,
    db: Seq<char>,
    es: Seq<ExprV>,
) -> Result<Seq<ExprV>, ErrorV>
    decreases es,
{
    if es.len() == 0 {
        Ok(Seq::empty())
    } else {
        match spec_rewrite_projection(tables, db, es.drop_last()) {
            Err(err) => Err(err),
            Ok(rs) => {
                let item = es.last();
                if is_aliased_wildcard(item) {
                    Err(err_syntax("* AS alias is wrong syntax"@))
                } else if item is Wildcard {
                    Ok(rs + spec_expand_wildcard(tables))
                } else {
                    match spec_rewrite_expr(tables, db, item) {
                        Err(err) => Err(wrap_err(err, projection_label(), item)),
                        Ok(r) => Ok(rs.push(r)),
                    }
                }
            },
        }
    }
}

/// One unfolding step of `spec_rewrite_projection` over a growing prefix.
pub proof fn lemma_rewrite_projection_snoc(
    tables: Seq<TableV>,
    db: Seq<char>,
    es: Seq<ExprV>,
    i: int,
)
    requires
        0 <= i < es.len(),
    ensures
        spec_rewrite_projection(tables, db, es.take(i + 1)) == (match spec_rewrite_projection(
            tables,
            db,
            es.take(i),
        ) {
            Err(err) => Err(err),
            Ok(rs) => {
                let item = es[i];
                if is_aliased_wildcard(item) {
                    Err(err_syntax("* AS alias is wrong syntax"@))
                } else if item is Wildcard {
                    Ok(rs + spec_expand_wildcard(tables))
                } else {
                    match spec_rewrite_expr(tables, db, item) {
                        Err(err) => Err(wrap_err(err, projection_label(), item)),
                        Ok(r) => Ok(rs.push(r)),
                    }
                }
            },
        }),
{
    assert(es.take(i + 1).drop_last() =~= es.take(i));
    assert(es.take(i + 1).last() == es[i]);
}

/// An error over a prefix of the projection is the error over the whole list.
pub proof fn lemma_rewrite_projection_err_prefix(
    tables: Seq<TableV>,
    db: Seq<char>,
    es: Seq<ExprV>,
    n: int,
)
    requires
        0 <= n <= es.len(),
        spec_rewrite_projection(tables, db, es.take(n)) is Err,
    ensures
        spec_rewrite_projection(tables, db, es) == spec_rewrite_projection(tables, db, es.take(n)),
    decreases es.len() - n,
{
    if n == es.len() {
        assert(es.take(n) =~= es);
    } else {
        lemma_rewrite_projection_snoc(tables, db, es, n);
        lemma_rewrite_projection_err_prefix(tables, db, es, n + 1);
    }
}

/// Rewriting an optional predicate: absence is a no-op; a failure is wrapped
/// with the clause breadcrumb.
pub open spec fn spec_rewrite_predicate(
    tables: Seq<TableV>,
    db: Seq<char>,
    p: Option<ExprV>,
    label: Seq<char>,
) -> Result<Option<ExprV>, ErrorV> {
    match p {
        None => Ok(None),
        Some(e) => match spec_rewrite_expr(tables, db, e) {
            Ok(r) => Ok(Some(r)),
            Err(err) => Err(wrap_err(err, label, e)),
        },
    }
}

/// What rewriting a whole IR returns: the clauses in fixed order — group by,
/// order by, aggregates, projection, filter, having — each replaced on
/// success, the first failure aborting everything.
pub open spec fn spec_rewrite_ir(tables: Seq<TableV>, db: Seq<char>, ir: IrV) -> Result<
    IrV,
    ErrorV,
> {
    match spec_rewrite_clause(tables, db, ir.group_by, group_label()) {
        Err(err) => Err(err),
        Ok(group_by) => match spec_rewrite_clause(tables, db, ir.order_by, order_label()) {
            Err(err) => Err(err),
            Ok(order_by) => match spec_rewrite_clause(
                tables,
                db,
                ir.aggregate,
                aggregate_label(),
            ) {
                Err(err) => Err(err),
                Ok(aggregate) => match spec_rewrite_projection(tables, db, ir.projection) {
                    Err(err) => Err(err),
                    Ok(projection) => match spec_rewrite_predicate(
                        tables,
                        db,
                        ir.filter,
                        filter_label(),
                    ) {
                        Err(err) => Err(err),
                        Ok(filter) => match spec_rewrite_predicate(
                            tables,
                            db,
                            ir.having,
                            having_label(),
                        ) {
                            Err(err) => Err(err),
                            Ok(having) => Ok(
                                IrV { group_by, order_by, aggregate, projection, filter, having },
                            ),
                        },
                    },
                },
            },
        },
    }
}

/// One unfolding step of `spec_rewrite_seq` over a growing prefix.
pub proof fn lemma_rewrite_seq_snoc(tables: Seq<TableV>, db: Seq<char>, es: Seq<ExprV>, i: int)
    requires
        0 <= i < es.len(),
    ensures
        spec_rewrite_seq(tables, db, es.take(i + 1)) == (match spec_rewrite_seq(
            tables,
            db,
            es.take(i),
        ) {
            Err(err) => Err(err),
            Ok(rs) => match spec_rewrite_expr(tables, db, es[i]) {
                Err(err) => Err(err),
                Ok(r) => Ok(rs.push(r)),
            },
        }),
{
    assert(es.take(i + 1).drop_last() =~= es.take(i));
    assert(es.take(i + 1).last() == es[i]);
}

/// An error over a prefix is the error over the whole list: fail-fast.
pub proof fn lemma_rewrite_seq_err_prefix(
    tables: Seq<TableV>,
    db: Seq<char>,
    es: Seq<ExprV>,
    n: int,
)
    requires
        0 <= n <= es.len(),
        spec_rewrite_seq(tables, db, es.take(n)) is Err,
    ensures
        spec_rewrite_seq(tables, db, es) == spec_rewrite_seq(tables, db, es.take(n)),
    decreases es.len() - n,
{
    if n == es.len() {
        assert(es.take(n) =~= es);
    } else {
        lemma_rewrite_seq_snoc(tables, db, es, n);
        lemma_rewrite_seq_err_prefix(tables, db, es, n + 1);
    }
}

} // verus!
