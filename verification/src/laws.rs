//! The library's laws: properties of the resolution model that hold for every
//! schema, session database and query, each proved once here.

use vstd::prelude::*;

use crate::error::ErrorV;
use crate::expr::ExprV;
use crate::ir::IrV;
use crate::resolution::elision_match;
use crate::resolution::expand_table;
use crate::resolution::full_prefix_match;
use crate::resolution::group_label;
use crate::resolution::lemma_best_match_characterization;
use crate::resolution::lemma_col_index;
use crate::resolution::lemma_rewrite_clause_err_prefix;
use crate::resolution::lemma_rewrite_clause_snoc;
use crate::resolution::spec_first_diff_pos;
use crate::resolution::table_matches;
use crate::resolution::wrap_err;
use crate::resolution::rendered_column;
use crate::resolution::spec_best_match;
use crate::resolution::spec_col_index;
use crate::resolution::spec_expand_wildcard;
use crate::resolution::spec_find_column;
use crate::resolution::spec_resolve_qualified;
use crate::resolution::spec_rewrite_clause;
use crate::resolution::spec_rewrite_expr;
use crate::resolution::spec_rewrite_ir;
use crate::resolution::spec_rewrite_projection;
use crate::resolution::spec_rewrite_seq;
use crate::schema::TableV;
use crate::schema::qualified_name;
use crate::schema::spec_contains_column;

verus! {

/// A name is present in the schema, in bare or table-qualified form.
pub open spec fn name_in_schema(tables: Seq<TableV>, name: Seq<char>) -> bool {
    spec_contains_column(tables, name) || exists|i: int, j: int|
        0 <= i < tables.len() && 0 <= j < tables[i].cols.len() && name == qualified_name(
            tables[i].parts,
            tables[i].cols[j].name,
        )
}

/// Every `Column` leaf of the expression names a column present in the
/// schema.
pub open spec fn columns_ok(tables: Seq<TableV>, e: ExprV) -> bool
    decreases e,
{
    match e {
        ExprV::Column(name) => name_in_schema(tables, name),
        ExprV::QualifiedColumn(names) => true,
        ExprV::Alias(alias, child) => columns_ok(tables, *child),
        ExprV::UnaryExpression(op, child) => columns_ok(tables, *child),
        ExprV::BinaryExpression(left, op, right) => columns_ok(tables, *left) && columns_ok(
            tables,
            *right,
        ),
        ExprV::ScalarFunction(op, args) => columns_ok_seq(tables, args),
        ExprV::AggregateFunction(op, distinct, params, args) => columns_ok_seq(tables, args),
        ExprV::Sort(child, asc, nulls_first, origin) => columns_ok(tables, *child) && columns_ok(
            tables,
            *origin,
        ),
        ExprV::Cast(child, data_type) => columns_ok(tables, *child),
        ExprV::Wildcard => true,
        ExprV::Literal(value) => true,
        ExprV::Subquery(name) => true,
        ExprV::ScalarSubquery(name) => true,
    }
}

/// `columns_ok` over every element of a list.
pub open spec fn columns_ok_seq(tables: Seq<TableV>, es: Seq<ExprV>) -> bool
    decreases es,
{
    if es.len() == 0 {
        true
    } else {
        columns_ok_seq(tables, es.drop_last()) && columns_ok(tables, es.last())
    }
}

/// `columns_ok_seq` is elementwise `columns_ok`.
pub proof fn lemma_columns_ok_seq_iff(tables: Seq<TableV>, es: Seq<ExprV>)
    ensures
        columns_ok_seq(tables, es) <==> forall|k: int|
            0 <= k < es.len() ==> columns_ok(tables, es[k]),
    decreases es,
{
    if es.len() > 0 {
        lemma_columns_ok_seq_iff(tables, es.drop_last());
        if columns_ok_seq(tables, es.drop_last()) && columns_ok(tables, es.last()) {
            assert forall|k: int| 0 <= k < es.len() implies columns_ok(tables, es[k]) by {
                if k < es.len() - 1 {
                    assert(es.drop_last()[k] == es[k]);
                }
            }
        }
        if forall|k: int| 0 <= k < es.len() ==> columns_ok(tables, es[k]) {
            assert forall|k: int|
                0 <= k < es.drop_last().len() implies columns_ok(tables, es.drop_last()[k]) by {
                assert(es.drop_last()[k] == es[k]);
            }
        }
    }
}

/// A successful column lookup renders a name present in the schema.
proof fn lemma_find_column_sound(tables: Seq<TableV>, i: int, name: Seq<char>)
    requires
        0 <= i < tables.len(),
    ensures
        match spec_find_column(tables[i], name) {
            Ok(e) => columns_ok(tables, e),
            Err(err) => true,
        },
{
    let table = tables[i];
    lemma_col_index(table.cols, name);
    let idx = spec_col_index(table.cols, name);
    if idx >= 0 {
        let col = table.cols[idx];
        if col.ambiguous {
            assert(qualified_name(table.parts, col.name) == qualified_name(
                tables[i].parts,
                tables[i].cols[idx].name,
            ));
        } else {
            assert(tables[i].cols[idx].name == name);
        }
    }
}

/// A successful qualified-reference resolution renders a name present in the
/// schema.
proof fn lemma_resolve_sound(tables: Seq<TableV>, db: Seq<char>, names: Seq<Seq<char>>)
    ensures
        match spec_resolve_qualified(tables, db, names) {
            Ok(e) => columns_ok(tables, e),
            Err(err) => true,
        },
{
    lemma_best_match_characterization(tables, names, db);
    match spec_best_match(tables, names, db) {
        None => {},
        Some(pi) => {
            let residual = names.skip(pi.0);
            if residual.len() == 1 {
                lemma_find_column_sound(tables, pi.1, residual[0]);
            }
        },
    }
}

/// A successful expression rewrite leaves only schema-present column names.
proof fn lemma_rewrite_expr_sound(tables: Seq<TableV>, db: Seq<char>, e: ExprV)
    ensures
        match spec_rewrite_expr(tables, db, e) {
            Ok(out) => columns_ok(tables, out),
            Err(err) => true,
        },
    decreases e,
{
    match e {
        ExprV::Column(name) => {},
        ExprV::QualifiedColumn(names) => {
            lemma_resolve_sound(tables, db, names);
        },
        ExprV::Alias(alias, child) => {
            lemma_rewrite_expr_sound(tables, db, *child);
        },
        ExprV::UnaryExpression(op, child) => {
            lemma_rewrite_expr_sound(tables, db, *child);
        },
        ExprV::BinaryExpression(left, op, right) => {
            lemma_rewrite_expr_sound(tables, db, *left);
            lemma_rewrite_expr_sound(tables, db, *right);
        },
        ExprV::ScalarFunction(op, args) => {
            lemma_rewrite_seq_sound(tables, db, args);
        },
        ExprV::AggregateFunction(op, distinct, params, args) => {
            lemma_rewrite_seq_sound(tables, db, args);
        },
        ExprV::Sort(child, asc, nulls_first, origin) => {
            lemma_rewrite_expr_sound(tables, db, *child);
            lemma_rewrite_expr_sound(tables, db, *origin);
        },
        ExprV::Cast(child, data_type) => {
            lemma_rewrite_expr_sound(tables, db, *child);
        },
        ExprV::Wildcard => {},
        ExprV::Literal(value) => {},
        ExprV::Subquery(name) => {},
        ExprV::ScalarSubquery(name) => {},
    }
}

/// A successful argument-list rewrite leaves only schema-present column
/// names.
proof fn lemma_rewrite_seq_sound(tables: Seq<TableV>, db: Seq<char>, es: Seq<ExprV>)
    ensures
        match spec_rewrite_seq(tables, db, es) {
            Ok(outs) => columns_ok_seq(tables, outs),
            Err(err) => true,
        },
    decreases es,
{
    if es.len() > 0 {
        lemma_rewrite_seq_sound(tables, db, es.drop_last());
        lemma_rewrite_expr_sound(tables, db, es.last());
        match spec_rewrite_seq(tables, db, es.drop_last()) {
            Ok(rs) => match spec_rewrite_expr(tables, db, es.last()) {
                Ok(r) => {
                    assert(rs.push(r).drop_last() =~= rs);
                    assert(rs.push(r).last() == r);
                },
                Err(err) => {},
            },
            Err(err) => {},
        }
    }
}

/// A successful clause rewrite leaves only schema-present column names.
proof fn lemma_rewrite_clause_sound(
    tables: Seq<TableV>,
    db: Seq<char>,
    es: Seq<ExprV>,
    label: Seq<char>,
)
    ensures
        match spec_rewrite_clause(tables, db, es, label) {
            Ok(outs) => columns_ok_seq(tables, outs),
            Err(err) => true,
        },
    decreases es,
{
    if es.len() > 0 {
        lemma_rewrite_clause_sound(tables, db, es.drop_last(), label);
        lemma_rewrite_expr_sound(tables, db, es.last());
        match spec_rewrite_clause(tables, db, es.drop_last(), label) {
            Ok(rs) => match spec_rewrite_expr(tables, db, es.last()) {
                Ok(r) => {
                    assert(rs.push(r).drop_last() =~= rs);
                    assert(rs.push(r).last() == r);
                },
                Err(err) => {},
            },
            Err(err) => {},
        }
    }
}

/// Every element of a wildcard expansion names a column present in the
/// schema.
proof fn lemma_expand_sound(tables: Seq<TableV>, m: int)
    requires
        0 <= m <= tables.len(),
    ensures
        columns_ok_seq(tables, spec_expand_wildcard(tables.take(m))),
    decreases m,
{
    if m == 0 {
        assert(tables.take(0) =~= Seq::<TableV>::empty());
    } else {
        lemma_expand_sound(tables, m - 1);
        assert(tables.take(m).drop_last() =~= tables.take(m - 1));
        assert(tables.take(m).last() == tables[m - 1]);
        let prefix = spec_expand_wildcard(tables.take(m - 1));
        let exp = expand_table(tables[m - 1]);
        lemma_columns_ok_seq_iff(tables, prefix);
        assert forall|k: int| 0 <= k < exp.len() implies columns_ok(tables, exp[k]) by {
            assert(exp[k] == rendered_column(tables[m - 1], tables[m - 1].cols[k]));
            if tables[m - 1].cols[k].ambiguous {
                assert(name_in_schema(
                    tables,
                    qualified_name(tables[m - 1].parts, tables[m - 1].cols[k].name),
                ));
            } else {
                assert(spec_contains_column(tables, tables[m - 1].cols[k].name));
            }
        }
        lemma_columns_ok_seq_iff(tables, exp);
        lemma_columns_ok_seq_iff(tables, prefix + exp);
        assert forall|k: int| 0 <= k < (prefix + exp).len() implies columns_ok(
            tables,
            (prefix + exp)[k],
        ) by {
            if k < prefix.len() {
                assert((prefix + exp)[k] == prefix[k]);
            } else {
                assert((prefix + exp)[k] == exp[k - prefix.len()]);
            }
        }
    }
}

/// A successful projection rewrite leaves only schema-present column names.
proof fn lemma_rewrite_projection_sound(tables: Seq<TableV>, db: Seq<char>, es: Seq<ExprV>)
    ensures
        match spec_rewrite_projection(tables, db, es) {
            Ok(outs) => columns_ok_seq(tables, outs),
            Err(err) => true,
        },
    decreases es,
{
    if es.len() > 0 {
        lemma_rewrite_projection_sound(tables, db, es.drop_last());
        lemma_rewrite_expr_sound(tables, db, es.last());
        match spec_rewrite_projection(tables, db, es.drop_last()) {
            Ok(rs) => {
                let item = es.last();
                if item is Wildcard {
                    lemma_expand_sound(tables, tables.len() as int);
                    assert(tables.take(tables.len() as int) =~= tables);
                    lemma_columns_ok_seq_iff(tables, rs);
                    lemma_columns_ok_seq_iff(tables, spec_expand_wildcard(tables));
                    lemma_columns_ok_seq_iff(tables, rs + spec_expand_wildcard(tables));
                    assert forall|k: int|
                        0 <= k < (rs + spec_expand_wildcard(tables)).len() implies columns_ok(
                        tables,
                        (rs + spec_expand_wildcard(tables))[k],
                    ) by {
                        if k < rs.len() {
                            assert((rs + spec_expand_wildcard(tables))[k] == rs[k]);
                        } else {
                            assert((rs + spec_expand_wildcard(tables))[k] == spec_expand_wildcard(
                                tables,
                            )[k - rs.len()]);
                        }
                    }
                } else {
                    match spec_rewrite_expr(tables, db, item) {
                        Ok(r) => {
                            assert(rs.push(r).drop_last() =~= rs);
                            assert(rs.push(r).last() == r);
                        },
                        Err(err) => {},
                    }
                }
            },
            Err(err) => {},
        }
    }
}

/// Bare-name soundness: every `Column` anywhere in a successfully rewritten
/// IR names a column present in the joined schema, in bare or table-qualified
/// form.
pub proof fn lemma_rewrite_ir_sound(tables: Seq<TableV>, db: Seq<char>, ir: IrV)
    ensures
        match spec_rewrite_ir(tables, db, ir) {
            Ok(out) => {
                &&& columns_ok_seq(tables, out.group_by)
                &&& columns_ok_seq(tables, out.order_by)
                &&& columns_ok_seq(tables, out.aggregate)
                &&& columns_ok_seq(tables, out.projection)
                &&& match out.filter {
                    Some(e) => columns_ok(tables, e),
                    None => true,
                }
                &&& match out.having {
                    Some(e) => columns_ok(tables, e),
                    None => true,
                }
            },
            Err(err) => true,
        },
{
    lemma_rewrite_clause_sound(tables, db, ir.group_by, crate::resolution::group_label());
    lemma_rewrite_clause_sound(tables, db, ir.order_by, crate::resolution::order_label());
    lemma_rewrite_clause_sound(tables, db, ir.aggregate, crate::resolution::aggregate_label());
    lemma_rewrite_projection_sound(tables, db, ir.projection);
    match ir.filter {
        Some(e) => {
            lemma_rewrite_expr_sound(tables, db, e);
        },
        None => {},
    }
    match ir.having {
        Some(e) => {
            lemma_rewrite_expr_sound(tables, db, e);
        },
        None => {},
    }
}

/// Ambiguity qualification: wildcard expansion and column lookup render a
/// column with its table qualifier exactly when its descriptor is flagged
/// ambiguous, and bare otherwise.
pub proof fn lemma_ambiguity_qualification(table: TableV, j: int)
    requires
        0 <= j < table.cols.len(),
    ensures
        rendered_column(table, table.cols[j]) == (if table.cols[j].ambiguous {
            ExprV::Column(qualified_name(table.parts, table.cols[j].name))
        } else {
            ExprV::Column(table.cols[j].name)
        }),
        expand_table(table)[j] == rendered_column(table, table.cols[j]),
        spec_col_index(table.cols, table.cols[j].name) == j ==> spec_find_column(
            table,
            table.cols[j].name,
        ) == Ok::<ExprV, ErrorV>(rendered_column(table, table.cols[j])),
{
}

/// The total column count over the schema's tables.
pub open spec fn total_columns(tables: Seq<TableV>) -> int
    decreases tables.len(),
{
    if tables.len() == 0 {
        0
    } else {
        total_columns(tables.drop_last()) + tables.last().cols.len()
    }
}

/// Growing the table prefix by one adds that table's column count.
proof fn lemma_total_columns_step(tables: Seq<TableV>, i: int)
    requires
        0 <= i < tables.len(),
    ensures
        total_columns(tables.take(i + 1)) == total_columns(tables.take(i))
            + tables[i].cols.len(),
{
    assert(tables.take(i + 1).drop_last() =~= tables.take(i));
    assert(tables.take(i + 1).last() == tables[i]);
}

/// The total column count never shrinks as the table prefix grows.
proof fn lemma_total_columns_monotone(tables: Seq<TableV>, a: int, b: int)
    requires
        0 <= a <= b <= tables.len(),
    ensures
        total_columns(tables.take(a)) <= total_columns(tables.take(b)),
    decreases b - a,
{
    if a < b {
        lemma_total_columns_monotone(tables, a, b - 1);
        lemma_total_columns_step(tables, b - 1);
    }
}

/// Wildcard determinism: expanding `*` is a function of the schema alone —
/// the executable expansion always appends exactly
/// `spec_expand_wildcard(tables)` — its length is the sum of the column
/// counts over all tables, and the element at a table's offset plus a column
/// index is that column's rendering: table declaration order, then column
/// declaration order.
pub proof fn lemma_wildcard_shape(tables: Seq<TableV>)
    ensures
        total_columns(tables) >= 0,
        spec_expand_wildcard(tables).len() == total_columns(tables),
        forall|i: int, j: int|
            0 <= i < tables.len() && 0 <= j < tables[i].cols.len() ==> spec_expand_wildcard(
                tables,
            )[total_columns(tables.take(i)) + j] == rendered_column(
                tables[i],
                tables[i].cols[j],
            ),
    decreases tables.len(),
{
    if tables.len() > 0 {
        let prev = tables.drop_last();
        lemma_wildcard_shape(prev);
        let prefix = spec_expand_wildcard(prev);
        let exp = expand_table(tables.last());
        assert(tables.take(tables.len() - 1) =~= prev);
        assert forall|i: int, j: int|
            0 <= i < tables.len() && 0 <= j < tables[i].cols.len() implies spec_expand_wildcard(
            tables,
        )[total_columns(tables.take(i)) + j] == rendered_column(
            tables[i],
            tables[i].cols[j],
        ) by {
            if i < tables.len() - 1 {
                assert(prev.take(i) =~= tables.take(i));
                assert(prev[i] == tables[i]);
                lemma_total_columns_monotone(prev, 0, i);
                assert(prev.take(0) =~= Seq::<TableV>::empty());
                lemma_total_columns_step(prev, i);
                lemma_total_columns_monotone(prev, i + 1, prev.len() as int);
                assert(prev.take(prev.len() as int) =~= prev);
                assert(total_columns(tables.take(i)) + j < prefix.len());
                assert((prefix + exp)[total_columns(tables.take(i)) + j] == prefix[total_columns(
                    prev.take(i),
                ) + j]);
            } else {
                assert(total_columns(tables.take(i)) == prefix.len());
                assert((prefix + exp)[prefix.len() + j] == exp[j]);
                assert(exp[j] == rendered_column(tables.last(), tables.last().cols[j]));
            }
        }
    }
}

/// Precedence stability: the table chosen for a reference is the first, in
/// FROM/JOIN declaration order, that satisfies a match rule; resolution is a
/// function of the schema, the reference and the current database, so
/// repeated resolution of the same reference picks the same table.
pub proof fn lemma_precedence_stability(tables: Seq<TableV>, names: Seq<Seq<char>>, db: Seq<char>)
    ensures
        match spec_best_match(tables, names, db) {
            Some(pi) => {
                &&& 0 <= pi.1 < tables.len()
                &&& table_matches(tables[pi.1], names, db)
                &&& forall|k: int| 0 <= k < pi.1 ==> !table_matches(tables[k], names, db)
            },
            None => true,
        },
{
    lemma_best_match_characterization(tables, names, db);
}

/// Current-database elision correctness: a two-part reference `table.column`
/// satisfies the elision rule against a table declared as `db.table` exactly
/// when `db` is the session's current database; and when the reference shares
/// no full prefix with the declaration, the table matches at all exactly in
/// that case.
pub proof fn lemma_current_database_elision(
    table: TableV,
    names: Seq<Seq<char>>,
    db: Seq<char>,
)
    requires
        table.parts.len() == 2,
        names.len() == 2,
        names[0] == table.parts[1],
    ensures
        elision_match(table, names, db) <==> table.parts[0] == db,
        names[0] != table.parts[0] ==> (table_matches(table, names, db) <==> table.parts[0]
            == db),
{
    let tail = table.parts.drop_first();
    assert(tail =~= seq![table.parts[1]]);
    assert(spec_first_diff_pos(names, tail) == 1) by {
        reveal_with_fuel(spec_first_diff_pos, 3);
        assert(names[0] == tail[0]);
        assert(tail.drop_first().len() == 0);
    }
    if names[0] != table.parts[0] {
        assert(spec_first_diff_pos(names, table.parts) == 0);
        assert(!full_prefix_match(table, names));
    }
}

/// A clause whose first `n` items all rewrite successfully has a successful
/// prefix rewrite.
proof fn lemma_clause_ok_prefix(
    tables: Seq<TableV>,
    db: Seq<char>,
    es: Seq<ExprV>,
    label: Seq<char>,
    n: int,
)
    requires
        0 <= n <= es.len(),
        forall|b: int| 0 <= b < n ==> spec_rewrite_expr(tables, db, es[b]) is Ok,
    ensures
        spec_rewrite_clause(tables, db, es.take(n), label) is Ok,
    decreases n,
{
    if n > 0 {
        lemma_clause_ok_prefix(tables, db, es, label, n - 1);
        lemma_rewrite_clause_snoc(tables, db, es, label, n - 1);
    }
}

/// Fail-fast propagation within a clause: when the items before `k` rewrite
/// successfully and item `k` fails, the whole clause rewrite fails with
/// exactly the underlying error — kind preserved — and the clause label and
/// the offending item's rendering appended to its message.
pub proof fn lemma_fail_fast_clause(
    tables: Seq<TableV>,
    db: Seq<char>,
    es: Seq<ExprV>,
    label: Seq<char>,
    k: int,
)
    requires
        0 <= k < es.len(),
        spec_rewrite_expr(tables, db, es[k]) is Err,
        forall|b: int| 0 <= b < k ==> spec_rewrite_expr(tables, db, es[b]) is Ok,
    ensures
        match (spec_rewrite_expr(tables, db, es[k]), spec_rewrite_clause(tables, db, es, label)) {
            (Err(e), Err(w)) => {
                &&& w == wrap_err(e, label, es[k])
                &&& w.kind == e.kind
                &&& w.message == e.message + label + es[k].text() + ")"@
            },
            _ => false,
        },
{
    lemma_clause_ok_prefix(tables, db, es, label, k);
    lemma_rewrite_clause_snoc(tables, db, es, label, k);
    lemma_rewrite_clause_err_prefix(tables, db, es, label, k + 1);
}

/// Fail-fast propagation to the whole rewrite: a single failing group-by item
/// fails the entire IR rewrite with the wrapped error; by the fixed clause
/// order of `spec_rewrite_ir`, the same argument applies to every later
/// clause once the clauses before it succeed.
pub proof fn lemma_fail_fast_ir(tables: Seq<TableV>, db: Seq<char>, ir: IrV, k: int)
    requires
        0 <= k < ir.group_by.len(),
        spec_rewrite_expr(tables, db, ir.group_by[k]) is Err,
        forall|b: int| 0 <= b < k ==> spec_rewrite_expr(tables, db, ir.group_by[b]) is Ok,
    ensures
        match (spec_rewrite_expr(tables, db, ir.group_by[k]), spec_rewrite_ir(tables, db, ir)) {
            (Err(e), Err(w)) => w == wrap_err(e, group_label(), ir.group_by[k]),
            _ => false,
        },
{
    lemma_fail_fast_clause(tables, db, ir.group_by, group_label(), k);
}

} // verus!
