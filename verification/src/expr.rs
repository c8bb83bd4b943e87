//! The expression tree of one query clause, and its mathematical model.
//! Rewriting builds a new tree; nodes exclusively own their children.

use vstd::prelude::*;
use vstd::string::StringExecFns;

use crate::schema::join_parts;
use crate::schema::join_name_parts;
use crate::schema::views_of_strings;

verus! {

/// Mathematical model of an expression: names as character sequences,
/// children as boxed models or sequences of models.
pub enum ExprV {
    Column(Seq<char>),
    QualifiedColumn(Seq<Seq<char>>),
    Alias(Seq<char>, Box<ExprV>),
    UnaryExpression(Seq<char>, Box<ExprV>),
    BinaryExpression(Box<ExprV>, Seq<char>, Box<ExprV>),
    ScalarFunction(Seq<char>, Seq<ExprV>),
    AggregateFunction(Seq<char>, bool, Seq<Seq<char>>, Seq<ExprV>),
    Sort(Box<ExprV>, bool, bool, Box<ExprV>),
    Cast(Box<ExprV>, Seq<char>),
    Wildcard,
    Literal(Seq<char>),
    Subquery(Seq<char>),
    ScalarSubquery(Seq<char>),
}

/// One node of a parsed expression. `QualifiedColumn` always carries at least
/// two name parts; `Subquery` and `ScalarSubquery` are opaque, already
/// resolved leaves identified here by name.
pub enum Expression {
    Column(String),
    QualifiedColumn(Vec<String>),
    Alias(String, Box<Expression>),
    UnaryExpression { op: String, expr: Box<Expression> },
    BinaryExpression { left: Box<Expression>, op: String, right: Box<Expression> },
    ScalarFunction { op: String, args: Vec<Expression> },
    AggregateFunction { op: String, distinct: bool, params: Vec<String>, args: Vec<Expression> },
    Sort { expr: Box<Expression>, asc: bool, nulls_first: bool, origin_expr: Box<Expression> },
    Cast { expr: Box<Expression>, data_type: String },
    Wildcard,
    Literal(String),
    Subquery(String),
    ScalarSubquery(String),
}

impl Expression {
    /// The model of this expression.
    pub open spec fn view(&self) -> ExprV
        decreases *self,
    {
        match self {
            Expression::Column(name) => ExprV::Column(name@),
            Expression::QualifiedColumn(names) => ExprV::QualifiedColumn(views_of_strings(names@)),
            Expression::Alias(alias, expr) => ExprV::Alias(alias@, Box::new(expr.view())),
            Expression::UnaryExpression { op, expr } => ExprV::UnaryExpression(
                op@,
                Box::new(expr.view()),
            ),
            Expression::BinaryExpression { left, op, right } => ExprV::BinaryExpression(
                Box::new(left.view()),
                op@,
                Box::new(right.view()),
            ),
            Expression::ScalarFunction { op, args } => ExprV::ScalarFunction(
                op@,
                Expression::view_seq(args@),
            ),
            Expression::AggregateFunction { op, distinct, params, args } => {
                ExprV::AggregateFunction(
                    op@,
                    *distinct,
                    views_of_strings(params@),
                    Expression::view_seq(args@),
                )
            },
            Expression::Sort { expr, asc, nulls_first, origin_expr } => ExprV::Sort(
                Box::new(expr.view()),
                *asc,
                *nulls_first,
                Box::new(origin_expr.view()),
            ),
            Expression::Cast { expr, data_type } => ExprV::Cast(
                Box::new(expr.view()),
                data_type@,
            ),
            Expression::Wildcard => ExprV::Wildcard,
            Expression::Literal(value) => ExprV::Literal(value@),
            Expression::Subquery(name) => ExprV::Subquery(name@),
            Expression::ScalarSubquery(name) => ExprV::ScalarSubquery(name@),
        }
    }

    /// The models of a sequence of expressions, in order.
    pub open spec fn view_seq(exprs: Seq<Expression>) -> Seq<ExprV>
        decreases exprs,
    {
        if exprs.len() == 0 {
            Seq::empty()
        } else {
            Expression::view_seq(exprs.drop_last()).push(exprs.last().view())
        }
    }
}

impl ExprV {
    /// The diagnostic rendering of an expression, used in error breadcrumbs.
    pub open spec fn text(self) -> Seq<char>
        decreases self,
    {
        match self {
            ExprV::Column(name) => name,
            ExprV::QualifiedColumn(parts) => join_parts(parts),
            ExprV::Alias(alias, child) => (*child).text() + " as "@ + alias,
            ExprV::UnaryExpression(op, child) => op + "("@ + (*child).text() + ")"@,
            ExprV::BinaryExpression(left, op, right) => "("@ + (*left).text() + " "@ + op + " "@
                + (*right).text() + ")"@,
            ExprV::ScalarFunction(op, args) => op + "("@ + ExprV::text_seq(args) + ")"@,
            ExprV::AggregateFunction(op, distinct, params, args) => op + "("@ + ExprV::text_seq(
                args,
            ) + ")"@,
            ExprV::Sort(child, asc, nulls_first, origin) => (*child).text(),
            ExprV::Cast(child, data_type) => "cast("@ + (*child).text() + " as "@ + data_type
                + ")"@,
            ExprV::Wildcard => "*"@,
            ExprV::Literal(value) => value,
            ExprV::Subquery(name) => name,
            ExprV::ScalarSubquery(name) => name,
        }
    }

    /// The renderings of an argument list, comma-joined.
    pub open spec fn text_seq(args: Seq<ExprV>) -> Seq<char>
        decreases args,
    {
        if args.len() == 0 {
            Seq::empty()
        } else if args.len() == 1 {
            args[0].text()
        } else {
            ExprV::text_seq(args.drop_last()) + ", "@ + args.last().text()
        }
    }
}

impl Expression {
    /// Renders the expression for a diagnostic message, as `ExprV::text`
    /// describes.
    pub fn display_text(&self) -> (r: String)
        ensures
            r@ == self@.text(),
        decreases *self,
    {
        match self {
            Expression::Column(name) => name.clone(),
            Expression::QualifiedColumn(names) => join_name_parts(names),
            Expression::Alias(alias, child) => {
                let mut s = child.display_text();
                s.append(" as ");
                s.append(alias.as_str());
                s
            },
            Expression::UnaryExpression { op, expr } => {
                let mut s = op.clone();
                s.append("(");
                let t = expr.display_text();
                s.append(t.as_str());
                s.append(")");
                s
            },
            Expression::BinaryExpression { left, op, right } => {
                let mut s = String::from_str("(");
                let tl = left.display_text();
                s.append(tl.as_str());
                s.append(" ");
                s.append(op.as_str());
                s.append(" ");
                let tr = right.display_text();
                s.append(tr.as_str());
                s.append(")");
                s
            },
            Expression::ScalarFunction { op, args } => {
                let mut s = op.clone();
                s.append("(");
                let t = display_args(args);
                s.append(t.as_str());
                s.append(")");
                s
            },
            Expression::AggregateFunction { op, distinct, params, args } => {
                let mut s = op.clone();
                s.append("(");
                let t = display_args(args);
                s.append(t.as_str());
                s.append(")");
                s
            },
            Expression::Sort { expr, asc, nulls_first, origin_expr } => expr.display_text(),
            Expression::Cast { expr, data_type } => {
                let mut s = String::from_str("cast(");
                let t = expr.display_text();
                s.append(t.as_str());
                s.append(" as ");
                s.append(data_type.as_str());
                s.append(")");
                s
            },
            Expression::Wildcard => String::from_str("*"),
            Expression::Literal(value) => value.clone(),
            Expression::Subquery(name) => name.clone(),
            Expression::ScalarSubquery(name) => name.clone(),
        }
    }
}

/// Renders an argument list comma-joined, as `ExprV::text_seq` describes.
pub fn display_args(args: &Vec<Expression>) -> (r: String)
    ensures
        r@ == ExprV::text_seq(Expression::view_seq(args@)),
    decreases args@,
{
    let ghost vs = Expression::view_seq(args@);
    proof {
        lemma_view_seq_len(args@);
    }
    let mut s = String::new();
    let mut j: usize = 0;
    while j < args.len()
        invariant
            j <= args.len(),
            vs == Expression::view_seq(args@),
            vs.len() == args@.len(),
            s@ == ExprV::text_seq(vs.take(j as int)),
        decreases args.len() - j,
    {
        if j > 0 {
            s.append(", ");
        }
        let t = args[j].display_text();
        s.append(t.as_str());
        proof {
            lemma_view_seq_index(args@, j as int);
            if j == 0 {
                assert(vs.take(1) =~= seq![vs[0]]);
                assert(Seq::<char>::empty() + vs[0].text() =~= vs[0].text());
            } else {
                assert(vs.take(j + 1).drop_last() =~= vs.take(j as int));
                assert(vs.take(j + 1).last() == vs[j as int]);
            }
        }
        j += 1;
    }
    assert(vs.take(args@.len() as int) =~= vs);
    s
}

/// `view_seq` indexes pointwise into the element views.
pub broadcast proof fn lemma_view_seq_index(exprs: Seq<Expression>, i: int)
    requires
        0 <= i < exprs.len(),
    ensures
        Expression::view_seq(exprs).len() == exprs.len(),
        #[trigger] Expression::view_seq(exprs)[i] == exprs[i].view(),
    decreases exprs,
{
    lemma_view_seq_len(exprs);
    if exprs.len() > 0 && i < exprs.len() - 1 {
        lemma_view_seq_index(exprs.drop_last(), i);
    }
}

/// An expression's view is `Wildcard` exactly when the expression is.
pub proof fn lemma_view_wildcard(e: Expression)
    ensures
        (e@ is Wildcard) <==> (e is Wildcard),
{
}

/// `view_seq` distributes over concatenation.
pub proof fn lemma_view_seq_concat(left: Seq<Expression>, right: Seq<Expression>)
    ensures
        Expression::view_seq(left + right) == Expression::view_seq(left) + Expression::view_seq(
            right,
        ),
    decreases right,
{
    lemma_view_seq_len(left);
    lemma_view_seq_len(right);
    if right.len() == 0 {
        assert(left + right =~= left);
        assert(Expression::view_seq(left) + Expression::view_seq(right) =~= Expression::view_seq(
            left,
        ));
    } else {
        lemma_view_seq_concat(left, right.drop_last());
        assert((left + right).drop_last() =~= left + right.drop_last());
        assert((left + right).last() == right.last());
        lemma_view_seq_len(left + right.drop_last());
        assert(Expression::view_seq(left) + Expression::view_seq(right)
            =~= (Expression::view_seq(left) + Expression::view_seq(right.drop_last())).push(
            right.last().view(),
        ));
    }
}

/// `view_seq` preserves length.
pub broadcast proof fn lemma_view_seq_len(exprs: Seq<Expression>)
    ensures
        #[trigger] Expression::view_seq(exprs).len() == exprs.len(),
    decreases exprs,
{
    if exprs.len() > 0 {
        lemma_view_seq_len(exprs.drop_last());
    }
}

} // verus!
