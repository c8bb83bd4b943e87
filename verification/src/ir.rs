//! The clause-structured intermediate representation of one query: the
//! per-clause expression lists and optional predicates that resolution
//! rewrites field by field, in place.

use vstd::prelude::*;

use crate::expr::ExprV;
use crate::expr::Expression;

verus! {

/// Mathematical model of the IR: one sequence per clause, optional predicates.
pub struct IrV {
    pub group_by: Seq<ExprV>,
    pub order_by: Seq<ExprV>,
    pub aggregate: Seq<ExprV>,
    pub projection: Seq<ExprV>,
    pub filter: Option<ExprV>,
    pub having: Option<ExprV>,
}

/// One query's clause-structured IR, produced by the parser and rewritten
/// here before logical planning.
pub struct QueryASTIR {
    pub group_by_expressions: Vec<Expression>,
    pub order_by_expressions: Vec<Expression>,
    pub aggregate_expressions: Vec<Expression>,
    pub projection_expressions: Vec<Expression>,
    pub filter_predicate: Option<Expression>,
    pub having_predicate: Option<Expression>,
}

/// The model of an optional predicate.
pub open spec fn view_opt(e: Option<Expression>) -> Option<ExprV> {
    match e {
        Some(expr) => Some(expr@),
        None => None,
    }
}

impl View for QueryASTIR {
    type V = IrV;

    open spec fn view(&self) -> IrV {
        IrV {
            group_by: Expression::view_seq(self.group_by_expressions@),
            order_by: Expression::view_seq(self.order_by_expressions@),
            aggregate: Expression::view_seq(self.aggregate_expressions@),
            projection: Expression::view_seq(self.projection_expressions@),
            filter: view_opt(self.filter_predicate),
            having: view_opt(self.having_predicate),
        }
    }
}

} // verus!
