//! The boolean-condition tree of a `WHERE` clause and its evaluation
//! against one row.

use vstd::prelude::*;

use crate::compare::{compare_values, val_cmp, ValOrder};
use crate::value_map::ValueMap;

verus! {

/// The comparison operators the grammar accepts.
#[derive(Clone, Copy, PartialEq, Eq, Structural, Debug)]
pub enum ComparisonOp {
    Eq,
    Neq,
    Gt,
    Lt,
    Gte,
    Lte,
}

/// A boolean condition over one row: conjunction, disjunction,
/// negation, or a comparison of a column's value against a literal.
pub enum Condition {
    And(Box<Condition>, Box<Condition>),
    Or(Box<Condition>, Box<Condition>),
    Not(Box<Condition>),
    Comparison(String, ComparisonOp, String),
}

/// Mathematical image of a condition tree, over character sequences.
pub enum ConditionView {
    And(Box<ConditionView>, Box<ConditionView>),
    Or(Box<ConditionView>, Box<ConditionView>),
    Not(Box<ConditionView>),
    Comparison(Seq<char>, ComparisonOp, Seq<char>),
}

pub open spec fn cond_view(c: Condition) -> ConditionView
    decreases c,
{
    match c {
        Condition::And(a, b) => ConditionView::And(Box::new(cond_view(*a)), Box::new(cond_view(*b))),
        Condition::Or(a, b) => ConditionView::Or(Box::new(cond_view(*a)), Box::new(cond_view(*b))),
        Condition::Not(a) => ConditionView::Not(Box::new(cond_view(*a))),
        Condition::Comparison(col, op, val) => ConditionView::Comparison(col@, op, val@),
    }
}

impl View for Condition {
    type V = ConditionView;

    open spec fn view(&self) -> ConditionView {
        cond_view(*self)
    }
}

/// Whether a comparison outcome satisfies an operator.
pub open spec fn op_holds(op: ComparisonOp, o: ValOrder) -> bool {
    match op {
        ComparisonOp::Eq => o == ValOrder::Equal,
        ComparisonOp::Neq => o != ValOrder::Equal,
        ComparisonOp::Gt => o == ValOrder::Greater,
        ComparisonOp::Lt => o == ValOrder::Less,
        ComparisonOp::Gte => o != ValOrder::Less,
        ComparisonOp::Lte => o != ValOrder::Greater,
    }
}

/// What a condition means on a row: And/Or/Not combine recursively; a
/// comparison is false when the column is absent, and otherwise
/// compares the row's value against the literal under the engine's
/// numeric-or-text policy.
pub open spec fn spec_eval(c: ConditionView, row: Map<Seq<char>, Seq<char>>) -> bool
    decreases c,
{
    match c {
        ConditionView::And(a, b) => spec_eval(*a, row) && spec_eval(*b, row),
        ConditionView::Or(a, b) => spec_eval(*a, row) || spec_eval(*b, row),
        ConditionView::Not(a) => !spec_eval(*a, row),
        ConditionView::Comparison(col, op, val) => {
            &&& row.contains_key(col)
            &&& op_holds(op, val_cmp(row[col], val))
        },
    }
}

impl Condition {
    /// Evaluates the condition tree against one row; a comparison on a
    /// column the row lacks is false, never an error.
    pub fn evaluate(&self, row: &ValueMap) -> (r: bool)
        ensures
            r == spec_eval(self@, row@),
        decreases *self,
    {
        match self {
            Condition::And(a, b) => {
                let ra = a.evaluate(row);
                let rb = b.evaluate(row);
                ra && rb
            },
            Condition::Or(a, b) => {
                let ra = a.evaluate(row);
                let rb = b.evaluate(row);
                ra || rb
            },
            Condition::Not(a) => !a.evaluate(row),
            Condition::Comparison(col, op, val) => {
                match row.get(col.as_str()) {
                    Some(data_val) => {
                        let ord = compare_values(data_val.as_str(), val.as_str());
                        match op {
                            ComparisonOp::Eq => matches!(ord, ValOrder::Equal),
                            ComparisonOp::Neq => !matches!(ord, ValOrder::Equal),
                            ComparisonOp::Gt => matches!(ord, ValOrder::Greater),
                            ComparisonOp::Lt => matches!(ord, ValOrder::Less),
                            ComparisonOp::Gte => !matches!(ord, ValOrder::Less),
                            ComparisonOp::Lte => !matches!(ord, ValOrder::Greater),
                        }
                    },
                    None => false,
                }
            },
        }
    }
}

} // verus!
