//! Sort directions and sort keys for `ORDER BY`.

use vstd::prelude::*;

verus! {

/// Direction of one sort key.
#[derive(Clone, Copy, PartialEq, Eq, Structural, Debug)]
pub enum Direction {
    Ascending,
    Descending,
}

/// One sort key: a column and the direction to order it by.
pub struct OrderBy {
    pub column: String,
    pub direction: Direction,
}

/// Mathematical image of one sort key.
pub struct OrderByView {
    pub column: Seq<char>,
    pub direction: Direction,
}

impl View for OrderBy {
    type V = OrderByView;

    open spec fn view(&self) -> OrderByView {
        OrderByView { column: self.column@, direction: self.direction }
    }
}

impl DeepView for OrderBy {
    type V = OrderByView;

    open spec fn deep_view(&self) -> OrderByView {
        self.view()
    }
}

} // verus!
