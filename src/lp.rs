use vstd::prelude::*;

verus! {

/// The fixed-point scale: one unit is a million millionths.
pub const ONE: i64 = 1_000_000;

#[derive(Clone, Copy, Debug, PartialEq, Eq, Structural)]
pub enum Comparison {
    Less,
    Equal,
    Greater,
}

/// `sum(coefficient * variable) comparison rhs`, where each term is a variable
/// index and a coefficient. Coefficients and `rhs` are in millionths.
pub struct LinearConstraint {
    pub terms: Vec<(usize, i64)>,
    pub comparison: Comparison,
    pub rhs: i64,
}

/// A constraint as the contracts see it.
pub type Row = (Seq<(usize, i64)>, Comparison, i64);

impl View for LinearConstraint {
    type V = Row;

    open spec fn view(&self) -> Row {
        (self.terms@, self.comparison, self.rhs)
    }
}

/// A linear program to maximize: one objective coefficient (in millionths) per
/// variable, and the constraints in order. Every variable is free; any bound is
/// one of the constraints.
pub struct LinearProgram {
    pub objective: Vec<i128>,
    pub constraints: Vec<LinearConstraint>,
}

pub open spec fn rows_of(cs: Seq<LinearConstraint>) -> Seq<Row> {
    cs.map_values(|c: LinearConstraint| c@)
}

pub open spec fn coefficients_of(cs: Seq<i128>) -> Seq<int> {
    cs.map_values(|c: i128| c as int)
}

impl View for LinearProgram {
    type V = (Seq<int>, Seq<Row>);

    open spec fn view(&self) -> (Seq<int>, Seq<Row>) {
        (coefficients_of(self.objective@), rows_of(self.constraints@))
    }
}

/// What a solver reports: an optimal value for every variable, in millionths,
/// or why there is none.
pub enum LpOutcome {
    Optimal(Vec<i64>),
    Infeasible,
    Unbounded,
}

/// A backend that maximizes a linear program.
pub trait LinearSolver {
    fn maximize(&self, program: &LinearProgram) -> LpOutcome;
}

/// `sum(coefficient * x[variable])` over the terms, in millionths of millionths.
pub open spec fn row_sum(terms: Seq<(usize, i64)>, x: Seq<i64>) -> int
    decreases terms.len(),
{
    if terms.len() == 0 {
        0
    } else {
        row_sum(terms.drop_last(), x) + terms.last().1 * x[terms.last().0 as int]
    }
}

/// Whether the assignment `x` (in millionths) meets the constraint exactly.
pub open spec fn row_holds(row: Row, x: Seq<i64>) -> bool {
    let lhs = row_sum(row.0, x);
    let rhs = row.2 * ONE;
    match row.1 {
        Comparison::Less => lhs <= rhs,
        Comparison::Equal => lhs == rhs,
        Comparison::Greater => lhs >= rhs,
    }
}

/// Whether `x` gives a value to every variable and meets every constraint.
pub open spec fn feasible(program: (Seq<int>, Seq<Row>), x: Seq<i64>) -> bool {
    &&& x.len() == program.0.len()
    &&& forall|k: int| 0 <= k < program.1.len() ==> row_holds(#[trigger] program.1[k], x)
}

} // verus!
