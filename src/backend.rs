//! The Z3 solver behind a handle that also records, as plain values, every
//! constraint that has been asserted to it.
use vstd::prelude::*;

use crate::constraint::Constraint;

verus! {

#[verifier::external_type_specification]
#[verifier::external_body]
pub struct ExSolver(z3::Solver);

#[verifier::external_type_specification]
#[verifier::external_body]
pub struct ExModel(z3::Model);

#[verifier::external_type_specification]
#[verifier::external_body]
pub struct ExBool(z3::ast::Bool);

/// Relies on z3::Solver::new: a fresh solver with no assertions.
pub assume_specification[ z3::Solver::new ]() -> (r: z3::Solver);

/// Relies on z3::Solver::get_model: the model of the last check, if one is
/// available.
pub assume_specification[ z3::Solver::get_model ](s: &z3::Solver) -> (r: Option<z3::Model>);

/// Relies on z3::ast::Bool::as_bool: the value of a boolean literal, `None`
/// for any other expression.
pub assume_specification[ z3::ast::Bool::as_bool ](b: &z3::ast::Bool) -> (r: Option<bool>);

/// Relies on Clone for z3::ast::Bool: another handle on the same expression.
pub assume_specification[ <z3::ast::Bool as Clone>::clone ](b: &z3::ast::Bool) -> (r:
    z3::ast::Bool);

/// A decision variable: the Z3 boolean constant named after one cell of the
/// assignment matrix.
pub struct Cell {
    var: z3::ast::Bool,
    id: Ghost<(usize, usize)>,
}

impl Cell {
    /// The `(row, column)` that the constant is named after.
    pub closed spec fn id(&self) -> (usize, usize) {
        self.id@
    }

    /// Another handle on the same constant.
    pub fn copy_handle(&self) -> (r: Cell)
        ensures
            r.id() == self.id(),
    {
        Cell { var: self.var.clone(), id: Ghost(self.id@) }
    }
}

/// The `(row, column)` names of `cells`, in order.
pub open spec fn ids_of(cells: Seq<Cell>) -> Seq<(usize, usize)> {
    Seq::new(cells.len(), |k: int| cells[k].id())
}

/// A pseudo-boolean formula over the constants named by `cells`, each with
/// coefficient one.
pub enum PbFormula {
    /// Exactly `bound` of them are true.
    Exactly { cells: Seq<(usize, usize)>, bound: int },
    /// At most `bound` of them are true.
    AtMost { cells: Seq<(usize, usize)>, bound: int },
}

/// A Z3 formula together with what it says.
pub struct Formula {
    formula: z3::ast::Bool,
    desc: Ghost<PbFormula>,
}

impl Formula {
    /// What the formula says.
    pub closed spec fn desc(&self) -> PbFormula {
        self.desc@
    }
}

/// Relies on z3::ast::Bool::new_const: the boolean constant named
/// `cell_<row>_<col>`, so that distinct cells get distinct constants.
#[verifier::external_body]
pub(crate) fn declare_cell(row: usize, col: usize) -> (r: Cell)
    ensures
        r.id() == (row, col),
{
    Cell { var: z3::ast::Bool::new_const(format!("cell_{}_{}", row, col)), id: Ghost((row, col)) }
}

/// Relies on z3::ast::Bool::pb_eq: the formula "exactly `k` of `vars` are
/// true" (each with coefficient one). It asserts that the list fits in `u32`.
#[verifier::external_body]
pub(crate) fn exactly_formula(vars: &Vec<Cell>, k: i32) -> (r: Formula)
    requires
        vars.len() <= u32::MAX,
    ensures
        r.desc() == (PbFormula::Exactly { cells: ids_of(vars@), bound: k as int }),
{
    let weighted: Vec<(&z3::ast::Bool, i32)> = vars.iter().map(|c| (&c.var, 1)).collect();
    Formula {
        formula: z3::ast::Bool::pb_eq(&weighted, k),
        desc: Ghost(PbFormula::Exactly { cells: ids_of(vars@), bound: k as int }),
    }
}

/// Relies on z3::ast::Bool::pb_le: the formula "at most `k` of `vars` are
/// true" (each with coefficient one). It asserts that the list fits in `u32`.
#[verifier::external_body]
pub(crate) fn at_most_formula(vars: &Vec<Cell>, k: i32) -> (r: Formula)
    requires
        vars.len() <= u32::MAX,
    ensures
        r.desc() == (PbFormula::AtMost { cells: ids_of(vars@), bound: k as int }),
{
    let weighted: Vec<(&z3::ast::Bool, i32)> = vars.iter().map(|c| (&c.var, 1)).collect();
    Formula {
        formula: z3::ast::Bool::pb_le(&weighted, k),
        desc: Ghost(PbFormula::AtMost { cells: ids_of(vars@), bound: k as int }),
    }
}

/// Relies on z3::Solver::assert: adds `formula` to the solver's assertions.
#[verifier::external_body]
fn assert_formula(s: &z3::Solver, formula: &z3::ast::Bool) {
    s.assert(formula)
}

/// What a satisfiability check reported.
#[derive(Clone, Copy, Debug, PartialEq, Eq)]
pub enum Verdict {
    Sat,
    Unsat,
    Unknown,
}

/// Relies on z3::Solver::check: whether the assertions are satisfiable.
#[verifier::external_body]
fn check_solver(s: &z3::Solver) -> (r: Verdict) {
    match s.check() {
        z3::SatResult::Sat => Verdict::Sat,
        z3::SatResult::Unsat => Verdict::Unsat,
        z3::SatResult::Unknown => Verdict::Unknown,
    }
}

/// Relies on z3::Model::eval with model completion: the value of `c` in the
/// model, if the model can evaluate it.
#[verifier::external_body]
pub(crate) fn eval_in(m: &z3::Model, c: &Cell) -> (r: Option<z3::ast::Bool>) {
    m.eval(&c.var, true)
}

/// A Z3 solver together with the formulas asserted to it so far, and the
/// same constraints as plain values, against which models are checked.
pub struct SolverHandle {
    solver: z3::Solver,
    sent: Ghost<Seq<PbFormula>>,
    asserted: Vec<Constraint>,
}

impl SolverHandle {
    /// The constraints asserted so far, in order.
    pub closed spec fn asserted(&self) -> Seq<Constraint> {
        self.asserted@
    }

    /// The formulas asserted to the solver so far, in order.
    pub closed spec fn sent(&self) -> Seq<PbFormula> {
        self.sent@
    }

    /// A handle on a fresh solver with nothing asserted.
    pub fn new() -> (r: SolverHandle)
        ensures
            r.asserted() == Seq::<Constraint>::empty(),
            r.sent() == Seq::<PbFormula>::empty(),
    {
        SolverHandle { solver: z3::Solver::new(), sent: Ghost(Seq::empty()), asserted: Vec::new() }
    }

    /// Asserts `formula` to the solver, recorded as `c`.
    pub(crate) fn post(&mut self, c: Constraint, formula: &Formula)
        ensures
            final(self).asserted() == old(self).asserted().push(c),
            final(self).sent() == old(self).sent().push(formula.desc()),
    {
        assert_formula(&self.solver, &formula.formula);
        self.sent = Ghost(self.sent@.push(formula.desc@));
        self.asserted.push(c);
    }

    /// The constraints asserted so far, in order.
    pub fn asserted_constraints(&self) -> (r: &Vec<Constraint>)
        ensures
            r@ == self.asserted(),
    {
        &self.asserted
    }

    /// Runs the satisfiability check; on `Sat`, also the model the solver
    /// found, if it gives one.
    pub(crate) fn check(&self) -> (r: (Verdict, Option<z3::Model>)) {
        let v = check_solver(&self.solver);
        match v {
            Verdict::Sat => (v, self.solver.get_model()),
            _ => (v, None),
        }
    }
}

} // verus!
