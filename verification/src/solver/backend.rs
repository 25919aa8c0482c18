//! Handing an integer program to the solver and reading its answer.
//!
//! The solver is `good_lp` with its `microlp` backend. Its values are opaque
//! here. What is tracked of them is what they hold: the position of each
//! variable, the coefficients of each expression, the objective and the rows
//! of the problem, and the values of a solution. The answer of the solver is
//! named by the problem that it was given.

use crate::solver::model::exact;
use crate::solver::model::light;
use crate::solver::model::magnitude;
use crate::solver::model::terms_in;
use crate::solver::model::weight;
use crate::solver::model::var_in;
use crate::solver::model::Model;
use crate::solver::model::Relation;
use crate::solver::model::Term;
use crate::solver::model::Var;
use crate::solver::program::view_of;
use crate::solver::program::views;
use good_lp::Solution;
use good_lp::SolverModel;
use vstd::prelude::*;

verus! {

/// `good_lp::ProblemVariables`: the variables of a problem in the making.
#[verifier::external_type_specification]
#[verifier::external_body]
pub struct ExProblemVariables(good_lp::ProblemVariables);

/// `good_lp::Variable`: the handle of one variable.
#[verifier::external_type_specification]
#[verifier::external_body]
pub struct ExVariable(good_lp::Variable);

/// `good_lp::Expression`: a sum of variables with coefficients.
#[verifier::external_type_specification]
#[verifier::external_body]
pub struct ExExpression(good_lp::Expression);

/// `good_lp::Constraint`: an expression compared with a number.
#[verifier::external_type_specification]
#[verifier::external_body]
pub struct ExConstraint(good_lp::Constraint);

/// `good_lp::solvers::microlp::MicroLpProblem`: a problem that the solver
/// can run.
#[verifier::external_type_specification]
#[verifier::external_body]
pub struct ExMicroLpProblem(good_lp::solvers::microlp::MicroLpProblem);

/// `good_lp::solvers::microlp::MicroLpSolution`: the values that the solver
/// found.
#[verifier::external_type_specification]
#[verifier::external_body]
pub struct ExMicroLpSolution(good_lp::solvers::microlp::MicroLpSolution);

/// `good_lp::ResolutionError`: why the solver found nothing.
#[verifier::external_type_specification]
#[verifier::external_body]
pub struct ExResolutionError(good_lp::ResolutionError);

/// The number of variables that a list of variables holds.
pub uninterp spec fn variables_len(vars: good_lp::ProblemVariables) -> nat;

/// The position of a variable in the list that it was added to.
pub uninterp spec fn variable_position(v: good_lp::Variable) -> nat;

/// The coefficient that an expression holds for each variable it speaks of,
/// by the position of the variable.
pub uninterp spec fn expression_terms(e: good_lp::Expression) -> Map<nat, int>;

/// What a constraint holds: the coefficients of its left-hand side, how the
/// two sides are compared (0 for at most, 1 for at least, 2 for equal), and
/// the right-hand side.
pub uninterp spec fn constraint_row(c: good_lp::Constraint) -> (Map<nat, int>, int, int);

/// The number of variables of a problem.
pub uninterp spec fn problem_len(pb: good_lp::solvers::microlp::MicroLpProblem) -> nat;

/// The coefficient of the objective of a problem for each of its variables,
/// by position: zero for a variable that the objective does not speak of.
pub uninterp spec fn problem_objective(pb: good_lp::solvers::microlp::MicroLpProblem) -> Map<
    nat,
    int,
>;

/// The rows of a problem as it stores them, in the order in which they were
/// added: the coefficients, how the two sides are compared (0 for at most, 2
/// for equal; a constraint of the kind "at least" is stored as "at most" of
/// the negated sides), and the right-hand side.
pub uninterp spec fn problem_rows(pb: good_lp::solvers::microlp::MicroLpProblem) -> Seq<
    (Map<nat, int>, int, int),
>;

/// The value that a solution holds for each variable, by position, as the
/// bits of a double.
pub uninterp spec fn solution_bits(sol: good_lp::solvers::microlp::MicroLpSolution) -> Seq<u64>;

/// What the solver answers to the problem of making the objective as large
/// as possible over so many yes-or-no variables under the given rows: the
/// values of a solution, or `None` where it gives an error. The solver draws
/// no random numbers, is given no time limit, and sorts each row by position
/// before it stores it, so its answer depends on these three alone.
pub uninterp spec fn milp_answer(
    variables: nat,
    objective: Map<nat, int>,
    rows: Seq<(Map<nat, int>, int, int)>,
) -> Option<Seq<u64>>;

/// What an error of the solver holds: its kind (0 for unbounded, 1 for
/// infeasible, 2 for a message of the solver's own, 3 for a message made at
/// run time) and its message, which is empty for the first two kinds.
pub uninterp spec fn error_content(e: good_lp::ResolutionError) -> (int, Seq<char>);

/// The error that the solver answers with where it gives no solution to the
/// problem of so many yes-or-no variables with the given objective and rows.
pub uninterp spec fn milp_failure(
    variables: nat,
    objective: Map<nat, int>,
    rows: Seq<(Map<nat, int>, int, int)>,
) -> (int, Seq<char>);

/// An expression without terms.
pub open spec fn no_terms() -> Map<nat, int> {
    Map::empty()
}

/// A problem without rows.
pub open spec fn no_rows() -> Seq<(Map<nat, int>, int, int)> {
    Seq::empty()
}

/// The coefficient that `terms` hold at the position `p`: zero where they
/// hold none.
pub open spec fn held(terms: Map<nat, int>, p: nat) -> int {
    if terms.contains_key(p) {
        terms[p]
    } else {
        0
    }
}

/// The coefficients `terms`, each with the other sign.
pub open spec fn negated(terms: Map<nat, int>) -> Map<nat, int> {
    Map::new(|p: nat| terms.contains_key(p), |p: nat| -terms[p])
}

/// The row as a problem stores it: a row of the kind "at least" becomes the
/// row "at most" of the negated sides, every other row stays as it is.
pub open spec fn stored_row(row: (Map<nat, int>, int, int)) -> (Map<nat, int>, int, int) {
    if row.1 == 1 {
        (negated(row.0), 0, -row.2)
    } else {
        row
    }
}

/// The objective as a problem of `len` variables stores it: a coefficient for
/// each variable, zero where `terms` hold none.
pub open spec fn dense(terms: Map<nat, int>, len: nat) -> Map<nat, int> {
    Map::new(|p: nat| p < len, |p: nat| held(terms, p))
}

/// A row made of its three parts.
pub open spec fn made_row(terms: Map<nat, int>, kind: int, rhs: int) -> (Map<nat, int>, int, int) {
    (terms, kind, rhs)
}

/// Whether every position that `terms` speak of is below `total`.
pub open spec fn terms_below(terms: Map<nat, int>, total: nat) -> bool {
    forall|p: nat| terms.contains_key(p) ==> p < total
}

/// Why the solver gave no solution.
#[derive(Clone, PartialEq, Eq, Debug)]
pub enum SolveError {
    /// The objective can be made as large as one likes.
    Unbounded,
    /// No point meets all constraints.
    Infeasible,
    /// The solver failed, with a message of its own.
    Other(String),
    /// The solver failed, with a message made at run time.
    Str(String),
}

impl SolveError {
    /// What the error holds: its kind (0 for unbounded, 1 for infeasible, 2
    /// and 3 for the two kinds of message) and its message.
    pub open spec fn content(self) -> (int, Seq<char>) {
        match self {
            SolveError::Unbounded => (0, Seq::empty()),
            SolveError::Infeasible => (1, Seq::empty()),
            SolveError::Other(why) => (2, why@),
            SolveError::Str(why) => (3, why@),
        }
    }
}

/// `good_lp::ProblemVariables::new`: an empty list of variables.
#[verifier::external_body]
fn new_variables() -> (r: good_lp::ProblemVariables)
    ensures
        variables_len(r) == 0,
{
    good_lp::ProblemVariables::new()
}

/// `good_lp::ProblemVariables::add` with the definition
/// `good_lp::variable().binary()`: the new variable stands at the end of the
/// list, which is one longer afterwards.
#[verifier::external_body]
fn add_binary(vars: &mut good_lp::ProblemVariables) -> (r: good_lp::Variable)
    ensures
        variable_position(r) == variables_len(*old(vars)),
        variables_len(*final(vars)) == variables_len(*old(vars)) + 1,
{
    vars.add(good_lp::variable().binary())
}

/// `good_lp::Expression::from` on the integer 0: an expression without
/// terms.
#[verifier::external_body]
fn new_expression() -> (r: good_lp::Expression)
    ensures
        expression_terms(r) == no_terms(),
{
    good_lp::Expression::from(0i32)
}

/// `good_lp::Expression::add_mul`: adds `coeff` times `v` to the expression.
/// Afterwards the expression holds for `v` the sum of what it held before,
/// or zero, and `coeff`; for every other variable it holds what it held. The
/// coefficients are doubles, which add whole numbers exactly as long as the
/// numbers and their sum are no larger than two to the power of 53.
#[verifier::external_body]
fn add_term(e: &mut good_lp::Expression, coeff: i32, v: good_lp::Variable)
    requires
        exact(held(expression_terms(*old(e)), variable_position(v))),
        exact(held(expression_terms(*old(e)), variable_position(v)) + coeff),
    ensures
        expression_terms(*final(e)) == expression_terms(*old(e)).insert(
            variable_position(v),
            held(expression_terms(*old(e)), variable_position(v)) + coeff,
        ),
{
    e.add_mul(coeff, v)
}

/// `good_lp::Expression::leq` with an integer on the right: the constraint
/// that the expression is at most `rhs`.
#[verifier::external_body]
fn at_most(e: good_lp::Expression, rhs: i32) -> (r: good_lp::Constraint)
    ensures
        constraint_row(r) == made_row(expression_terms(e), 0, rhs as int),
{
    e.leq(rhs)
}

/// `good_lp::Expression::geq` with an integer on the right: the constraint
/// that the expression is at least `rhs`.
#[verifier::external_body]
fn at_least(e: good_lp::Expression, rhs: i32) -> (r: good_lp::Constraint)
    ensures
        constraint_row(r) == made_row(expression_terms(e), 1, rhs as int),
{
    e.geq(rhs)
}

/// `good_lp::Expression::eq` with an integer on the right: the constraint
/// that the expression equals `rhs`.
#[verifier::external_body]
fn exactly(e: good_lp::Expression, rhs: i32) -> (r: good_lp::Constraint)
    ensures
        constraint_row(r) == made_row(expression_terms(e), 2, rhs as int),
{
    e.eq(rhs)
}

/// `good_lp::ProblemVariables::maximise`, then
/// `good_lp::variable::UnsolvedProblem::using` with `good_lp::default_solver`:
/// a problem over the variables of the list with no constraint yet. It holds
/// a coefficient of the objective for each variable: what the expression
/// holds for it, or zero. The objective may only speak of variables of the
/// list.
#[verifier::external_body]
fn maximise(vars: good_lp::ProblemVariables, objective: good_lp::Expression) -> (r:
    good_lp::solvers::microlp::MicroLpProblem)
    requires
        terms_below(expression_terms(objective), variables_len(vars)),
    ensures
        problem_len(r) == variables_len(vars),
        problem_objective(r) == dense(expression_terms(objective), variables_len(vars)),
        problem_rows(r) == no_rows(),
{
    vars.maximise(objective).using(good_lp::default_solver)
}

/// `good_lp::SolverModel::add_constraint`: the problem has one more row at
/// its end, the constraint as it is stored, and its variables and its
/// objective as before. The constraint may only speak of variables of the
/// problem.
#[verifier::external_body]
fn add_constraint(pb: &mut good_lp::solvers::microlp::MicroLpProblem, c: good_lp::Constraint)
    requires
        terms_below(constraint_row(c).0, problem_len(*old(pb))),
    ensures
        problem_len(*final(pb)) == problem_len(*old(pb)),
        problem_objective(*final(pb)) == problem_objective(*old(pb)),
        problem_rows(*final(pb)) == problem_rows(*old(pb)).push(stored_row(constraint_row(c))),
{
    pb.add_constraint(c);
}

/// `good_lp::SolverModel::solve`: a solution holds a value for each variable
/// of the problem and is the solver's answer to the problem; an error is its
/// answer where it has no solution. Nothing is claimed of the values.
#[verifier::external_body]
fn run(pb: good_lp::solvers::microlp::MicroLpProblem) -> (r: Result<
    good_lp::solvers::microlp::MicroLpSolution,
    good_lp::ResolutionError,
>)
    ensures
        r matches Ok(sol) ==> solution_bits(sol).len() == problem_len(pb),
        r matches Ok(sol) ==> milp_answer(
            problem_len(pb),
            problem_objective(pb),
            problem_rows(pb),
        ) == Some(solution_bits(sol)),
        r is Err ==> milp_answer(problem_len(pb), problem_objective(pb), problem_rows(pb)) is None,
        r matches Err(e) ==> error_content(e) == milp_failure(
            problem_len(pb),
            problem_objective(pb),
            problem_rows(pb),
        ),
{
    pb.solve()
}

/// `good_lp::Solution::value`, as the bits of the double that it returns
/// (`to_bits` of the standard library): the value that the solution holds at
/// the position of the variable. The variable must be one of the solution's.
/// For a yes-or-no variable the backend hands out a whole number: it rounds
/// such a value before it keeps a solution.
#[verifier::external_body]
fn value_bits(sol: &good_lp::solvers::microlp::MicroLpSolution, v: good_lp::Variable) -> (r: u64)
    requires
        variable_position(v) < solution_bits(*sol).len(),
    ensures
        r == solution_bits(*sol)[variable_position(v) as int],
{
    sol.value(v).to_bits()
}

/// Tells the variants of `good_lp::ResolutionError` apart and keeps their
/// messages: the error that comes back holds what the solver's error holds.
#[verifier::external_body]
fn error_of(e: good_lp::ResolutionError) -> (r: SolveError)
    ensures
        r.content() == error_content(e),
{
    match e {
        good_lp::ResolutionError::Unbounded => SolveError::Unbounded,
        good_lp::ResolutionError::Infeasible => SolveError::Infeasible,
        good_lp::ResolutionError::Other(s) => SolveError::Other(s.to_string()),
        good_lp::ResolutionError::Str(s) => SolveError::Str(s),
    }
}

/// Whether the bits are those of a double that is greater than one half: the
/// sign is positive, and the rest is above the bits of one half and no
/// higher than those of infinity.
pub open spec fn above_half(bits: u64) -> bool {
    0x3fe0_0000_0000_0000 < bits <= 0x7ff0_0000_0000_0000
}

/// Whether the double with the given bits is greater than one half.
pub fn is_above_half(bits: u64) -> (r: bool)
    ensures
        r == above_half(bits),
{
    0x3fe0_0000_0000_0000 < bits && bits <= 0x7ff0_0000_0000_0000
}

/// The position of a variable of a program with `n` students, `m` projects
/// and `k` pairs: the `X` come first, a row for each student, then the `W`, a
/// row for each pair, then the `Same`.
pub open spec fn var_position(var: Var, n: nat, m: nat, k: nat) -> nat {
    match var {
        Var::X { schueler, projekt } => (schueler * m + projekt) as nat,
        Var::W { paar, projekt } => (n * m + paar * m + projekt) as nat,
        Var::Same { paar } => (n * m + k * m + paar) as nat,
    }
}

/// The number of variables of a program with `n` students, `m` projects and
/// `k` pairs.
pub open spec fn var_count(n: nat, m: nat, k: nat) -> nat {
    n * m + k * m + k
}

/// The coefficients that a sum of terms comes to, term after term.
pub open spec fn coefficients(terms: Seq<Term>, n: nat, m: nat, k: nat) -> Map<nat, int>
    decreases terms.len(),
{
    if terms.len() == 0 {
        no_terms()
    } else {
        let before = coefficients(terms.drop_last(), n, m, k);
        let p = var_position(terms.last().var, n, m, k);
        before.insert(p, held(before, p) + terms.last().coeff)
    }
}

/// The number that stands for a relation in a row.
pub open spec fn relation_kind(relation: Relation) -> int {
    match relation {
        Relation::Le => 0,
        Relation::Ge => 1,
        Relation::Eq => 2,
    }
}

/// The row that a constraint of a program comes to, as the constraint says
/// it.
pub open spec fn row_of(c: (Seq<Term>, Relation, i32), n: nat, m: nat, k: nat) -> (
    Map<nat, int>,
    int,
    int,
) {
    made_row(coefficients(c.0, n, m, k), relation_kind(c.1), c.2 as int)
}

/// The rows that the constraints of a program come to as a problem stores
/// them, in their order.
pub open spec fn rows_of(cs: Seq<(Seq<Term>, Relation, i32)>, n: nat, m: nat, k: nat) -> Seq<
    (Map<nat, int>, int, int),
> {
    Seq::new(cs.len(), |t: int| stored_row(row_of(cs[t], n, m, k)))
}

/// What the solver answers to the program of `n` students, `m` projects and
/// `k` pairs with the given objective and constraints.
pub open spec fn program_answer(
    n: nat,
    m: nat,
    k: nat,
    objective: Seq<Term>,
    constraints: Seq<(Seq<Term>, Relation, i32)>,
) -> Option<Seq<u64>> {
    milp_answer(
        var_count(n, m, k),
        dense(coefficients(objective, n, m, k), var_count(n, m, k)),
        rows_of(constraints, n, m, k),
    )
}

/// The error that the solver answers a program with where it gives no
/// solution.
pub open spec fn program_failure(
    n: nat,
    m: nat,
    k: nat,
    objective: Seq<Term>,
    constraints: Seq<(Seq<Term>, Relation, i32)>,
) -> (int, Seq<char>) {
    milp_failure(
        var_count(n, m, k),
        dense(coefficients(objective, n, m, k), var_count(n, m, k)),
        rows_of(constraints, n, m, k),
    )
}

/// The error that the solver answers a program with where it gives no
/// solution.
pub open spec fn model_failure(model: Model) -> (int, Seq<char>) {
    program_failure(
        model.schueler as nat,
        model.projekte as nat,
        model.paare as nat,
        model.objective@,
        views(model.constraints@),
    )
}

/// What the solver answers to a program.
pub open spec fn model_answer(model: Model) -> Option<Seq<u64>> {
    program_answer(
        model.schueler as nat,
        model.projekte as nat,
        model.paare as nat,
        model.objective@,
        views(model.constraints@),
    )
}

/// Whether `x` is the table of `n` rows of `m` entries that the values `bits`
/// of the `X` stand for: an entry says yes exactly where the value is the
/// bits of a double above one half.
pub open spec fn is_answer_table(bits: Seq<u64>, x: Seq<Vec<bool>>, n: nat, m: nat) -> bool {
    &&& x.len() == n
    &&& forall|i: int| 0 <= i < n ==> (#[trigger] x[i])@.len() == m
    &&& forall|i: int, j: int|
        0 <= i < n && 0 <= j < m ==> #[trigger] x[i]@[j] == above_half(bits[i * m + j])
}

/// Whether `r` is what solving the program `model` comes to: the table of
/// the solver's answer, or the solver's error where it gives none.
pub open spec fn answers(model: Model, r: Result<Vec<Vec<bool>>, SolveError>) -> bool {
    match r {
        Ok(x) => model_answer(model) matches Some(bits) && is_answer_table(
            bits,
            x@,
            model.schueler as nat,
            model.projekte as nat,
        ),
        Err(e) => model_answer(model) is None && e.content() == model_failure(model),
    }
}

/// Whether each coefficient of `terms` is of the size `bound` at most.
pub open spec fn within(terms: Map<nat, int>, bound: nat) -> bool {
    forall|p: nat| terms.contains_key(p) ==> -bound <= #[trigger] terms[p] <= bound
}

/// The first terms of a sum weigh no more than all of them.
pub proof fn lemma_weight_take(terms: Seq<Term>, upto: int)
    requires
        0 <= upto <= terms.len(),
    ensures
        weight(terms.take(upto)) <= weight(terms),
    decreases terms.len(),
{
    if upto == terms.len() {
        assert(terms.take(upto) =~= terms);
    } else {
        lemma_weight_take(terms.drop_last(), upto);
        assert(terms.drop_last().take(upto) =~= terms.take(upto));
    }
}

/// A cell of a table lies within the table.
pub proof fn lemma_cell(i: nat, j: nat, n: nat, m: nat)
    requires
        i < n,
        j < m,
    ensures
        i * m + j < n * m,
{
    assert(i * m + j < n * m) by (nonlinear_arith)
        requires
            i < n,
            j < m,
    ;
}

/// Every variable of a program has a position below the number of its
/// variables.
pub proof fn lemma_var_position(var: Var, n: nat, m: nat, k: nat)
    requires
        var_in(var, n as int, m as int, k as int),
    ensures
        var_position(var, n, m, k) < var_count(n, m, k),
{
    match var {
        Var::X { schueler, projekt } => {
            lemma_cell(schueler as nat, projekt as nat, n, m);
            assert(0 <= k * m) by (nonlinear_arith);
        },
        Var::W { paar, projekt } => {
            lemma_cell(paar as nat, projekt as nat, k, m);
        },
        Var::Same { paar } => {},
    }
}

/// The solver's variables of a program, by family.
struct Handles {
    x: Vec<Vec<good_lp::Variable>>,
    w: Vec<Vec<good_lp::Variable>>,
    same: Vec<good_lp::Variable>,
}

spec fn row_at(row: Seq<good_lp::Variable>, m: nat, start: nat) -> bool {
    &&& row.len() == m
    &&& forall|j: int| 0 <= j < m ==> variable_position(#[trigger] row[j]) == start + j
}

spec fn table_at(rows: Seq<Vec<good_lp::Variable>>, n: nat, m: nat, start: nat) -> bool {
    &&& rows.len() == n
    &&& forall|i: int| 0 <= i < n ==> row_at((#[trigger] rows[i])@, m, (start + i * m) as nat)
}

impl Handles {
    /// Whether there is a handle for each variable of a program of the given
    /// sizes, each at the position of its variable.
    spec fn cover(self, n: nat, m: nat, k: nat) -> bool {
        &&& table_at(self.x@, n, m, 0)
        &&& table_at(self.w@, k, m, n * m)
        &&& row_at(self.same@, k, n * m + k * m)
    }
}

fn new_row(vars: &mut good_lp::ProblemVariables, m: usize) -> (r: Vec<good_lp::Variable>)
    ensures
        variables_len(*final(vars)) == variables_len(*old(vars)) + m,
        row_at(r@, m as nat, variables_len(*old(vars))),
{
    let mut row: Vec<good_lp::Variable> = Vec::new();
    let mut j: usize = 0;
    while j < m
        invariant
            j <= m,
            variables_len(*vars) == variables_len(*old(vars)) + j,
            row_at(row@, j as nat, variables_len(*old(vars))),
        decreases m - j,
    {
        let v = add_binary(vars);
        row.push(v);
        j += 1;
    }
    row
}

fn new_table(vars: &mut good_lp::ProblemVariables, n: usize, m: usize) -> (r: Vec<
    Vec<good_lp::Variable>,
>)
    ensures
        variables_len(*final(vars)) == variables_len(*old(vars)) + n * m,
        table_at(r@, n as nat, m as nat, variables_len(*old(vars))),
{
    let ghost start = variables_len(*vars);
    let mut rows: Vec<Vec<good_lp::Variable>> = Vec::new();
    let mut i: usize = 0;
    while i < n
        invariant
            i <= n,
            start == variables_len(*old(vars)),
            variables_len(*vars) == start + i * m,
            table_at(rows@, i as nat, m as nat, start),
        decreases n - i,
    {
        let ghost before = rows@;
        let row = new_row(vars, m);
        rows.push(row);
        proof {
            assert(i * m + m == (i + 1) * m) by (nonlinear_arith);
            assert forall|a: int| 0 <= a < i + 1 implies row_at(
                (#[trigger] rows@[a])@,
                m as nat,
                (start + a * m) as nat,
            ) by {
                if a < i {
                    assert(row_at(before[a]@, m as nat, (start + a * m) as nat));
                }
            }
        }
        i += 1;
    }
    rows
}

fn handle(h: &Handles, var: Var, Ghost(sizes): Ghost<(nat, nat, nat)>) -> (r: good_lp::Variable)
    requires
        h.cover(sizes.0, sizes.1, sizes.2),
        var_in(var, sizes.0 as int, sizes.1 as int, sizes.2 as int),
    ensures
        variable_position(r) == var_position(var, sizes.0, sizes.1, sizes.2),
{
    match var {
        Var::X { schueler, projekt } => {
            assert(row_at(h.x@[schueler as int]@, sizes.1, (0 + schueler * sizes.1) as nat));
            h.x[schueler][projekt]
        },
        Var::W { paar, projekt } => {
            assert(row_at(h.w@[paar as int]@, sizes.1, (sizes.0 * sizes.1 + paar * sizes.1) as nat));
            h.w[paar][projekt]
        },
        Var::Same { paar } => h.same[paar],
    }
}

fn expression(terms: &Vec<Term>, h: &Handles, Ghost(sizes): Ghost<(nat, nat, nat)>) -> (r:
    good_lp::Expression)
    requires
        h.cover(sizes.0, sizes.1, sizes.2),
        terms_in(terms@, sizes.0 as int, sizes.1 as int, sizes.2 as int),
        light(terms@),
    ensures
        expression_terms(r) == coefficients(terms@, sizes.0, sizes.1, sizes.2),
        terms_below(expression_terms(r), var_count(sizes.0, sizes.1, sizes.2)),
{
    let mut e = new_expression();
    let mut t: usize = 0;
    assert(terms@.take(0).len() == 0);
    while t < terms.len()
        invariant
            t <= terms.len(),
            h.cover(sizes.0, sizes.1, sizes.2),
            terms_in(terms@, sizes.0 as int, sizes.1 as int, sizes.2 as int),
            light(terms@),
            expression_terms(e) == coefficients(terms@.take(t as int), sizes.0, sizes.1, sizes.2),
            terms_below(expression_terms(e), var_count(sizes.0, sizes.1, sizes.2)),
            within(expression_terms(e), weight(terms@.take(t as int))),
        decreases terms.len() - t,
    {
        let term = terms[t];
        proof {
            assert(var_in(terms@[t as int].var, sizes.0 as int, sizes.1 as int, sizes.2 as int));
            lemma_var_position(term.var, sizes.0, sizes.1, sizes.2);
            assert(terms@.take(t + 1).drop_last() =~= terms@.take(t as int));
            assert(terms@.take(t + 1).last() == term);
            lemma_weight_take(terms@, t + 1);
            assert(weight(terms@.take(t + 1)) == weight(terms@.take(t as int)) + magnitude(
                term.coeff,
            ));
        }
        let v = handle(h, term.var, Ghost(sizes));
        add_term(&mut e, term.coeff, v);
        t += 1;
    }
    assert(terms@.take(t as int) =~= terms@);
    e
}

/// Hands a program to the solver. What comes back is what the solver answers
/// to the program, term by term: the table of the values that it gives the
/// `X`, or an error where it gives no solution.
pub(crate) fn solve_model(model: &Model) -> (r: Result<Vec<Vec<bool>>, SolveError>)
    requires
        model.wf(),
        model.light(),
    ensures
        answers(*model, r),
{
    let n = model.schueler;
    let m = model.projekte;
    let k = model.paare;
    let ghost sizes = (n as nat, m as nat, k as nat);
    let mut vars = new_variables();
    let x = new_table(&mut vars, n, m);
    let w = new_table(&mut vars, k, m);
    let same = new_row(&mut vars, k);
    let ghost total = var_count(sizes.0, sizes.1, sizes.2);
    let h = Handles { x, w, same };
    assert(h.cover(sizes.0, sizes.1, sizes.2));
    assert(variables_len(vars) == total);
    let objective = expression(&model.objective, &h, Ghost(sizes));
    let mut pb = maximise(vars, objective);
    let mut t: usize = 0;
    assert(problem_rows(pb) =~= rows_of(
        views(model.constraints@.take(0)),
        sizes.0,
        sizes.1,
        sizes.2,
    ));
    while t < model.constraints.len()
        invariant
            t <= model.constraints.len(),
            h.cover(sizes.0, sizes.1, sizes.2),
            model.wf(),
            model.light(),
            sizes == (model.schueler as nat, model.projekte as nat, model.paare as nat),
            total == var_count(sizes.0, sizes.1, sizes.2),
            problem_len(pb) == total,
            problem_objective(pb) == dense(
                coefficients(model.objective@, sizes.0, sizes.1, sizes.2),
                total,
            ),
            problem_rows(pb) == rows_of(
                views(model.constraints@.take(t as int)),
                sizes.0,
                sizes.1,
                sizes.2,
            ),
        decreases model.constraints.len() - t,
    {
        let c = &model.constraints[t];
        assert(terms_in(
            model.constraints@[t as int].terms@,
            sizes.0 as int,
            sizes.1 as int,
            sizes.2 as int,
        ));
        let e = expression(&c.terms, &h, Ghost(sizes));
        let made = match c.relation {
            Relation::Le => at_most(e, c.rhs),
            Relation::Ge => at_least(e, c.rhs),
            Relation::Eq => exactly(e, c.rhs),
        };
        assert(light(model.constraints@[t as int].terms@));
        assert(constraint_row(made) == row_of(view_of(*c), sizes.0, sizes.1, sizes.2));
        add_constraint(&mut pb, made);
        assert(problem_rows(pb) =~= rows_of(
            views(model.constraints@.take(t + 1)),
            sizes.0,
            sizes.1,
            sizes.2,
        ));
        t += 1;
    }
    assert(model.constraints@.take(t as int) =~= model.constraints@);
    match run(pb) {
        Err(e) => Err(error_of(e)),
        Ok(sol) => {
            let ghost bits = solution_bits(sol);
            let mut values: Vec<Vec<u64>> = Vec::new();
            let mut i: usize = 0;
            while i < n
                invariant
                    i <= n,
                    n == sizes.0,
                    m == sizes.1,
                    h.cover(sizes.0, sizes.1, sizes.2),
                    bits == solution_bits(sol),
                    bits.len() == var_count(sizes.0, sizes.1, sizes.2),
                    values@.len() == i,
                    forall|a: int| 0 <= a < i ==> (#[trigger] values@[a])@.len() == m,
                    forall|a: int, b: int|
                        0 <= a < i && 0 <= b < m ==> #[trigger] values@[a]@[b] == bits[a * m + b],
                decreases n - i,
            {
                let mut row: Vec<u64> = Vec::new();
                let mut j: usize = 0;
                while j < m
                    invariant
                        j <= m,
                        i < n,
                        n == sizes.0,
                        m == sizes.1,
                        h.cover(sizes.0, sizes.1, sizes.2),
                        bits == solution_bits(sol),
                        bits.len() == var_count(sizes.0, sizes.1, sizes.2),
                        row@.len() == j,
                        forall|b: int| 0 <= b < j ==> #[trigger] row@[b] == bits[i * m + b],
                    decreases m - j,
                {
                    proof {
                        assert(row_at(h.x@[i as int]@, sizes.1, (0 + i * sizes.1) as nat));
                        lemma_var_position(
                            Var::X { schueler: i, projekt: j },
                            sizes.0,
                            sizes.1,
                            sizes.2,
                        );
                    }
                    row.push(value_bits(&sol, h.x[i][j]));
                    j += 1;
                }
                values.push(row);
                i += 1;
            }
            let table = table_of_values(&values);
            assert(is_answer_table(bits, table@, sizes.0, sizes.1));
            Ok(table)
        },
    }
}

/// Whether `x` is the table that the values `values` stand for: it has their
/// shape, and an entry says yes exactly where the value is the bits of a
/// double above one half.
pub open spec fn is_table_of(values: Seq<Vec<u64>>, x: Seq<Vec<bool>>) -> bool {
    &&& x.len() == values.len()
    &&& forall|i: int| 0 <= i < values.len() ==> (#[trigger] x[i])@.len() == values[i]@.len()
    &&& forall|i: int, j: int|
        0 <= i < values.len() && 0 <= j < values[i]@.len() ==> #[trigger] x[i]@[j] == above_half(
            values[i]@[j],
        )
}

/// Turns the values that the solver gave the `X` into a table of yes and no.
pub fn table_of_values(values: &Vec<Vec<u64>>) -> (x: Vec<Vec<bool>>)
    ensures
        is_table_of(values@, x@),
{
    let mut rows: Vec<Vec<bool>> = Vec::new();
    let mut i: usize = 0;
    while i < values.len()
        invariant
            i <= values.len(),
            rows@.len() == i,
            forall|a: int| 0 <= a < i ==> (#[trigger] rows@[a])@.len() == values@[a]@.len(),
            forall|a: int, b: int|
                0 <= a < i && 0 <= b < values@[a]@.len() ==> #[trigger] rows@[a]@[b] == above_half(
                    values@[a]@[b],
                ),
        decreases values.len() - i,
    {
        let mut row: Vec<bool> = Vec::new();
        let mut j: usize = 0;
        while j < values[i].len()
            invariant
                i < values.len(),
                j <= values@[i as int]@.len(),
                row@.len() == j,
                forall|b: int| 0 <= b < j ==> #[trigger] row@[b] == above_half(values@[i as int]@[b]),
            decreases values@[i as int]@.len() - j,
        {
            row.push(is_above_half(values[i][j]));
            j += 1;
        }
        rows.push(row);
        i += 1;
    }
    rows
}

} // verus!
