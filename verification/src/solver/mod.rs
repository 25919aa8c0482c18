//! The assignment as an integer program.

pub mod auswertung;
pub mod backend;
pub mod formulate;
pub mod laws;
pub mod lineup;
pub mod model;
pub mod problem;
pub mod program;
pub mod pruefung;
pub mod terms;

use crate::data::Projekt;
use crate::solver::backend::is_answer_table;
use crate::solver::backend::program_answer;
use crate::solver::backend::program_failure;
use crate::solver::backend::solve_model;
use crate::solver::backend::SolveError;
use crate::solver::formulate::formulate;
use crate::solver::problem::Problem;
use crate::solver::formulate::problem_of;
use crate::solver::pruefung::check_assignment;
use crate::solver::pruefung::is_local_optimum;
use crate::solver::pruefung::locally_optimal;
use crate::solver::pruefung::valid_assignment;
use crate::types::ProjektId;
use crate::types::SaveFileSchueler;
use std::collections::BTreeMap;
use vstd::prelude::*;

verus! {

/// Whether `x` has a row for each of `n` students with an entry for each of
/// `m` projects.
pub open spec fn is_matrix(x: Seq<Vec<bool>>, n: int, m: int) -> bool {
    &&& x.len() == n
    &&& forall|i: int| 0 <= i < n ==> (#[trigger] x[i])@.len() == m
}

/// Whether `r` is what solving the problem `p` comes to: what the solver
/// answers to the program of the problem, as a table, or the solver's error
/// where it gives no solution.
pub open spec fn solved(p: Problem, r: Result<Vec<Vec<bool>>, SolveError>) -> bool {
    match r {
        Ok(x) => program_answer(
            p.n() as nat,
            p.m() as nat,
            p.pairs().len(),
            p.objective(),
            p.rows(),
        ) matches Some(bits) && is_answer_table(bits, x@, p.n() as nat, p.m() as nat),
        Err(e) => program_answer(
            p.n() as nat,
            p.m() as nat,
            p.pairs().len(),
            p.objective(),
            p.rows(),
        ) is None && e.content() == program_failure(
            p.n() as nat,
            p.m() as nat,
            p.pairs().len(),
            p.objective(),
            p.rows(),
        ),
    }
}

/// Whether `r` is what is handed on of the outcome `outcome` of the solver:
/// its error as it is, its table where the table is a valid assignment of
/// `p` that no move of one student betters, and `SolveError::Other` where it
/// is not.
pub open spec fn keeps(
    p: Problem,
    outcome: Result<Vec<Vec<bool>>, SolveError>,
    r: Result<Vec<Vec<bool>>, SolveError>,
) -> bool {
    match outcome {
        Ok(x) => if !valid_assignment(p, x@) {
            r matches Err(SolveError::Other(why)) && why@ == "the solver gave no valid assignment"@
        } else if !locally_optimal(p, x@) {
            r matches Err(SolveError::Other(why)) && why@ == "the solver gave no best assignment"@
        } else {
            r == Ok::<Vec<Vec<bool>>, SolveError>(x)
        },
        Err(e) => r == Err::<Vec<Vec<bool>>, SolveError>(e),
    }
}

/// Whether `r` is what solving the problem `p` and keeping only a valid
/// assignment that no move of one student betters comes to.
pub open spec fn solved_and_kept(p: Problem, r: Result<Vec<Vec<bool>>, SolveError>) -> bool {
    exists|outcome: Result<Vec<Vec<bool>>, SolveError>| #[trigger]
        solved(p, outcome) && keeps(p, outcome, r)
}

/// Assigns the students to the projects.
///
/// The assignment is written as the integer program of `formulate` and handed
/// to the solver, which is asked for a point of the greatest objective. Row
/// `i` of what comes back belongs to the student with the `i`-th smallest
/// key, its entry `j` to the project with the `j`-th smallest key; the entry
/// says whether the solver put the student in the project. Where the solver
/// finds no solution, its error is handed on.
pub fn solve_good_lp(
    projects: &BTreeMap<u32, Projekt>,
    students: &BTreeMap<u128, SaveFileSchueler>,
    feste_zuordnung: &BTreeMap<u128, ProjektId>,
) -> (r: Result<Vec<Vec<bool>>, SolveError>)
    requires
        students@.dom().len() <= i32::MAX,
    ensures
        solved(problem_of(projects@, students@, feste_zuordnung@), r),
        r matches Ok(x) ==> is_matrix(
            x@,
            problem_of(projects@, students@, feste_zuordnung@).n(),
            problem_of(projects@, students@, feste_zuordnung@).m(),
        ),
{
    let model = formulate(projects, students, feste_zuordnung);
    solve_model(&model)
}

/// Assigns the students to the projects and hands the assignment on only if
/// it is valid and no move of one student to another project betters it.
///
/// The solver is trusted with neither here: what it gives is checked against
/// the problem, and where it does not hold up, `SolveError::Other` is
/// returned in its place.
pub fn solve_checked(
    projects: &BTreeMap<u32, Projekt>,
    students: &BTreeMap<u128, SaveFileSchueler>,
    feste_zuordnung: &BTreeMap<u128, ProjektId>,
) -> (r: Result<Vec<Vec<bool>>, SolveError>)
    requires
        students@.dom().len() <= i32::MAX,
    ensures
        solved_and_kept(problem_of(projects@, students@, feste_zuordnung@), r),
        r matches Ok(x) ==> valid_assignment(
            problem_of(projects@, students@, feste_zuordnung@),
            x@,
        ),
        r matches Ok(x) ==> locally_optimal(
            problem_of(projects@, students@, feste_zuordnung@),
            x@,
        ),
{
    let outcome = solve_good_lp(projects, students, feste_zuordnung);
    let ghost given = outcome;
    let r = keep_valid(projects, students, feste_zuordnung, outcome);
    assert(solved(problem_of(projects@, students@, feste_zuordnung@), given) && keeps(
        problem_of(projects@, students@, feste_zuordnung@),
        given,
        r,
    ));
    r
}

/// What is handed on of what the solver gave: its error as it is, its table
/// where the table is a valid assignment that no move of one student
/// betters, and `SolveError::Other` where it is not.
pub fn keep_valid(
    projects: &BTreeMap<u32, Projekt>,
    students: &BTreeMap<u128, SaveFileSchueler>,
    feste_zuordnung: &BTreeMap<u128, ProjektId>,
    outcome: Result<Vec<Vec<bool>>, SolveError>,
) -> (r: Result<Vec<Vec<bool>>, SolveError>)
    ensures
        keeps(problem_of(projects@, students@, feste_zuordnung@), outcome, r),
{
    match outcome {
        Err(e) => Err(e),
        Ok(x) => {
            if !check_assignment(projects, students, feste_zuordnung, &x) {
                Err(SolveError::Other(String::from_str("the solver gave no valid assignment")))
            } else if !is_local_optimum(projects, students, feste_zuordnung, &x) {
                Err(SolveError::Other(String::from_str("the solver gave no best assignment")))
            } else {
                Ok(x)
            }
        },
    }
}

} // verus!
