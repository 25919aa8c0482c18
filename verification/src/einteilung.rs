//! The assignment of a project week from start to end, and changes made to
//! it by hand.

use crate::data::Data;
use crate::data::Projekt;
use crate::keys::project_keys;
use crate::partner::match_all_partner;
use crate::partner::with_partners;
use crate::solver::auswertung::chosen_projects;
use crate::solver::auswertung::diagnose;
use crate::solver::auswertung::projects_of;
use crate::solver::auswertung::records;
use crate::solver::auswertung::records_of;
use crate::solver::auswertung::Diagnostics;
use crate::solver::backend::SolveError;
use crate::solver::formulate::problem_of;
use crate::solver::is_matrix;
use crate::solver::lineup::lineup;
use crate::solver::pruefung::has_shape;
use crate::solver::problem::Problem;
use crate::solver::pruefung::locally_optimal;
use crate::solver::pruefung::valid_assignment;
use crate::solver::solve_checked;
use crate::solver::solved_and_kept;
use crate::types::ProjektId;
use crate::types::SaveFileProjekt;
use crate::types::SaveFileSchueler;
use crate::types::SaveFileZuordnung;
use crate::types::SchuelerId;
use std::collections::BTreeMap;
use vstd::prelude::*;
use vstd::std_specs::convert::FromSpec;

verus! {

/// A solved assignment: one record for each student, and its numbers.
#[derive(Clone, PartialEq, Eq, Debug)]
pub struct Ergebnis {
    pub zuordnung: Vec<SaveFileZuordnung>,
    pub diagnostics: Diagnostics,
}

impl Ergebnis {
    /// Whether this is what the solved assignment `x` of the problem `p`
    /// comes to.
    pub open spec fn reads(self, p: Problem, x: Seq<Vec<bool>>) -> bool {
        &&& self.zuordnung@ == records_of(p.sids(), p.pids(), projects_of(x))
        &&& self.diagnostics.describes(p, projects_of(x))
    }
}

/// The stored projects as the solver reads them.
pub open spec fn solver_projects(saved: Map<u32, SaveFileProjekt>) -> Map<u32, Projekt> {
    Map::new(|id: u32| saved.contains_key(id), |id: u32| Projekt::from_spec(saved[id]))
}

/// Turns the stored projects into the projects that the solver reads.
pub fn to_solver_projects(saved: &BTreeMap<u32, SaveFileProjekt>) -> (r: BTreeMap<u32, Projekt>)
    ensures
        r@ == solver_projects(saved@),
{
    let ids = project_keys(saved);
    let mut out: BTreeMap<u32, Projekt> = BTreeMap::new();
    let mut j: usize = 0;
    while j < ids.len()
        invariant
            j <= ids.len(),
            ids@.to_set() == saved@.dom(),
            out@.dom() == ids@.take(j as int).to_set(),
            forall|id: u32| out@.contains_key(id) ==> out@[id] == Projekt::from_spec(saved@[id]),
        decreases ids.len() - j,
    {
        let id: u32 = ids[j];
        assert(ids@.to_set().contains(ids@[j as int]));
        match saved.get(&id) {
            Some(s) => {
                out.insert(id, Projekt::from(s.clone()));
            },
            None => {
                assert(false);
            },
        }
        proof {
            assert(ids@.take(j + 1) =~= ids@.take(j as int).push(id));
            ids@.take(j as int).lemma_push_to_set_commute(id);
        }
        j += 1;
    }
    assert(ids@.take(j as int) =~= ids@);
    assert(out@ =~= solver_projects(saved@));
    out
}

/// Reads a solved assignment: the record of each student and the numbers of
/// the assignment. `None` where the table has not the size of the problem or
/// there are more students than 32 bits can number.
pub fn auswerten(
    projects: &BTreeMap<u32, Projekt>,
    students: &BTreeMap<u128, SaveFileSchueler>,
    x: &Vec<Vec<bool>>,
) -> (r: Option<Ergebnis>)
    ensures
        match r {
            Some(res) => readable(problem_of(projects@, students@, Map::empty()), x@) && res.reads(
                problem_of(projects@, students@, Map::empty()),
                x@,
            ),
            None => !readable(problem_of(projects@, students@, Map::empty()), x@),
        },
{
    let ghost p = problem_of(projects@, students@, Map::empty());
    let l = lineup(projects, students, Ghost(p));
    if l.sids.len() > 0xffff_ffff || !has_shape(x, l.sids.len(), l.pids.len()) {
        return None;
    }
    let chosen = chosen_projects(x);
    let zuordnung = records(&l.sids, &l.pids, &chosen);
    let diagnostics = diagnose(&l, students, &chosen, Ghost(p));
    Some(Ergebnis { zuordnung, diagnostics })
}

/// Whether the table `x` can be read as an assignment of the problem `p`: it
/// has the size of the problem, and the students can be numbered with 32
/// bits.
pub open spec fn readable(p: Problem, x: Seq<Vec<bool>>) -> bool {
    &&& p.n() <= u32::MAX
    &&& is_matrix(x, p.n(), p.m())
}

/// The problem that a project week poses: its projects, its students with
/// their partner wishes resolved, and nothing fixed beforehand.
pub open spec fn task_of(data: Data) -> Problem {
    problem_of(solver_projects(data.projekte@), with_partners(data.schueler@), Map::empty())
}

/// Whether `r` is what the outcome `outcome` of the solver comes to for the
/// problem `p`: its error as it is, the records and numbers of its table
/// where the table can be read, and `SolveError::Other` where it cannot.
pub open spec fn reads_outcome(
    p: Problem,
    outcome: Result<Vec<Vec<bool>>, SolveError>,
    r: Result<Ergebnis, SolveError>,
) -> bool {
    match outcome {
        Ok(x) => if readable(p, x@) {
            r matches Ok(res) && res.reads(p, x@)
        } else {
            r matches Err(SolveError::Other(why)) && why@
                == "the table has not the size of the problem"@
        },
        Err(e) => r == Err::<Ergebnis, SolveError>(e),
    }
}

/// Whether `zuordnung` holds one record for each student of `p` in the order
/// of the keys, numbered from zero, with no project exactly for the students
/// who take no part and a project of `p` for every other.
pub open spec fn records_cover(p: Problem, zuordnung: Seq<SaveFileZuordnung>) -> bool {
    &&& zuordnung.len() == p.n()
    &&& forall|k: int|
        0 <= k < p.n() ==> {
            &&& (#[trigger] zuordnung[k]).id == k
            &&& zuordnung[k].schueler == SchuelerId(p.sids()[k])
            &&& zuordnung[k].projekt is None <==> p.student(k).ignore
            &&& zuordnung[k].projekt matches Some(q) ==> p.projects.contains_key(q.0)
        }
}

/// The records of a valid assignment hold one record for each student, with a
/// project exactly for the students who take part.
pub proof fn lemma_records_of_valid(p: Problem, x: Seq<Vec<bool>>)
    requires
        p.students.dom().finite(),
        p.projects.dom().finite(),
        p.n() <= u32::MAX,
        valid_assignment(p, x),
    ensures
        records_cover(p, records_of(p.sids(), p.pids(), projects_of(x))),
{
    let z = records_of(p.sids(), p.pids(), projects_of(x));
    crate::keys::lemma_project_order(p.projects.dom());
    assert forall|k: int| 0 <= k < p.n() implies {
        &&& (#[trigger] z[k]).id == k
        &&& z[k].schueler == SchuelerId(p.sids()[k])
        &&& z[k].projekt is None <==> p.student(k).ignore
        &&& z[k].projekt matches Some(q) ==> p.projects.contains_key(q.0)
    } by {
        let at = crate::solver::pruefung::lemma_table_one_project_each(p, x, k);
        crate::solver::problem::lemma_position_of(x[k]@, true);
        if p.student(k).ignore {
            if x[k]@.contains(true) {
                let j = choose|j: int| 0 <= j < x[k]@.len() && x[k]@[j] == true;
                assert(!x[k]@[j]);
            }
        } else {
            assert(x[k]@[at]);
            assert(x[k]@.contains(true));
            let j = crate::solver::problem::position_of(x[k]@, true)->0;
            assert(0 <= j < p.m());
            assert(p.pids().to_set().contains(p.pids()[j]));
        }
    }
}

/// Whether `r` is what a project week comes to: the problem is solved, only a
/// valid assignment is kept, and what is kept is read.
pub open spec fn task_done(p: Problem, r: Result<Ergebnis, SolveError>) -> bool {
    exists|outcome: Result<Vec<Vec<bool>>, SolveError>| #[trigger]
        solved_and_kept(p, outcome) && reads_outcome(p, outcome, r)
}

/// Assigns the students of a project week to its projects.
///
/// The partner wishes are resolved first. Then the assignment is solved with
/// nothing fixed beforehand, what the solver gives is checked, and the
/// assignment is read as records and numbers. Where the solver finds no
/// solution, its error is handed on; what comes back otherwise is a valid
/// assignment that no move of one student to another project betters.
pub fn solve_task(data: Data) -> (r: Result<Ergebnis, SolveError>)
    requires
        data.schueler@.dom().len() <= i32::MAX,
    ensures
        task_done(task_of(data), r),
        r matches Ok(res) ==> exists|x: Seq<Vec<bool>>|
            valid_assignment(task_of(data), x) && locally_optimal(task_of(data), x)
                && #[trigger] res.reads(task_of(data), x),
        r matches Ok(res) ==> records_cover(task_of(data), res.zuordnung@),
{
    let feste_zuordnung: BTreeMap<u128, ProjektId> = BTreeMap::new();
    let projekte = to_solver_projects(&data.projekte);
    let schueler = match_all_partner(&data.schueler);
    assert(schueler@.dom() =~= data.schueler@.dom());
    let solved = solve_checked(&projekte, &schueler, &feste_zuordnung);
    let ghost kept = solved;
    let ghost table = if solved is Ok {
        solved->Ok_0@
    } else {
        Seq::empty()
    };
    proof {
        assert(feste_zuordnung@ =~= Map::<u128, ProjektId>::empty());
        assert(problem_of(projekte@, schueler@, feste_zuordnung@) == task_of(data));
        crate::keys::lemma_student_order(schueler@.dom());
    }
    let r = read_outcome(&projekte, &schueler, solved);
    proof {
        if r is Ok {
            assert(r->Ok_0.reads(task_of(data), table));
            crate::keys::lemma_project_order(projekte@.dom());
            lemma_records_of_valid(task_of(data), table);
        }
        assert(solved_and_kept(task_of(data), kept) && reads_outcome(task_of(data), kept, r));
    }
    r
}

/// What a project week comes to once the solver has spoken: the solver's
/// error as it is, the records and numbers of its table where the table can
/// be read, and `SolveError::Other` where it cannot.
pub fn read_outcome(
    projects: &BTreeMap<u32, Projekt>,
    students: &BTreeMap<u128, SaveFileSchueler>,
    outcome: Result<Vec<Vec<bool>>, SolveError>,
) -> (r: Result<Ergebnis, SolveError>)
    ensures
        reads_outcome(problem_of(projects@, students@, Map::empty()), outcome, r),
{
    match outcome {
        Err(e) => Err(e),
        Ok(x) => match auswerten(projects, students, &x) {
            Some(res) => Ok(res),
            None => Err(
                SolveError::Other(String::from_str("the table has not the size of the problem")),
            ),
        },
    }
}

/// A change to an assignment.
#[derive(Clone, Copy, PartialEq, Eq, Debug)]
pub enum Edit {
    /// The student gets the project `projekt_id`.
    Projekt { projekt_id: ProjektId },
}

/// The record `z` after the change `edit` for the student `schueler_id`.
pub open spec fn edited(z: SaveFileZuordnung, schueler_id: SchuelerId, edit: Edit) -> SaveFileZuordnung {
    if z.schueler == schueler_id {
        match edit {
            Edit::Projekt { projekt_id } => SaveFileZuordnung { projekt: Some(projekt_id), ..z },
        }
    } else {
        z
    }
}

/// Changes every record of the student `schueler_id` as `edit` says.
pub fn edit_zuordnung(zuordnung: &mut Vec<SaveFileZuordnung>, schueler_id: SchuelerId, edit: Edit)
    ensures
        final(zuordnung)@ == old(zuordnung)@.map_values(
            |z: SaveFileZuordnung| edited(z, schueler_id, edit),
        ),
{
    let ghost before = zuordnung@;
    let mut i: usize = 0;
    while i < zuordnung.len()
        invariant
            i <= zuordnung.len(),
            zuordnung@.len() == before.len(),
            forall|t: int| 0 <= t < i ==> zuordnung@[t] == edited(before[t], schueler_id, edit),
            forall|t: int| i <= t < before.len() ==> zuordnung@[t] == before[t],
        decreases zuordnung.len() - i,
    {
        let z = zuordnung[i];
        if z.schueler.0 == schueler_id.0 {
            match edit {
                Edit::Projekt { projekt_id } => {
                    zuordnung.set(
                        i,
                        SaveFileZuordnung { id: z.id, schueler: z.schueler, projekt: Some(projekt_id) },
                    );
                },
            }
        }
        i += 1;
    }
    assert(zuordnung@ =~= before.map_values(|z: SaveFileZuordnung| edited(z, schueler_id, edit)));
}

} // verus!
