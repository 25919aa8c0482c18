//! The students and the projects of a problem, by position.

use crate::data::Projekt;
use crate::keys::project_keys;
use crate::keys::student_keys;
use crate::solver::problem::is_first_position;
use crate::solver::problem::lemma_position_of;
use crate::solver::problem::position_of;
use crate::solver::problem::Problem;
use crate::types::projekt_id::KEIN_PROJEKT;
use crate::types::ProjektId;
use crate::types::SaveFileSchueler;
use std::collections::BTreeMap;
use vstd::prelude::*;

verus! {

/// The keys and the records of the students and of the projects, each in the
/// order of the keys.
pub struct Lineup<'a> {
    pub sids: Vec<u128>,
    pub pids: Vec<u32>,
    pub schueler: Vec<&'a SaveFileSchueler>,
    pub projekte: Vec<&'a Projekt>,
}

impl<'a> Lineup<'a> {
    /// Whether this is the line-up of the problem `p`.
    pub open spec fn of(self, p: Problem) -> bool {
        &&& p.students.dom().finite()
        &&& p.projects.dom().finite()
        &&& self.sids@ == p.sids()
        &&& self.pids@ == p.pids()
        &&& self.sids@.no_duplicates()
        &&& self.pids@.no_duplicates()
        &&& self.sids@.to_set() == p.students.dom()
        &&& self.pids@.to_set() == p.projects.dom()
        &&& self.sids@.len() == p.students.dom().len()
        &&& self.pids@.len() == p.projects.dom().len()
        &&& self.schueler@.len() == self.sids@.len()
        &&& self.projekte@.len() == self.pids@.len()
        &&& forall|i: int| 0 <= i < self.sids@.len() ==> *(#[trigger] self.schueler@[i]) == p.student(i)
        &&& forall|j: int|
            0 <= j < self.pids@.len() ==> *(#[trigger] self.projekte@[j]) == p.project(j)
    }
}

/// Lines up the students and the projects.
pub(crate) fn lineup<'a>(
    projects: &'a BTreeMap<u32, Projekt>,
    students: &'a BTreeMap<u128, SaveFileSchueler>,
    Ghost(p): Ghost<Problem>,
) -> (r: Lineup<'a>)
    requires
        p.projects == projects@,
        p.students == students@,
    ensures
        r.of(p),
{
    let sids = student_keys(students);
    let pids = project_keys(projects);
    let mut schueler: Vec<&'a SaveFileSchueler> = Vec::new();
    let mut i: usize = 0;
    while i < sids.len()
        invariant
            i <= sids.len(),
            sids@ == p.sids(),
            sids@.to_set() == students@.dom(),
            p.students == students@,
            schueler@.len() == i,
            forall|t: int| 0 <= t < i ==> *(#[trigger] schueler@[t]) == p.student(t),
        decreases sids.len() - i,
    {
        let id: u128 = sids[i];
        assert(sids@.to_set().contains(sids@[i as int]));
        match students.get(&id) {
            Some(s) => {
                schueler.push(s);
            },
            None => {
                assert(false);
            },
        }
        i += 1;
    }
    let mut projekte: Vec<&'a Projekt> = Vec::new();
    let mut j: usize = 0;
    while j < pids.len()
        invariant
            j <= pids.len(),
            pids@ == p.pids(),
            pids@.to_set() == projects@.dom(),
            p.projects == projects@,
            projekte@.len() == j,
            forall|t: int| 0 <= t < j ==> *(#[trigger] projekte@[t]) == p.project(t),
        decreases pids.len() - j,
    {
        let id: u32 = pids[j];
        assert(pids@.to_set().contains(pids@[j as int]));
        match projects.get(&id) {
            Some(q) => {
                projekte.push(q);
            },
            None => {
                assert(false);
            },
        }
        j += 1;
    }
    Lineup { sids, pids, schueler, projekte }
}

/// The first position of `v` that holds `key`.
pub fn position_u32(v: &Vec<u32>, key: u32) -> (r: Option<usize>)
    ensures
        match r {
            Some(i) => position_of(v@, key) == Some(i as int) && i < v.len() && v@[i as int]
                == key,
            None => position_of(v@, key) is None && !v@.contains(key),
        },
{
    let mut i: usize = 0;
    while i < v.len()
        invariant
            i <= v.len(),
            forall|t: int| 0 <= t < i ==> v@[t] != key,
        decreases v.len() - i,
    {
        if v[i] == key {
            proof {
                assert(is_first_position(v@, key, i as int));
                lemma_position_of(v@, key);
            }
            return Some(i);
        }
        i += 1;
    }
    proof {
        lemma_position_of(v@, key);
    }
    None
}

/// The first position of `v` that holds `key`.
pub fn position_u128(v: &Vec<u128>, key: u128) -> (r: Option<usize>)
    ensures
        match r {
            Some(i) => position_of(v@, key) == Some(i as int) && i < v.len() && v@[i as int]
                == key,
            None => position_of(v@, key) is None && !v@.contains(key),
        },
{
    let mut i: usize = 0;
    while i < v.len()
        invariant
            i <= v.len(),
            forall|t: int| 0 <= t < i ==> v@[t] != key,
        decreases v.len() - i,
    {
        if v[i] == key {
            proof {
                assert(is_first_position(v@, key, i as int));
                lemma_position_of(v@, key);
            }
            return Some(i);
        }
        i += 1;
    }
    proof {
        lemma_position_of(v@, key);
    }
    None
}

/// The position of the project `id` among the projects `pids`, unless `id`
/// stands for "no project".
pub fn project_index(pids: &Vec<u32>, id: ProjektId) -> (r: Option<usize>)
    ensures
        match r {
            Some(j) => j < pids.len() && id.0 != KEIN_PROJEKT && position_of(pids@, id.0) == Some(
                j as int,
            ),
            None => id.0 == KEIN_PROJEKT || position_of(pids@, id.0) is None,
        },
{
    if id.0 == KEIN_PROJEKT {
        None
    } else {
        position_u32(pids, id.0)
    }
}

} // verus!
