//! Reading a solved assignment: who got which project, and how well the
//! wishes were met.

use crate::solver::lineup::position_u128;
use crate::solver::lineup::project_index;
use crate::solver::lineup::Lineup;
use crate::solver::problem::is_first_position;
use crate::solver::problem::lemma_position_of;
use crate::solver::problem::position_of;
use crate::solver::problem::Problem;
use crate::types::ProjektId;
use crate::types::SaveFileSchueler;
use crate::types::SaveFileZuordnung;
use crate::types::SchuelerId;
use std::collections::BTreeMap;
use vstd::prelude::*;

verus! {

/// The number of positions below `upto` at which `f` holds.
pub open spec fn count_upto(f: spec_fn(int) -> bool, upto: int) -> nat
    decreases upto,
{
    if upto <= 0 {
        0
    } else if f(upto - 1) {
        count_upto(f, upto - 1) + 1
    } else {
        count_upto(f, upto - 1)
    }
}

/// The project that a row of a solved assignment gives its student: the first
/// position that holds `true`.
pub open spec fn project_of_row(row: Seq<bool>) -> Option<usize> {
    match position_of(row, true) {
        Some(j) => Some(j as usize),
        None => None,
    }
}

/// The project of each student of a solved assignment.
pub open spec fn projects_of(x: Seq<Vec<bool>>) -> Seq<Option<usize>> {
    x.map_values(|row: Vec<bool>| project_of_row(row@))
}

/// Finds the first `true` of a row.
pub fn first_true(row: &Vec<bool>) -> (r: Option<usize>)
    ensures
        r == project_of_row(row@),
        r matches Some(j) ==> j < row.len() && row@[j as int],
{
    let mut j: usize = 0;
    while j < row.len()
        invariant
            j <= row.len(),
            forall|t: int| 0 <= t < j ==> !row@[t],
        decreases row.len() - j,
    {
        if row[j] {
            proof {
                assert(is_first_position(row@, true, j as int));
                lemma_position_of(row@, true);
            }
            return Some(j);
        }
        j += 1;
    }
    proof {
        lemma_position_of(row@, true);
        if row@.contains(true) {
            let t = choose|t: int| 0 <= t < row@.len() && row@[t] == true;
            assert(!row@[t]);
        }
    }
    None
}

/// Reads the project of each student off a solved assignment.
pub fn chosen_projects(x: &Vec<Vec<bool>>) -> (r: Vec<Option<usize>>)
    ensures
        r@ == projects_of(x@),
        forall|i: int|
            0 <= i < r@.len() ==> ((#[trigger] r@[i]) matches Some(j) ==> j < x@[i]@.len()),
{
    let mut out: Vec<Option<usize>> = Vec::new();
    let mut i: usize = 0;
    while i < x.len()
        invariant
            i <= x.len(),
            out@.len() == i,
            forall|t: int| 0 <= t < i ==> #[trigger] out@[t] == project_of_row(x@[t]@),
            forall|t: int| 0 <= t < i ==> ((#[trigger] out@[t]) matches Some(j) ==> j < x@[t]@.len()),
        decreases x.len() - i,
    {
        out.push(first_true(&x[i]));
        i += 1;
    }
    assert(out@ =~= projects_of(x@));
    out
}

impl Problem {
    /// The smallest rank from `from` on at which the wishes `w` name the
    /// project at position `j`.
    pub open spec fn rank_from(self, w: [ProjektId; 5], j: int, from: int) -> Option<int>
        decreases 5 - from,
    {
        if from < 0 || from >= 5 {
            None
        } else if self.project_index(w[from]) == Some(j) {
            Some(from)
        } else {
            self.rank_from(w, j, from + 1)
        }
    }

    /// The rank of the wish that the student at position `i` got: the
    /// smallest rank at which the student's wishes name the student's project.
    /// `None` for a student who takes no part, has no wishes or no project, or
    /// got none of the wishes.
    pub open spec fn wish_rank(self, i: int, chosen: Seq<Option<usize>>) -> Option<int> {
        if self.student(i).ignore {
            None
        } else {
            match (self.student(i).wishes, chosen[i]) {
                (Some(w), Some(j)) => self.rank_from(w, j as int, 0),
                _ => None,
            }
        }
    }

    /// Whether the student at position `i` takes part and has wishes, but got
    /// none of them.
    pub open spec fn unwished(self, i: int, chosen: Seq<Option<usize>>) -> bool {
        &&& !self.student(i).ignore
        &&& self.student(i).wishes is Some
        &&& self.wish_rank(i, chosen) is None
    }

    /// Whether the student at position `i` names another student as partner
    /// who names the student back.
    pub open spec fn has_mutual_partner(self, i: int) -> bool {
        match self.student(i).partner {
            Some(q) => {
                &&& self.sids()[i] != q.0
                &&& self.students.contains_key(q.0)
                &&& self.students[q.0].partner == Some(SchuelerId(self.sids()[i]))
            },
            None => false,
        }
    }

    /// Whether the student at position `i` has a mutual partner and both got
    /// the same project.
    pub open spec fn with_partner(self, i: int, chosen: Seq<Option<usize>>) -> bool {
        &&& self.has_mutual_partner(i)
        &&& chosen[i] is Some
        &&& chosen[i] == chosen[self.partner_index(i)]
    }
}

/// What a solved assignment looks like in numbers.
#[derive(Clone, PartialEq, Eq, Debug)]
pub struct Diagnostics {
    /// For each project, by position, the number of students in it.
    pub project_loads: Vec<usize>,
    /// For each of the five ranks, the number of students who got their wish
    /// of that rank.
    pub wish_hist: Vec<usize>,
    /// The number of students who have wishes and got none of them.
    pub not_wished: usize,
    /// The number of students who share a project with their mutual partner.
    pub with_partner: usize,
}

impl Diagnostics {
    /// Whether these are the numbers of the assignment `chosen` of the problem
    /// `p`.
    pub open spec fn describes(self, p: Problem, chosen: Seq<Option<usize>>) -> bool {
        &&& self.project_loads@.len() == p.m()
        &&& forall|j: int|
            0 <= j < p.m() ==> #[trigger] self.project_loads@[j] == count_upto(
                |i: int| chosen[i] == Some(j as usize),
                p.n(),
            )
        &&& self.wish_hist@.len() == 5
        &&& forall|k: int|
            0 <= k < 5 ==> #[trigger] self.wish_hist@[k] == count_upto(
                |i: int| p.wish_rank(i, chosen) == Some(k),
                p.n(),
            )
        &&& self.not_wished == count_upto(|i: int| p.unwished(i, chosen), p.n())
        &&& self.with_partner == count_upto(|i: int| p.with_partner(i, chosen), p.n())
    }
}

/// Finds the rank of the wish of `w` that names the project at position `j`.
#[verifier::loop_isolation(false)]
pub(crate) fn rank_of(w: &[ProjektId; 5], j: usize, pids: &Vec<u32>, Ghost(p): Ghost<Problem>) -> (r:
    Option<usize>)
    requires
        pids@ == p.pids(),
    ensures
        match r {
            Some(k) => k < 5 && p.rank_from(*w, j as int, 0) == Some(k as int),
            None => p.rank_from(*w, j as int, 0) is None,
        },
{
    let mut k: usize = 0;
    while k < 5
        invariant
            k <= 5,
            p.rank_from(*w, j as int, 0) == p.rank_from(*w, j as int, k as int),
        decreases 5 - k,
    {
        let hit = match project_index(pids, w[k]) {
            Some(t) => t == j,
            None => false,
        };
        assert(hit <==> p.project_index(w[k as int]) == Some(j as int));
        if hit {
            return Some(k);
        }
        k += 1;
    }
    None
}

/// Counts the students in the project at position `j`.
#[verifier::loop_isolation(false)]
pub fn load_of(chosen: &Vec<Option<usize>>, j: usize) -> (r: usize)
    ensures
        r == count_upto(|i: int| chosen@[i] == Some(j), chosen@.len() as int),
{
    let ghost f = |i: int| chosen@[i] == Some(j);
    let mut count: usize = 0;
    let mut i: usize = 0;
    while i < chosen.len()
        invariant
            i <= chosen.len(),
            count <= i,
            count == count_upto(f, i as int),
        decreases chosen.len() - i,
    {
        let hit = match chosen[i] {
            Some(t) => t == j,
            None => false,
        };
        assert(hit == f(i as int));
        if hit {
            count += 1;
        }
        i += 1;
    }
    count
}

/// Whether the student at position `i` shares a project with a mutual
/// partner.
pub(crate) fn shares_with_partner(
    l: &Lineup,
    students: &BTreeMap<u128, SaveFileSchueler>,
    chosen: &Vec<Option<usize>>,
    i: usize,
    Ghost(p): Ghost<Problem>,
) -> (r: bool)
    requires
        l.of(p),
        p.students == students@,
        chosen@.len() == p.n(),
        i < p.n(),
    ensures
        r == p.with_partner(i as int, chosen@),
{
    let s = l.schueler[i];
    let id: u128 = l.sids[i];
    match s.partner {
        Some(q) => {
            if id == q.0 {
                return false;
            }
            match students.get(&q.0) {
                Some(t) => {
                    let mutual = match t.partner {
                        Some(back) => back.0 == id,
                        None => false,
                    };
                    if !mutual {
                        return false;
                    }
                    assert(l.sids@.to_set().contains(q.0));
                    match position_u128(&l.sids, q.0) {
                        Some(b) => {
                            assert(b == p.partner_index(i as int));
                            match (chosen[i], chosen[b]) {
                                (Some(mine), Some(theirs)) => mine == theirs,
                                _ => false,
                            }
                        },
                        None => false,
                    }
                },
                None => false,
            }
        },
        None => false,
    }
}

/// Works out the numbers of a solved assignment.
#[verifier::loop_isolation(false)]
pub(crate) fn diagnose(
    l: &Lineup,
    students: &BTreeMap<u128, SaveFileSchueler>,
    chosen: &Vec<Option<usize>>,
    Ghost(p): Ghost<Problem>,
) -> (r: Diagnostics)
    requires
        l.of(p),
        p.students == students@,
        chosen@.len() == p.n(),
    ensures
        r.describes(p, chosen@),
{
    let n = l.sids.len();
    let m = l.pids.len();
    let mut project_loads: Vec<usize> = Vec::new();
    let mut j: usize = 0;
    while j < m
        invariant
            j <= m,
            project_loads@.len() == j,
            forall|t: int|
                0 <= t < j ==> #[trigger] project_loads@[t] == count_upto(
                    |i: int| chosen@[i] == Some(t as usize),
                    p.n(),
                ),
        decreases m - j,
    {
        let c = load_of(chosen, j);
        project_loads.push(c);
        j += 1;
    }
    let mut wish_hist: Vec<usize> = Vec::new();
    let mut k: usize = 0;
    while k < 5
        invariant
            k <= 5,
            wish_hist@.len() == k,
            forall|t: int| 0 <= t < k ==> #[trigger] wish_hist@[t] == 0,
        decreases 5 - k,
    {
        wish_hist.push(0);
        k += 1;
    }
    let mut not_wished: usize = 0;
    let mut with_partner: usize = 0;
    let ghost f_unwished = |i: int| p.unwished(i, chosen@);
    let ghost f_partner = |i: int| p.with_partner(i, chosen@);
    let mut i: usize = 0;
    while i < n
        invariant
            i <= n,
            wish_hist@.len() == 5,
            forall|t: int|
                0 <= t < 5 ==> #[trigger] wish_hist@[t] == count_upto(
                    |a: int| p.wish_rank(a, chosen@) == Some(t),
                    i as int,
                ),
            forall|t: int| 0 <= t < 5 ==> #[trigger] wish_hist@[t] <= i,
            not_wished <= i,
            not_wished == count_upto(f_unwished, i as int),
            with_partner <= i,
            with_partner == count_upto(f_partner, i as int),
        decreases n - i,
    {
        let s = l.schueler[i];
        let mut rank: Option<usize> = None;
        if !s.ignore {
            match (&s.wishes, chosen[i]) {
                (Some(w), Some(t)) => {
                    rank = rank_of(w, t, &l.pids, Ghost(p));
                },
                _ => {},
            }
        }
        assert(match rank {
            Some(r) => p.wish_rank(i as int, chosen@) == Some(r as int),
            None => p.wish_rank(i as int, chosen@) is None,
        });
        match rank {
            Some(r) => {
                let old_count: usize = wish_hist[r];
                wish_hist.set(r, old_count + 1);
            },
            None => {
                if !s.ignore && s.wishes.is_some() {
                    not_wished += 1;
                }
            },
        }
        if shares_with_partner(l, students, chosen, i, Ghost(p)) {
            with_partner += 1;
        }
        i += 1;
    }
    Diagnostics { project_loads, wish_hist, not_wished, with_partner }
}

/// The records of a solved assignment: one for each student, numbered by the
/// student's position, with the student's key and the key of the student's
/// project.
pub open spec fn records_of(sids: Seq<u128>, pids: Seq<u32>, chosen: Seq<Option<usize>>) -> Seq<
    SaveFileZuordnung,
> {
    Seq::new(
        sids.len(),
        |i: int|
            SaveFileZuordnung {
                id: i as u32,
                schueler: SchuelerId(sids[i]),
                projekt: match chosen[i] {
                    Some(j) => Some(ProjektId(pids[j as int])),
                    None => None,
                },
            },
    )
}

/// Writes the records of a solved assignment.
pub(crate) fn records(sids: &Vec<u128>, pids: &Vec<u32>, chosen: &Vec<Option<usize>>) -> (r: Vec<
    SaveFileZuordnung,
>)
    requires
        sids@.len() <= u32::MAX,
        chosen@.len() == sids@.len(),
        forall|i: int|
            0 <= i < chosen@.len() ==> ((#[trigger] chosen@[i]) matches Some(j) ==> j
                < pids@.len()),
    ensures
        r@ == records_of(sids@, pids@, chosen@),
{
    let mut out: Vec<SaveFileZuordnung> = Vec::new();
    let mut i: usize = 0;
    while i < sids.len()
        invariant
            i <= sids.len(),
            sids@.len() <= u32::MAX,
            chosen@.len() == sids@.len(),
            forall|t: int|
                0 <= t < chosen@.len() ==> ((#[trigger] chosen@[t]) matches Some(j) ==> j
                    < pids@.len()),
            out@.len() == i,
            forall|t: int| 0 <= t < i ==> out@[t] == records_of(sids@, pids@, chosen@)[t],
        decreases sids.len() - i,
    {
        let projekt = match chosen[i] {
            Some(j) => Some(ProjektId(pids[j])),
            None => None,
        };
        out.push(SaveFileZuordnung { id: i as u32, schueler: SchuelerId(sids[i]), projekt });
        i += 1;
    }
    assert(out@ =~= records_of(sids@, pids@, chosen@));
    out
}

} // verus!
