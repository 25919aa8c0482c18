//! What a valid assignment is, and what makes one better than another.
//!
//! Students and projects are numbered by the position of their key among the
//! keys of their map, smallest first. A mutual pair is two students who name
//! each other as partner.

use crate::data::Projekt;
use crate::data::UNBEGRENZT;
use crate::keys::project_order;
use crate::keys::student_order;
use crate::solver::model::column_sum;
use crate::solver::model::sum;
use crate::solver::model::Point;
use crate::types::klasse::grade_of;
use crate::types::projekt_id::KEIN_PROJEKT;
use crate::types::ProjektId;
use crate::types::SaveFileSchueler;
use crate::types::SchuelerId;
use vstd::prelude::*;

verus! {

/// What a partner in the same project adds to the objective.
pub const PARTNER_WEIGHT: i32 = 2;

/// The first position of `s` that holds `key`, or `None` where none does.
pub open spec fn position_of<K>(s: Seq<K>, key: K) -> Option<int> {
    if s.contains(key) {
        Some(choose|i: int| is_first_position(s, key, i))
    } else {
        None
    }
}

/// Whether `i` is the first position of `s` that holds `key`.
pub open spec fn is_first_position<K>(s: Seq<K>, key: K, i: int) -> bool {
    &&& 0 <= i < s.len()
    &&& s[i] == key
    &&& forall|j: int| 0 <= j < i ==> s[j] != key
}

/// What the wish at rank `k` adds to the objective when it is met: 5 for the
/// dearest wish, 1 for the last of the five.
pub open spec fn wish_weight(k: int) -> int {
    5 - k
}

/// The projects, the students and the assignments fixed beforehand.
pub struct Problem {
    pub projects: Map<u32, Projekt>,
    pub students: Map<u128, SaveFileSchueler>,
    pub fixed: Map<u128, ProjektId>,
}

impl Problem {
    /// The keys of the students, by position.
    pub open spec fn sids(self) -> Seq<u128> {
        student_order(self.students.dom())
    }

    /// The keys of the projects, by position.
    pub open spec fn pids(self) -> Seq<u32> {
        project_order(self.projects.dom())
    }

    /// The number of students.
    pub open spec fn n(self) -> int {
        self.sids().len() as int
    }

    /// The number of projects.
    pub open spec fn m(self) -> int {
        self.pids().len() as int
    }

    /// The student at position `i`.
    pub open spec fn student(self, i: int) -> SaveFileSchueler {
        self.students[self.sids()[i]]
    }

    /// The project at position `j`.
    pub open spec fn project(self, j: int) -> Projekt {
        self.projects[self.pids()[j]]
    }

    /// The position of the project `p`, or `None` where `p` stands for "no
    /// project" or is none of the projects.
    pub open spec fn project_index(self, p: ProjektId) -> Option<int> {
        if p.0 == KEIN_PROJEKT {
            None
        } else {
            position_of(self.pids(), p.0)
        }
    }

    /// The position of the project that the student at position `i` is pinned
    /// to by the student's own record, if there is one.
    pub open spec fn pinned_index(self, i: int) -> Option<int> {
        match self.student(i).pinned() {
            Some(p) => self.project_index(p),
            None => None,
        }
    }

    /// The position of the project that the student at position `i` is fixed
    /// to beforehand, if there is one.
    pub open spec fn fixed_index(self, i: int) -> Option<int> {
        if self.fixed.contains_key(self.sids()[i]) {
            self.project_index(self.fixed[self.sids()[i]])
        } else {
            None
        }
    }

    /// Whether the student at position `i` may only be in projects that are
    /// open to the student's grade: the grade is known, and the student is
    /// neither pinned nor fixed beforehand.
    pub open spec fn bound_by_grade(self, i: int) -> bool {
        &&& grade_of(self.student(i).klasse.0@) is Some
        &&& !self.fixed.contains_key(self.sids()[i])
        &&& !self.student(i).is_fest()
    }

    /// Whether the student at position `i` and the partner that the student
    /// names form a mutual pair of which the student has the smaller key.
    pub open spec fn opens_pair(self, i: int) -> bool {
        match self.student(i).partner {
            Some(q) => {
                &&& self.sids()[i] < q.0
                &&& self.students.contains_key(q.0)
                &&& self.students[q.0].partner == Some(SchuelerId(self.sids()[i]))
            },
            None => false,
        }
    }

    /// The position of the partner that the student at position `i` names.
    pub open spec fn partner_index(self, i: int) -> int {
        match self.student(i).partner {
            Some(q) => match position_of(self.sids(), q.0) {
                Some(b) => b,
                None => 0,
            },
            None => 0,
        }
    }

    /// The mutual pairs among the first `upto` students, each as the positions
    /// of its two students, the one with the smaller key first.
    pub open spec fn pairs_upto(self, upto: int) -> Seq<(int, int)>
        decreases upto,
    {
        if upto <= 0 {
            Seq::empty()
        } else if self.opens_pair(upto - 1) {
            self.pairs_upto(upto - 1).push((upto - 1, self.partner_index(upto - 1)))
        } else {
            self.pairs_upto(upto - 1)
        }
    }

    /// The mutual pairs.
    pub open spec fn pairs(self) -> Seq<(int, int)> {
        self.pairs_upto(self.n())
    }

    /// The number of students among the first `upto` who are pinned to the
    /// project at position `j`.
    pub open spec fn num_fest(self, j: int, upto: int) -> int
        decreases upto,
    {
        if upto <= 0 {
            0
        } else if self.student(upto - 1).pinned() == Some(ProjektId(self.pids()[j])) {
            self.num_fest(j, upto - 1) + 1
        } else {
            self.num_fest(j, upto - 1)
        }
    }

    /// Every student who takes part is in exactly one project, every other
    /// student in none.
    pub open spec fn one_project_each(self, pt: Point) -> bool {
        forall|i: int| 0 <= i < self.n() ==> #[trigger] self.one_project(i, pt)
    }

    /// The student at position `i` is in one project, or in none where the
    /// student takes no part.
    pub open spec fn one_project(self, i: int, pt: Point) -> bool {
        sum(pt.x[i]) == if self.student(i).ignore {
            0int
        } else {
            1int
        }
    }

    /// No project with an upper bound holds more students than the bound and
    /// the students pinned to it together.
    pub open spec fn within_capacity(self, pt: Point) -> bool {
        forall|j: int| 0 <= j < self.m() ==> #[trigger] self.not_over(j, pt)
    }

    /// The project at position `j` is not over its upper bound.
    pub open spec fn not_over(self, j: int, pt: Point) -> bool {
        self.project(j).max_teilnehmer != UNBEGRENZT ==> column_sum(pt.x, j, self.n())
            <= self.project(j).max_teilnehmer + self.num_fest(j, self.n())
    }

    /// No project with a lower bound holds fewer students than the bound.
    pub open spec fn filled(self, pt: Point) -> bool {
        forall|j: int| 0 <= j < self.m() ==> #[trigger] self.not_under(j, pt)
    }

    /// The project at position `j` is not under its lower bound.
    pub open spec fn not_under(self, j: int, pt: Point) -> bool {
        self.project(j).min_teilnehmer != UNBEGRENZT ==> column_sum(pt.x, j, self.n())
            >= self.project(j).min_teilnehmer
    }

    /// No student who is bound by grade is in a project that is closed to the
    /// student's grade.
    pub open spec fn grades_respected(self, pt: Point) -> bool {
        forall|i: int, j: int|
            0 <= i < self.n() && 0 <= j < self.m() ==> #[trigger] self.grade_respected(i, j, pt)
    }

    /// The student at position `i` is not in the project at position `j`
    /// where the student is bound by grade and the project is closed to it.
    pub open spec fn grade_respected(self, i: int, j: int, pt: Point) -> bool {
        self.bound_by_grade(i) && !self.project(j).admits(
            grade_of(self.student(i).klasse.0@)->0,
        ) ==> pt.x[i][j] == 0
    }

    /// Every student who is pinned to a project is in it.
    pub open spec fn pinned_honored(self, pt: Point) -> bool {
        forall|i: int| 0 <= i < self.n() ==> #[trigger] self.pin_honored(i, pt)
    }

    /// The student at position `i` is in the project that the student is
    /// pinned to.
    pub open spec fn pin_honored(self, i: int, pt: Point) -> bool {
        self.pinned_index(i) matches Some(j) ==> pt.x[i][j] == 1
    }

    /// Every student who is fixed to a project beforehand is in it.
    pub open spec fn fixed_honored(self, pt: Point) -> bool {
        forall|i: int| 0 <= i < self.n() ==> #[trigger] self.fix_honored(i, pt)
    }

    /// The student at position `i` is in the project that the student is
    /// fixed to beforehand.
    pub open spec fn fix_honored(self, i: int, pt: Point) -> bool {
        self.fixed_index(i) matches Some(j) ==> pt.x[i][j] == 1
    }

    /// For every mutual pair and every project, `w` is no more than either
    /// student's `x` and no less than their sum less one.
    pub open spec fn pairs_linked(self, pt: Point) -> bool {
        forall|k: int, j: int|
            0 <= k < self.pairs().len() && 0 <= j < self.m() ==> #[trigger] self.pair_linked(
                k,
                j,
                pt,
            )
    }

    /// The `W` of the pair at position `k` for the project at position `j`
    /// is linked to the `X` of the two students.
    pub open spec fn pair_linked(self, k: int, j: int, pt: Point) -> bool {
        let (a, b) = self.pairs()[k];
        &&& pt.w[k][j] <= pt.x[a][j]
        &&& pt.w[k][j] <= pt.x[b][j]
        &&& pt.x[a][j] + pt.x[b][j] - 1 <= pt.w[k][j]
    }

    /// For every mutual pair, `same` is no more than the sum of the pair's
    /// `w`.
    pub open spec fn same_bounded(self, pt: Point) -> bool {
        forall|k: int| 0 <= k < self.pairs().len() ==> #[trigger] self.same_bound(k, pt)
    }

    /// The `Same` of the pair at position `k` is no more than the sum of
    /// its `W`.
    pub open spec fn same_bound(self, k: int, pt: Point) -> bool {
        pt.same[k] <= sum(pt.w[k])
    }

    /// Whether the point is a valid assignment with its pairs accounted for.
    pub open spec fn valid(self, pt: Point) -> bool {
        &&& self.one_project_each(pt)
        &&& self.within_capacity(pt)
        &&& self.filled(pt)
        &&& self.grades_respected(pt)
        &&& self.pairs_linked(pt)
        &&& self.same_bounded(pt)
        &&& self.pinned_honored(pt)
        &&& self.fixed_honored(pt)
    }

    /// What the wish at rank `k` of the student at position `i` adds to the
    /// objective: its weight where the student is in the wished project,
    /// nothing where the wish is "no project" or none of the projects.
    pub open spec fn wish_gain(self, i: int, k: int, pt: Point) -> int {
        match self.student(i).wishes {
            Some(w) => match self.project_index(w[k]) {
                Some(j) => wish_weight(k) * pt.x[i][j],
                None => 0,
            },
            None => 0,
        }
    }

    /// What the first `ranks` wishes of the first `upto` students add to the
    /// objective, and all five wishes of the students before them.
    pub open spec fn gain(self, upto: int, ranks: int, pt: Point) -> int
        decreases upto, ranks,
    {
        if upto <= 0 {
            0
        } else if ranks <= 0 {
            self.gain(upto - 1, 5, pt)
        } else {
            self.gain(upto, ranks - 1, pt) + self.wish_gain(upto - 1, ranks - 1, pt)
        }
    }

    /// The objective: the weights of the wishes that are met, and the partner
    /// weight for every mutual pair that shares a project.
    pub open spec fn score(self, pt: Point) -> int {
        self.gain(self.n(), 5, pt) + PARTNER_WEIGHT * sum(pt.same)
    }
}

/// The first position that holds a key is a position that holds it, and no
/// other is first.
pub proof fn lemma_position_of<K>(s: Seq<K>, key: K)
    ensures
        match position_of(s, key) {
            Some(i) => is_first_position(s, key, i),
            None => !s.contains(key),
        },
        forall|i: int| is_first_position(s, key, i) ==> position_of(s, key) == Some(i),
{
    if s.contains(key) {
        let i = lemma_first_exists(s, key, s.len() as int);
        assert forall|a: int| is_first_position(s, key, a) implies position_of(s, key) == Some(
            a,
        ) by {
            let c = choose|c: int| is_first_position(s, key, c);
            if c < a {
                assert(s[c] != key);
            }
            if a < c {
                assert(s[a] != key);
            }
        }
    } else {
        assert forall|a: int| is_first_position(s, key, a) implies false by {
            assert(s.contains(s[a]));
        }
    }
}

proof fn lemma_first_exists<K>(s: Seq<K>, key: K, upto: int) -> (i: int)
    requires
        0 <= upto <= s.len(),
        exists|j: int| 0 <= j < upto && s[j] == key,
    ensures
        is_first_position(s, key, i),
        i < upto,
    decreases upto,
{
    if exists|j: int| 0 <= j < upto - 1 && s[j] == key {
        lemma_first_exists(s, key, upto - 1)
    } else {
        assert(s[upto - 1] == key);
        upto - 1
    }
}

} // verus!
