//! The integer program of a problem, row by row.
//!
//! The rows stand in the order of the eight kinds of constraint, and within
//! a kind in the order of the students, projects or pairs that they speak of.

use crate::data::UNBEGRENZT;
use crate::solver::model::light;
use crate::solver::model::magnitude;
use crate::solver::model::weight;
use crate::solver::model::Relation;
use crate::solver::model::Restriction;
use crate::solver::model::Term;
use crate::solver::model::Var;
use crate::solver::problem::Problem;
use crate::solver::problem::PARTNER_WEIGHT;
use crate::solver::terms::same_row;
use crate::solver::terms::x_column;
use crate::solver::terms::x_row;
use crate::types::klasse::grade_of;
use vstd::prelude::*;

verus! {

/// What a constraint says: its terms, how the two sides are compared, and the
/// right-hand side.
pub open spec fn view_of(c: Restriction) -> (Seq<Term>, Relation, i32) {
    (c.terms@, c.relation, c.rhs)
}

/// What each of the constraints says, in their order.
pub open spec fn views(cs: Seq<Restriction>) -> Seq<(Seq<Term>, Relation, i32)> {
    Seq::new(cs.len(), |t: int| view_of(cs[t]))
}

/// The `X` of student `i` and project `j` with the coefficient `coeff`.
pub open spec fn x_term(coeff: i32, i: int, j: int) -> Term {
    Term { coeff, var: Var::X { schueler: i as usize, projekt: j as usize } }
}

/// The `W` of pair `k` and project `j` with the coefficient `coeff`.
pub open spec fn w_term(coeff: i32, k: int, j: int) -> Term {
    Term { coeff, var: Var::W { paar: k as usize, projekt: j as usize } }
}

/// The row that says that the `X` of student `i` and project `j` is `rhs`.
pub open spec fn pin_row(i: int, j: int, rhs: i32) -> (Seq<Term>, Relation, i32) {
    (seq![x_term(1, i, j)], Relation::Eq, rhs)
}

impl Problem {
    /// The most students that the project at position `j` may hold: its
    /// upper bound and the students pinned to it, and no more than 31 bits
    /// hold.
    pub open spec fn capacity(self, j: int) -> i32 {
        let bound = self.project(j).max_teilnehmer + self.num_fest(j, self.n());
        if bound > 0x7fff_ffff {
            0x7fff_ffffi32
        } else {
            bound as i32
        }
    }

    /// One project for each of the first `upto` students.
    pub open spec fn rows_one_project(self, upto: int) -> Seq<(Seq<Term>, Relation, i32)>
        decreases upto,
    {
        if upto <= 0 {
            Seq::empty()
        } else {
            self.rows_one_project(upto - 1).push(
                (
                    x_row((upto - 1) as usize, self.m()),
                    Relation::Eq,
                    if self.student(upto - 1).ignore {
                        0i32
                    } else {
                        1i32
                    },
                ),
            )
        }
    }

    /// The upper bounds of the first `upto` projects.
    pub open spec fn rows_capacity(self, upto: int) -> Seq<(Seq<Term>, Relation, i32)>
        decreases upto,
    {
        if upto <= 0 {
            Seq::empty()
        } else if self.project(upto - 1).max_teilnehmer != UNBEGRENZT {
            self.rows_capacity(upto - 1).push(
                (x_column((upto - 1) as usize, self.n()), Relation::Le, self.capacity(upto - 1)),
            )
        } else {
            self.rows_capacity(upto - 1)
        }
    }

    /// The lower bounds of the first `upto` projects.
    pub open spec fn rows_filled(self, upto: int) -> Seq<(Seq<Term>, Relation, i32)>
        decreases upto,
    {
        if upto <= 0 {
            Seq::empty()
        } else if self.project(upto - 1).min_teilnehmer != UNBEGRENZT {
            self.rows_filled(upto - 1).push(
                (
                    x_column((upto - 1) as usize, self.n()),
                    Relation::Ge,
                    self.project(upto - 1).min_teilnehmer,
                ),
            )
        } else {
            self.rows_filled(upto - 1)
        }
    }

    /// Whether the project at position `j` is closed to the student at
    /// position `i`, who is bound by grade.
    pub open spec fn closed_to(self, i: int, j: int) -> bool {
        self.bound_by_grade(i) && !self.project(j).admits(grade_of(self.student(i).klasse.0@)->0)
    }

    /// The first `upto` projects, as far as they are closed to the student at
    /// position `i`.
    pub open spec fn rows_grade_of(self, i: int, upto: int) -> Seq<(Seq<Term>, Relation, i32)>
        decreases upto,
    {
        if upto <= 0 {
            Seq::empty()
        } else if self.closed_to(i, upto - 1) {
            self.rows_grade_of(i, upto - 1).push(pin_row(i, upto - 1, 0))
        } else {
            self.rows_grade_of(i, upto - 1)
        }
    }

    /// The projects that are closed to each of the first `upto` students.
    pub open spec fn rows_grades(self, upto: int) -> Seq<(Seq<Term>, Relation, i32)>
        decreases upto,
    {
        if upto <= 0 {
            Seq::empty()
        } else {
            self.rows_grades(upto - 1) + self.rows_grade_of(upto - 1, self.m())
        }
    }

    /// The links of the pair at position `k` for the first `upto` projects:
    /// three rows for each.
    pub open spec fn rows_pair(self, k: int, upto: int) -> Seq<(Seq<Term>, Relation, i32)>
        decreases upto,
    {
        if upto <= 0 {
            Seq::empty()
        } else {
            let j = upto - 1;
            let (a, b) = self.pairs()[k];
            self.rows_pair(k, j).push(
                (seq![w_term(1, k, j), x_term(-1i32, a, j)], Relation::Le, 0i32),
            ).push((seq![w_term(1, k, j), x_term(-1i32, b, j)], Relation::Le, 0i32)).push(
                (seq![x_term(1, a, j), x_term(1, b, j), w_term(-1i32, k, j)], Relation::Le, 1i32),
            )
        }
    }

    /// The links of the first `upto` pairs.
    pub open spec fn rows_pairs(self, upto: int) -> Seq<(Seq<Term>, Relation, i32)>
        decreases upto,
    {
        if upto <= 0 {
            Seq::empty()
        } else {
            self.rows_pairs(upto - 1) + self.rows_pair(upto - 1, self.m())
        }
    }

    /// The bound on the `Same` of each of the first `upto` pairs.
    pub open spec fn rows_same(self, upto: int) -> Seq<(Seq<Term>, Relation, i32)>
        decreases upto,
    {
        if upto <= 0 {
            Seq::empty()
        } else {
            self.rows_same(upto - 1).push(
                (same_row((upto - 1) as usize, self.m()), Relation::Le, 0i32),
            )
        }
    }

    /// The pins of the first `upto` students.
    pub open spec fn rows_pinned(self, upto: int) -> Seq<(Seq<Term>, Relation, i32)>
        decreases upto,
    {
        if upto <= 0 {
            Seq::empty()
        } else {
            match self.pinned_index(upto - 1) {
                Some(j) => self.rows_pinned(upto - 1).push(pin_row(upto - 1, j, 1)),
                None => self.rows_pinned(upto - 1),
            }
        }
    }

    /// What is fixed beforehand for the first `upto` students.
    pub open spec fn rows_fixed(self, upto: int) -> Seq<(Seq<Term>, Relation, i32)>
        decreases upto,
    {
        if upto <= 0 {
            Seq::empty()
        } else {
            match self.fixed_index(upto - 1) {
                Some(j) => self.rows_fixed(upto - 1).push(pin_row(upto - 1, j, 1)),
                None => self.rows_fixed(upto - 1),
            }
        }
    }

    /// The rows of the program.
    pub open spec fn rows(self) -> Seq<(Seq<Term>, Relation, i32)> {
        self.rows_one_project(self.n()) + self.rows_capacity(self.m()) + self.rows_filled(self.m())
            + self.rows_grades(self.n()) + self.rows_pairs(self.pairs().len() as int)
            + self.rows_same(self.pairs().len() as int) + self.rows_pinned(self.n())
            + self.rows_fixed(self.n())
    }

    /// The terms of the first `upto` wishes of the student at position `i`:
    /// one for each wish that names a project.
    pub open spec fn terms_wishes_of(self, i: int, upto: int) -> Seq<Term>
        decreases upto,
    {
        if upto <= 0 {
            Seq::empty()
        } else {
            let before = self.terms_wishes_of(i, upto - 1);
            match self.student(i).wishes {
                Some(w) => match self.project_index(w[upto - 1]) {
                    Some(j) => before.push(x_term((5 - (upto - 1)) as i32, i, j)),
                    None => before,
                },
                None => before,
            }
        }
    }

    /// The terms of the wishes of the first `upto` students.
    pub open spec fn terms_wishes(self, upto: int) -> Seq<Term>
        decreases upto,
    {
        if upto <= 0 {
            Seq::empty()
        } else {
            self.terms_wishes(upto - 1) + self.terms_wishes_of(upto - 1, 5)
        }
    }

    /// The terms of the first `upto` pairs.
    pub open spec fn terms_pairs(self, upto: int) -> Seq<Term>
        decreases upto,
    {
        if upto <= 0 {
            Seq::empty()
        } else {
            self.terms_pairs(upto - 1).push(
                Term { coeff: PARTNER_WEIGHT, var: Var::Same { paar: (upto - 1) as usize } },
            )
        }
    }

    /// The objective of the program.
    pub open spec fn objective(self) -> Seq<Term> {
        self.terms_wishes(self.n()) + self.terms_pairs(self.pairs().len() as int)
    }
}

/// One more constraint says what it says after what the others say.
pub proof fn lemma_views_push(cs: Seq<Restriction>, c: Restriction)
    ensures
        views(cs.push(c)) == views(cs).push(view_of(c)),
{
    assert(views(cs.push(c)) =~= views(cs).push(view_of(c)));
}

/// Whether each of the rows is light.
pub open spec fn all_light(rows: Seq<(Seq<Term>, Relation, i32)>) -> bool {
    forall|t: int| 0 <= t < rows.len() ==> light((#[trigger] rows[t]).0)
}

/// The weight of two sums of terms, one after the other, is the sum of their
/// weights.
pub proof fn lemma_weight_add(a: Seq<Term>, b: Seq<Term>)
    ensures
        weight(a + b) == weight(a) + weight(b),
    decreases b.len(),
{
    if b.len() == 0 {
        assert(a + b =~= a);
    } else {
        lemma_weight_add(a, b.drop_last());
        assert((a + b).drop_last() =~= a + b.drop_last());
    }
}

/// A row of `X` weighs as much as it is long.
pub proof fn lemma_weight_x_row(i: usize, upto: int)
    requires
        0 <= upto,
    ensures
        weight(x_row(i, upto)) == upto,
    decreases upto,
{
    if upto > 0 {
        lemma_weight_x_row(i, upto - 1);
        assert(x_row(i, upto).drop_last() =~= x_row(i, upto - 1));
    }
}

/// A column of `X` weighs as much as it is long.
pub proof fn lemma_weight_x_column(j: usize, upto: int)
    requires
        0 <= upto,
    ensures
        weight(x_column(j, upto)) == upto,
    decreases upto,
{
    if upto > 0 {
        lemma_weight_x_column(j, upto - 1);
        assert(x_column(j, upto).drop_last() =~= x_column(j, upto - 1));
    }
}

/// A pair's `Same` with its row of `W` weighs one more than the row is long.
pub proof fn lemma_weight_same_row(k: usize, upto: int)
    requires
        0 <= upto,
    ensures
        weight(same_row(k, upto)) == upto + 1,
    decreases upto,
{
    if upto > 0 {
        lemma_weight_same_row(k, upto - 1);
        assert(same_row(k, upto).drop_last() =~= same_row(k, upto - 1));
    } else {
        assert(same_row(k, 0).drop_last() =~= Seq::<Term>::empty());
        assert(weight(same_row(k, 0).drop_last()) == 0);
    }
}

/// A sum of one, two or three terms with coefficients of size one weighs no
/// more than three.
pub proof fn lemma_weight_few(terms: Seq<Term>)
    requires
        terms.len() <= 3,
        forall|t: int| 0 <= t < terms.len() ==> magnitude(#[trigger] terms[t].coeff) <= 1,
    ensures
        weight(terms) <= 3,
    decreases terms.len(),
{
    if terms.len() > 0 {
        lemma_weight_few(terms.drop_last());
        assert(weight(terms.drop_last()) <= terms.len() - 1) by {
            lemma_weight_count(terms.drop_last());
        }
    }
}

/// A sum of terms with coefficients of size one weighs no more than it is
/// long.
pub proof fn lemma_weight_count(terms: Seq<Term>)
    requires
        forall|t: int| 0 <= t < terms.len() ==> magnitude(#[trigger] terms[t].coeff) <= 1,
    ensures
        weight(terms) <= terms.len(),
    decreases terms.len(),
{
    if terms.len() > 0 {
        lemma_weight_count(terms.drop_last());
    }
}

/// Rows that are light, one lot after the other, are light.
pub proof fn lemma_all_light_add(
    a: Seq<(Seq<Term>, Relation, i32)>,
    b: Seq<(Seq<Term>, Relation, i32)>,
)
    requires
        all_light(a),
        all_light(b),
    ensures
        all_light(a + b),
{
    assert forall|t: int| 0 <= t < (a + b).len() implies light((#[trigger] (a + b)[t]).0) by {
        if t < a.len() {
            assert(light(a[t].0));
        } else {
            assert(light(b[t - a.len()].0));
        }
    }
}

/// There are no more mutual pairs among the first students than students.
pub proof fn lemma_pairs_len(p: Problem, upto: int)
    requires
        0 <= upto,
    ensures
        p.pairs_upto(upto).len() <= upto,
    decreases upto,
{
    if upto > 0 {
        lemma_pairs_len(p, upto - 1);
    }
}

/// In an ascending sequence an element lies as far above the first as its
/// position, at least.
pub proof fn lemma_ascending_span(s: Seq<u32>, i: int)
    requires
        crate::keys::ascending_by(s, crate::keys::project_rank()),
        0 <= i < s.len(),
    ensures
        s[i] >= s[0] + i,
    decreases i,
{
    if i > 0 {
        lemma_ascending_span(s, i - 1);
        assert((crate::keys::project_rank())(s[i - 1]) < (crate::keys::project_rank())(s[i]));
    }
}

/// There are no more projects than 32 bits tell apart.
pub proof fn lemma_projects_bound(p: Problem)
    requires
        p.projects.dom().finite(),
    ensures
        p.m() <= 0x1_0000_0000,
{
    crate::keys::lemma_project_order(p.projects.dom());
    if p.m() > 0 {
        lemma_ascending_span(p.pids(), p.m() - 1);
    }
}

impl Problem {
    /// The rows for one project each are light.
    pub proof fn lemma_light_one_project(self, upto: int)
        requires
            0 <= self.m() <= 0x1_0000_0000,
        ensures
            all_light(self.rows_one_project(upto)),
        decreases upto,
    {
        if upto > 0 {
            self.lemma_light_one_project(upto - 1);
            lemma_weight_x_row((upto - 1) as usize, self.m());
        }
    }

    /// The rows for the upper bounds are light.
    pub proof fn lemma_light_capacity(self, upto: int)
        requires
            0 <= self.n() <= 0x8000_0000,
        ensures
            all_light(self.rows_capacity(upto)),
        decreases upto,
    {
        if upto > 0 {
            self.lemma_light_capacity(upto - 1);
            lemma_weight_x_column((upto - 1) as usize, self.n());
        }
    }

    /// The rows for the lower bounds are light.
    pub proof fn lemma_light_filled(self, upto: int)
        requires
            0 <= self.n() <= 0x8000_0000,
        ensures
            all_light(self.rows_filled(upto)),
        decreases upto,
    {
        if upto > 0 {
            self.lemma_light_filled(upto - 1);
            lemma_weight_x_column((upto - 1) as usize, self.n());
        }
    }

    /// The rows for the grades of one student are light.
    pub proof fn lemma_light_grade_of(self, i: int, upto: int)
        ensures
            all_light(self.rows_grade_of(i, upto)),
        decreases upto,
    {
        if upto > 0 {
            self.lemma_light_grade_of(i, upto - 1);
            lemma_weight_few(pin_row(i, upto - 1, 0).0);
        }
    }

    /// The rows for the grades are light.
    pub proof fn lemma_light_grades(self, upto: int)
        ensures
            all_light(self.rows_grades(upto)),
        decreases upto,
    {
        if upto > 0 {
            self.lemma_light_grades(upto - 1);
            self.lemma_light_grade_of(upto - 1, self.m());
            lemma_all_light_add(self.rows_grades(upto - 1), self.rows_grade_of(upto - 1, self.m()));
        }
    }

    /// The rows that link one pair are light.
    pub proof fn lemma_light_pair(self, k: int, upto: int)
        ensures
            all_light(self.rows_pair(k, upto)),
        decreases upto,
    {
        if upto > 0 {
            self.lemma_light_pair(k, upto - 1);
            let j = upto - 1;
            let (a, b) = self.pairs()[k];
            lemma_weight_few(seq![w_term(1, k, j), x_term(-1i32, a, j)]);
            lemma_weight_few(seq![w_term(1, k, j), x_term(-1i32, b, j)]);
            lemma_weight_few(seq![x_term(1, a, j), x_term(1, b, j), w_term(-1i32, k, j)]);
        }
    }

    /// The rows that link the pairs are light.
    pub proof fn lemma_light_pairs(self, upto: int)
        ensures
            all_light(self.rows_pairs(upto)),
        decreases upto,
    {
        if upto > 0 {
            self.lemma_light_pairs(upto - 1);
            self.lemma_light_pair(upto - 1, self.m());
            lemma_all_light_add(self.rows_pairs(upto - 1), self.rows_pair(upto - 1, self.m()));
        }
    }

    /// The rows that bound the `Same` are light.
    pub proof fn lemma_light_same(self, upto: int)
        requires
            0 <= self.m() <= 0x1_0000_0000,
        ensures
            all_light(self.rows_same(upto)),
        decreases upto,
    {
        if upto > 0 {
            self.lemma_light_same(upto - 1);
            lemma_weight_same_row((upto - 1) as usize, self.m());
        }
    }

    /// The rows for the pins are light.
    pub proof fn lemma_light_pinned(self, upto: int)
        ensures
            all_light(self.rows_pinned(upto)),
        decreases upto,
    {
        if upto > 0 {
            self.lemma_light_pinned(upto - 1);
            match self.pinned_index(upto - 1) {
                Some(j) => {
                    lemma_weight_few(pin_row(upto - 1, j, 1).0);
                },
                None => {},
            }
        }
    }

    /// The rows for what is fixed beforehand are light.
    pub proof fn lemma_light_fixed(self, upto: int)
        ensures
            all_light(self.rows_fixed(upto)),
        decreases upto,
    {
        if upto > 0 {
            self.lemma_light_fixed(upto - 1);
            match self.fixed_index(upto - 1) {
                Some(j) => {
                    lemma_weight_few(pin_row(upto - 1, j, 1).0);
                },
                None => {},
            }
        }
    }

    /// The wishes of one student weigh no more than five each.
    pub proof fn lemma_weight_wishes_of(self, i: int, upto: int)
        requires
            0 <= upto <= 5,
        ensures
            weight(self.terms_wishes_of(i, upto)) <= 5 * upto,
        decreases upto,
    {
        if upto > 0 {
            self.lemma_weight_wishes_of(i, upto - 1);
            let before = self.terms_wishes_of(i, upto - 1);
            let now = self.terms_wishes_of(i, upto);
            if now != before {
                assert(now.drop_last() =~= before);
                assert(magnitude(now.last().coeff) <= 5);
            }
        }
    }

    /// The wishes of the first students weigh no more than 25 for each
    /// student.
    pub proof fn lemma_weight_wishes(self, upto: int)
        requires
            0 <= upto,
        ensures
            weight(self.terms_wishes(upto)) <= 25 * upto,
        decreases upto,
    {
        if upto > 0 {
            self.lemma_weight_wishes(upto - 1);
            self.lemma_weight_wishes_of(upto - 1, 5);
            lemma_weight_add(self.terms_wishes(upto - 1), self.terms_wishes_of(upto - 1, 5));
        }
    }

    /// The pairs weigh two each.
    pub proof fn lemma_weight_pairs(self, upto: int)
        requires
            0 <= upto,
        ensures
            weight(self.terms_pairs(upto)) == 2 * upto,
        decreases upto,
    {
        if upto > 0 {
            self.lemma_weight_pairs(upto - 1);
            assert(self.terms_pairs(upto).drop_last() =~= self.terms_pairs(upto - 1));
        }
    }

    /// The objective and every row of the program of a problem with no more
    /// students than 31 bits count are light.
    pub proof fn lemma_program_light(self)
        requires
            self.students.dom().finite(),
            self.projects.dom().finite(),
            self.n() <= i32::MAX,
        ensures
            light(self.objective()),
            all_light(self.rows()),
    {
        let n = self.n();
        let k = self.pairs().len() as int;
        lemma_projects_bound(self);
        lemma_pairs_len(self, n);
        self.lemma_weight_wishes(n);
        self.lemma_weight_pairs(k);
        lemma_weight_add(self.terms_wishes(n), self.terms_pairs(k));
        self.lemma_light_one_project(n);
        self.lemma_light_capacity(self.m());
        self.lemma_light_filled(self.m());
        self.lemma_light_grades(n);
        self.lemma_light_pairs(k);
        self.lemma_light_same(k);
        self.lemma_light_pinned(n);
        self.lemma_light_fixed(n);
        let r1 = self.rows_one_project(n);
        let r2 = r1 + self.rows_capacity(self.m());
        let r3 = r2 + self.rows_filled(self.m());
        let r4 = r3 + self.rows_grades(n);
        let r5 = r4 + self.rows_pairs(k);
        let r6 = r5 + self.rows_same(k);
        let r7 = r6 + self.rows_pinned(n);
        lemma_all_light_add(r1, self.rows_capacity(self.m()));
        lemma_all_light_add(r2, self.rows_filled(self.m()));
        lemma_all_light_add(r3, self.rows_grades(n));
        lemma_all_light_add(r4, self.rows_pairs(k));
        lemma_all_light_add(r5, self.rows_same(k));
        lemma_all_light_add(r6, self.rows_pinned(n));
        lemma_all_light_add(r7, self.rows_fixed(n));
    }
}

} // verus!
