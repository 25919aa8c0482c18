//! From a problem to its integer program.

use crate::data::Projekt;
use crate::data::UNBEGRENZT;
use crate::solver::lineup::lineup;
use crate::solver::lineup::position_u128;
use crate::solver::lineup::project_index;
use crate::solver::lineup::Lineup;
use crate::solver::model::all_hold;
use crate::solver::model::constraints_in;
use crate::solver::model::lemma_all_hold_push;
use crate::solver::model::lemma_column_sum_bits;
use crate::solver::model::lemma_lin_push;
use crate::solver::model::lemma_sum_push;
use crate::solver::model::lin;
use crate::solver::model::sum;
use crate::solver::model::terms_in;
use crate::solver::model::Restriction;
use crate::solver::model::Model;
use crate::solver::model::Point;
use crate::solver::model::Relation;
use crate::solver::model::Term;
use crate::solver::model::Var;
use crate::solver::problem::wish_weight;
use crate::solver::problem::Problem;
use crate::solver::program::lemma_views_push;
use crate::solver::program::views;
use crate::solver::problem::PARTNER_WEIGHT;
use crate::solver::terms::build_same_row;
use crate::solver::terms::build_x_column;
use crate::solver::terms::build_x_row;
use crate::solver::terms::lemma_lin_one;
use crate::solver::terms::lemma_lin_three;
use crate::solver::terms::lemma_lin_two;
use crate::solver::terms::lemma_same_row;
use crate::solver::terms::lemma_x_column;
use crate::solver::terms::lemma_x_row;
use crate::types::ProjektId;
use crate::types::SaveFileSchueler;
use std::collections::BTreeMap;
use vstd::prelude::*;

verus! {

/// Whether the point gives 0 or 1 to each variable of the program of `p`.
pub open spec fn binary_for(p: Problem, pt: Point) -> bool {
    pt.binary(p.n(), p.m(), p.pairs().len() as int)
}

/// Whether the constraints speak of variables of the program of `p` only.
pub open spec fn sized_for(p: Problem, cs: Seq<Restriction>) -> bool {
    constraints_in(cs, p.n(), p.m(), p.pairs().len() as int)
}

/// Whether `v` lists the pairs `pairs` of `n` students.
pub open spec fn pairs_match(v: Seq<(usize, usize)>, pairs: Seq<(int, int)>, n: int) -> bool {
    &&& v.len() == pairs.len()
    &&& forall|k: int|
        0 <= k < v.len() ==> {
            &&& (#[trigger] v[k]).0 == pairs[k].0
            &&& v[k].1 == pairs[k].1
            &&& v[k].0 < n
            &&& v[k].1 < n
        }
}

/// Finds the mutual pairs.
#[verifier::loop_isolation(false)]
pub(crate) fn find_pairs(
    l: &Lineup,
    students: &BTreeMap<u128, SaveFileSchueler>,
    Ghost(p): Ghost<Problem>,
) -> (r: Vec<(usize, usize)>)
    requires
        l.of(p),
        p.students == students@,
    ensures
        pairs_match(r@, p.pairs(), p.n()),
{
    let n = l.sids.len();
    let mut out: Vec<(usize, usize)> = Vec::new();
    let mut i: usize = 0;
    while i < n
        invariant
            i <= n,
            pairs_match(out@, p.pairs_upto(i as int), p.n()),
        decreases n - i,
    {
        let s = l.schueler[i];
        let id: u128 = l.sids[i];
        let mut found: Option<usize> = None;
        match s.partner {
            Some(q) => {
                if id < q.0 {
                    match students.get(&q.0) {
                        Some(t) => {
                            let mutual = match t.partner {
                                Some(back) => back.0 == id,
                                None => false,
                            };
                            if mutual {
                                assert(l.sids@.to_set().contains(q.0));
                                found = position_u128(&l.sids, q.0);
                                assert(found is Some);
                            }
                        },
                        None => {},
                    }
                }
            },
            None => {},
        }
        assert(found is Some <==> p.opens_pair(i as int));
        match found {
            Some(b) => {
                assert(b == p.partner_index(i as int));
                out.push((i, b));
            },
            None => {},
        }
        i += 1;
    }
    out
}

/// The objective: a term for every wish that names a project, and a term for
/// every mutual pair.
#[verifier::loop_isolation(false)]
pub(crate) fn build_objective(l: &Lineup, pairs: usize, Ghost(p): Ghost<Problem>) -> (r: Vec<Term>)
    requires
        l.of(p),
        pairs == p.pairs().len(),
    ensures
        terms_in(r@, p.n(), p.m(), p.pairs().len() as int),
        r@ == p.objective(),
        forall|pt: Point| #[trigger] binary_for(p, pt) ==> lin(r@, pt) == p.score(pt),
{
    let n = l.sids.len();
    let mut obj: Vec<Term> = Vec::new();
    assert(obj@ =~= p.terms_wishes(0));
    let mut i: usize = 0;
    while i < n
        invariant
            i <= n,
            terms_in(obj@, p.n(), p.m(), p.pairs().len() as int),
            obj@ == p.terms_wishes(i as int),
            forall|pt: Point| #[trigger] binary_for(p, pt) ==> lin(obj@, pt) == p.gain(i as int, 5, pt),
        decreases n - i,
    {
        let s = l.schueler[i];
        let mut k: usize = 0;
        assert(obj@ =~= p.terms_wishes(i as int) + p.terms_wishes_of(i as int, 0));
        while k < 5
            invariant
                k <= 5,
                i < n,
                terms_in(obj@, p.n(), p.m(), p.pairs().len() as int),
                obj@ == p.terms_wishes(i as int) + p.terms_wishes_of(i as int, k as int),
                forall|pt: Point| #[trigger]
                    binary_for(p, pt) ==> lin(obj@, pt) == p.gain(i + 1, k as int, pt),
            decreases 5 - k,
        {
            let mut index: Option<usize> = None;
            match s.wishes {
                Some(w) => {
                    index = project_index(&l.pids, w[k]);
                },
                None => {},
            }
            match index {
                Some(j) => {
                    let t = Term { coeff: 5 - k as i32, var: Var::X { schueler: i, projekt: j } };
                    proof {
                        assert forall|pt: Point| #[trigger] binary_for(p, pt) implies lin(
                            obj@.push(t),
                            pt,
                        ) == p.gain(i + 1, k + 1, pt) by {
                            lemma_lin_push(obj@, t, pt);
                            assert(t.coeff == wish_weight(k as int));
                            assert(p.wish_gain(i as int, k as int, pt) == wish_weight(k as int)
                                * pt.x[i as int][j as int]);
                        }
                    }
                    obj.push(t);
                },
                None => {
                    assert forall|pt: Point| #[trigger] binary_for(p, pt) implies lin(obj@, pt)
                        == p.gain(i + 1, k + 1, pt) by {
                        assert(p.wish_gain(i as int, k as int, pt) == 0);
                    }
                },
            }
            assert(obj@ =~= p.terms_wishes(i as int) + p.terms_wishes_of(i as int, k + 1));
            k += 1;
        }
        assert(obj@ =~= p.terms_wishes(i + 1));
        i += 1;
    }
    let mut k: usize = 0;
    assert(obj@ =~= p.terms_wishes(p.n()) + p.terms_pairs(0));
    while k < pairs
        invariant
            k <= pairs,
            terms_in(obj@, p.n(), p.m(), p.pairs().len() as int),
            obj@ == p.terms_wishes(p.n()) + p.terms_pairs(k as int),
            forall|pt: Point| #[trigger]
                binary_for(p, pt) ==> lin(obj@, pt) == p.gain(p.n(), 5, pt) + PARTNER_WEIGHT * sum(
                    pt.same.take(k as int),
                ),
        decreases pairs - k,
    {
        let t = Term { coeff: PARTNER_WEIGHT, var: Var::Same { paar: k } };
        proof {
            assert forall|pt: Point| #[trigger] binary_for(p, pt) implies lin(obj@.push(t), pt)
                == p.gain(p.n(), 5, pt) + PARTNER_WEIGHT * sum(pt.same.take(k + 1)) by {
                lemma_lin_push(obj@, t, pt);
                lemma_sum_push(pt.same.take(k as int), pt.same[k as int]);
                assert(pt.same.take(k as int).push(pt.same[k as int]) =~= pt.same.take(k + 1));
            }
        }
        obj.push(t);
        assert(obj@ =~= p.terms_wishes(p.n()) + p.terms_pairs(k + 1));
        k += 1;
    }
    proof {
        assert forall|pt: Point| #[trigger] binary_for(p, pt) implies lin(obj@, pt) == p.score(
            pt,
        ) by {
            assert(pt.same.take(k as int) =~= pt.same);
        }
    }
    obj
}

/// Adds, for each student, that the student's `X` sum to 1, or to 0 where the
/// student takes no part.
#[verifier::loop_isolation(false)]
pub(crate) fn add_one_project_each(cs: &mut Vec<Restriction>, l: &Lineup, Ghost(p): Ghost<Problem>)
    requires
        l.of(p),
        sized_for(p, old(cs)@),
    ensures
        sized_for(p, final(cs)@),
        views(final(cs)@) == views(old(cs)@) + p.rows_one_project(p.n()),
        forall|pt: Point| #[trigger]
            binary_for(p, pt) ==> (all_hold(final(cs)@, pt) <==> all_hold(old(cs)@, pt)
                && p.one_project_each(pt)),
{
    let ghost before = cs@;
    assert(views(cs@) =~= views(before) + p.rows_one_project(0));
    let n = l.sids.len();
    let m = l.pids.len();
    let mut i: usize = 0;
    while i < n
        invariant
            i <= n,
            sized_for(p, cs@),
            views(cs@) == views(before) + p.rows_one_project(i as int),
            forall|pt: Point| #[trigger]
                binary_for(p, pt) ==> (all_hold(cs@, pt) <==> all_hold(before, pt) && forall|
                    a: int,
                |
                    0 <= a < i ==> #[trigger] p.one_project(a, pt)),
        decreases n - i,
    {
        let rhs: i32 = if l.schueler[i].ignore {
            0
        } else {
            1
        };
        let c = Restriction { terms: build_x_row(i, m), relation: Relation::Eq, rhs };
        proof {
            assert forall|pt: Point| #[trigger] binary_for(p, pt) implies (all_hold(
                cs@.push(c),
                pt,
            ) <==> all_hold(before, pt) && forall|a: int|
                0 <= a < i + 1 ==> #[trigger] p.one_project(a, pt)) by {
                lemma_all_hold_push(cs@, c, pt);
                lemma_x_row(i, m as int, pt);
                assert(pt.x[i as int].take(m as int) =~= pt.x[i as int]);
                assert(c.holds(pt) <==> p.one_project(i as int, pt));
            }
        }
        proof {
            lemma_views_push(cs@, c);
        }
        cs.push(c);
        assert(views(cs@) =~= views(before) + p.rows_one_project(i + 1));
        i += 1;
    }
}

/// Counts the students who are pinned to the project at position `j`.
#[verifier::loop_isolation(false)]
pub(crate) fn count_fest(l: &Lineup, j: usize, Ghost(p): Ghost<Problem>) -> (r: usize)
    requires
        l.of(p),
        j < l.pids.len(),
    ensures
        r == p.num_fest(j as int, p.n()),
        r <= p.n(),
{
    let n = l.sids.len();
    let mut count: usize = 0;
    let mut i: usize = 0;
    while i < n
        invariant
            i <= n,
            count <= i,
            count == p.num_fest(j as int, i as int),
        decreases n - i,
    {
        let s = l.schueler[i];
        let fest = match s.fest {
            Some(f) => f,
            None => false,
        };
        let hit = match s.wishes {
            Some(w) => fest && w[0].0 == l.pids[j],
            None => false,
        };
        assert(hit <==> s.pinned() == Some(ProjektId(l.pids@[j as int])));
        if hit {
            count += 1;
        }
        i += 1;
    }
    count
}

/// Adds, for each project with an upper bound, that its `X` sum to no more
/// than the bound and the number of students pinned to it.
#[verifier::loop_isolation(false)]
pub(crate) fn add_within_capacity(cs: &mut Vec<Restriction>, l: &Lineup, Ghost(p): Ghost<Problem>)
    requires
        l.of(p),
        sized_for(p, old(cs)@),
        p.n() <= i32::MAX,
    ensures
        sized_for(p, final(cs)@),
        views(final(cs)@) == views(old(cs)@) + p.rows_capacity(p.m()),
        forall|pt: Point| #[trigger]
            binary_for(p, pt) ==> (all_hold(final(cs)@, pt) <==> all_hold(old(cs)@, pt)
                && p.within_capacity(pt)),
{
    let ghost before = cs@;
    assert(views(cs@) =~= views(before) + p.rows_capacity(0));
    let n = l.sids.len();
    let m = l.pids.len();
    let mut j: usize = 0;
    while j < m
        invariant
            j <= m,
            sized_for(p, cs@),
            views(cs@) == views(before) + p.rows_capacity(j as int),
            forall|pt: Point| #[trigger]
                binary_for(p, pt) ==> (all_hold(cs@, pt) <==> all_hold(before, pt) && forall|
                    b: int,
                |
                    0 <= b < j ==> #[trigger] p.not_over(b, pt)),
        decreases m - j,
    {
        let max = l.projekte[j].max_teilnehmer;
        if max != UNBEGRENZT {
            let fest = count_fest(l, j, Ghost(p));
            let bound: i64 = max as i64 + fest as i64;
            let rhs: i32 = if bound > 0x7fff_ffff {
                0x7fff_ffff
            } else {
                bound as i32
            };
            let c = Restriction { terms: build_x_column(j, n), relation: Relation::Le, rhs };
            proof {
                assert forall|pt: Point| #[trigger] binary_for(p, pt) implies (all_hold(
                    cs@.push(c),
                    pt,
                ) <==> all_hold(before, pt) && forall|b: int|
                    0 <= b < j + 1 ==> #[trigger] p.not_over(b, pt)) by {
                    lemma_all_hold_push(cs@, c, pt);
                    lemma_x_column(j, n as int, pt);
                    lemma_column_sum_bits(pt.x, j as int, n as int, m as int);
                    assert(c.holds(pt) <==> p.not_over(j as int, pt));
                }
            }
            proof {
                lemma_views_push(cs@, c);
            }
            cs.push(c);
        } else {
            assert forall|pt: Point| #[trigger] binary_for(p, pt) implies p.not_over(
                j as int,
                pt,
            ) by {}
        }
        assert(views(cs@) =~= views(before) + p.rows_capacity(j + 1));
        j += 1;
    }
}

/// Adds, for each project with a lower bound, that its `X` sum to no less than
/// the bound.
#[verifier::loop_isolation(false)]
pub(crate) fn add_filled(cs: &mut Vec<Restriction>, l: &Lineup, Ghost(p): Ghost<Problem>)
    requires
        l.of(p),
        sized_for(p, old(cs)@),
    ensures
        sized_for(p, final(cs)@),
        views(final(cs)@) == views(old(cs)@) + p.rows_filled(p.m()),
        forall|pt: Point| #[trigger]
            binary_for(p, pt) ==> (all_hold(final(cs)@, pt) <==> all_hold(old(cs)@, pt)
                && p.filled(pt)),
{
    let ghost before = cs@;
    assert(views(cs@) =~= views(before) + p.rows_filled(0));
    let n = l.sids.len();
    let m = l.pids.len();
    let mut j: usize = 0;
    while j < m
        invariant
            j <= m,
            sized_for(p, cs@),
            views(cs@) == views(before) + p.rows_filled(j as int),
            forall|pt: Point| #[trigger]
                binary_for(p, pt) ==> (all_hold(cs@, pt) <==> all_hold(before, pt) && forall|
                    b: int,
                |
                    0 <= b < j ==> #[trigger] p.not_under(b, pt)),
        decreases m - j,
    {
        let min = l.projekte[j].min_teilnehmer;
        if min != UNBEGRENZT {
            let c = Restriction { terms: build_x_column(j, n), relation: Relation::Ge, rhs: min };
            proof {
                assert forall|pt: Point| #[trigger] binary_for(p, pt) implies (all_hold(
                    cs@.push(c),
                    pt,
                ) <==> all_hold(before, pt) && forall|b: int|
                    0 <= b < j + 1 ==> #[trigger] p.not_under(b, pt)) by {
                    lemma_all_hold_push(cs@, c, pt);
                    lemma_x_column(j, n as int, pt);
                    assert(c.holds(pt) <==> p.not_under(j as int, pt));
                }
            }
            proof {
                lemma_views_push(cs@, c);
            }
            cs.push(c);
        } else {
            assert forall|pt: Point| #[trigger] binary_for(p, pt) implies p.not_under(
                j as int,
                pt,
            ) by {}
        }
        assert(views(cs@) =~= views(before) + p.rows_filled(j + 1));
        j += 1;
    }
}

/// Builds the constraint that the `X` of student `i` and project `j` is
/// `rhs`.
pub fn pin(i: usize, j: usize, rhs: i32) -> (c: Restriction)
    ensures
        c.terms@ == seq![Term { coeff: 1, var: Var::X { schueler: i, projekt: j } }],
        c.relation == Relation::Eq,
        c.rhs == rhs,
{
    let mut terms: Vec<Term> = Vec::new();
    terms.push(Term { coeff: 1, var: Var::X { schueler: i, projekt: j } });
    assert(terms@ =~= seq![Term { coeff: 1, var: Var::X { schueler: i, projekt: j } }]);
    Restriction { terms, relation: Relation::Eq, rhs }
}

/// A row that pins the `X` of a student and a project says that the `X` is
/// the right-hand side.
pub proof fn lemma_pin(c: Restriction, i: usize, j: usize, pt: Point)
    requires
        c.terms@ == seq![Term { coeff: 1, var: Var::X { schueler: i, projekt: j } }],
        c.relation == Relation::Eq,
    ensures
        c.holds(pt) <==> pt.x[i as int][j as int] == c.rhs,
{
    lemma_lin_one(Term { coeff: 1, var: Var::X { schueler: i, projekt: j } }, pt);
}

/// Adds, for each student who is bound by grade and each project that is
/// closed to the student's grade, that the student's `X` for it is 0.
#[verifier::loop_isolation(false)]
pub(crate) fn add_grades_respected(
    cs: &mut Vec<Restriction>,
    l: &Lineup,
    fixed: &BTreeMap<u128, ProjektId>,
    Ghost(p): Ghost<Problem>,
)
    requires
        l.of(p),
        p.fixed == fixed@,
        sized_for(p, old(cs)@),
    ensures
        sized_for(p, final(cs)@),
        views(final(cs)@) == views(old(cs)@) + p.rows_grades(p.n()),
        forall|pt: Point| #[trigger]
            binary_for(p, pt) ==> (all_hold(final(cs)@, pt) <==> all_hold(old(cs)@, pt)
                && p.grades_respected(pt)),
{
    let ghost before = cs@;
    assert(views(cs@) =~= views(before) + p.rows_grades(0));
    let n = l.sids.len();
    let m = l.pids.len();
    let mut i: usize = 0;
    while i < n
        invariant
            i <= n,
            sized_for(p, cs@),
            views(cs@) == views(before) + p.rows_grades(i as int),
            forall|pt: Point| #[trigger]
                binary_for(p, pt) ==> (all_hold(cs@, pt) <==> all_hold(before, pt) && forall|
                    a: int,
                    b: int,
                |
                    0 <= a < i && 0 <= b < m ==> #[trigger] p.grade_respected(a, b, pt)),
        decreases n - i,
    {
        let s = l.schueler[i];
        let stufe = s.klasse.stufe();
        let fest = match s.fest {
            Some(f) => f,
            None => false,
        };
        let bound = stufe.is_some() && !fixed.contains_key(&l.sids[i]) && !fest;
        assert(bound == p.bound_by_grade(i as int));
        let mut j: usize = 0;
        assert(views(cs@) =~= views(before) + p.rows_grades(i as int) + p.rows_grade_of(i as int, 0));
        while j < m
            invariant
                j <= m,
                i < n,
                sized_for(p, cs@),
                views(cs@) == views(before) + p.rows_grades(i as int) + p.rows_grade_of(i as int, j as int),
                forall|pt: Point| #[trigger]
                    binary_for(p, pt) ==> (all_hold(cs@, pt) <==> all_hold(before, pt) && forall|
                        a: int,
                        b: int,
                    |
                        0 <= a <= i && 0 <= b < m && (a < i || b < j)
                            ==> #[trigger] p.grade_respected(a, b, pt)),
            decreases m - j,
        {
            let closed = match stufe {
                Some(g) => bound && !l.projekte[j].takes_stufe(g),
                None => false,
            };
            assert(*l.projekte@[j as int] == p.project(j as int));
            assert(closed <==> (p.bound_by_grade(i as int) && !p.project(j as int).admits(
                stufe->0,
            )));
            if closed {
                let c = pin(i, j, 0);
                proof {
                    assert forall|pt: Point| #[trigger] binary_for(p, pt) implies (all_hold(
                        cs@.push(c),
                        pt,
                    ) <==> all_hold(before, pt) && forall|a: int, b: int|
                        0 <= a <= i && 0 <= b < m && (a < i || b < j + 1)
                            ==> #[trigger] p.grade_respected(a, b, pt)) by {
                        lemma_all_hold_push(cs@, c, pt);
                        lemma_pin(c, i, j, pt);
                        assert(c.holds(pt) <==> p.grade_respected(i as int, j as int, pt));
                    }
                }
                proof {
                    lemma_views_push(cs@, c);
                }
                cs.push(c);
            } else {
                assert forall|pt: Point| #[trigger] binary_for(p, pt) implies p.grade_respected(
                    i as int,
                    j as int,
                    pt,
                ) by {}
            }
            assert(views(cs@) =~= views(before) + p.rows_grades(i as int) + p.rows_grade_of(i as int, j + 1));
            j += 1;
        }
        assert(views(cs@) =~= views(before) + p.rows_grades(i + 1));
        i += 1;
    }
}

/// Builds a constraint of two terms.
pub fn two_terms(a: Term, b: Term, relation: Relation, rhs: i32) -> (c: Restriction)
    ensures
        c.terms@ == seq![a, b],
        c.relation == relation,
        c.rhs == rhs,
{
    let mut terms: Vec<Term> = Vec::new();
    terms.push(a);
    terms.push(b);
    assert(terms@ =~= seq![a, b]);
    Restriction { terms, relation, rhs }
}

/// Builds a constraint of three terms.
pub fn three_terms(a: Term, b: Term, c: Term, relation: Relation, rhs: i32) -> (r: Restriction)
    ensures
        r.terms@ == seq![a, b, c],
        r.relation == relation,
        r.rhs == rhs,
{
    let mut terms: Vec<Term> = Vec::new();
    terms.push(a);
    terms.push(b);
    terms.push(c);
    assert(terms@ =~= seq![a, b, c]);
    Restriction { terms, relation, rhs }
}

/// The three constraints that link the `W` of a pair to the `X` of its two
/// students say what they are meant to say.
pub proof fn lemma_pair_link(
    k: usize,
    j: usize,
    first: usize,
    second: usize,
    c1: Restriction,
    c2: Restriction,
    c3: Restriction,
    pt: Point,
)
    requires
        c1.terms@ == seq![
            Term { coeff: 1, var: Var::W { paar: k, projekt: j } },
            Term { coeff: -1i32, var: Var::X { schueler: first, projekt: j } },
        ],
        c2.terms@ == seq![
            Term { coeff: 1, var: Var::W { paar: k, projekt: j } },
            Term { coeff: -1i32, var: Var::X { schueler: second, projekt: j } },
        ],
        c3.terms@ == seq![
            Term { coeff: 1, var: Var::X { schueler: first, projekt: j } },
            Term { coeff: 1, var: Var::X { schueler: second, projekt: j } },
            Term { coeff: -1i32, var: Var::W { paar: k, projekt: j } },
        ],
        c1.relation == Relation::Le && c1.rhs == 0,
        c2.relation == Relation::Le && c2.rhs == 0,
        c3.relation == Relation::Le && c3.rhs == 1,
    ensures
        c1.holds(pt) <==> pt.w[k as int][j as int] <= pt.x[first as int][j as int],
        c2.holds(pt) <==> pt.w[k as int][j as int] <= pt.x[second as int][j as int],
        c3.holds(pt) <==> pt.x[first as int][j as int] + pt.x[second as int][j as int] - 1
            <= pt.w[k as int][j as int],
{
    let w = Term { coeff: 1, var: Var::W { paar: k, projekt: j } };
    let w_neg = Term { coeff: -1i32, var: Var::W { paar: k, projekt: j } };
    let x1 = Term { coeff: 1, var: Var::X { schueler: first, projekt: j } };
    let x2 = Term { coeff: 1, var: Var::X { schueler: second, projekt: j } };
    let x1_neg = Term { coeff: -1i32, var: Var::X { schueler: first, projekt: j } };
    let x2_neg = Term { coeff: -1i32, var: Var::X { schueler: second, projekt: j } };
    lemma_lin_two(w, x1_neg, pt);
    lemma_lin_two(w, x2_neg, pt);
    lemma_lin_three(x1, x2, w_neg, pt);
}

/// Adds, for each mutual pair and each project, that the pair's `W` is no
/// more than either student's `X` and no less than their sum less one.
#[verifier::loop_isolation(false)]
pub(crate) fn add_pairs_linked(
    cs: &mut Vec<Restriction>,
    l: &Lineup,
    pairs: &Vec<(usize, usize)>,
    Ghost(p): Ghost<Problem>,
)
    requires
        l.of(p),
        pairs_match(pairs@, p.pairs(), p.n()),
        sized_for(p, old(cs)@),
    ensures
        sized_for(p, final(cs)@),
        views(final(cs)@) == views(old(cs)@) + p.rows_pairs(p.pairs().len() as int),
        forall|pt: Point| #[trigger]
            binary_for(p, pt) ==> (all_hold(final(cs)@, pt) <==> all_hold(old(cs)@, pt)
                && p.pairs_linked(pt)),
{
    let ghost before = cs@;
    assert(views(cs@) =~= views(before) + p.rows_pairs(0));
    let m = l.pids.len();
    let mut k: usize = 0;
    while k < pairs.len()
        invariant
            k <= pairs.len(),
            sized_for(p, cs@),
            views(cs@) == views(before) + p.rows_pairs(k as int),
            forall|pt: Point| #[trigger]
                binary_for(p, pt) ==> (all_hold(cs@, pt) <==> all_hold(before, pt) && forall|
                    a: int,
                    b: int,
                |
                    0 <= a < k && 0 <= b < m ==> #[trigger] p.pair_linked(a, b, pt)),
        decreases pairs.len() - k,
    {
        let first: usize = pairs[k].0;
        let second: usize = pairs[k].1;
        assert(pairs@[k as int].0 == p.pairs()[k as int].0);
        let mut j: usize = 0;
        assert(views(cs@) =~= views(before) + p.rows_pairs(k as int) + p.rows_pair(k as int, 0));
        while j < m
            invariant
                j <= m,
                k < pairs.len(),
                sized_for(p, cs@),
                views(cs@) == views(before) + p.rows_pairs(k as int) + p.rows_pair(k as int, j as int),
                forall|pt: Point| #[trigger]
                    binary_for(p, pt) ==> (all_hold(cs@, pt) <==> all_hold(before, pt) && forall|
                        a: int,
                        b: int,
                    |
                        0 <= a <= k && 0 <= b < m && (a < k || b < j)
                            ==> #[trigger] p.pair_linked(a, b, pt)),
            decreases m - j,
        {
            let w = Term { coeff: 1, var: Var::W { paar: k, projekt: j } };
            let w_neg = Term { coeff: -1, var: Var::W { paar: k, projekt: j } };
            let x1 = Term { coeff: 1, var: Var::X { schueler: first, projekt: j } };
            let x2 = Term { coeff: 1, var: Var::X { schueler: second, projekt: j } };
            let x1_neg = Term { coeff: -1, var: Var::X { schueler: first, projekt: j } };
            let x2_neg = Term { coeff: -1, var: Var::X { schueler: second, projekt: j } };
            let c1 = two_terms(w, x1_neg, Relation::Le, 0);
            let c2 = two_terms(w, x2_neg, Relation::Le, 0);
            let c3 = three_terms(x1, x2, w_neg, Relation::Le, 1);
            proof {
                let step1 = cs@.push(c1);
                let step2 = step1.push(c2);
                let step3 = step2.push(c3);
                assert(sized_for(p, step3));
                assert forall|pt: Point| #[trigger] binary_for(p, pt) implies (all_hold(
                    step3,
                    pt,
                ) <==> all_hold(before, pt) && forall|a: int, b: int|
                    0 <= a <= k && 0 <= b < m && (a < k || b < j + 1) ==> #[trigger] p.pair_linked(
                        a,
                        b,
                        pt,
                    )) by {
                    lemma_all_hold_push(cs@, c1, pt);
                    lemma_all_hold_push(step1, c2, pt);
                    lemma_all_hold_push(step2, c3, pt);
                    lemma_pair_link(k, j, first, second, c1, c2, c3, pt);
                    assert(p.pairs()[k as int] == (first as int, second as int));
                    assert(c1.holds(pt) && c2.holds(pt) && c3.holds(pt) <==> p.pair_linked(
                        k as int,
                        j as int,
                        pt,
                    ));
                }
            }
            proof {
                lemma_views_push(cs@, c1);
            }
            cs.push(c1);
            proof {
                lemma_views_push(cs@, c2);
            }
            cs.push(c2);
            proof {
                lemma_views_push(cs@, c3);
            }
            cs.push(c3);
            assert(views(cs@) =~= views(before) + p.rows_pairs(k as int) + p.rows_pair(k as int, j + 1));
            j += 1;
        }
        assert(views(cs@) =~= views(before) + p.rows_pairs(k + 1));
        k += 1;
    }
}

/// Adds, for each mutual pair, that its `Same` is no more than the sum of its
/// `W`.
#[verifier::loop_isolation(false)]
pub(crate) fn add_same_bounded(
    cs: &mut Vec<Restriction>,
    l: &Lineup,
    pairs: usize,
    Ghost(p): Ghost<Problem>,
)
    requires
        l.of(p),
        pairs == p.pairs().len(),
        sized_for(p, old(cs)@),
    ensures
        sized_for(p, final(cs)@),
        views(final(cs)@) == views(old(cs)@) + p.rows_same(p.pairs().len() as int),
        forall|pt: Point| #[trigger]
            binary_for(p, pt) ==> (all_hold(final(cs)@, pt) <==> all_hold(old(cs)@, pt)
                && p.same_bounded(pt)),
{
    let ghost before = cs@;
    assert(views(cs@) =~= views(before) + p.rows_same(0));
    let m = l.pids.len();
    let mut k: usize = 0;
    while k < pairs
        invariant
            k <= pairs,
            sized_for(p, cs@),
            views(cs@) == views(before) + p.rows_same(k as int),
            forall|pt: Point| #[trigger]
                binary_for(p, pt) ==> (all_hold(cs@, pt) <==> all_hold(before, pt) && forall|
                    a: int,
                |
                    0 <= a < k ==> #[trigger] p.same_bound(a, pt)),
        decreases pairs - k,
    {
        let c = Restriction { terms: build_same_row(k, m), relation: Relation::Le, rhs: 0 };
        proof {
            assert forall|pt: Point| #[trigger] binary_for(p, pt) implies (all_hold(
                cs@.push(c),
                pt,
            ) <==> all_hold(before, pt) && forall|a: int|
                0 <= a < k + 1 ==> #[trigger] p.same_bound(a, pt)) by {
                lemma_all_hold_push(cs@, c, pt);
                lemma_same_row(k, m as int, pt);
                assert(pt.w[k as int].take(m as int) =~= pt.w[k as int]);
                assert(c.holds(pt) <==> p.same_bound(k as int, pt));
            }
        }
        proof {
            lemma_views_push(cs@, c);
        }
        cs.push(c);
        assert(views(cs@) =~= views(before) + p.rows_same(k + 1));
        k += 1;
    }
}

/// Adds, for each student who is pinned to a project, that the student's `X`
/// for it is 1.
#[verifier::loop_isolation(false)]
pub(crate) fn add_pinned_honored(cs: &mut Vec<Restriction>, l: &Lineup, Ghost(p): Ghost<Problem>)
    requires
        l.of(p),
        sized_for(p, old(cs)@),
    ensures
        sized_for(p, final(cs)@),
        views(final(cs)@) == views(old(cs)@) + p.rows_pinned(p.n()),
        forall|pt: Point| #[trigger]
            binary_for(p, pt) ==> (all_hold(final(cs)@, pt) <==> all_hold(old(cs)@, pt)
                && p.pinned_honored(pt)),
{
    let ghost before = cs@;
    assert(views(cs@) =~= views(before) + p.rows_pinned(0));
    let n = l.sids.len();
    let mut i: usize = 0;
    while i < n
        invariant
            i <= n,
            sized_for(p, cs@),
            views(cs@) == views(before) + p.rows_pinned(i as int),
            forall|pt: Point| #[trigger]
                binary_for(p, pt) ==> (all_hold(cs@, pt) <==> all_hold(before, pt) && forall|
                    a: int,
                |
                    0 <= a < i ==> #[trigger] p.pin_honored(a, pt)),
        decreases n - i,
    {
        let s = l.schueler[i];
        let fest = match s.fest {
            Some(f) => f,
            None => false,
        };
        let mut index: Option<usize> = None;
        match s.wishes {
            Some(w) => {
                if fest {
                    index = project_index(&l.pids, w[0]);
                }
            },
            None => {},
        }
        assert(match index {
            Some(j) => p.pinned_index(i as int) == Some(j as int),
            None => p.pinned_index(i as int) is None,
        });
        match index {
            Some(j) => {
                let c = pin(i, j, 1);
                proof {
                    assert forall|pt: Point| #[trigger] binary_for(p, pt) implies (all_hold(
                        cs@.push(c),
                        pt,
                    ) <==> all_hold(before, pt) && forall|a: int|
                        0 <= a < i + 1 ==> #[trigger] p.pin_honored(a, pt)) by {
                        lemma_all_hold_push(cs@, c, pt);
                        lemma_pin(c, i, j, pt);
                        assert(c.holds(pt) <==> p.pin_honored(i as int, pt));
                    }
                }
                proof {
                    lemma_views_push(cs@, c);
                }
                cs.push(c);
            },
            None => {
                assert forall|pt: Point| #[trigger] binary_for(p, pt) implies p.pin_honored(
                    i as int,
                    pt,
                ) by {}
            },
        }
        assert(views(cs@) =~= views(before) + p.rows_pinned(i + 1));
        i += 1;
    }
}

/// Adds, for each student who is fixed to a project beforehand, that the
/// student's `X` for it is 1.
#[verifier::loop_isolation(false)]
pub(crate) fn add_fixed_honored(
    cs: &mut Vec<Restriction>,
    l: &Lineup,
    fixed: &BTreeMap<u128, ProjektId>,
    Ghost(p): Ghost<Problem>,
)
    requires
        l.of(p),
        p.fixed == fixed@,
        sized_for(p, old(cs)@),
    ensures
        sized_for(p, final(cs)@),
        views(final(cs)@) == views(old(cs)@) + p.rows_fixed(p.n()),
        forall|pt: Point| #[trigger]
            binary_for(p, pt) ==> (all_hold(final(cs)@, pt) <==> all_hold(old(cs)@, pt)
                && p.fixed_honored(pt)),
{
    let ghost before = cs@;
    assert(views(cs@) =~= views(before) + p.rows_fixed(0));
    let n = l.sids.len();
    let mut i: usize = 0;
    while i < n
        invariant
            i <= n,
            sized_for(p, cs@),
            views(cs@) == views(before) + p.rows_fixed(i as int),
            forall|pt: Point| #[trigger]
                binary_for(p, pt) ==> (all_hold(cs@, pt) <==> all_hold(before, pt) && forall|
                    a: int,
                |
                    0 <= a < i ==> #[trigger] p.fix_honored(a, pt)),
        decreases n - i,
    {
        let mut index: Option<usize> = None;
        match fixed.get(&l.sids[i]) {
            Some(id) => {
                index = project_index(&l.pids, *id);
            },
            None => {},
        }
        assert(match index {
            Some(j) => p.fixed_index(i as int) == Some(j as int),
            None => p.fixed_index(i as int) is None,
        });
        match index {
            Some(j) => {
                let c = pin(i, j, 1);
                proof {
                    assert forall|pt: Point| #[trigger] binary_for(p, pt) implies (all_hold(
                        cs@.push(c),
                        pt,
                    ) <==> all_hold(before, pt) && forall|a: int|
                        0 <= a < i + 1 ==> #[trigger] p.fix_honored(a, pt)) by {
                        lemma_all_hold_push(cs@, c, pt);
                        lemma_pin(c, i, j, pt);
                        assert(c.holds(pt) <==> p.fix_honored(i as int, pt));
                    }
                }
                proof {
                    lemma_views_push(cs@, c);
                }
                cs.push(c);
            },
            None => {
                assert forall|pt: Point| #[trigger] binary_for(p, pt) implies p.fix_honored(
                    i as int,
                    pt,
                ) by {}
            },
        }
        assert(views(cs@) =~= views(before) + p.rows_fixed(i + 1));
        i += 1;
    }
}

/// The problem that the three maps pose.
pub open spec fn problem_of(
    projects: Map<u32, Projekt>,
    students: Map<u128, SaveFileSchueler>,
    fixed: Map<u128, ProjektId>,
) -> Problem {
    Problem { projects, students, fixed }
}

/// Whether `model` is a program of the problem `p`: it has a variable for
/// each student and project and for each mutual pair, a point that gives 0 or
/// 1 to every variable meets its constraints exactly if it is a valid
/// assignment, and its objective at such a point is the score of the
/// assignment.
pub open spec fn formulated(p: Problem, model: Model) -> bool {
    &&& model.wf()
    &&& model.schueler == p.n()
    &&& model.projekte == p.m()
    &&& model.paare == p.pairs().len()
    &&& forall|pt: Point| #[trigger] model.feasible(pt) <==> binary_for(p, pt) && p.valid(pt)
    &&& forall|pt: Point| #[trigger] binary_for(p, pt) ==> model.objective_at(pt) == p.score(pt)
}

/// Writes the assignment of the students to the projects as an integer
/// program.
///
/// A point that gives 0 or 1 to every variable meets the constraints of the
/// program exactly if it is a valid assignment, and the objective of the
/// program at such a point is the score of the assignment.
pub fn formulate(
    projects: &BTreeMap<u32, Projekt>,
    students: &BTreeMap<u128, SaveFileSchueler>,
    feste_zuordnung: &BTreeMap<u128, ProjektId>,
) -> (r: Model)
    requires
        students@.dom().len() <= i32::MAX,
    ensures
        formulated(problem_of(projects@, students@, feste_zuordnung@), r),
        r.light(),
        r.objective@ == problem_of(projects@, students@, feste_zuordnung@).objective(),
        views(r.constraints@) == problem_of(projects@, students@, feste_zuordnung@).rows(),
        r.wf(),
        r.schueler == problem_of(projects@, students@, feste_zuordnung@).n(),
        r.projekte == problem_of(projects@, students@, feste_zuordnung@).m(),
        r.paare == problem_of(projects@, students@, feste_zuordnung@).pairs().len(),
        forall|pt: Point| #[trigger]
            r.feasible(pt) <==> binary_for(problem_of(projects@, students@, feste_zuordnung@), pt)
                && problem_of(projects@, students@, feste_zuordnung@).valid(pt),
        forall|pt: Point| #[trigger]
            binary_for(problem_of(projects@, students@, feste_zuordnung@), pt) ==> r.objective_at(
                pt,
            ) == problem_of(projects@, students@, feste_zuordnung@).score(pt),
{
    let ghost p = problem_of(projects@, students@, feste_zuordnung@);
    let l = lineup(projects, students, Ghost(p));
    assert(p.n() == students@.dom().len());
    let pairs = find_pairs(&l, students, Ghost(p));
    let objective = build_objective(&l, pairs.len(), Ghost(p));
    let mut cs: Vec<Restriction> = Vec::new();
    assert(views(cs@) =~= Seq::<(Seq<Term>, Relation, i32)>::empty());
    add_one_project_each(&mut cs, &l, Ghost(p));
    add_within_capacity(&mut cs, &l, Ghost(p));
    add_filled(&mut cs, &l, Ghost(p));
    add_grades_respected(&mut cs, &l, feste_zuordnung, Ghost(p));
    add_pairs_linked(&mut cs, &l, &pairs, Ghost(p));
    add_same_bounded(&mut cs, &l, pairs.len(), Ghost(p));
    add_pinned_honored(&mut cs, &l, Ghost(p));
    add_fixed_honored(&mut cs, &l, feste_zuordnung, Ghost(p));
    assert(views(cs@) =~= p.rows());
    let r = Model {
        schueler: l.sids.len(),
        projekte: l.pids.len(),
        paare: pairs.len(),
        objective,
        constraints: cs,
    };
    proof {
        p.lemma_program_light();
        assert forall|t: int| 0 <= t < r.constraints@.len() implies crate::solver::model::light(
            (#[trigger] r.constraints@[t]).terms@,
        ) by {
            assert(views(r.constraints@)[t] == p.rows()[t]);
        }
        assert forall|pt: Point| #[trigger] r.feasible(pt) <==> binary_for(p, pt) && p.valid(
            pt,
        ) by {
            if binary_for(p, pt) {
                assert(all_hold(Seq::<Restriction>::empty(), pt));
            }
        }
    }
    r
}

} // verus!
