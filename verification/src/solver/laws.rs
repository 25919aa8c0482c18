//! What holds of every valid assignment.

use crate::data::UNBEGRENZT;
use crate::solver::formulate::binary_for;
use crate::solver::model::is_bit;
use crate::solver::model::sum;
use crate::solver::model::Model;
use crate::solver::model::Point;
use crate::solver::problem::Problem;
use crate::types::klasse::grade_of;
use vstd::prelude::*;

verus! {

/// Values that are each 0 or 1 and sum to 0 are all 0.
pub proof fn lemma_sum_zero(s: Seq<int>)
    requires
        forall|j: int| 0 <= j < s.len() ==> is_bit(#[trigger] s[j]),
        sum(s) == 0,
    ensures
        forall|j: int| 0 <= j < s.len() ==> #[trigger] s[j] == 0,
    decreases s.len(),
{
    if s.len() > 0 {
        let head = s.drop_last();
        crate::solver::model::lemma_sum_bits(head);
        assert(is_bit(s[s.len() - 1]));
        lemma_sum_zero(head);
        assert forall|j: int| 0 <= j < s.len() implies #[trigger] s[j] == 0 by {
            if j < s.len() - 1 {
                assert(head[j] == 0);
            }
        }
    }
}

/// Among values that are each 0 or 1 and sum to 1, exactly one is 1.
pub proof fn lemma_sum_one(s: Seq<int>) -> (at: int)
    requires
        forall|j: int| 0 <= j < s.len() ==> is_bit(#[trigger] s[j]),
        sum(s) == 1,
    ensures
        0 <= at < s.len(),
        s[at] == 1,
        forall|j: int| 0 <= j < s.len() && j != at ==> #[trigger] s[j] == 0,
    decreases s.len(),
{
    let head = s.drop_last();
    let last = s.len() - 1;
    crate::solver::model::lemma_sum_bits(head);
    assert(is_bit(s[last]));
    if s[last] == 1 {
        lemma_sum_zero(head);
        assert forall|j: int| 0 <= j < s.len() && j != last implies #[trigger] s[j] == 0 by {
            assert(head[j] == 0);
        }
        last
    } else {
        let at = lemma_sum_one(head);
        assert forall|j: int| 0 <= j < s.len() && j != at implies #[trigger] s[j] == 0 by {
            if j < last {
                assert(head[j] == 0);
            }
        }
        at
    }
}

/// In a valid assignment a student who takes part is in exactly one project,
/// and a student who takes no part is in none.
pub proof fn lemma_one_project_each(p: Problem, pt: Point, i: int) -> (at: int)
    requires
        binary_for(p, pt),
        p.valid(pt),
        0 <= i < p.n(),
    ensures
        p.student(i).ignore ==> forall|j: int| 0 <= j < p.m() ==> #[trigger] pt.x[i][j] == 0,
        !p.student(i).ignore ==> {
            &&& 0 <= at < p.m()
            &&& pt.x[i][at] == 1
            &&& forall|j: int| 0 <= j < p.m() && j != at ==> #[trigger] pt.x[i][j] == 0
        },
{
    assert(p.one_project(i, pt));
    assert(pt.x[i].len() == p.m());
    assert forall|j: int| 0 <= j < pt.x[i].len() implies is_bit(#[trigger] pt.x[i][j]) by {}
    if p.student(i).ignore {
        lemma_sum_zero(pt.x[i]);
        0
    } else {
        lemma_sum_one(pt.x[i])
    }
}

/// In a valid assignment a project with an upper bound holds no more students
/// than the bound and the students pinned to it together, and a project with
/// a lower bound no fewer than the bound.
pub proof fn lemma_capacity_respected(p: Problem, pt: Point, j: int)
    requires
        binary_for(p, pt),
        p.valid(pt),
        0 <= j < p.m(),
    ensures
        p.project(j).max_teilnehmer != UNBEGRENZT ==> pt.load(j) <= p.project(j).max_teilnehmer
            + p.num_fest(j, p.n()),
        p.project(j).min_teilnehmer != UNBEGRENZT ==> pt.load(j) >= p.project(j).min_teilnehmer,
{
    assert(p.not_over(j, pt));
    assert(p.not_under(j, pt));
}

/// In a valid assignment a student whose grade is known and who is neither
/// pinned nor fixed beforehand is only in a project that is open to the
/// student's grade.
pub proof fn lemma_grade_eligible(p: Problem, pt: Point, i: int, j: int)
    requires
        binary_for(p, pt),
        p.valid(pt),
        0 <= i < p.n(),
        0 <= j < p.m(),
        pt.x[i][j] == 1,
        p.bound_by_grade(i),
    ensures
        p.project(j).admits(grade_of(p.student(i).klasse.0@)->0),
{
    assert(p.grade_respected(i, j, pt));
}

/// In a valid assignment a student who is pinned to a project that exists is
/// in it, and so is a student who is fixed beforehand to a project that
/// exists.
pub proof fn lemma_fixed_honored(p: Problem, pt: Point, i: int)
    requires
        binary_for(p, pt),
        p.valid(pt),
        0 <= i < p.n(),
    ensures
        p.pinned_index(i) matches Some(j) ==> pt.x[i][j] == 1,
        p.fixed_index(i) matches Some(j) ==> pt.x[i][j] == 1,
{
    assert(p.pin_honored(i, pt));
    assert(p.fix_honored(i, pt));
}

/// Whether two points agree on the projects of every student but the one at
/// position `i`.
pub open spec fn differ_in_student(a: Point, b: Point, i: int) -> bool {
    &&& a.x.len() == b.x.len()
    &&& forall|t: int| 0 <= t < a.x.len() && t != i ==> #[trigger] a.x[t] == b.x[t]
}

/// Moving one student of an optimal assignment to another project gives no
/// feasible assignment with a greater objective.
pub proof fn lemma_no_better_swap(model: Model, best: Point, other: Point, i: int)
    requires
        model.optimal(best),
        model.feasible(other),
        differ_in_student(best, other, i),
    ensures
        model.objective_at(other) <= model.objective_at(best),
{
}

/// In a valid assignment the `W` of a pair for a project is 1 exactly if both
/// students of the pair are in the project, and the `Same` of a pair can be 1
/// only if the two share a project.
pub proof fn lemma_partner_bonus(p: Problem, pt: Point, k: int) -> (at: int)
    requires
        p.students.dom().finite(),
        binary_for(p, pt),
        p.valid(pt),
        0 <= k < p.pairs().len(),
    ensures
        forall|j: int|
            0 <= j < p.m() ==> (#[trigger] pt.w[k][j] == 1 <==> pt.x[p.pairs()[k].0][j] == 1
                && pt.x[p.pairs()[k].1][j] == 1),
        pt.same[k] == 1 ==> {
            &&& 0 <= at < p.m()
            &&& pt.x[p.pairs()[k].0][at] == 1
            &&& pt.x[p.pairs()[k].1][at] == 1
        },
{
    lemma_pairs_in_range(p, p.n());
    let (a, b) = p.pairs()[k];
    assert forall|j: int| 0 <= j < p.m() implies (#[trigger] pt.w[k][j] == 1 <==> pt.x[a][j] == 1
        && pt.x[b][j] == 1) by {
        assert(p.pair_linked(k, j, pt));
        assert(is_bit(pt.w[k][j]));
        assert(is_bit(pt.x[a][j]));
        assert(is_bit(pt.x[b][j]));
    }
    if pt.same[k] == 1 {
        assert(p.same_bound(k, pt));
        assert(pt.w[k].len() == p.m());
        assert forall|j: int| 0 <= j < pt.w[k].len() implies is_bit(#[trigger] pt.w[k][j]) by {}
        let at = lemma_positive_sum(pt.w[k]);
        assert(pt.w[k][at] == 1);
        at
    } else {
        0
    }
}

/// Among values that are each 0 or 1 and whose sum is positive, one is 1.
pub proof fn lemma_positive_sum(s: Seq<int>) -> (at: int)
    requires
        forall|j: int| 0 <= j < s.len() ==> is_bit(#[trigger] s[j]),
        sum(s) >= 1,
    ensures
        0 <= at < s.len(),
        s[at] == 1,
    decreases s.len(),
{
    let last = s.len() - 1;
    assert(is_bit(s[last]));
    if s[last] == 1 {
        last
    } else {
        lemma_positive_sum(s.drop_last())
    }
}

/// The two students of every mutual pair among the first `upto` students are
/// students of the problem.
pub proof fn lemma_pairs_in_range(p: Problem, upto: int)
    requires
        p.students.dom().finite(),
        0 <= upto <= p.n(),
    ensures
        forall|k: int|
            0 <= k < p.pairs_upto(upto).len() ==> {
                &&& 0 <= (#[trigger] p.pairs_upto(upto)[k]).0 < p.n()
                &&& 0 <= p.pairs_upto(upto)[k].1 < p.n()
            },
    decreases upto,
{
    if upto > 0 {
        lemma_pairs_in_range(p, upto - 1);
        let before = p.pairs_upto(upto - 1);
        let now = p.pairs_upto(upto);
        if p.opens_pair(upto - 1) {
            let q = p.student(upto - 1).partner->0;
            crate::keys::lemma_student_order(p.students.dom());
            crate::solver::problem::lemma_position_of(p.sids(), q.0);
            assert(p.sids().to_set().contains(q.0));
            assert(p.sids().contains(q.0));
            assert(0 <= p.partner_index(upto - 1) < p.n());
            assert(now == before.push((upto - 1, p.partner_index(upto - 1))));
        } else {
            assert(now == before);
        }
        assert forall|k: int| 0 <= k < now.len() implies 0 <= (#[trigger] now[k]).0 < p.n() && 0
            <= now[k].1 < p.n() by {
            if k < before.len() {
                assert(now[k] == before[k]);
            }
        }
    }
}

} // verus!
