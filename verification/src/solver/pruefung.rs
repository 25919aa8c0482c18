//! Checking an assignment that is given as a table of yes and no.
//!
//! A table says for each student and each project whether the student is in
//! the project. It is read as a point of the integer program: the `X` are
//! the entries of the table, the `W` of a pair for a project is 1 exactly if
//! both students are in the project, and the `Same` of a pair is 1 exactly
//! if the two share a project.

use crate::data::Projekt;
use crate::data::UNBEGRENZT;
use crate::solver::formulate::binary_for;
use crate::solver::formulate::find_pairs;
use crate::solver::formulate::pairs_match;
use crate::solver::formulate::problem_of;
use crate::solver::is_matrix;
use crate::solver::laws::lemma_pairs_in_range;
use crate::solver::lineup::lineup;
use crate::solver::lineup::project_index;
use crate::solver::lineup::Lineup;
use crate::solver::model::column_sum;
use crate::solver::model::is_bit;
use crate::solver::model::lemma_sum_push;
use crate::solver::model::sum;
use crate::solver::model::Point;
use crate::solver::problem::wish_weight;
use crate::solver::problem::Problem;
use crate::solver::problem::PARTNER_WEIGHT;
use crate::types::ProjektId;
use crate::types::SaveFileSchueler;
use std::collections::BTreeMap;
use vstd::prelude::*;

verus! {

/// 1 for yes and 0 for no.
pub open spec fn bit(b: bool) -> int {
    if b {
        1
    } else {
        0
    }
}

/// Whether the students at the positions `a` and `b` share one of `m`
/// projects.
pub open spec fn shares(x: Seq<Vec<bool>>, a: int, b: int, m: int) -> bool {
    exists|j: int| 0 <= j < m && #[trigger] x[a]@[j] && x[b]@[j]
}

/// The point that a table stands for.
pub open spec fn point_of(p: Problem, x: Seq<Vec<bool>>) -> Point {
    Point {
        x: Seq::new(x.len(), |i: int| Seq::new(x[i]@.len(), |j: int| bit(x[i]@[j]))),
        w: Seq::new(
            p.pairs().len(),
            |k: int|
                Seq::new(
                    p.m() as nat,
                    |j: int| bit(x[p.pairs()[k].0]@[j] && x[p.pairs()[k].1]@[j]),
                ),
        ),
        same: Seq::new(
            p.pairs().len(),
            |k: int| bit(shares(x, p.pairs()[k].0, p.pairs()[k].1, p.m())),
        ),
    }
}

/// Whether a table is a valid assignment for the problem `p`.
pub open spec fn valid_assignment(p: Problem, x: Seq<Vec<bool>>) -> bool {
    &&& is_matrix(x, p.n(), p.m())
    &&& p.valid(point_of(p, x))
}

/// The objective of a table: the weights of the wishes that are met, and the
/// partner weight for every mutual pair that shares a project.
pub open spec fn score_of(p: Problem, x: Seq<Vec<bool>>) -> int {
    p.score(point_of(p, x))
}

/// Among values that are each 0 or 1 and of which one is 1, the sum is 1 at
/// least.
pub proof fn lemma_sum_at_least(s: Seq<int>, at: int)
    requires
        forall|j: int| 0 <= j < s.len() ==> is_bit(#[trigger] s[j]),
        0 <= at < s.len(),
        s[at] == 1,
    ensures
        sum(s) >= 1,
    decreases s.len(),
{
    crate::solver::model::lemma_sum_bits(s.drop_last());
    if at < s.len() - 1 {
        lemma_sum_at_least(s.drop_last(), at);
        assert(is_bit(s[s.len() - 1]));
    }
}

/// The point of a table of the right size gives 0 or 1 to each variable, and
/// links each pair to its two students.
pub proof fn lemma_point_of(p: Problem, x: Seq<Vec<bool>>)
    requires
        p.students.dom().finite(),
        is_matrix(x, p.n(), p.m()),
    ensures
        binary_for(p, point_of(p, x)),
        p.pairs_linked(point_of(p, x)),
        p.same_bounded(point_of(p, x)),
{
    let pt = point_of(p, x);
    lemma_pairs_in_range(p, p.n());
    assert forall|k: int, j: int|
        0 <= k < p.pairs().len() && 0 <= j < p.m() implies #[trigger] p.pair_linked(k, j, pt) by {
        let (a, b) = p.pairs()[k];
        assert(pt.x[a][j] == bit(x[a]@[j]));
        assert(pt.x[b][j] == bit(x[b]@[j]));
    }
    assert forall|k: int| 0 <= k < p.pairs().len() implies #[trigger] p.same_bound(k, pt) by {
        let (a, b) = p.pairs()[k];
        if shares(x, a, b, p.m()) {
            let j = choose|j: int| 0 <= j < p.m() && #[trigger] x[a]@[j] && x[b]@[j];
            assert(pt.w[k][j] == 1);
            lemma_sum_at_least(pt.w[k], j);
        } else {
            crate::solver::model::lemma_sum_bits(pt.w[k]);
        }
    }
}

/// Counts the entries of a row that say yes.
fn count_row(row: &Vec<bool>) -> (r: usize)
    ensures
        r == sum(Seq::new(row@.len(), |j: int| bit(row@[j]))),
        r <= row@.len(),
{
    let ghost bits = Seq::new(row@.len(), |j: int| bit(row@[j]));
    let mut count: usize = 0;
    let mut j: usize = 0;
    while j < row.len()
        invariant
            j <= row.len(),
            count <= j,
            bits == Seq::new(row@.len(), |j: int| bit(row@[j])),
            count == sum(bits.take(j as int)),
        decreases row.len() - j,
    {
        proof {
            lemma_sum_push(bits.take(j as int), bits[j as int]);
            assert(bits.take(j as int).push(bits[j as int]) =~= bits.take(j + 1));
        }
        if row[j] {
            count += 1;
        }
        j += 1;
    }
    assert(bits.take(j as int) =~= bits);
    count
}

/// Counts the students that a table puts in the project at position `j`.
fn count_column(x: &Vec<Vec<bool>>, j: usize, Ghost(p): Ghost<Problem>) -> (r: usize)
    requires
        is_matrix(x@, p.n(), p.m()),
        j < p.m(),
    ensures
        r == column_sum(point_of(p, x@).x, j as int, p.n()),
        r <= p.n(),
{
    let ghost pt = point_of(p, x@);
    let mut count: usize = 0;
    let mut i: usize = 0;
    while i < x.len()
        invariant
            i <= x.len(),
            count <= i,
            is_matrix(x@, p.n(), p.m()),
            j < p.m(),
            pt == point_of(p, x@),
            count == column_sum(pt.x, j as int, i as int),
        decreases x.len() - i,
    {
        assert(pt.x[i as int][j as int] == bit(x@[i as int]@[j as int]));
        if x[i][j] {
            count += 1;
        }
        i += 1;
    }
    count
}

#[verifier::loop_isolation(false)]
fn check_one_project_each(x: &Vec<Vec<bool>>, l: &Lineup, Ghost(p): Ghost<Problem>) -> (r: bool)
    requires
        l.of(p),
        is_matrix(x@, p.n(), p.m()),
    ensures
        r == p.one_project_each(point_of(p, x@)),
{
    let ghost pt = point_of(p, x@);
    let mut i: usize = 0;
    while i < x.len()
        invariant
            i <= x.len(),
            forall|a: int| 0 <= a < i ==> #[trigger] p.one_project(a, pt),
        decreases x.len() - i,
    {
        let count = count_row(&x[i]);
        assert(pt.x[i as int] =~= Seq::new(x@[i as int]@.len(), |j: int| bit(x@[i as int]@[j])));
        let expected: usize = if l.schueler[i].ignore {
            0
        } else {
            1
        };
        if count != expected {
            assert(!p.one_project(i as int, pt));
            return false;
        }
        i += 1;
    }
    true
}

#[verifier::loop_isolation(false)]
fn check_capacity(x: &Vec<Vec<bool>>, l: &Lineup, Ghost(p): Ghost<Problem>) -> (r: bool)
    requires
        l.of(p),
        is_matrix(x@, p.n(), p.m()),
    ensures
        r == (p.within_capacity(point_of(p, x@)) && p.filled(point_of(p, x@))),
{
    let ghost pt = point_of(p, x@);
    let m = l.pids.len();
    let mut j: usize = 0;
    while j < m
        invariant
            j <= m,
            forall|b: int| 0 <= b < j ==> #[trigger] p.not_over(b, pt),
            forall|b: int| 0 <= b < j ==> #[trigger] p.not_under(b, pt),
        decreases m - j,
    {
        let count = count_column(x, j, Ghost(p));
        let max = l.projekte[j].max_teilnehmer;
        let min = l.projekte[j].min_teilnehmer;
        if max != UNBEGRENZT {
            let fest = crate::solver::formulate::count_fest(l, j, Ghost(p));
            if count as i128 > max as i128 + fest as i128 {
                assert(!p.not_over(j as int, pt));
                return false;
            }
        }
        if min != UNBEGRENZT {
            if (count as i128) < min as i128 {
                assert(!p.not_under(j as int, pt));
                return false;
            }
        }
        j += 1;
    }
    true
}

#[verifier::loop_isolation(false)]
fn check_grades(
    x: &Vec<Vec<bool>>,
    l: &Lineup,
    fixed: &BTreeMap<u128, ProjektId>,
    Ghost(p): Ghost<Problem>,
) -> (r: bool)
    requires
        l.of(p),
        p.fixed == fixed@,
        is_matrix(x@, p.n(), p.m()),
    ensures
        r == p.grades_respected(point_of(p, x@)),
{
    let ghost pt = point_of(p, x@);
    let n = l.sids.len();
    let m = l.pids.len();
    let mut i: usize = 0;
    while i < n
        invariant
            i <= n,
            forall|a: int, b: int|
                0 <= a < i && 0 <= b < m ==> #[trigger] p.grade_respected(a, b, pt),
        decreases n - i,
    {
        let s = l.schueler[i];
        let stufe = s.klasse.stufe();
        let fest = match s.fest {
            Some(f) => f,
            None => false,
        };
        let bound = stufe.is_some() && !fixed.contains_key(&l.sids[i]) && !fest;
        assert(bound == p.bound_by_grade(i as int));
        let mut j: usize = 0;
        while j < m
            invariant
                j <= m,
                i < n,
                forall|a: int, b: int|
                    0 <= a <= i && 0 <= b < m && (a < i || b < j) ==> #[trigger] p.grade_respected(
                        a,
                        b,
                        pt,
                    ),
            decreases m - j,
        {
            let closed = match stufe {
                Some(g) => bound && !l.projekte[j].takes_stufe(g),
                None => false,
            };
            assert(*l.projekte@[j as int] == p.project(j as int));
            assert(closed <==> (p.bound_by_grade(i as int) && !p.project(j as int).admits(
                stufe->0,
            )));
            assert(pt.x[i as int][j as int] == bit(x@[i as int]@[j as int]));
            if closed && x[i][j] {
                assert(!p.grade_respected(i as int, j as int, pt));
                return false;
            }
            j += 1;
        }
        i += 1;
    }
    true
}

#[verifier::loop_isolation(false)]
fn check_pinned(
    x: &Vec<Vec<bool>>,
    l: &Lineup,
    fixed: &BTreeMap<u128, ProjektId>,
    Ghost(p): Ghost<Problem>,
) -> (r: bool)
    requires
        l.of(p),
        p.fixed == fixed@,
        is_matrix(x@, p.n(), p.m()),
    ensures
        r == (p.pinned_honored(point_of(p, x@)) && p.fixed_honored(point_of(p, x@))),
{
    let ghost pt = point_of(p, x@);
    let n = l.sids.len();
    let mut i: usize = 0;
    while i < n
        invariant
            i <= n,
            forall|a: int| 0 <= a < i ==> #[trigger] p.pin_honored(a, pt),
            forall|a: int| 0 <= a < i ==> #[trigger] p.fix_honored(a, pt),
        decreases n - i,
    {
        let s = l.schueler[i];
        let fest = match s.fest {
            Some(f) => f,
            None => false,
        };
        let mut pinned: Option<usize> = None;
        match s.wishes {
            Some(w) => {
                if fest {
                    pinned = project_index(&l.pids, w[0]);
                }
            },
            None => {},
        }
        assert(match pinned {
            Some(j) => p.pinned_index(i as int) == Some(j as int),
            None => p.pinned_index(i as int) is None,
        });
        match pinned {
            Some(j) => {
                assert(pt.x[i as int][j as int] == bit(x@[i as int]@[j as int]));
                if !x[i][j] {
                    assert(!p.pin_honored(i as int, pt));
                    return false;
                }
            },
            None => {},
        }
        let mut fix: Option<usize> = None;
        match fixed.get(&l.sids[i]) {
            Some(id) => {
                fix = project_index(&l.pids, *id);
            },
            None => {},
        }
        assert(match fix {
            Some(j) => p.fixed_index(i as int) == Some(j as int),
            None => p.fixed_index(i as int) is None,
        });
        match fix {
            Some(j) => {
                assert(pt.x[i as int][j as int] == bit(x@[i as int]@[j as int]));
                if !x[i][j] {
                    assert(!p.fix_honored(i as int, pt));
                    return false;
                }
            },
            None => {},
        }
        i += 1;
    }
    true
}

/// Whether `x` has a row for each of `n` students with an entry for each of
/// `m` projects.
pub fn has_shape(x: &Vec<Vec<bool>>, n: usize, m: usize) -> (r: bool)
    ensures
        r == is_matrix(x@, n as int, m as int),
{
    if x.len() != n {
        return false;
    }
    let mut i: usize = 0;
    while i < n
        invariant
            i <= n,
            x@.len() == n,
            forall|a: int| 0 <= a < i ==> (#[trigger] x@[a])@.len() == m,
        decreases n - i,
    {
        if x[i].len() != m {
            return false;
        }
        i += 1;
    }
    true
}

/// Whether the table `x` is a valid assignment of the students to the
/// projects: it has the right size, every student who takes part is in
/// exactly one project and every other student in none, no project is over
/// or under its bounds, no student who is bound by grade is in a project
/// that is closed to the grade, and every student who is pinned or fixed
/// beforehand is in the project.
pub fn check_assignment(
    projects: &BTreeMap<u32, Projekt>,
    students: &BTreeMap<u128, SaveFileSchueler>,
    feste_zuordnung: &BTreeMap<u128, ProjektId>,
    x: &Vec<Vec<bool>>,
) -> (r: bool)
    ensures
        r == valid_assignment(problem_of(projects@, students@, feste_zuordnung@), x@),
{
    let ghost p = problem_of(projects@, students@, feste_zuordnung@);
    let l = lineup(projects, students, Ghost(p));
    if !has_shape(x, l.sids.len(), l.pids.len()) {
        return false;
    }
    proof {
        lemma_point_of(p, x@);
    }
    check_one_project_each(x, &l, Ghost(p)) && check_capacity(x, &l, Ghost(p)) && check_grades(
        x,
        &l,
        feste_zuordnung,
        Ghost(p),
    ) && check_pinned(x, &l, feste_zuordnung, Ghost(p))
}

/// Whether two rows say yes to the same project.
fn rows_share(a: &Vec<bool>, b: &Vec<bool>, m: usize) -> (r: bool)
    requires
        a@.len() == m,
        b@.len() == m,
    ensures
        r == exists|j: int| 0 <= j < m && #[trigger] a@[j] && b@[j],
{
    let mut j: usize = 0;
    while j < m
        invariant
            j <= m,
            a@.len() == m,
            b@.len() == m,
            forall|t: int| 0 <= t < j ==> !(#[trigger] a@[t] && b@[t]),
        decreases m - j,
    {
        if a[j] && b[j] {
            return true;
        }
        j += 1;
    }
    false
}

/// The objective of the table `x`: for each student the weight of each wish
/// that names the student's project, and the partner weight for each mutual
/// pair that shares a project. `None` where the table has not the size of
/// the problem.
#[verifier::loop_isolation(false)]
pub fn assignment_score(
    projects: &BTreeMap<u32, Projekt>,
    students: &BTreeMap<u128, SaveFileSchueler>,
    x: &Vec<Vec<bool>>,
) -> (r: Option<i128>)
    ensures
        match r {
            Some(v) => is_matrix(
                x@,
                problem_of(projects@, students@, Map::empty()).n(),
                problem_of(projects@, students@, Map::empty()).m(),
            ) && v == score_of(problem_of(projects@, students@, Map::empty()), x@),
            None => !is_matrix(
                x@,
                problem_of(projects@, students@, Map::empty()).n(),
                problem_of(projects@, students@, Map::empty()).m(),
            ),
        },
{
    let ghost p = problem_of(projects@, students@, Map::empty());
    let l = lineup(projects, students, Ghost(p));
    let n = l.sids.len();
    let m = l.pids.len();
    if !has_shape(x, n, m) {
        return None;
    }
    let ghost pt = point_of(p, x@);
    let mut acc: i128 = 0;
    let mut i: usize = 0;
    while i < n
        invariant
            i <= n,
            0 <= acc <= 15 * i,
            acc == p.gain(i as int, 5, pt),
        decreases n - i,
    {
        let s = l.schueler[i];
        let mut k: usize = 0;
        while k < 5
            invariant
                k <= 5,
                i < n,
                0 <= acc <= 15 * i + 5 * k,
                acc == p.gain(i + 1, k as int, pt),
            decreases 5 - k,
        {
            let mut index: Option<usize> = None;
            match s.wishes {
                Some(w) => {
                    index = project_index(&l.pids, w[k]);
                },
                None => {},
            }
            match index {
                Some(j) => {
                    assert(pt.x[i as int][j as int] == bit(x@[i as int]@[j as int]));
                    assert(p.wish_gain(i as int, k as int, pt) == wish_weight(k as int)
                        * pt.x[i as int][j as int]);
                    if x[i][j] {
                        assert(p.wish_gain(i as int, k as int, pt) == 5 - k);
                        acc = acc + (5 - k as i128);
                    } else {
                        assert(p.wish_gain(i as int, k as int, pt) == 0);
                    }
                },
                None => {
                    assert(p.wish_gain(i as int, k as int, pt) == 0);
                },
            }
            assert(p.gain(i + 1, k + 1, pt) == p.gain(i + 1, k as int, pt) + p.wish_gain(
                i as int,
                k as int,
                pt,
            ));
            k += 1;
        }
        assert(15 * i + 5 * 5 <= 15 * (i + 1) + 10);
        proof {
            lemma_gain_bound(p, pt, i + 1, 5);
        }
        i += 1;
    }
    let pairs = find_pairs(&l, students, Ghost(p));
    let mut together: i128 = 0;
    let mut k: usize = 0;
    while k < pairs.len()
        invariant
            k <= pairs.len(),
            0 <= together <= k,
            pairs_match(pairs@, p.pairs(), p.n()),
            together == sum(pt.same.take(k as int)),
        decreases pairs.len() - k,
    {
        let a: usize = pairs[k].0;
        let b: usize = pairs[k].1;
        assert(pairs@[k as int].0 == p.pairs()[k as int].0);
        let both = rows_share(&x[a], &x[b], m);
        proof {
            assert(both == shares(x@, a as int, b as int, p.m()));
            assert(pt.same[k as int] == bit(both));
            lemma_sum_push(pt.same.take(k as int), pt.same[k as int]);
            assert(pt.same.take(k as int).push(pt.same[k as int]) =~= pt.same.take(k + 1));
        }
        if both {
            together = together + 1;
        }
        k += 1;
    }
    assert(pt.same.take(k as int) =~= pt.same);
    Some(acc + PARTNER_WEIGHT as i128 * together)
}

/// The wishes of the first students add no more than 15 each to the
/// objective of a table.
pub proof fn lemma_gain_bound(p: Problem, pt: Point, upto: int, ranks: int)
    requires
        0 <= upto <= p.n(),
        0 <= ranks <= 5,
        is_matrix_point(p, pt),
    ensures
        0 <= p.gain(upto, ranks, pt) <= 15 * upto,
{
    if upto > 0 {
        lemma_gain_parts(p, pt, upto, ranks);
    }
}

/// Whether the `X` of a point are a table of the size of the problem with
/// the values 0 and 1.
pub open spec fn is_matrix_point(p: Problem, pt: Point) -> bool {
    crate::solver::model::is_bit_table(pt.x, p.n(), p.m())
}

/// The weights of the first `ranks` wishes sum to no more than 5, 9, 12, 14
/// and 15.
pub open spec fn weight_upto(ranks: int) -> int {
    if ranks <= 0 {
        0
    } else if ranks == 1 {
        5
    } else if ranks == 2 {
        9
    } else if ranks == 3 {
        12
    } else if ranks == 4 {
        14
    } else {
        15
    }
}

proof fn lemma_gain_parts(p: Problem, pt: Point, upto: int, ranks: int)
    requires
        0 < upto <= p.n(),
        0 <= ranks <= 5,
        is_matrix_point(p, pt),
    ensures
        0 <= p.gain(upto, ranks, pt) <= 15 * (upto - 1) + weight_upto(ranks),
    decreases upto, ranks,
{
    if ranks <= 0 {
        if upto > 1 {
            lemma_gain_parts(p, pt, upto - 1, 5);
        }
    } else {
        lemma_gain_parts(p, pt, upto, ranks - 1);
        let g = p.wish_gain(upto - 1, ranks - 1, pt);
        assert(0 <= g <= wish_weight(ranks - 1)) by {
            match p.student(upto - 1).wishes {
                Some(w) => match p.project_index(w[ranks - 1]) {
                    Some(j) => {
                        crate::solver::problem::lemma_position_of(p.pids(), w[ranks - 1].0);
                        assert(is_bit(pt.x[upto - 1][j]));
                    },
                    None => {},
                },
                None => {},
            }
        }
    }
}

/// In a valid table the row of a student who takes part says yes to exactly
/// one project, and the row of a student who takes no part to none.
pub proof fn lemma_table_one_project_each(p: Problem, x: Seq<Vec<bool>>, i: int) -> (at: int)
    requires
        p.students.dom().finite(),
        valid_assignment(p, x),
        0 <= i < p.n(),
    ensures
        p.student(i).ignore ==> forall|j: int| 0 <= j < p.m() ==> !(#[trigger] x[i]@[j]),
        !p.student(i).ignore ==> {
            &&& 0 <= at < p.m()
            &&& x[i]@[at]
            &&& forall|j: int| 0 <= j < p.m() && j != at ==> !(#[trigger] x[i]@[j])
        },
{
    let pt = point_of(p, x);
    lemma_point_of(p, x);
    let at = crate::solver::laws::lemma_one_project_each(p, pt, i);
    assert forall|j: int| 0 <= j < p.m() implies pt.x[i][j] == bit(#[trigger] x[i]@[j]) by {}
    at
}

/// In a valid table a project with an upper bound holds no more students
/// than the bound and the students pinned to it together, and a project with
/// a lower bound no fewer than the bound.
pub proof fn lemma_table_capacity(p: Problem, x: Seq<Vec<bool>>, j: int)
    requires
        p.students.dom().finite(),
        valid_assignment(p, x),
        0 <= j < p.m(),
    ensures
        p.project(j).max_teilnehmer != UNBEGRENZT ==> point_of(p, x).load(j) <= p.project(
            j,
        ).max_teilnehmer + p.num_fest(j, p.n()),
        p.project(j).min_teilnehmer != UNBEGRENZT ==> point_of(p, x).load(j) >= p.project(
            j,
        ).min_teilnehmer,
{
    lemma_point_of(p, x);
    crate::solver::laws::lemma_capacity_respected(p, point_of(p, x), j);
}

/// In a valid table a student whose grade is known and who is neither pinned
/// nor fixed beforehand is only in a project that is open to the student's
/// grade.
pub proof fn lemma_table_grade(p: Problem, x: Seq<Vec<bool>>, i: int, j: int)
    requires
        p.students.dom().finite(),
        valid_assignment(p, x),
        0 <= i < p.n(),
        0 <= j < p.m(),
        x[i]@[j],
        p.bound_by_grade(i),
    ensures
        p.project(j).admits(crate::types::klasse::grade_of(p.student(i).klasse.0@)->0),
{
    lemma_point_of(p, x);
    assert(point_of(p, x).x[i][j] == bit(x[i]@[j]));
    crate::solver::laws::lemma_grade_eligible(p, point_of(p, x), i, j);
}

/// In a valid table a student who is pinned to a project that exists is in
/// it, and so is a student who is fixed beforehand to a project that exists.
pub proof fn lemma_table_fixed(p: Problem, x: Seq<Vec<bool>>, i: int)
    requires
        p.students.dom().finite(),
        p.projects.dom().finite(),
        valid_assignment(p, x),
        0 <= i < p.n(),
    ensures
        p.pinned_index(i) matches Some(j) ==> x[i]@[j],
        p.fixed_index(i) matches Some(j) ==> x[i]@[j],
{
    lemma_point_of(p, x);
    crate::solver::laws::lemma_fixed_honored(p, point_of(p, x), i);
    match p.pinned_index(i) {
        Some(j) => {
            lemma_index_in_range(p, p.student(i).pinned()->0);
            assert(point_of(p, x).x[i][j] == bit(x[i]@[j]));
        },
        None => {},
    }
    match p.fixed_index(i) {
        Some(j) => {
            lemma_index_in_range(p, p.fixed[p.sids()[i]]);
            assert(point_of(p, x).x[i][j] == bit(x[i]@[j]));
        },
        None => {},
    }
}

/// The position of a project is one of the positions of the projects.
pub proof fn lemma_index_in_range(p: Problem, id: ProjektId)
    ensures
        p.project_index(id) matches Some(j) ==> 0 <= j < p.m(),
{
    crate::solver::problem::lemma_position_of(p.pids(), id.0);
}

/// Whether the table `y` is the table `x` with the student at position `i`
/// moved to the project at position `j`, and to no other.
pub open spec fn is_move(x: Seq<Vec<bool>>, i: int, j: int, y: Seq<Vec<bool>>) -> bool {
    &&& y.len() == x.len()
    &&& forall|t: int| 0 <= t < x.len() && t != i ==> (#[trigger] y[t])@ == x[t]@
    &&& y[i]@.len() == x[i]@.len()
    &&& forall|b: int| 0 <= b < x[i]@.len() ==> #[trigger] y[i]@[b] == (b == j)
}

/// Whether no valid table that moves one student of `x` to another project
/// has a greater objective than `x`.
pub open spec fn locally_optimal(p: Problem, x: Seq<Vec<bool>>) -> bool {
    forall|i: int, j: int, y: Seq<Vec<bool>>|
        0 <= i < p.n() && 0 <= j < p.m() && #[trigger] is_move(x, i, j, y) && valid_assignment(
            p,
            y,
        ) ==> score_of(p, y) <= score_of(p, x)
}

/// Whether two tables say the same.
pub open spec fn same_table(x: Seq<Vec<bool>>, y: Seq<Vec<bool>>) -> bool {
    &&& x.len() == y.len()
    &&& forall|t: int| 0 <= t < x.len() ==> (#[trigger] x[t])@ == y[t]@
}

/// Tables that say the same stand for the same point.
pub proof fn lemma_same_table(p: Problem, x: Seq<Vec<bool>>, y: Seq<Vec<bool>>)
    requires
        p.students.dom().finite(),
        same_table(x, y),
        x.len() == p.n(),
    ensures
        point_of(p, x) == point_of(p, y),
        is_matrix(x, p.n(), p.m()) == is_matrix(y, p.n(), p.m()),
{
    let a = point_of(p, x);
    let b = point_of(p, y);
    lemma_pairs_in_range(p, p.n());
    assert(a.x =~~= b.x) by {
        assert forall|i: int| 0 <= i < a.x.len() implies #[trigger] a.x[i] =~= b.x[i] by {
            assert(x[i]@ == y[i]@);
        }
    }
    assert(a.w =~~= b.w) by {
        assert forall|k: int| 0 <= k < a.w.len() implies #[trigger] a.w[k] =~= b.w[k] by {
            assert(x[p.pairs()[k].0]@ == y[p.pairs()[k].0]@);
            assert(x[p.pairs()[k].1]@ == y[p.pairs()[k].1]@);
        }
    }
    assert(a.same =~= b.same) by {
        assert forall|k: int| 0 <= k < a.same.len() implies #[trigger] a.same[k] == b.same[k] by {
            let (s, t) = p.pairs()[k];
            assert(x[s]@ == y[s]@);
            assert(x[t]@ == y[t]@);
            if shares(x, s, t, p.m()) {
                let j = choose|j: int| 0 <= j < p.m() && #[trigger] x[s]@[j] && x[t]@[j];
                assert(y[s]@[j] && y[t]@[j]);
            }
            if shares(y, s, t, p.m()) {
                let j = choose|j: int| 0 <= j < p.m() && #[trigger] y[s]@[j] && y[t]@[j];
                assert(x[s]@[j] && x[t]@[j]);
            }
        }
    }
    if is_matrix(x, p.n(), p.m()) {
        assert forall|i: int| 0 <= i < p.n() implies (#[trigger] y[i])@.len() == p.m() by {
            assert(x[i]@ == y[i]@);
        }
    }
    if is_matrix(y, p.n(), p.m()) {
        assert forall|i: int| 0 <= i < p.n() implies (#[trigger] x[i])@.len() == p.m() by {
            assert(x[i]@ == y[i]@);
        }
    }
}

/// The mutual pairs do not depend on what is fixed beforehand.
pub proof fn lemma_pairs_without_fixed(p: Problem, q: Problem, upto: int)
    requires
        p.students == q.students,
        p.projects == q.projects,
    ensures
        p.pairs_upto(upto) == q.pairs_upto(upto),
    decreases upto,
{
    if upto > 0 {
        lemma_pairs_without_fixed(p, q, upto - 1);
    }
}

/// The gain of the wishes does not depend on what is fixed beforehand.
pub proof fn lemma_gain_without_fixed(p: Problem, q: Problem, pt: Point, upto: int, ranks: int)
    requires
        p.students == q.students,
        p.projects == q.projects,
        0 <= ranks <= 5,
    ensures
        p.gain(upto, ranks, pt) == q.gain(upto, ranks, pt),
    decreases upto, ranks,
{
    if upto > 0 {
        if ranks <= 0 {
            lemma_gain_without_fixed(p, q, pt, upto - 1, 5);
        } else {
            lemma_gain_without_fixed(p, q, pt, upto, ranks - 1);
        }
    }
}

/// The objective of a table does not depend on what is fixed beforehand.
pub proof fn lemma_score_without_fixed(p: Problem, q: Problem, x: Seq<Vec<bool>>)
    requires
        p.students == q.students,
        p.projects == q.projects,
    ensures
        score_of(p, x) == score_of(q, x),
{
    lemma_pairs_without_fixed(p, q, p.n());
    assert(point_of(p, x) == point_of(q, x));
    lemma_gain_without_fixed(p, q, point_of(p, x), p.n(), 5);
}

/// Builds the table `x` with the student at position `i` moved to the project
/// at position `j`.
fn move_student(x: &Vec<Vec<bool>>, i: usize, j: usize) -> (y: Vec<Vec<bool>>)
    requires
        i < x@.len(),
    ensures
        is_move(x@, i as int, j as int, y@),
{
    let mut y: Vec<Vec<bool>> = Vec::new();
    let mut t: usize = 0;
    while t < x.len()
        invariant
            t <= x.len(),
            i < x@.len(),
            y@.len() == t,
            forall|a: int| 0 <= a < t && a != i ==> (#[trigger] y@[a])@ == x@[a]@,
            t > i ==> y@[i as int]@.len() == x@[i as int]@.len(),
            t > i ==> forall|b: int|
                0 <= b < x@[i as int]@.len() ==> #[trigger] y@[i as int]@[b] == (b == j),
        decreases x.len() - t,
    {
        let mut row: Vec<bool> = Vec::new();
        let mut b: usize = 0;
        while b < x[t].len()
            invariant
                b <= x@[t as int]@.len(),
                t < x@.len(),
                row@.len() == b,
                forall|c: int|
                    0 <= c < b ==> #[trigger] row@[c] == if t == i {
                        c == j
                    } else {
                        x@[t as int]@[c]
                    },
            decreases x@[t as int]@.len() - b,
        {
            let entry = if t == i {
                b == j
            } else {
                x[t][b]
            };
            row.push(entry);
            b += 1;
        }
        assert(t != i ==> row@ =~= x@[t as int]@);
        y.push(row);
        t += 1;
    }
    y
}

/// Whether no valid table that moves one student of `x` to another project
/// has a greater objective than `x`. `x` must have the size of the problem;
/// else the answer is no.
#[verifier::loop_isolation(false)]
pub fn is_local_optimum(
    projects: &BTreeMap<u32, Projekt>,
    students: &BTreeMap<u128, SaveFileSchueler>,
    feste_zuordnung: &BTreeMap<u128, ProjektId>,
    x: &Vec<Vec<bool>>,
) -> (r: bool)
    ensures
        r == (is_matrix(
            x@,
            problem_of(projects@, students@, feste_zuordnung@).n(),
            problem_of(projects@, students@, feste_zuordnung@).m(),
        ) && locally_optimal(problem_of(projects@, students@, feste_zuordnung@), x@)),
{
    let ghost p = problem_of(projects@, students@, feste_zuordnung@);
    let ghost q = problem_of(projects@, students@, Map::empty());
    let best = match assignment_score(projects, students, x) {
        Some(v) => v,
        None => {
            return false;
        },
    };
    proof {
        lemma_score_without_fixed(p, q, x@);
        crate::keys::lemma_student_order(students@.dom());
    }
    let n = x.len();
    let mut i: usize = 0;
    while i < n
        invariant
            i <= n,
            forall|a: int, b: int, y: Seq<Vec<bool>>|
                0 <= a < i && 0 <= b < p.m() && #[trigger] is_move(x@, a, b, y) && valid_assignment(
                    p,
                    y,
                ) ==> score_of(p, y) <= score_of(p, x@),
        decreases n - i,
    {
        let m = x[i].len();
        let mut j: usize = 0;
        while j < m
            invariant
                j <= m,
                i < n,
                m == p.m(),
                forall|a: int, b: int, y: Seq<Vec<bool>>|
                    0 <= a <= i && 0 <= b < p.m() && (a < i || b < j) && #[trigger] is_move(
                        x@,
                        a,
                        b,
                        y,
                    ) && valid_assignment(p, y) ==> score_of(p, y) <= score_of(p, x@),
            decreases m - j,
        {
            let y = move_student(x, i, j);
            let valid = check_assignment(projects, students, feste_zuordnung, &y);
            let better = if valid {
                match assignment_score(projects, students, &y) {
                    Some(v) => v > best,
                    None => false,
                }
            } else {
                false
            };
            proof {
                lemma_score_without_fixed(p, q, y@);
            }
            if better {
                assert(is_move(x@, i as int, j as int, y@));
                return false;
            }
            proof {
                assert forall|z: Seq<Vec<bool>>|
                    #[trigger] is_move(x@, i as int, j as int, z) && valid_assignment(
                        p,
                        z,
                    ) implies score_of(p, z) <= score_of(p, x@) by {
                    assert(same_table(y@, z)) by {
                        assert forall|t: int| 0 <= t < y@.len() implies (#[trigger] y@[t])@
                            == z[t]@ by {
                            if t == i {
                                assert(y@[t]@ =~= z[t]@);
                            } else {
                                assert(z[t]@ == x@[t]@);
                            }
                        }
                    }
                    lemma_same_table(p, y@, z);
                }
            }
            j += 1;
        }
        i += 1;
    }
    true
}

} // verus!
