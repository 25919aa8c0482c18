//! The sums of terms that the constraints of an assignment are made of.

use crate::solver::model::column_sum;
use crate::solver::model::lemma_lin_push;
use crate::solver::model::lin;
use crate::solver::model::sum;
use crate::solver::model::Point;
use crate::solver::model::Term;
use crate::solver::model::Var;
use vstd::prelude::*;

verus! {

/// The `X` of the student at position `i` for each of the first `upto`
/// projects, each with the coefficient 1.
pub open spec fn x_row(i: usize, upto: int) -> Seq<Term> {
    Seq::new(
        upto as nat,
        |j: int| Term { coeff: 1, var: Var::X { schueler: i, projekt: j as usize } },
    )
}

/// The `X` of the project at position `j` for each of the first `upto`
/// students, each with the coefficient 1.
pub open spec fn x_column(j: usize, upto: int) -> Seq<Term> {
    Seq::new(
        upto as nat,
        |i: int| Term { coeff: 1, var: Var::X { schueler: i as usize, projekt: j } },
    )
}

/// The `Same` of the pair at position `k` with the coefficient 1, and then
/// the pair's `W` for each of the first `upto` projects, each with the
/// coefficient -1.
pub open spec fn same_row(k: usize, upto: int) -> Seq<Term> {
    Seq::new(
        (upto + 1) as nat,
        |t: int|
            if t == 0 {
                Term { coeff: 1, var: Var::Same { paar: k } }
            } else {
                Term { coeff: -1i32, var: Var::W { paar: k, projekt: (t - 1) as usize } }
            },
    )
}

/// A row of `X` sums to the student's row of the point.
pub proof fn lemma_x_row(i: usize, upto: int, pt: Point)
    requires
        i < pt.x.len(),
        0 <= upto <= pt.x[i as int].len(),
        upto <= usize::MAX,
    ensures
        lin(x_row(i, upto), pt) == sum(pt.x[i as int].take(upto)),
    decreases upto,
{
    if upto > 0 {
        lemma_x_row(i, upto - 1, pt);
        let row = pt.x[i as int];
        assert(x_row(i, upto).drop_last() =~= x_row(i, upto - 1));
        assert(row.take(upto).drop_last() =~= row.take(upto - 1));
        assert(row.take(upto).last() == row[upto - 1]);
        assert(x_row(i, upto).last().coeff == 1);
        assert(pt.value(x_row(i, upto).last().var) == row[upto - 1]);
        assert(sum(row.take(upto)) == sum(row.take(upto - 1)) + row[upto - 1]);
        assert(lin(x_row(i, upto), pt) == lin(x_row(i, upto - 1), pt) + row[upto - 1]);
    } else {
        assert(pt.x[i as int].take(0).len() == 0);
    }
}

/// A column of `X` sums to the project's column of the point.
pub proof fn lemma_x_column(j: usize, upto: int, pt: Point)
    requires
        0 <= upto <= pt.x.len(),
        upto <= usize::MAX,
    ensures
        lin(x_column(j, upto), pt) == column_sum(pt.x, j as int, upto),
    decreases upto,
{
    if upto > 0 {
        lemma_x_column(j, upto - 1, pt);
        assert(x_column(j, upto).drop_last() =~= x_column(j, upto - 1));
    }
}

/// A pair's `Same` less its row of `W`.
pub proof fn lemma_same_row(k: usize, upto: int, pt: Point)
    requires
        k < pt.w.len(),
        0 <= upto <= pt.w[k as int].len(),
        upto <= usize::MAX,
    ensures
        lin(same_row(k, upto), pt) == pt.same[k as int] - sum(pt.w[k as int].take(upto)),
    decreases upto,
{
    if upto > 0 {
        lemma_same_row(k, upto - 1, pt);
        let row = pt.w[k as int];
        assert(same_row(k, upto).drop_last() =~= same_row(k, upto - 1));
        assert(row.take(upto).drop_last() =~= row.take(upto - 1));
        assert(row.take(upto).last() == row[upto - 1]);
        assert(same_row(k, upto).last().coeff == -1);
        assert(pt.value(same_row(k, upto).last().var) == row[upto - 1]);
        assert(sum(row.take(upto)) == sum(row.take(upto - 1)) + row[upto - 1]);
        assert(lin(same_row(k, upto), pt) == lin(same_row(k, upto - 1), pt) - row[upto - 1]);
    } else {
        assert(same_row(k, 0).drop_last() =~= Seq::<Term>::empty());
        assert(lin(same_row(k, 0).drop_last(), pt) == 0);
        assert(same_row(k, 0).last() == Term { coeff: 1, var: Var::Same { paar: k } });
        assert(pt.w[k as int].take(0).len() == 0);
        assert(sum(pt.w[k as int].take(0)) == 0);
        assert(lin(same_row(k, 0), pt) == 0 + 1 * pt.same[k as int]);
    }
}

/// The value of a single term.
pub proof fn lemma_lin_one(a: Term, pt: Point)
    ensures
        lin(seq![a], pt) == a.coeff * pt.value(a.var),
{
    lemma_lin_push(Seq::empty(), a, pt);
    assert(Seq::<Term>::empty().push(a) =~= seq![a]);
}

/// The value of two terms.
pub proof fn lemma_lin_two(a: Term, b: Term, pt: Point)
    ensures
        lin(seq![a, b], pt) == a.coeff * pt.value(a.var) + b.coeff * pt.value(b.var),
{
    lemma_lin_one(a, pt);
    lemma_lin_push(seq![a], b, pt);
    assert(seq![a].push(b) =~= seq![a, b]);
}

/// The value of three terms.
pub proof fn lemma_lin_three(a: Term, b: Term, c: Term, pt: Point)
    ensures
        lin(seq![a, b, c], pt) == a.coeff * pt.value(a.var) + b.coeff * pt.value(b.var) + c.coeff
            * pt.value(c.var),
{
    lemma_lin_two(a, b, pt);
    lemma_lin_push(seq![a, b], c, pt);
    assert(seq![a, b].push(c) =~= seq![a, b, c]);
}

/// Builds the row of `X` of the student at position `i`.
pub fn build_x_row(i: usize, m: usize) -> (r: Vec<Term>)
    ensures
        r@ == x_row(i, m as int),
{
    let mut terms: Vec<Term> = Vec::new();
    let mut j: usize = 0;
    while j < m
        invariant
            j <= m,
            terms@ == x_row(i, j as int),
        decreases m - j,
    {
        terms.push(Term { coeff: 1, var: Var::X { schueler: i, projekt: j } });
        assert(terms@ =~= x_row(i, j + 1));
        j += 1;
    }
    terms
}

/// Builds the column of `X` of the project at position `j`.
pub fn build_x_column(j: usize, n: usize) -> (r: Vec<Term>)
    ensures
        r@ == x_column(j, n as int),
{
    let mut terms: Vec<Term> = Vec::new();
    let mut i: usize = 0;
    while i < n
        invariant
            i <= n,
            terms@ == x_column(j, i as int),
        decreases n - i,
    {
        terms.push(Term { coeff: 1, var: Var::X { schueler: i, projekt: j } });
        assert(terms@ =~= x_column(j, i + 1));
        i += 1;
    }
    terms
}

/// Builds the `Same` of the pair at position `k` less its row of `W`.
pub fn build_same_row(k: usize, m: usize) -> (r: Vec<Term>)
    ensures
        r@ == same_row(k, m as int),
{
    let mut terms: Vec<Term> = Vec::new();
    terms.push(Term { coeff: 1, var: Var::Same { paar: k } });
    assert(terms@ =~= same_row(k, 0));
    let mut j: usize = 0;
    while j < m
        invariant
            j <= m,
            terms@ == same_row(k, j as int),
        decreases m - j,
    {
        terms.push(Term { coeff: -1, var: Var::W { paar: k, projekt: j } });
        assert(terms@ =~= same_row(k, j + 1));
        j += 1;
    }
    terms
}

} // verus!
