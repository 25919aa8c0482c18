//! An integer program over yes-or-no variables.
//!
//! The program of an assignment has three families of variables: `X` says
//! that a student is in a project, `W` that both students of a pair are in a
//! project, and `Same` that the two students of a pair share a project. A
//! point gives each of them the value 0 or 1.

use vstd::prelude::*;

verus! {

/// A variable of the program.
#[derive(Clone, Copy, PartialEq, Eq, Debug, Structural)]
pub enum Var {
    /// The student at position `schueler` is in the project at position
    /// `projekt`.
    X { schueler: usize, projekt: usize },
    /// Both students of the pair at position `paar` are in the project at
    /// position `projekt`.
    W { paar: usize, projekt: usize },
    /// The two students of the pair at position `paar` share a project.
    Same { paar: usize },
}

/// A variable with its coefficient.
#[derive(Clone, Copy, PartialEq, Eq, Debug, Structural)]
pub struct Term {
    pub coeff: i32,
    pub var: Var,
}

/// How the two sides of a constraint are compared.
#[derive(Clone, Copy, PartialEq, Eq, Debug, Structural)]
pub enum Relation {
    Le,
    Ge,
    Eq,
}

/// A linear constraint: the sum of the terms stands in `relation` to `rhs`.
#[derive(Clone, PartialEq, Eq, Debug)]
pub struct Restriction {
    pub terms: Vec<Term>,
    pub relation: Relation,
    pub rhs: i32,
}

/// An integer program: the sizes of the three families of variables, the
/// objective to make as large as possible, and the constraints.
#[derive(Clone, PartialEq, Eq, Debug)]
pub struct Model {
    pub schueler: usize,
    pub projekte: usize,
    pub paare: usize,
    pub objective: Vec<Term>,
    pub constraints: Vec<Restriction>,
}

/// A value for every variable of a program.
pub struct Point {
    pub x: Seq<Seq<int>>,
    pub w: Seq<Seq<int>>,
    pub same: Seq<int>,
}

/// Whether `v` is 0 or 1.
pub open spec fn is_bit(v: int) -> bool {
    v == 0 || v == 1
}

/// Whether `rows` is a table of `n` rows of `m` values, each 0 or 1.
pub open spec fn is_bit_table(rows: Seq<Seq<int>>, n: int, m: int) -> bool {
    &&& rows.len() == n
    &&& forall|i: int| 0 <= i < n ==> (#[trigger] rows[i]).len() == m
    &&& forall|i: int, j: int| 0 <= i < n && 0 <= j < m ==> is_bit(#[trigger] rows[i][j])
}

/// The sum of the values of `s`.
pub open spec fn sum(s: Seq<int>) -> int
    decreases s.len(),
{
    if s.len() == 0 {
        0
    } else {
        sum(s.drop_last()) + s.last()
    }
}

/// The sum of column `j` over the first `upto` rows.
pub open spec fn column_sum(rows: Seq<Seq<int>>, j: int, upto: int) -> int
    decreases upto,
{
    if upto <= 0 {
        0
    } else {
        column_sum(rows, j, upto - 1) + rows[upto - 1][j]
    }
}

impl Point {
    /// Whether the point gives 0 or 1 to each variable of a program with `n`
    /// students, `m` projects and `k` pairs.
    pub open spec fn binary(self, n: int, m: int, k: int) -> bool {
        &&& is_bit_table(self.x, n, m)
        &&& is_bit_table(self.w, k, m)
        &&& self.same.len() == k
        &&& forall|p: int| 0 <= p < k ==> is_bit(#[trigger] self.same[p])
    }

    /// The value that the point gives to a variable.
    pub open spec fn value(self, var: Var) -> int {
        match var {
            Var::X { schueler, projekt } => self.x[schueler as int][projekt as int],
            Var::W { paar, projekt } => self.w[paar as int][projekt as int],
            Var::Same { paar } => self.same[paar as int],
        }
    }

    /// The number of students that the point puts in the project at position
    /// `j`.
    pub open spec fn load(self, j: int) -> int {
        column_sum(self.x, j, self.x.len() as int)
    }
}

/// The value of a sum of terms at a point.
pub open spec fn lin(terms: Seq<Term>, pt: Point) -> int
    decreases terms.len(),
{
    if terms.len() == 0 {
        0
    } else {
        lin(terms.drop_last(), pt) + terms.last().coeff * pt.value(terms.last().var)
    }
}

/// The size of a coefficient.
pub open spec fn magnitude(c: i32) -> nat {
    if c >= 0 {
        c as nat
    } else {
        (-c) as nat
    }
}

/// The sizes of the coefficients of a sum of terms, added up.
pub open spec fn weight(terms: Seq<Term>) -> nat
    decreases terms.len(),
{
    if terms.len() == 0 {
        0
    } else {
        weight(terms.drop_last()) + magnitude(terms.last().coeff)
    }
}

/// Whether a whole number is one that a double holds exactly, together with
/// every whole number of smaller size: its size is no more than two to the
/// power of 53.
pub open spec fn exact(v: int) -> bool {
    -0x20_0000_0000_0000 <= v <= 0x20_0000_0000_0000
}

/// Whether the coefficients of a sum of terms add up, whichever of them are
/// taken, to a number that a double holds exactly.
pub open spec fn light(terms: Seq<Term>) -> bool {
    exact(weight(terms) as int)
}

/// Whether a variable belongs to a program with `n` students, `m` projects and
/// `k` pairs.
pub open spec fn var_in(var: Var, n: int, m: int, k: int) -> bool {
    match var {
        Var::X { schueler, projekt } => schueler < n && projekt < m,
        Var::W { paar, projekt } => paar < k && projekt < m,
        Var::Same { paar } => paar < k,
    }
}

/// Whether every variable of `terms` belongs to a program of the given sizes.
pub open spec fn terms_in(terms: Seq<Term>, n: int, m: int, k: int) -> bool {
    forall|t: int| 0 <= t < terms.len() ==> var_in(#[trigger] terms[t].var, n, m, k)
}

impl Restriction {
    /// Whether the constraint holds at a point.
    pub open spec fn holds(self, pt: Point) -> bool {
        match self.relation {
            Relation::Le => lin(self.terms@, pt) <= self.rhs,
            Relation::Ge => lin(self.terms@, pt) >= self.rhs,
            Relation::Eq => lin(self.terms@, pt) == self.rhs,
        }
    }
}

/// Whether every constraint of `cs` holds at a point.
pub open spec fn all_hold(cs: Seq<Restriction>, pt: Point) -> bool {
    forall|t: int| 0 <= t < cs.len() ==> (#[trigger] cs[t]).holds(pt)
}

/// Whether every constraint of `cs` speaks of variables of a program of the
/// given sizes only.
pub open spec fn constraints_in(cs: Seq<Restriction>, n: int, m: int, k: int) -> bool {
    forall|t: int| 0 <= t < cs.len() ==> terms_in((#[trigger] cs[t]).terms@, n, m, k)
}

impl Model {
    /// Every term speaks of a variable that the program has.
    pub open spec fn wf(self) -> bool {
        &&& terms_in(self.objective@, self.schueler as int, self.projekte as int, self.paare as int)
        &&& constraints_in(
            self.constraints@,
            self.schueler as int,
            self.projekte as int,
            self.paare as int,
        )
    }

    /// Whether the objective and every constraint are light.
    pub open spec fn light(self) -> bool {
        &&& light(self.objective@)
        &&& forall|t: int|
            0 <= t < self.constraints@.len() ==> light((#[trigger] self.constraints@[t]).terms@)
    }

    /// Whether the point gives every variable 0 or 1 and meets every
    /// constraint.
    pub open spec fn feasible(self, pt: Point) -> bool {
        &&& pt.binary(self.schueler as int, self.projekte as int, self.paare as int)
        &&& all_hold(self.constraints@, pt)
    }

    /// The objective at a point.
    pub open spec fn objective_at(self, pt: Point) -> int {
        lin(self.objective@, pt)
    }

    /// Whether no feasible point has a greater objective than `pt`, which is
    /// feasible itself.
    pub open spec fn optimal(self, pt: Point) -> bool {
        &&& self.feasible(pt)
        &&& forall|other: Point| #[trigger]
            self.feasible(other) ==> self.objective_at(other) <= self.objective_at(pt)
    }
}

/// One more term adds its coefficient times the value of its variable.
pub proof fn lemma_lin_push(terms: Seq<Term>, t: Term, pt: Point)
    ensures
        lin(terms.push(t), pt) == lin(terms, pt) + t.coeff * pt.value(t.var),
{
    assert(terms.push(t).drop_last() =~= terms);
}

/// One more value adds itself to the sum.
pub proof fn lemma_sum_push(s: Seq<int>, v: int)
    ensures
        sum(s.push(v)) == sum(s) + v,
{
    assert(s.push(v).drop_last() =~= s);
}

/// One more constraint holds together with the others.
pub proof fn lemma_all_hold_push(cs: Seq<Restriction>, c: Restriction, pt: Point)
    ensures
        all_hold(cs.push(c), pt) <==> all_hold(cs, pt) && c.holds(pt),
{
    let next = cs.push(c);
    if all_hold(next, pt) {
        assert forall|t: int| 0 <= t < cs.len() implies (#[trigger] cs[t]).holds(pt) by {
            assert(next[t].holds(pt));
        }
        assert(next[cs.len() as int].holds(pt));
    }
    if all_hold(cs, pt) && c.holds(pt) {
        assert forall|t: int| 0 <= t < next.len() implies (#[trigger] next[t]).holds(pt) by {
            if t < cs.len() {
                assert(cs[t].holds(pt));
            }
        }
    }
}

/// A sum of values that are each 0 or 1 lies between 0 and their number.
pub proof fn lemma_sum_bits(s: Seq<int>)
    requires
        forall|j: int| 0 <= j < s.len() ==> is_bit(#[trigger] s[j]),
    ensures
        0 <= sum(s) <= s.len(),
    decreases s.len(),
{
    if s.len() > 0 {
        lemma_sum_bits(s.drop_last());
    }
}

/// A column of values that are each 0 or 1 sums to between 0 and the number
/// of rows.
pub proof fn lemma_column_sum_bits(rows: Seq<Seq<int>>, j: int, upto: int, m: int)
    requires
        0 <= upto <= rows.len(),
        0 <= j < m,
        is_bit_table(rows, rows.len() as int, m),
    ensures
        0 <= column_sum(rows, j, upto) <= upto,
    decreases upto,
{
    if upto > 0 {
        lemma_column_sum_bits(rows, j, upto - 1, m);
        assert(is_bit(rows[upto - 1][j]));
    }
}

} // verus!
