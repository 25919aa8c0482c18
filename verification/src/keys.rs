//! The order in which the keys of an ordered map are walked.
//!
//! Students and projects are numbered by the position of their key among the
//! keys of their map, smallest key first. This module says what that order is
//! and reads it off a map.

use std::collections::BTreeMap;
use vstd::prelude::*;
use vstd::std_specs::cmp::OrdSpec;
use vstd::std_specs::iter::IteratorSpec;

verus! {

/// Under `rank`, each element of `s` is smaller than every later one.
pub open spec fn ascending_by<K>(s: Seq<K>, rank: spec_fn(K) -> int) -> bool {
    forall|i: int, j: int| 0 <= i < j < s.len() ==> rank(s[i]) < rank(s[j])
}

/// `rank` tells any two different keys apart.
pub open spec fn injective<K>(rank: spec_fn(K) -> int) -> bool {
    forall|a: K, b: K| #![trigger rank(a), rank(b)] rank(a) == rank(b) ==> a == b
}

/// The number that a student key stands for.
pub open spec fn student_rank() -> spec_fn(u128) -> int {
    |k: u128| k as int
}

/// The number that a project key stands for.
pub open spec fn project_rank() -> spec_fn(u32) -> int {
    |k: u32| k as int
}

/// `order` lists exactly the student keys in `dom`, smallest first.
pub open spec fn is_student_order(order: Seq<u128>, dom: Set<u128>) -> bool {
    &&& ascending_by(order, student_rank())
    &&& order.to_set() == dom
}

/// `order` lists exactly the project keys in `dom`, smallest first.
pub open spec fn is_project_order(order: Seq<u32>, dom: Set<u32>) -> bool {
    &&& ascending_by(order, project_rank())
    &&& order.to_set() == dom
}

/// The student keys in `dom`, smallest first.
pub open spec fn student_order(dom: Set<u128>) -> Seq<u128> {
    choose|order: Seq<u128>| is_student_order(order, dom)
}

/// The project keys in `dom`, smallest first.
pub open spec fn project_order(dom: Set<u32>) -> Seq<u32> {
    choose|order: Seq<u32>| is_project_order(order, dom)
}

/// An ascending sequence holds no element twice.
pub proof fn lemma_ascending_no_duplicates<K>(s: Seq<K>, rank: spec_fn(K) -> int)
    requires
        ascending_by(s, rank),
    ensures
        s.no_duplicates(),
{
    assert forall|i: int, j: int| 0 <= i < s.len() && 0 <= j < s.len() && i != j implies s[i]
        != s[j] by {
        if i < j {
            assert(rank(s[i]) < rank(s[j]));
        } else {
            assert(rank(s[j]) < rank(s[i]));
        }
    }
}

/// Two ascending sequences with the same elements are the same sequence.
pub proof fn lemma_ascending_unique<K>(a: Seq<K>, b: Seq<K>, rank: spec_fn(K) -> int)
    requires
        ascending_by(a, rank),
        ascending_by(b, rank),
        a.to_set() == b.to_set(),
    ensures
        a == b,
    decreases a.len(),
{
    if a.len() == 0 {
        if b.len() > 0 {
            assert(b.to_set().contains(b[0]));
            assert(a.to_set().contains(b[0]));
        }
        assert(a =~= b);
    } else {
        assert(a.to_set().contains(a[0]));
        assert(b.to_set().contains(a[0]));
        let jb = choose|j: int| 0 <= j < b.len() && b[j] == a[0];
        assert(b.to_set().contains(b[0]));
        assert(a.to_set().contains(b[0]));
        let ja = choose|j: int| 0 <= j < a.len() && a[j] == b[0];
        assert(a[0] == b[0]) by {
            if ja > 0 {
                assert(rank(a[0]) < rank(a[ja]));
            }
            if jb > 0 {
                assert(rank(b[0]) < rank(b[jb]));
            }
        }
        let a1 = a.drop_first();
        let b1 = b.drop_first();
        assert(ascending_by(a1, rank)) by {
            assert forall|i: int, j: int| 0 <= i < j < a1.len() implies rank(a1[i]) < rank(
                a1[j],
            ) by {
                assert(rank(a[i + 1]) < rank(a[j + 1]));
            }
        }
        assert(ascending_by(b1, rank)) by {
            assert forall|i: int, j: int| 0 <= i < j < b1.len() implies rank(b1[i]) < rank(
                b1[j],
            ) by {
                assert(rank(b[i + 1]) < rank(b[j + 1]));
            }
        }
        assert(a1.to_set() =~= b1.to_set()) by {
            assert forall|v: K| a1.to_set().contains(v) implies b1.to_set().contains(v) by {
                let i = choose|i: int| 0 <= i < a1.len() && a1[i] == v;
                assert(rank(a[0]) < rank(a[i + 1]));
                assert(a.to_set().contains(a[i + 1]));
                assert(b.to_set().contains(v));
                let j = choose|j: int| 0 <= j < b.len() && b[j] == v;
                assert(j > 0);
                assert(b1[j - 1] == v);
            }
            assert forall|v: K| b1.to_set().contains(v) implies a1.to_set().contains(v) by {
                let i = choose|i: int| 0 <= i < b1.len() && b1[i] == v;
                assert(rank(b[0]) < rank(b[i + 1]));
                assert(b.to_set().contains(b[i + 1]));
                assert(a.to_set().contains(v));
                let j = choose|j: int| 0 <= j < a.len() && a[j] == v;
                assert(j > 0);
                assert(a1[j - 1] == v);
            }
        }
        lemma_ascending_unique(a1, b1, rank);
        assert(a =~= seq![a[0]] + a1);
        assert(b =~= seq![b[0]] + b1);
    }
}

/// A finite, non-empty set has an element of greatest rank.
proof fn lemma_greatest_exists<K>(dom: Set<K>, rank: spec_fn(K) -> int) -> (top: K)
    requires
        dom.finite(),
        dom.len() > 0,
    ensures
        dom.contains(top),
        forall|k: K| dom.contains(k) ==> rank(k) <= rank(top),
    decreases dom.len(),
{
    let x = dom.choose();
    let rest = dom.remove(x);
    if rest.len() == 0 {
        assert forall|k: K| dom.contains(k) implies rank(k) <= rank(x) by {
            if k != x {
                assert(rest.contains(k));
            }
        }
        x
    } else {
        let y = lemma_greatest_exists(rest, rank);
        let top = if rank(x) <= rank(y) {
            y
        } else {
            x
        };
        assert forall|k: K| dom.contains(k) implies rank(k) <= rank(top) by {
            if k != x {
                assert(rest.contains(k));
            }
        }
        top
    }
}

/// Every finite set can be listed in ascending order.
pub proof fn lemma_ascending_exists<K>(dom: Set<K>, rank: spec_fn(K) -> int) -> (order: Seq<K>)
    requires
        dom.finite(),
        injective(rank),
    ensures
        ascending_by(order, rank),
        order.to_set() == dom,
    decreases dom.len(),
{
    if dom.len() == 0 {
        let order = Seq::<K>::empty();
        assert(order.to_set() =~= dom);
        order
    } else {
        let top = lemma_greatest_exists(dom, rank);
        let rest = dom.remove(top);
        let head = lemma_ascending_exists(rest, rank);
        let order = head.push(top);
        assert forall|i: int, j: int| 0 <= i < j < order.len() implies rank(order[i]) < rank(
            order[j],
        ) by {
            if j == head.len() {
                assert(head.to_set().contains(head[i]));
                assert(rest.contains(head[i]));
                assert(rank(head[i]) <= rank(top));
                assert(head[i] != top);
            } else {
                assert(rank(head[i]) < rank(head[j]));
            }
        }
        assert(order.to_set() =~= dom) by {
            assert forall|k: K| order.to_set().contains(k) implies dom.contains(k) by {
                let i = choose|i: int| 0 <= i < order.len() && order[i] == k;
                if i < head.len() {
                    assert(head.to_set().contains(head[i]));
                }
            }
            assert forall|k: K| dom.contains(k) implies order.to_set().contains(k) by {
                if k == top {
                    assert(order[head.len() as int] == k);
                } else {
                    assert(rest.contains(k));
                    assert(head.to_set().contains(k));
                    let i = choose|i: int| 0 <= i < head.len() && head[i] == k;
                    assert(order[i] == k);
                }
            }
        }
        order
    }
}

/// The order of the students of a finite roster is what its name says.
pub proof fn lemma_student_order(dom: Set<u128>)
    requires
        dom.finite(),
    ensures
        is_student_order(student_order(dom), dom),
        student_order(dom).no_duplicates(),
        student_order(dom).len() == dom.len(),
{
    let order = lemma_ascending_exists(dom, student_rank());
    assert(is_student_order(order, dom));
    lemma_ascending_no_duplicates(student_order(dom), student_rank());
    student_order(dom).unique_seq_to_set();
}

/// The order of a finite set of projects is what its name says.
pub proof fn lemma_project_order(dom: Set<u32>)
    requires
        dom.finite(),
    ensures
        is_project_order(project_order(dom), dom),
        project_order(dom).no_duplicates(),
        project_order(dom).len() == dom.len(),
{
    let order = lemma_ascending_exists(dom, project_rank());
    assert(is_project_order(order, dom));
    lemma_ascending_no_duplicates(project_order(dom), project_rank());
    project_order(dom).unique_seq_to_set();
}

proof fn lemma_student_keys_ascending(ks: Seq<&u128>)
    requires
        vstd::std_specs::btree::increasing_seq(ks),
    ensures
        ascending_by(ks.unref(), student_rank()),
{
    assert(vstd::laws_cmp::obeys_cmp::<u128>());
    assert(vstd::laws_cmp::obeys_cmp::<&u128>());
    vstd::std_specs::btree::axiom_increasing_seq_meaning::<&u128>(ks);
    assert forall|i: int, j: int| 0 <= i < j < ks.len() implies *ks[i] < *ks[j] by {
        assert(OrdSpec::cmp_spec(&ks[i], &ks[j]) is Less);
    }
}

proof fn lemma_project_keys_ascending(ks: Seq<&u32>)
    requires
        vstd::std_specs::btree::increasing_seq(ks),
    ensures
        ascending_by(ks.unref(), project_rank()),
{
    assert(vstd::laws_cmp::obeys_cmp::<u32>());
    assert(vstd::laws_cmp::obeys_cmp::<&u32>());
    vstd::std_specs::btree::axiom_increasing_seq_meaning::<&u32>(ks);
    assert forall|i: int, j: int| 0 <= i < j < ks.len() implies *ks[i] < *ks[j] by {
        assert(OrdSpec::cmp_spec(&ks[i], &ks[j]) is Less);
    }
}

/// The keys of a map of students, smallest first.
pub fn student_keys<V>(m: &BTreeMap<u128, V>) -> (r: Vec<u128>)
    ensures
        r@ == student_order(m@.dom()),
        is_student_order(r@, m@.dom()),
        r@.no_duplicates(),
        r@.len() == m@.dom().len(),
{
    let mut out: Vec<u128> = Vec::new();
    let ghost ks = m.keys().remaining();
    proof {
        lemma_student_keys_ascending(ks);
        assert(ks.unref().to_set() == m@.dom());
    }
    for k in it: m.keys()
        invariant
            it.seq() == ks,
            out@ == it.seq().take(it.index()).unref(),
    {
        out.push(*k);
    }
    proof {
        assert(out@ == ks.unref());
        lemma_student_order(m@.dom());
        lemma_ascending_unique(out@, student_order(m@.dom()), student_rank());
    }
    out
}

/// The keys of a map of projects, smallest first.
pub fn project_keys<V>(m: &BTreeMap<u32, V>) -> (r: Vec<u32>)
    ensures
        r@ == project_order(m@.dom()),
        is_project_order(r@, m@.dom()),
        r@.no_duplicates(),
        r@.len() == m@.dom().len(),
{
    let mut out: Vec<u32> = Vec::new();
    let ghost ks = m.keys().remaining();
    proof {
        lemma_project_keys_ascending(ks);
        assert(ks.unref().to_set() == m@.dom());
    }
    for k in it: m.keys()
        invariant
            it.seq() == ks,
            out@ == it.seq().take(it.index()).unref(),
    {
        out.push(*k);
    }
    proof {
        assert(out@ == ks.unref());
        lemma_project_order(m@.dom());
        lemma_ascending_unique(out@, project_order(m@.dom()), project_rank());
    }
    out
}

} // verus!
