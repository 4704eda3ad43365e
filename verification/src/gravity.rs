//! Which bodies pull on which.
//!
//! Every body is attracted by every other body and never by itself. Bodies
//! are told apart by name, so the names of a simulation must be distinct.

use vstd::prelude::*;
use crate::planets::Planet;

verus! {

/// The names of the bodies, in their order.
pub open spec fn names_of(bodies: Seq<Planet>) -> Seq<Seq<char>> {
    Seq::new(bodies.len(), |i: int| bodies[i]@.name)
}

/// Whether no two of the names are equal.
pub open spec fn distinct_names(names: Seq<Seq<char>>) -> bool {
    forall|i: int, j: int| 0 <= i < j < names.len() ==> names[i] != names[j]
}

/// The test that tells another body from the body at index `body`: its name
/// is a different one.
pub open spec fn is_other(names: Seq<Seq<char>>, body: int) -> spec_fn(int) -> bool {
    |j: int| names[j] != names[body]
}

/// The indices of the bodies that pull on the body at index `body`, in
/// ascending order.
pub open spec fn attractors_of(names: Seq<Seq<char>>, body: int) -> Seq<int> {
    Seq::new(names.len(), |j: int| j).filter(is_other(names, body))
}

/// A list of indices as mathematical integers.
pub open spec fn indices(list: Seq<usize>) -> Seq<int> {
    list.map_values(|j: usize| j as int)
}

/// Filtering the first `n + 1` indices keeps what filtering the first `n`
/// keeps, and after it `n` itself if `n` passes the test.
proof fn lemma_filter_next(n: nat, pred: spec_fn(int) -> bool)
    ensures
        Seq::new(n + 1, |j: int| j).filter(pred) == if pred(n as int) {
            Seq::new(n, |j: int| j).filter(pred).push(n as int)
        } else {
            Seq::new(n, |j: int| j).filter(pred)
        },
{
    reveal(Seq::filter);
    assert(Seq::new(n + 1, |j: int| j).drop_last() =~= Seq::new(n, |j: int| j));
}

/// Filtering the first `n` indices keeps exactly those that pass the test.
proof fn lemma_filter_members(n: nat, pred: spec_fn(int) -> bool, j: int)
    ensures
        Seq::new(n, |j: int| j).filter(pred).contains(j) == (0 <= j < n && pred(j)),
    decreases n,
{
    if n == 0 {
        reveal(Seq::filter);
    } else {
        let m = (n - 1) as nat;
        lemma_filter_next(m, pred);
        lemma_filter_members(m, pred, j);
        let shorter = Seq::new(m, |j: int| j).filter(pred);
        if pred(m as int) {
            if shorter.contains(j) {
                let k = choose|k: int| 0 <= k < shorter.len() && shorter[k] == j;
                assert(shorter.push(m as int)[k] == j);
            }
            assert(shorter.push(m as int)[shorter.len() as int] == m);
        }
    }
}

/// A body never pulls on itself.
pub proof fn lemma_self_excluded(names: Seq<Seq<char>>, body: int)
    ensures
        !attractors_of(names, body).contains(body),
{
    lemma_filter_members(names.len(), is_other(names, body), body);
}

/// A body is pulled by exactly those bodies whose name differs from its own.
pub proof fn lemma_attractor_members(names: Seq<Seq<char>>, body: int, other: int)
    ensures
        attractors_of(names, body).contains(other) == (0 <= other < names.len() && names[other]
            != names[body]),
{
    lemma_filter_members(names.len(), is_other(names, body), other);
}

/// Where the names are distinct, a body is pulled by every body but itself.
pub proof fn lemma_all_others_attract(names: Seq<Seq<char>>, body: int, other: int)
    requires
        distinct_names(names),
        0 <= body < names.len(),
        0 <= other < names.len(),
    ensures
        attractors_of(names, body).contains(other) == (other != body),
{
    lemma_filter_members(names.len(), is_other(names, body), other);
}

/// Attraction is mutual: one body pulls on another exactly when the other
/// pulls on it.
pub proof fn lemma_attraction_mutual(names: Seq<Seq<char>>, a: int, b: int)
    requires
        0 <= a < names.len(),
        0 <= b < names.len(),
    ensures
        attractors_of(names, a).contains(b) == attractors_of(names, b).contains(a),
{
    lemma_filter_members(names.len(), is_other(names, a), b);
    lemma_filter_members(names.len(), is_other(names, b), a);
}

/// Whether the bodies can be told apart: no two of them have the same name.
pub fn has_distinct_names(bodies: &Vec<Planet>) -> (ok: bool)
    ensures
        ok == distinct_names(names_of(bodies@)),
{
    let n: usize = bodies.len();
    let mut j: usize = 0;
    while j < n
        invariant
            n == bodies@.len(),
            j <= n,
            forall|a: int, b: int| 0 <= a < b < j ==> names_of(bodies@)[a] != names_of(bodies@)[b],
        decreases n - j,
    {
        let mut i: usize = 0;
        while i < j
            invariant
                n == bodies@.len(),
                i <= j < n,
                forall|a: int| 0 <= a < i ==> names_of(bodies@)[a] != names_of(bodies@)[j as int],
            decreases j - i,
        {
            if *bodies[i].name() == *bodies[j].name() {
                assert(names_of(bodies@)[i as int] == names_of(bodies@)[j as int]);
                return false;
            }
            i += 1;
        }
        j += 1;
    }
    true
}

/// The indices of the bodies that pull on `bodies[body]`, in ascending
/// order: every body whose name differs from that body's name.
pub fn attractors(bodies: &Vec<Planet>, body: usize) -> (out: Vec<usize>)
    requires
        body < bodies.len(),
    ensures
        indices(out@) == attractors_of(names_of(bodies@), body as int),
{
    let ghost names = names_of(bodies@);
    let ghost other = is_other(names, body as int);
    let n: usize = bodies.len();
    let mut out: Vec<usize> = Vec::new();
    let mut j: usize = 0;
    proof {
        reveal(Seq::filter);
        assert(indices(out@) =~= Seq::new(0, |k: int| k).filter(other));
    }
    while j < n
        invariant
            n == bodies@.len(),
            body < n,
            j <= n,
            names == names_of(bodies@),
            other == is_other(names, body as int),
            indices(out@) == Seq::new(j as nat, |k: int| k).filter(other),
        decreases n - j,
    {
        let ghost before = indices(out@);
        proof {
            lemma_filter_next(j as nat, other);
        }
        if !(*bodies[j].name() == *bodies[body].name()) {
            out.push(j);
            assert(indices(out@) =~= before.push(j as int));
        }
        j += 1;
    }
    out
}

} // verus!
