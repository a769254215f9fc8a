//! From action tables to a decoding hypergraph.
//!
//! Every admitted error with a non-empty footprint is a candidate hyperedge
//! over the stabilizers it flips. Candidates are visited by ascending data
//! qubit and, on one qubit, in the order `X`, `Y`, `Z`; of several with the
//! same footprint the first one visited represents the hyperedge.

use vstd::prelude::*;
use crate::actions::ActionEntry;
use crate::noise::Pauli;
use crate::sites::{lemma_listing_unique, lists};

verus! {

/// The place of an error kind in the visiting order.
pub open spec fn pauli_rank(e: Pauli) -> int {
    match e {
        Pauli::X => 0,
        Pauli::Y => 1,
        Pauli::Z => 2,
    }
}

/// The place of a physical error in the visiting order.
pub open spec fn error_rank(err: (usize, Pauli)) -> int {
    3 * err.0 + pauli_rank(err.1)
}

/// Whether the action table has the error and it flips at least one
/// stabilizer.
pub open spec fn is_candidate(actions: Seq<ActionEntry>, err: (usize, Pauli)) -> bool {
    err.0 < actions.len() && match actions[err.0 as int].flips(err.1) {
        Some(l) => l.len() > 0,
        None => false,
    }
}

/// The set of stabilizers that a candidate error flips.
pub open spec fn footprint(actions: Seq<ActionEntry>, err: (usize, Pauli)) -> Set<usize> {
    match actions[err.0 as int].flips(err.1) {
        Some(l) => l.to_set(),
        None => Set::empty(),
    }
}

/// Whether `s` is strictly increasing.
pub open spec fn increasing(s: Seq<usize>) -> bool {
    forall|a: int, b: int| 0 <= a < b < s.len() ==> s[a] < s[b]
}

/// Whether hyperedge `k` has the footprint of the candidate `err` and a
/// representative that is visited no later than `err`.
pub open spec fn represents(
    actions: Seq<ActionEntry>,
    edges: Seq<Vec<usize>>,
    errors: Seq<(usize, Pauli)>,
    k: int,
    err: (usize, Pauli),
) -> bool {
    &&& 0 <= k < edges.len()
    &&& edges[k]@.to_set() == footprint(actions, err)
    &&& error_rank(errors[k]) <= error_rank(err)
}

/// Whether `edges` and `errors` are what the candidates visited before
/// place `bound` compile to.
pub open spec fn compiled_upto(
    actions: Seq<ActionEntry>,
    edges: Seq<Vec<usize>>,
    errors: Seq<(usize, Pauli)>,
    bound: int,
) -> bool {
    &&& edges.len() == errors.len()
    &&& forall|k: int|
        0 <= k < edges.len() ==> {
            &&& is_candidate(actions, #[trigger] errors[k])
            &&& error_rank(errors[k]) < bound
            &&& increasing(edges[k]@)
            &&& edges[k]@.to_set() == footprint(actions, errors[k])
        }
    &&& forall|a: int, b: int|
        0 <= a < b < errors.len() ==> error_rank(#[trigger] errors[a]) < error_rank(#[trigger] errors[b])
    &&& forall|a: int, b: int|
        0 <= a < b < edges.len() ==> (#[trigger] edges[a])@.to_set() != (#[trigger] edges[b])@.to_set()
    &&& forall|err: (usize, Pauli)|
        #[trigger] is_candidate(actions, err) && error_rank(err) < bound ==> exists|k: int|
            represents(actions, edges, errors, k, err)
}

/// Whether `edges` and `errors` are the hypergraph of the action table:
/// one hyperedge for each distinct footprint, as a strictly increasing list
/// of stabilizers, in the order in which the footprints are first met, and
/// beside each hyperedge the first error that has its footprint.
pub open spec fn compiled(actions: Seq<ActionEntry>, edges: Seq<Vec<usize>>, errors: Seq<(usize, Pauli)>) -> bool {
    &&& edges.len() == errors.len()
    &&& forall|k: int|
        0 <= k < edges.len() ==> {
            &&& is_candidate(actions, #[trigger] errors[k])
            &&& increasing(edges[k]@)
            &&& edges[k]@.to_set() == footprint(actions, errors[k])
        }
    &&& forall|a: int, b: int|
        0 <= a < b < errors.len() ==> error_rank(#[trigger] errors[a]) < error_rank(#[trigger] errors[b])
    &&& forall|a: int, b: int|
        0 <= a < b < edges.len() ==> (#[trigger] edges[a])@.to_set() != (#[trigger] edges[b])@.to_set()
    &&& forall|err: (usize, Pauli)| #[trigger]
        is_candidate(actions, err) ==> exists|k: int| represents(actions, edges, errors, k, err)
}

/// In a compiled hypergraph no two hyperedges have the same vertex set.
pub proof fn lemma_compiled_edges_distinct(
    actions: Seq<ActionEntry>,
    edges: Seq<Vec<usize>>,
    errors: Seq<(usize, Pauli)>,
    a: int,
    b: int,
)
    requires
        compiled(actions, edges, errors),
        0 <= a < edges.len(),
        0 <= b < edges.len(),
        a != b,
    ensures
        edges[a]@.to_set() != edges[b]@.to_set(),
        edges[a]@ != edges[b]@,
{
    if a < b {
        assert(edges[a]@.to_set() != edges[b]@.to_set());
    } else {
        assert(edges[b]@.to_set() != edges[a]@.to_set());
    }
}

/// The representative of a hyperedge is the first error with its footprint:
/// no candidate with the same footprint is visited before it.
pub proof fn lemma_compiled_first_wins(
    actions: Seq<ActionEntry>,
    edges: Seq<Vec<usize>>,
    errors: Seq<(usize, Pauli)>,
    k: int,
    err: (usize, Pauli),
)
    requires
        compiled(actions, edges, errors),
        0 <= k < edges.len(),
        is_candidate(actions, err),
        footprint(actions, err) == edges[k]@.to_set(),
    ensures
        error_rank(errors[k]) <= error_rank(err),
{
    let w = choose|w: int| represents(actions, edges, errors, w, err);
    if w != k {
        lemma_compiled_edges_distinct(actions, edges, errors, w, k);
    }
}

/// Every error that flips a stabilizer is covered: the syndrome that it
/// alone causes is the vertex set of one hyperedge, and reading that
/// hyperedge back gives an error with the very same syndrome.
pub proof fn lemma_single_error_is_covered(
    actions: Seq<ActionEntry>,
    edges: Seq<Vec<usize>>,
    errors: Seq<(usize, Pauli)>,
    err: (usize, Pauli),
) -> (k: int)
    requires
        compiled(actions, edges, errors),
        is_candidate(actions, err),
    ensures
        0 <= k < edges.len(),
        edges[k]@.to_set() == footprint(actions, err),
        is_candidate(actions, errors[k]),
        footprint(actions, errors[k]) == footprint(actions, err),
        error_rank(errors[k]) <= error_rank(err),
{
    choose|k: int| represents(actions, edges, errors, k, err)
}

/// Whether `err` is the first of the candidates with its footprint.
pub open spec fn is_first(actions: Seq<ActionEntry>, err: (usize, Pauli)) -> bool {
    &&& is_candidate(actions, err)
    &&& forall|other: (usize, Pauli)| #[trigger]
        is_candidate(actions, other) && footprint(actions, other) == footprint(actions, err) ==> error_rank(err)
            <= error_rank(other)
}

/// An error as a pair of numbers that are ordered as the errors are
/// visited.
pub open spec fn error_key(err: (usize, Pauli)) -> (usize, usize) {
    (err.0, pauli_rank(err.1) as usize)
}

/// The representatives of a compiled hypergraph are exactly the errors that
/// are the first with their footprint.
pub proof fn lemma_compiled_representatives(
    actions: Seq<ActionEntry>,
    edges: Seq<Vec<usize>>,
    errors: Seq<(usize, Pauli)>,
)
    requires
        compiled(actions, edges, errors),
    ensures
        forall|k: int| 0 <= k < errors.len() ==> is_first(actions, #[trigger] errors[k]),
        forall|err: (usize, Pauli)| #[trigger] is_first(actions, err) ==> errors.contains(err),
{
    assert forall|k: int| 0 <= k < errors.len() implies is_first(actions, #[trigger] errors[k]) by {
        assert forall|other: (usize, Pauli)| #[trigger]
            is_candidate(actions, other) && footprint(actions, other) == footprint(actions, errors[k]) implies error_rank(
            errors[k],
        ) <= error_rank(other) by {
            lemma_compiled_first_wins(actions, edges, errors, k, other);
        }
    }
    assert forall|err: (usize, Pauli)| #[trigger] is_first(actions, err) implies errors.contains(err) by {
        let k = lemma_single_error_is_covered(actions, edges, errors, err);
        assert(is_candidate(actions, errors[k]));
        assert(error_rank(errors[k]) == error_rank(err));
        assert(errors[k].0 == err.0);
        assert(pauli_rank(errors[k].1) == pauli_rank(err.1));
        assert(errors[k] == err);
    }
}

/// A strictly increasing sequence is determined by the set of its
/// elements.
pub proof fn lemma_increasing_unique(a: Seq<usize>, b: Seq<usize>)
    requires
        increasing(a),
        increasing(b),
        a.to_set() == b.to_set(),
    ensures
        a == b,
{
    let members = Set::new(|p: (usize, usize)| p.0 == 0 && a.to_set().contains(p.1));
    let s = Seq::new(a.len(), |m: int| (0usize, a[m]));
    let t = Seq::new(b.len(), |m: int| (0usize, b[m]));
    assert(lists(s, members)) by {
        assert forall|k: int| 0 <= k < s.len() implies members.contains(#[trigger] s[k]) by {
            assert(a.contains(a[k]));
        }
        assert forall|x: (usize, usize)| #[trigger] members.contains(x) implies s.contains(x) by {
            assert(a.contains(x.1));
            let m = choose|m: int| 0 <= m < a.len() && a[m] == x.1;
            assert(s[m] == x);
        }
    }
    assert(lists(t, members)) by {
        assert forall|k: int| 0 <= k < t.len() implies members.contains(#[trigger] t[k]) by {
            assert(b.contains(b[k]));
            assert(b.to_set().contains(b[k]));
        }
        assert forall|x: (usize, usize)| #[trigger] members.contains(x) implies t.contains(x) by {
            assert(b.to_set().contains(x.1));
            assert(b.contains(x.1));
            let m = choose|m: int| 0 <= m < b.len() && b[m] == x.1;
            assert(t[m] == x);
        }
    }
    lemma_listing_unique(s, t, members);
    assert(a.len() == b.len());
    assert forall|m: int| 0 <= m < a.len() implies a[m] == b[m] by {
        assert(s[m] == t[m]);
    }
    assert(a =~= b);
}

/// The representatives as pairs of numbers.
pub open spec fn error_keys(errors: Seq<(usize, Pauli)>) -> Seq<(usize, usize)> {
    Seq::new(errors.len(), |k: int| error_key(errors[k]))
}

/// The errors that are the first with their footprint, as pairs of numbers.
pub open spec fn first_keys(actions: Seq<ActionEntry>) -> Set<(usize, usize)> {
    Set::new(
        |x: (usize, usize)| exists|err: (usize, Pauli)| #[trigger] is_first(actions, err) && error_key(err) == x,
    )
}

/// The representatives of a compiled hypergraph list, in the order of the
/// visit and each once, the errors that are the first with their footprint.
pub proof fn lemma_representatives_listed(
    actions: Seq<ActionEntry>,
    edges: Seq<Vec<usize>>,
    errors: Seq<(usize, Pauli)>,
)
    requires
        compiled(actions, edges, errors),
    ensures
        lists(error_keys(errors), first_keys(actions)),
{
    lemma_compiled_representatives(actions, edges, errors);
    let members = first_keys(actions);
    let s = error_keys(errors);
    assert forall|k: int| 0 <= k < s.len() implies members.contains(#[trigger] s[k]) by {
        assert(is_first(actions, errors[k]) && error_key(errors[k]) == s[k]);
    }
    assert forall|x: (usize, usize)| #[trigger] members.contains(x) implies s.contains(x) by {
        let err = choose|err: (usize, Pauli)| #[trigger] is_first(actions, err) && error_key(err) == x;
        assert(errors.contains(err));
        let k = choose|k: int| 0 <= k < errors.len() && errors[k] == err;
        assert(s[k] == x);
    }
    assert forall|a: int, b: int| 0 <= a < b < s.len() implies (#[trigger] s[a]).0 < (#[trigger] s[b]).0 || (s[a].0
        == s[b].0 && s[a].1 < s[b].1) by {
        assert(error_rank(errors[a]) < error_rank(errors[b]));
    }
}

/// Errors with the same pairs of numbers are the same errors.
pub proof fn lemma_error_keys_injective(errors: Seq<(usize, Pauli)>, errors2: Seq<(usize, Pauli)>)
    requires
        error_keys(errors) == error_keys(errors2),
    ensures
        errors == errors2,
{
    assert(errors.len() == error_keys(errors).len());
    assert(errors2.len() == error_keys(errors2).len());
    assert forall|k: int| 0 <= k < errors.len() implies errors[k] == errors2[k] by {
        assert(error_keys(errors)[k] == error_keys(errors2)[k]);
        assert(pauli_rank(errors[k].1) == pauli_rank(errors2[k].1));
    }
    assert(errors =~= errors2);
}

/// An action table has one hypergraph: whatever compiles it arrives at the
/// same hyperedges, in the same order, with the same representatives.
pub proof fn lemma_compiled_unique(
    actions: Seq<ActionEntry>,
    edges: Seq<Vec<usize>>,
    errors: Seq<(usize, Pauli)>,
    edges2: Seq<Vec<usize>>,
    errors2: Seq<(usize, Pauli)>,
)
    requires
        compiled(actions, edges, errors),
        compiled(actions, edges2, errors2),
    ensures
        errors == errors2,
        edges.len() == edges2.len(),
        forall|k: int| 0 <= k < edges.len() ==> (#[trigger] edges[k])@ == edges2[k]@,
{
    lemma_representatives_listed(actions, edges, errors);
    lemma_representatives_listed(actions, edges2, errors2);
    lemma_listing_unique(error_keys(errors), error_keys(errors2), first_keys(actions));
    lemma_error_keys_injective(errors, errors2);
    assert forall|k: int| 0 <= k < edges.len() implies (#[trigger] edges[k])@ == edges2[k]@ by {
        assert(is_candidate(actions, errors[k]));
        assert(is_candidate(actions, errors2[k]));
        lemma_increasing_unique(edges[k]@, edges2[k]@);
    }
}

/// Whether `x` occurs in `v`.
pub fn contains(v: &Vec<usize>, x: usize) -> (r: bool)
    ensures
        r == v@.contains(x),
{
    let mut m: usize = 0;
    while m < v.len()
        invariant
            m <= v@.len(),
            forall|n: int| 0 <= n < m ==> v@[n] != x,
        decreases v@.len() - m,
    {
        if v[m] == x {
            return true;
        }
        m += 1;
    }
    false
}

/// Whether every element of `a` occurs in `b`.
pub fn subset(a: &Vec<usize>, b: &Vec<usize>) -> (r: bool)
    ensures
        r == a@.to_set().subset_of(b@.to_set()),
{
    let mut m: usize = 0;
    while m < a.len()
        invariant
            m <= a@.len(),
            forall|n: int| 0 <= n < m ==> b@.contains(#[trigger] a@[n]),
        decreases a@.len() - m,
    {
        if !contains(b, a[m]) {
            assert(a@.to_set().contains(a@[m as int]));
            return false;
        }
        m += 1;
    }
    assert forall|x: usize| a@.to_set().contains(x) implies b@.to_set().contains(x) by {
        let n = choose|n: int| 0 <= n < a@.len() && a@[n] == x;
        assert(b@.contains(a@[n]));
    }
    true
}

/// Whether `a` and `b` hold the same elements, whatever their order and
/// however often.
pub fn same_set(a: &Vec<usize>, b: &Vec<usize>) -> (r: bool)
    ensures
        r == (a@.to_set() == b@.to_set()),
{
    let r = subset(a, b) && subset(b, a);
    proof {
        if r {
            assert(a@.to_set() =~= b@.to_set());
        }
    }
    r
}

/// The least element of `v` that is at least `floor`.
fn least_from(v: &Vec<usize>, floor: usize) -> (r: Option<usize>)
    ensures
        match r {
            Some(x) => x >= floor && v@.contains(x) && forall|n: int|
                0 <= n < v@.len() && v@[n] >= floor ==> x <= v@[n],
            None => forall|n: int| 0 <= n < v@.len() ==> v@[n] < floor,
        },
{
    let mut best: Option<usize> = None;
    let mut m: usize = 0;
    while m < v.len()
        invariant
            m <= v@.len(),
            match best {
                Some(x) => x >= floor && v@.contains(x) && forall|n: int|
                    0 <= n < m && v@[n] >= floor ==> x <= v@[n],
                None => forall|n: int| 0 <= n < m ==> v@[n] < floor,
            },
        decreases v@.len() - m,
    {
        let x = v[m];
        if x >= floor {
            let better = match best {
                Some(y) => x < y,
                None => true,
            };
            if better {
                best = Some(x);
            }
        }
        m += 1;
    }
    best
}

/// The elements of `v` in strictly increasing order, each once.
pub fn vertex_set(v: &Vec<usize>) -> (r: Vec<usize>)
    ensures
        increasing(r@),
        r@.to_set() == v@.to_set(),
{
    let mut out: Vec<usize> = Vec::new();
    let mut floor: usize = 0;
    let mut open = true;
    while open
        invariant
            increasing(out@),
            forall|k: int| 0 <= k < out@.len() ==> v@.contains(#[trigger] out@[k]) && (open ==> out@[k] < floor),
            forall|n: int| 0 <= n < v@.len() && (open ==> v@[n] < floor) ==> out@.contains(#[trigger] v@[n]),
        decreases (if open { usize::MAX - floor + 1 } else { 0 }),
    {
        let ghost prev = out@;
        match least_from(v, floor) {
            Some(x) => {
                out.push(x);
                assert forall|n: int| 0 <= n < v@.len() && v@[n] <= x implies out@.contains(#[trigger] v@[n]) by {
                    if v@[n] < floor {
                        let k = choose|k: int| 0 <= k < prev.len() && prev[k] == v@[n];
                        assert(out@[k] == v@[n]);
                    } else {
                        assert(out@[prev.len() as int] == v@[n]);
                    }
                }
                if x == usize::MAX {
                    open = false;
                } else {
                    floor = x + 1;
                }
            },
            None => {
                open = false;
            },
        }
    }
    assert(out@.to_set() =~= v@.to_set());
    out
}

/// The first hyperedge whose vertex set is that of `key`.
fn find_edge(edges: &Vec<Vec<usize>>, key: &Vec<usize>) -> (r: Option<usize>)
    ensures
        match r {
            Some(k) => k < edges@.len() && edges@[k as int]@.to_set() == key@.to_set(),
            None => forall|k: int| 0 <= k < edges@.len() ==> (#[trigger] edges@[k])@.to_set() != key@.to_set(),
        },
{
    let mut k: usize = 0;
    while k < edges.len()
        invariant
            k <= edges@.len(),
            forall|m: int| 0 <= m < k ==> (#[trigger] edges@[m])@.to_set() != key@.to_set(),
        decreases edges@.len() - k,
    {
        if same_set(&edges[k], key) {
            return Some(k);
        }
        k += 1;
    }
    None
}

/// The error kind at place `n` of the visiting order.
pub fn pauli_at(n: usize) -> (e: Pauli)
    requires
        n < 3,
    ensures
        pauli_rank(e) == n,
{
    if n == 0 {
        Pauli::X
    } else if n == 1 {
        Pauli::Y
    } else {
        Pauli::Z
    }
}

/// Compiles an action table into hyperedges and their representatives.
pub fn compile_actions(actions: &Vec<ActionEntry>) -> (r: (Vec<Vec<usize>>, Vec<(usize, Pauli)>))
    ensures
        compiled(actions@, r.0@, r.1@),
{
    let mut edges: Vec<Vec<usize>> = Vec::new();
    let mut errors: Vec<(usize, Pauli)> = Vec::new();
    let mut q: usize = 0;
    while q < actions.len()
        invariant
            q <= actions@.len(),
            compiled_upto(actions@, edges@, errors@, 3 * q),
        decreases actions@.len() - q,
    {
        let mut n: usize = 0;
        while n < 3
            invariant
                q < actions@.len(),
                n <= 3,
                compiled_upto(actions@, edges@, errors@, 3 * q + n),
            decreases 3 - n,
        {
            let e = pauli_at(n);
            let ghost here = (q, e);
            let ghost old_edges = edges@;
            let ghost old_errors = errors@;
            let mut added = false;
            let mut witness: usize = 0;
            match actions[q].get(e) {
                Some(l) => {
                    if l.len() > 0 {
                        let key = vertex_set(l);
                        match find_edge(&edges, &key) {
                            Some(k) => {
                                witness = k;
                            },
                            None => {
                                witness = edges.len();
                                edges.push(key);
                                errors.push((q, e));
                                added = true;
                            },
                        }
                    }
                },
                None => {},
            }
            proof {
                let bound = 3 * q + n;
                assert forall|err: (usize, Pauli)| #[trigger]
                    is_candidate(actions@, err) && error_rank(err) < bound + 1 implies exists|k: int|
                    represents(actions@, edges@, errors@, k, err) by {
                    if error_rank(err) < bound {
                        let k = choose|k: int| represents(actions@, old_edges, old_errors, k, err);
                        assert(edges@[k] == old_edges[k]);
                        assert(errors@[k] == old_errors[k]);
                        assert(represents(actions@, edges@, errors@, k, err));
                    } else {
                        assert(err.0 == q);
                        assert(pauli_rank(err.1) == n);
                        assert(err == here);
                        assert(represents(actions@, edges@, errors@, witness as int, err));
                    }
                }
                if added {
                    assert forall|k: int| 0 <= k < edges@.len() implies {
                        &&& is_candidate(actions@, #[trigger] errors@[k])
                        &&& error_rank(errors@[k]) < bound + 1
                        &&& increasing(edges@[k]@)
                        &&& edges@[k]@.to_set() == footprint(actions@, errors@[k])
                    } by {
                        if k < old_edges.len() {
                            assert(edges@[k] == old_edges[k]);
                            assert(errors@[k] == old_errors[k]);
                        }
                    }
                    assert forall|a: int, b: int| 0 <= a < b < errors@.len() implies error_rank(
                        #[trigger] errors@[a],
                    ) < error_rank(#[trigger] errors@[b]) by {
                        assert(errors@[a] == old_errors[a]);
                        if b < old_errors.len() {
                            assert(errors@[b] == old_errors[b]);
                        }
                    }
                    assert forall|a: int, b: int| 0 <= a < b < edges@.len() implies (#[trigger] edges@[a])@.to_set()
                        != (#[trigger] edges@[b])@.to_set() by {
                        assert(edges@[a] == old_edges[a]);
                        if b < old_edges.len() {
                            assert(edges@[b] == old_edges[b]);
                        }
                    }
                }
            }
            n += 1;
        }
        q += 1;
    }
    proof {
        assert forall|err: (usize, Pauli)| #[trigger] is_candidate(actions@, err) implies exists|k: int|
            represents(actions@, edges@, errors@, k, err) by {
            assert(error_rank(err) < 3 * q);
        }
    }
    (edges, errors)
}

} // verus!
