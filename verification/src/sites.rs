//! Grid sites and their row-major listings.
//!
//! A lattice numbers its qubits in the order in which a row-by-row sweep of
//! the grid meets them. The listing is the map from index to coordinate;
//! searching it is the map back. Because a listing is strictly increasing in
//! row-major order, the two are inverse to each other.

use vstd::prelude::*;

verus! {

/// Whether the site `x` comes strictly before the coordinate `(i, j)` in a
/// row-by-row sweep.
pub open spec fn site_before(x: (usize, usize), i: int, j: int) -> bool {
    x.0 < i || (x.0 == i && x.1 < j)
}

/// Whether `s` is strictly increasing in row-major order.
pub open spec fn row_major(s: Seq<(usize, usize)>) -> bool {
    forall|a: int, b: int|
        0 <= a < b < s.len() ==> site_before(#[trigger] s[a], (#[trigger] s[b]).0 as int, s[b].1 as int)
}

/// Whether `s` lists, in row-major order and each once, exactly the members
/// of `sites` that a sweep meets before it reaches `(i, j)`.
pub open spec fn lists_before(
    s: Seq<(usize, usize)>,
    sites: Set<(usize, usize)>,
    i: int,
    j: int,
) -> bool {
    &&& row_major(s)
    &&& forall|k: int| 0 <= k < s.len() ==> sites.contains(#[trigger] s[k]) && site_before(s[k], i, j)
    &&& forall|x: (usize, usize)| #[trigger] sites.contains(x) && site_before(x, i, j) ==> s.contains(x)
}

/// Whether `s` lists, in row-major order and each once, exactly the members
/// of `sites`.
pub open spec fn lists(s: Seq<(usize, usize)>, sites: Set<(usize, usize)>) -> bool {
    &&& row_major(s)
    &&& forall|k: int| 0 <= k < s.len() ==> sites.contains(#[trigger] s[k])
    &&& forall|x: (usize, usize)| #[trigger] sites.contains(x) ==> s.contains(x)
}

/// The coordinates, as integers, of the sites that `indices` point at.
pub open spec fn sites_of(indices: Seq<usize>, positions: Seq<(usize, usize)>) -> Seq<(int, int)> {
    Seq::new(
        indices.len(),
        |m: int| (positions[indices[m] as int].0 as int, positions[indices[m] as int].1 as int),
    )
}

/// Whether every index in `indices` is below `bound`.
pub open spec fn all_below(indices: Seq<usize>, bound: int) -> bool {
    forall|m: int| 0 <= m < indices.len() ==> #[trigger] indices[m] < bound
}

/// A sweep that meets a member at `(i, j)` appends it.
pub proof fn lemma_list_push(s: Seq<(usize, usize)>, sites: Set<(usize, usize)>, i: usize, j: usize)
    requires
        lists_before(s, sites, i as int, j as int),
        sites.contains((i, j)),
    ensures
        lists_before(s.push((i, j)), sites, i as int, j + 1),
{
    let t = s.push((i, j));
    assert forall|x: (usize, usize)| #[trigger] sites.contains(x) && site_before(x, i as int, j + 1) implies t.contains(x) by {
        if site_before(x, i as int, j as int) {
            let k = choose|k: int| 0 <= k < s.len() && s[k] == x;
            assert(t[k] == x);
        } else {
            assert(x == (i, j));
            assert(t[s.len() as int] == x);
        }
    }
}

/// A sweep that meets no member at `(i, j)` leaves the listing as it is.
pub proof fn lemma_list_skip(s: Seq<(usize, usize)>, sites: Set<(usize, usize)>, i: usize, j: usize)
    requires
        lists_before(s, sites, i as int, j as int),
        !sites.contains((i, j)),
    ensures
        lists_before(s, sites, i as int, j + 1),
{
    assert forall|x: (usize, usize)| #[trigger] sites.contains(x) && site_before(x, i as int, j + 1) implies s.contains(x) by {
        assert(x != (i, j));
        assert(site_before(x, i as int, j as int));
    }
}

/// The sweep may jump from `(i, j)` to the later coordinate `(i2, j2)` when
/// no member lies between the two.
pub proof fn lemma_list_jump(
    s: Seq<(usize, usize)>,
    sites: Set<(usize, usize)>,
    i: int,
    j: int,
    i2: int,
    j2: int,
)
    requires
        lists_before(s, sites, i, j),
        i < i2 || (i == i2 && j <= j2),
        forall|x: (usize, usize)| #[trigger] sites.contains(x) && site_before(x, i2, j2) ==> site_before(x, i, j),
    ensures
        lists_before(s, sites, i2, j2),
{
}

/// Once the sweep has passed every row that holds a member, the listing is
/// complete.
pub proof fn lemma_list_done(s: Seq<(usize, usize)>, sites: Set<(usize, usize)>, rows: int)
    requires
        lists_before(s, sites, rows, 0),
        forall|x: (usize, usize)| #[trigger] sites.contains(x) ==> x.0 < rows,
    ensures
        lists(s, sites),
{
}

/// In a row-major listing no site occurs twice.
pub proof fn lemma_row_major_injective(s: Seq<(usize, usize)>, a: int, b: int)
    requires
        row_major(s),
        0 <= a < s.len(),
        0 <= b < s.len(),
        s[a] == s[b],
    ensures
        a == b,
{
    if a < b {
        assert(site_before(s[a], s[b].0 as int, s[b].1 as int));
    } else if b < a {
        assert(site_before(s[b], s[a].0 as int, s[a].1 as int));
    }
}

/// A listing is a bijection between its indices and the sites: every site
/// stands at exactly one index.
pub proof fn lemma_listing_bijective(s: Seq<(usize, usize)>, sites: Set<(usize, usize)>, x: (usize, usize)) -> (k: int)
    requires
        lists(s, sites),
        sites.contains(x),
    ensures
        0 <= k < s.len(),
        s[k] == x,
        forall|m: int| 0 <= m < s.len() && s[m] == x ==> m == k,
{
    assert(s.contains(x));
    let k = choose|k: int| 0 <= k < s.len() && s[k] == x;
    assert forall|m: int| 0 <= m < s.len() && s[m] == x implies m == k by {
        lemma_row_major_injective(s, m, k);
    }
    k
}

/// Two row-major listings of the same set are the same sequence: the
/// numbering of a lattice's qubits is determined by where they lie.
pub proof fn lemma_listing_unique(
    s: Seq<(usize, usize)>,
    t: Seq<(usize, usize)>,
    sites: Set<(usize, usize)>,
)
    requires
        lists(s, sites),
        lists(t, sites),
    ensures
        s == t,
    decreases s.len(),
{
    if s.len() == 0 {
        if t.len() > 0 {
            assert(sites.contains(t[0]));
            assert(s.contains(t[0]));
        }
        assert(s =~= t);
    } else {
        let x = s.last();
        assert(sites.contains(x));
        assert(t.contains(x));
        let k = choose|k: int| 0 <= k < t.len() && t[k] == x;
        // `x` is the greatest member, so it is last in `t` as well
        if k < t.len() - 1 {
            let y = t[t.len() - 1];
            assert(site_before(t[k], y.0 as int, y.1 as int));
            assert(sites.contains(y));
            assert(s.contains(y));
            let m = choose|m: int| 0 <= m < s.len() && s[m] == y;
            if m < s.len() - 1 {
                assert(site_before(s[m], s[s.len() - 1].0 as int, s[s.len() - 1].1 as int));
            }
            assert(false);
        }
        let rest = sites.remove(x);
        let s0 = s.drop_last();
        let t0 = t.drop_last();
        assert(lists(s0, rest)) by {
            assert forall|k: int| 0 <= k < s0.len() implies rest.contains(#[trigger] s0[k]) by {
                assert(s0[k] == s[k]);
                assert(sites.contains(s[k]));
                if s[k] == x {
                    lemma_row_major_injective(s, k, s.len() - 1);
                }
            }
            assert forall|y: (usize, usize)| #[trigger] rest.contains(y) implies s0.contains(y) by {
                assert(sites.contains(y));
                let m = choose|m: int| 0 <= m < s.len() && s[m] == y;
                assert(s0[m] == y);
            }
            assert forall|a: int, b: int| 0 <= a < b < s0.len() implies site_before(#[trigger] s0[a], (#[trigger] s0[b]).0 as int, s0[b].1 as int) by {
                assert(s0[a] == s[a] && s0[b] == s[b]);
            }
        }
        assert(lists(t0, rest)) by {
            assert forall|k: int| 0 <= k < t0.len() implies rest.contains(#[trigger] t0[k]) by {
                assert(t0[k] == t[k]);
                assert(sites.contains(t[k]));
                if t[k] == x {
                    lemma_row_major_injective(t, k, t.len() - 1);
                }
            }
            assert forall|y: (usize, usize)| #[trigger] rest.contains(y) implies t0.contains(y) by {
                assert(sites.contains(y));
                let m = choose|m: int| 0 <= m < t.len() && t[m] == y;
                assert(t0[m] == y);
            }
            assert forall|a: int, b: int| 0 <= a < b < t0.len() implies site_before(#[trigger] t0[a], (#[trigger] t0[b]).0 as int, t0[b].1 as int) by {
                assert(t0[a] == t[a] && t0[b] == t[b]);
            }
        }
        lemma_listing_unique(s0, t0, rest);
        assert(s =~= s0.push(x));
        assert(t =~= t0.push(x));
    }
}

/// The index at which the site `(i, j)` stands in `positions`, if it stands
/// there at all: the first such index.
pub fn find_site(positions: &Vec<(usize, usize)>, i: usize, j: usize) -> (r: Option<usize>)
    ensures
        match r {
            Some(k) => k < positions@.len() && positions@[k as int] == (i, j) && forall|m: int|
                0 <= m < k ==> positions@[m] != (i, j),
            None => !positions@.contains((i, j)),
        },
{
    let mut k: usize = 0;
    while k < positions.len()
        invariant
            k <= positions@.len(),
            forall|m: int| 0 <= m < k ==> positions@[m] != (i, j),
        decreases positions@.len() - k,
    {
        let p = positions[k];
        if p.0 == i && p.1 == j {
            return Some(k);
        }
        k += 1;
    }
    None
}

/// The site `(i + di, j + dj)`, unless it falls off the grid to the left or
/// above.
pub fn shift(i: usize, j: usize, di: i8, dj: i8) -> (r: Option<(usize, usize)>)
    requires
        -2 <= di <= 2,
        -2 <= dj <= 2,
        i + 2 <= usize::MAX,
        j + 2 <= usize::MAX,
    ensures
        match r {
            Some(p) => p.0 == i + di && p.1 == j + dj,
            None => i + di < 0 || j + dj < 0,
        },
{
    let i2 = if di >= 0 {
        i + (di as usize)
    } else {
        let back = (-di) as usize;
        if i < back {
            return None;
        }
        i - back
    };
    let j2 = if dj >= 0 {
        j + (dj as usize)
    } else {
        let back = (-dj) as usize;
        if j < back {
            return None;
        }
        j - back
    };
    Some((i2, j2))
}

} // verus!
