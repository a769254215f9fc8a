//! Per-qubit action tables: which stabilizers each admitted error flips.

use vstd::prelude::*;
use crate::noise::Pauli;

verus! {

/// What the errors on one data qubit do. Each field holds the indices of the
/// stabilizers that the error of that kind flips, and is `None` where the
/// noise policy does not admit the error.
#[derive(Debug)]
pub struct ActionEntry {
    pub x: Option<Vec<usize>>,
    pub y: Option<Vec<usize>>,
    pub z: Option<Vec<usize>>,
}

/// The list that an optional vector stands for.
pub open spec fn list_view(v: Option<Vec<usize>>) -> Option<Seq<usize>> {
    match v {
        Some(l) => Some(l@),
        None => None,
    }
}

impl ActionEntry {
    /// The stabilizers that error `p` flips, where the entry has that error.
    pub open spec fn flips(&self, p: Pauli) -> Option<Seq<usize>> {
        match p {
            Pauli::X => list_view(self.x),
            Pauli::Y => list_view(self.y),
            Pauli::Z => list_view(self.z),
        }
    }

    /// How many errors the entry has.
    pub open spec fn spec_error_count(&self) -> int {
        (if self.x.is_some() { 1int } else { 0 }) + (if self.y.is_some() { 1int } else { 0 }) + (if self.z.is_some() { 1int } else { 0 })
    }

    /// The stabilizers that error `p` flips, where the entry has that error.
    pub fn get(&self, p: Pauli) -> (r: Option<&Vec<usize>>)
        ensures
            match r {
                Some(l) => self.flips(p) == Some(l@),
                None => self.flips(p).is_none(),
            },
    {
        let field = match p {
            Pauli::X => &self.x,
            Pauli::Y => &self.y,
            Pauli::Z => &self.z,
        };
        match field {
            Some(l) => Some(l),
            None => None,
        }
    }

    /// How many errors the entry has.
    pub fn error_count(&self) -> (r: usize)
        ensures
            r == self.spec_error_count(),
            r <= 3,
    {
        let mut n: usize = 0;
        if self.x.is_some() {
            n += 1;
        }
        if self.y.is_some() {
            n += 1;
        }
        if self.z.is_some() {
            n += 1;
        }
        n
    }
}

/// The data qubits that a check names, without the basis.
pub open spec fn check_qubits(check: Seq<(usize, Pauli)>) -> Seq<usize> {
    Seq::new(check.len(), |m: int| check[m].0)
}

/// Pairs each index with `basis`.
pub fn with_basis(indices: &Vec<usize>, basis: Pauli) -> (r: Vec<(usize, Pauli)>)
    ensures
        r@.len() == indices@.len(),
        forall|m: int| 0 <= m < r@.len() ==> #[trigger] r@[m] == (indices@[m], basis),
{
    let mut out: Vec<(usize, Pauli)> = Vec::new();
    let mut m: usize = 0;
    while m < indices.len()
        invariant
            m <= indices@.len(),
            out@.len() == m,
            forall|n: int| 0 <= n < m ==> #[trigger] out@[n] == (indices@[n], basis),
        decreases indices@.len() - m,
    {
        out.push((indices[m], basis));
        m += 1;
    }
    out
}

} // verus!
