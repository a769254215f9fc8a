//! The rotated surface code on the grid `[0, 2d] x [0, 2d]`.

use vstd::prelude::*;
use crate::actions::{check_qubits, with_basis, ActionEntry};
use crate::display::{Color, ShapePlan};
use crate::noise::{noise_permits, NoiseType, Pauli};
use crate::sites::{
    all_below, find_site, lemma_list_done, lemma_list_jump, lemma_list_push, lemma_list_skip,
    lemma_listing_unique, lists, lists_before, sites_of,
};

verus! {

/// Whether a lattice of distance `d` can be swept with machine integers.
pub open spec fn distance_fits(d: usize) -> bool {
    4 * d + 4 <= usize::MAX
}

/// Whether the grid coordinate `(i, j)` holds a qubit of the code of
/// distance `d`. The four boundary lines admit qubits only at every fourth
/// coordinate and never in a corner; inside, the qubits form a checkerboard.
pub open spec fn rsc_is_qubit(d: int, i: int, j: int) -> bool {
    if i < 0 || j < 0 || i > 2 * d || j > 2 * d {
        false
    } else if i == 0 {
        0 < j < 2 * d && j % 4 == 0
    } else if i == 2 * d {
        0 < j < 2 * d && j % 4 == 2
    } else if j == 0 {
        i % 4 == 2
    } else if j == 2 * d {
        i % 4 == 0
    } else {
        (i + j) % 2 == 0
    }
}

/// A qubit in an odd row is a data qubit.
pub open spec fn rsc_is_data_qubit(d: int, i: int, j: int) -> bool {
    rsc_is_qubit(d, i, j) && i % 2 == 1
}

/// A qubit in an even row is a stabilizer; under bit-flip noise only those
/// that measure in the `Z` basis are kept.
pub open spec fn rsc_is_stabilizer(d: int, noise: NoiseType, i: int, j: int) -> bool {
    rsc_is_qubit(d, i, j) && i % 2 == 0 && (noise == NoiseType::BitFlip ==> (i + j) % 4 == 0)
}

/// The basis in which the stabilizer at `(i, j)` measures.
pub open spec fn rsc_stabilizer_type(i: int, j: int) -> Pauli {
    if (i + j) % 4 == 0 {
        Pauli::Z
    } else {
        Pauli::X
    }
}

/// Whether the stabilizer at `(i, j)` lies off the four boundary lines.
pub open spec fn rsc_is_interior(d: int, i: int, j: int) -> bool {
    0 < i < 2 * d && 0 < j < 2 * d
}

/// The coordinates of a qubit in an even row add up to an even number, so a
/// stabilizer's sum is 0 or 2 modulo 4.
pub proof fn lemma_rsc_stabilizer_parity(d: int, i: int, j: int)
    requires
        rsc_is_qubit(d, i, j),
        i % 2 == 0,
    ensures
        (i + j) % 4 == 0 || (i + j) % 4 == 2,
{
    if i == 2 * d {
        assert((i + j) % 2 == 0);
    }
    if j == 2 * d {
        assert((i + j) % 2 == 0);
    }
    assert((i + j) % 2 == 0);
}

/// The colour of a stabilizer of the given basis.
pub open spec fn rsc_color(basis: Pauli) -> Color {
    if basis == Pauli::Z {
        Color::Green
    } else {
        Color::Blue
    }
}

/// By how many quarter turns the half disc of a boundary stabilizer is
/// turned: the first boundary line that the stabilizer lies on decides, in
/// the order upper, left, lower, right.
pub open spec fn rsc_quarter_turns(d: int, i: int, j: int) -> int {
    if i == 0 {
        0
    } else if j == 0 {
        1
    } else if i == 2 * d {
        2
    } else {
        3
    }
}

/// The data-qubit sites of the code of distance `d`.
pub open spec fn rsc_data_sites(d: int) -> Set<(usize, usize)> {
    Set::new(|x: (usize, usize)| rsc_is_data_qubit(d, x.0 as int, x.1 as int))
}

/// The stabilizer sites of the code of distance `d` under `noise`.
pub open spec fn rsc_stabilizer_sites(d: int, noise: NoiseType) -> Set<(usize, usize)> {
    Set::new(|x: (usize, usize)| rsc_is_stabilizer(d, noise, x.0 as int, x.1 as int))
}

/// The `n`-th diagonal neighbour of a site, counted from the upper left
/// round by the upper right, lower right and lower left.
pub open spec fn rsc_neighbor(site: (int, int), n: int) -> (int, int) {
    if n == 0 {
        (site.0 - 1, site.1 - 1)
    } else if n == 1 {
        (site.0 - 1, site.1 + 1)
    } else if n == 2 {
        (site.0 + 1, site.1 + 1)
    } else {
        (site.0 + 1, site.1 - 1)
    }
}

/// The site `nb` if a stabilizer stands there that detects error `e`, that
/// is, one whose basis differs from `e`; nothing otherwise.
pub open spec fn rsc_flip_at(d: int, noise: NoiseType, nb: (int, int), e: Pauli) -> Seq<(int, int)> {
    if rsc_is_stabilizer(d, noise, nb.0, nb.1) && rsc_stabilizer_type(nb.0, nb.1) != e {
        seq![nb]
    } else {
        Seq::empty()
    }
}

/// The sites of the stabilizers that error `e` on the data qubit at `site`
/// flips, in the order of the neighbours.
pub open spec fn rsc_flipped_sites(d: int, noise: NoiseType, site: (int, int), e: Pauli) -> Seq<(int, int)> {
    rsc_flip_at(d, noise, rsc_neighbor(site, 0), e) + rsc_flip_at(d, noise, rsc_neighbor(site, 1), e)
        + rsc_flip_at(d, noise, rsc_neighbor(site, 2), e) + rsc_flip_at(d, noise, rsc_neighbor(site, 3), e)
}

/// The site `nb` if a data qubit stands there; nothing otherwise.
pub open spec fn rsc_support_at(d: int, nb: (int, int)) -> Seq<(int, int)> {
    if rsc_is_data_qubit(d, nb.0, nb.1) {
        seq![nb]
    } else {
        Seq::empty()
    }
}

/// The sites of the data qubits that the stabilizer at `site` checks, in
/// the order of the neighbours.
pub open spec fn rsc_check_sites(d: int, site: (int, int)) -> Seq<(int, int)> {
    rsc_support_at(d, rsc_neighbor(site, 0)) + rsc_support_at(d, rsc_neighbor(site, 1)) + rsc_support_at(
        d,
        rsc_neighbor(site, 2),
    ) + rsc_support_at(d, rsc_neighbor(site, 3))
}

/// Whether `flips` is what the action table holds for error `e` on the data
/// qubit at `site`: nothing if the policy does not admit `e`, and else the
/// indices of the stabilizers at the flipped sites.
pub open spec fn rsc_action_ok(
    flips: Option<Seq<usize>>,
    d: int,
    noise: NoiseType,
    stabilizers: Seq<(usize, usize)>,
    site: (usize, usize),
    e: Pauli,
) -> bool {
    match flips {
        Some(l) => noise_permits(noise, e) && all_below(l, stabilizers.len() as int) && sites_of(l, stabilizers)
            == rsc_flipped_sites(d, noise, (site.0 as int, site.1 as int), e),
        None => !noise_permits(noise, e),
    }
}

/// Whether `entry` is the action-table entry of the data qubit at `site`.
pub open spec fn rsc_entry_ok(
    entry: ActionEntry,
    d: int,
    noise: NoiseType,
    stabilizers: Seq<(usize, usize)>,
    site: (usize, usize),
) -> bool {
    &&& rsc_action_ok(entry.flips(Pauli::X), d, noise, stabilizers, site, Pauli::X)
    &&& rsc_action_ok(entry.flips(Pauli::Y), d, noise, stabilizers, site, Pauli::Y)
    &&& rsc_action_ok(entry.flips(Pauli::Z), d, noise, stabilizers, site, Pauli::Z)
}

/// A stabilizer of the rotated surface code checks four data qubits if it
/// lies inside the lattice and two if it lies on the boundary, whatever the
/// distance and the noise policy.
pub proof fn lemma_rsc_check_cardinality(d: int, noise: NoiseType, i: int, j: int)
    requires
        rsc_is_stabilizer(d, noise, i, j),
    ensures
        rsc_check_sites(d, (i, j)).len() == (if rsc_is_interior(d, i, j) { 4int } else { 2int }),
{
}

/// Two lattices of the same distance have the same data qubits at the same
/// indices, `d * d` of them, whatever their noise policies: the policy
/// decides which stabilizers are kept and which errors are admitted, never
/// where the data qubits lie.
pub proof fn lemma_data_qubits_ignore_noise(a: RotatedSurfaceCode, b: RotatedSurfaceCode)
    requires
        a.wf(),
        b.wf(),
        a.d == b.d,
    ensures
        a.data_qubit_positions@ == b.data_qubit_positions@,
        a.data_qubit_positions@.len() == a.d * a.d,
{
    lemma_listing_unique(a.data_qubit_positions@, b.data_qubit_positions@, rsc_data_sites(a.d as int));
}

/// Up to distance one the lattice has `2 * d * (d - 1) + d` data qubits.
pub proof fn lemma_data_qubit_count_small(code: RotatedSurfaceCode)
    requires
        code.wf(),
        code.d <= 1,
    ensures
        code.data_qubit_positions@.len() == 2 * code.d * (code.d - 1) + code.d,
{
    let d = code.d as int;
    assert(d * d == 2 * d * (d - 1) + d) by (nonlinear_arith)
        requires
            d == 0 || d == 1,
    ;
}

/// The lattice of a rotated surface code: where its qubits lie, how its
/// stabilizers measure, and what each admitted error flips.
#[derive(Debug)]
pub struct RotatedSurfaceCode {
    pub d: usize,
    pub noise_type: NoiseType,
    /// The data qubits' coordinates, by index.
    pub data_qubit_positions: Vec<(usize, usize)>,
    /// The stabilizers' coordinates, by index.
    pub stabilizer_positions: Vec<(usize, usize)>,
    /// The stabilizers' bases, by index.
    pub stabilizer_types: Vec<Pauli>,
    /// The action table, by data-qubit index.
    pub data_qubit_actions: Vec<ActionEntry>,
}

impl RotatedSurfaceCode {
    /// The data qubits are numbered row by row: there are `d * d` of them.
    pub open spec fn data_qubits_wf(&self) -> bool {
        &&& distance_fits(self.d)
        &&& lists(self.data_qubit_positions@, rsc_data_sites(self.d as int))
        &&& self.data_qubit_positions@.len() == self.d * self.d
    }

    /// The stabilizers are numbered row by row, each with the basis that its
    /// coordinate gives it.
    pub open spec fn stabilizers_wf(&self) -> bool {
        &&& distance_fits(self.d)
        &&& lists(self.stabilizer_positions@, rsc_stabilizer_sites(self.d as int, self.noise_type))
        &&& self.stabilizer_types@.len() == self.stabilizer_positions@.len()
        &&& forall|k: int|
            0 <= k < self.stabilizer_positions@.len() ==> #[trigger] self.stabilizer_types@[k]
                == rsc_stabilizer_type(
                self.stabilizer_positions@[k].0 as int,
                self.stabilizer_positions@[k].1 as int,
            )
    }

    /// Whether the action table's entry for data qubit `q` is the one that
    /// the lattice determines.
    pub open spec fn entry_wf(&self, q: int) -> bool {
        rsc_entry_ok(
            self.data_qubit_actions@[q],
            self.d as int,
            self.noise_type,
            self.stabilizer_positions@,
            self.data_qubit_positions@[q],
        )
    }

    /// Whether `check` is the check list of stabilizer `k`: the indices of
    /// the data qubits on its diagonal neighbours, each with the
    /// stabilizer's basis; four of them inside the lattice, two on its
    /// boundary.
    pub open spec fn check_wf(&self, check: Seq<(usize, Pauli)>, k: int) -> bool {
        let site = self.stabilizer_positions@[k];
        &&& all_below(check_qubits(check), self.data_qubit_positions@.len() as int)
        &&& forall|m: int| 0 <= m < check.len() ==> (#[trigger] check[m]).1 == self.stabilizer_types@[k]
        &&& sites_of(check_qubits(check), self.data_qubit_positions@) == rsc_check_sites(
            self.d as int,
            (site.0 as int, site.1 as int),
        )
        &&& check.len() == (if rsc_is_interior(self.d as int, site.0 as int, site.1 as int) {
            4int
        } else {
            2int
        })
    }

    /// Whether `plan` is the outline of stabilizer `k`: inside the lattice
    /// the polygon of the data qubits that it checks, on the boundary a half
    /// disc between the two that it checks.
    pub open spec fn shape_wf(&self, plan: ShapePlan, k: int) -> bool {
        let i = self.stabilizer_positions@[k].0 as int;
        let j = self.stabilizer_positions@[k].1 as int;
        let d = self.d as int;
        let qubits = self.data_qubit_positions@;
        match plan {
            ShapePlan::Polygon { corners } => {
                &&& rsc_is_interior(d, i, j)
                &&& all_below(corners@, qubits.len() as int)
                &&& sites_of(corners@, qubits) == rsc_check_sites(d, (i, j))
            },
            ShapePlan::HalfDisc { first, second, quarter_turns } => {
                &&& !rsc_is_interior(d, i, j)
                &&& all_below(seq![first, second], qubits.len() as int)
                &&& sites_of(seq![first, second], qubits) == rsc_check_sites(d, (i, j))
                &&& quarter_turns == rsc_quarter_turns(d, i, j)
            },
        }
    }

    /// The invariant of a finished lattice: every field is determined by
    /// the distance and the noise policy.
    pub open spec fn wf(&self) -> bool {
        &&& self.data_qubits_wf()
        &&& self.stabilizers_wf()
        &&& self.data_qubit_actions@.len() == self.data_qubit_positions@.len()
        &&& forall|q: int| 0 <= q < self.data_qubit_actions@.len() ==> #[trigger] self.entry_wf(q)
    }

    /// Builds the lattice of distance `d` under the given noise policy.
    pub fn new(d: usize, noise_type: NoiseType) -> (code: Self)
        requires
            distance_fits(d),
        ensures
            code.d == d,
            code.noise_type == noise_type,
            code.wf(),
    {
        let mut code = RotatedSurfaceCode {
            d,
            noise_type,
            data_qubit_positions: Vec::new(),
            stabilizer_positions: Vec::new(),
            stabilizer_types: Vec::new(),
            data_qubit_actions: Vec::new(),
        };
        code.init_data_qubit_positions();
        code.init_stabilizer_positions();
        code.init_data_qubit_actions();
        code
    }

    /// Whether `(i, j)` holds a qubit.
    pub fn is_qubit(&self, i: usize, j: usize) -> (r: bool)
        requires
            distance_fits(self.d),
        ensures
            r == rsc_is_qubit(self.d as int, i as int, j as int),
    {
        if i > 2 * self.d || j > 2 * self.d {
            return false;
        }
        if i == 0 {
            return j > 0 && j < 2 * self.d && j % 4 == 0;
        }
        if i == 2 * self.d {
            return j > 0 && j < 2 * self.d && j % 4 == 2;
        }
        if j == 0 {
            return i % 4 == 2;
        }
        if j == 2 * self.d {
            return i % 4 == 0;
        }
        (i + j) % 2 == 0
    }

    /// Whether `(i, j)` holds a data qubit.
    pub fn is_data_qubit(&self, i: usize, j: usize) -> (r: bool)
        requires
            distance_fits(self.d),
        ensures
            r == rsc_is_data_qubit(self.d as int, i as int, j as int),
    {
        self.is_qubit(i, j) && i % 2 == 1
    }

    /// Whether `(i, j)` holds a stabilizer that this code keeps.
    pub fn is_stabilizer(&self, i: usize, j: usize) -> (r: bool)
        requires
            distance_fits(self.d),
        ensures
            r == rsc_is_stabilizer(self.d as int, self.noise_type, i as int, j as int),
    {
        let is_stabilizer = self.is_qubit(i, j) && i % 2 == 0;
        match self.noise_type {
            NoiseType::BitFlip => is_stabilizer && (i + j) % 4 == 0,
            _ => is_stabilizer,
        }
    }

    /// Whether `(i, j)` holds a stabilizer that measures in the `Z` basis.
    pub fn is_z_stabilizer(&self, i: usize, j: usize) -> (r: bool)
        requires
            distance_fits(self.d),
        ensures
            r == (rsc_is_stabilizer(self.d as int, self.noise_type, i as int, j as int)
                && rsc_stabilizer_type(i as int, j as int) == Pauli::Z),
    {
        self.is_stabilizer(i, j) && (i + j) % 4 == 0
    }

    /// Whether `(i, j)` holds a stabilizer that measures in the `X` basis.
    pub fn is_x_stabilizer(&self, i: usize, j: usize) -> (r: bool)
        requires
            distance_fits(self.d),
        ensures
            r == (rsc_is_stabilizer(self.d as int, self.noise_type, i as int, j as int)
                && rsc_stabilizer_type(i as int, j as int) == Pauli::X),
    {
        let r = self.is_stabilizer(i, j);
        proof {
            if r {
                lemma_rsc_stabilizer_parity(self.d as int, i as int, j as int);
            }
        }
        r && (i + j) % 4 == 2
    }

    /// Numbers the data qubits row by row.
    fn init_data_qubit_positions(&mut self)
        requires
            distance_fits(old(self).d),
        ensures
            final(self).d == old(self).d,
            final(self).noise_type == old(self).noise_type,
            final(self).stabilizer_positions == old(self).stabilizer_positions,
            final(self).stabilizer_types == old(self).stabilizer_types,
            final(self).data_qubit_actions == old(self).data_qubit_actions,
            final(self).data_qubits_wf(),
    {
        let d = self.d;
        let width = 2 * d + 1;
        let ghost sites = rsc_data_sites(d as int);
        let mut listed: Vec<(usize, usize)> = Vec::new();
        let mut i: usize = 0;
        assert((i / 2) * d == 0) by (nonlinear_arith)
            requires
                i == 0,
        ;
        while i < width
            invariant
                distance_fits(d),
                self.d == d,
                width == 2 * d + 1,
                i <= width,
                sites == rsc_data_sites(d as int),
                lists_before(listed@, sites, i as int, 0),
                listed@.len() == (i / 2) * d,
            decreases width - i,
        {
            let mut j: usize = 0;
            while j < width
                invariant
                    distance_fits(d),
                    self.d == d,
                    width == 2 * d + 1,
                    i < width,
                    j <= width,
                    sites == rsc_data_sites(d as int),
                    lists_before(listed@, sites, i as int, j as int),
                    listed@.len() == (i / 2) * d + (if i % 2 == 1 { j as int / 2 } else { 0 }),
                decreases width - j,
            {
                if self.is_data_qubit(i, j) {
                    proof {
                        lemma_list_push(listed@, sites, i, j);
                    }
                    listed.push((i, j));
                } else {
                    proof {
                        lemma_list_skip(listed@, sites, i, j);
                    }
                }
                j += 1;
            }
            proof {
                lemma_list_jump(listed@, sites, i as int, j as int, i + 1, 0);
                assert(((i + 1) / 2) * d == (i / 2) * d + (if i % 2 == 1 { d as int } else { 0 })) by (nonlinear_arith)
                    requires
                        i >= 0,
                ;
            }
            i += 1;
        }
        proof {
            lemma_list_done(listed@, sites, width as int);
            assert((width / 2) == d);
            assert(listed@.len() == d * d);
        }
        self.data_qubit_positions = listed;
    }

    /// Numbers the stabilizers row by row and records their bases.
    fn init_stabilizer_positions(&mut self)
        requires
            distance_fits(old(self).d),
        ensures
            final(self).d == old(self).d,
            final(self).noise_type == old(self).noise_type,
            final(self).data_qubit_positions == old(self).data_qubit_positions,
            final(self).data_qubit_actions == old(self).data_qubit_actions,
            final(self).stabilizers_wf(),
    {
        let d = self.d;
        let width = 2 * d + 1;
        let ghost sites = rsc_stabilizer_sites(d as int, self.noise_type);
        let mut listed: Vec<(usize, usize)> = Vec::new();
        let mut types: Vec<Pauli> = Vec::new();
        let mut i: usize = 0;
        while i < width
            invariant
                distance_fits(d),
                self.d == d,
                self.noise_type == old(self).noise_type,
                width == 2 * d + 1,
                i <= width,
                sites == rsc_stabilizer_sites(d as int, self.noise_type),
                lists_before(listed@, sites, i as int, 0),
                types@.len() == listed@.len(),
                forall|k: int|
                    0 <= k < listed@.len() ==> #[trigger] types@[k] == rsc_stabilizer_type(
                        listed@[k].0 as int,
                        listed@[k].1 as int,
                    ),
            decreases width - i,
        {
            let mut j: usize = 0;
            while j < width
                invariant
                    distance_fits(d),
                    self.d == d,
                    self.noise_type == old(self).noise_type,
                    width == 2 * d + 1,
                    i < width,
                    j <= width,
                    sites == rsc_stabilizer_sites(d as int, self.noise_type),
                    lists_before(listed@, sites, i as int, j as int),
                    types@.len() == listed@.len(),
                    forall|k: int|
                        0 <= k < listed@.len() ==> #[trigger] types@[k] == rsc_stabilizer_type(
                            listed@[k].0 as int,
                            listed@[k].1 as int,
                        ),
                decreases width - j,
            {
                if self.is_stabilizer(i, j) {
                    proof {
                        lemma_list_push(listed@, sites, i, j);
                    }
                    listed.push((i, j));
                    types.push(
                        if self.is_z_stabilizer(i, j) {
                            Pauli::Z
                        } else {
                            Pauli::X
                        },
                    );
                } else {
                    proof {
                        lemma_list_skip(listed@, sites, i, j);
                    }
                }
                j += 1;
            }
            proof {
                lemma_list_jump(listed@, sites, i as int, j as int, i + 1, 0);
            }
            i += 1;
        }
        proof {
            lemma_list_done(listed@, sites, width as int);
        }
        self.stabilizer_positions = listed;
        self.stabilizer_types = types;
    }
    /// Appends to `out` the index of the stabilizer on the `n`-th neighbour
    /// of `(i, j)`, if one stands there that detects `e`.
    fn note_flip(&self, out: &mut Vec<usize>, i: usize, j: usize, n: usize, e: Pauli)
        requires
            self.stabilizers_wf(),
            i <= 2 * self.d,
            j <= 2 * self.d,
            n < 4,
            all_below(old(out)@, self.stabilizer_positions@.len() as int),
        ensures
            all_below(final(out)@, self.stabilizer_positions@.len() as int),
            sites_of(final(out)@, self.stabilizer_positions@) == sites_of(old(out)@, self.stabilizer_positions@)
                + rsc_flip_at(self.d as int, self.noise_type, rsc_neighbor((i as int, j as int), n as int), e),
    {
        let ghost before = sites_of(out@, self.stabilizer_positions@);
        let ghost nb = rsc_neighbor((i as int, j as int), n as int);
        let ghost sites = rsc_stabilizer_sites(self.d as int, self.noise_type);
        if let Some((i2, j2)) = neighbor(i, j, n) {
            if self.is_stabilizer(i2, j2) {
                assert(sites.contains((i2, j2)));
                match find_site(&self.stabilizer_positions, i2, j2) {
                    Some(k) => {
                        if self.stabilizer_types[k] != e {
                            out.push(k);
                            assert(sites_of(out@, self.stabilizer_positions@) =~= before + seq![nb]);
                            return ;
                        }
                    },
                    None => {
                        assert(false);
                    },
                }
            }
        }
        assert(before + Seq::<(int, int)>::empty() =~= before);
    }

    /// Appends to `out` the index of the data qubit on the `n`-th neighbour
    /// of `(i, j)`, if one stands there.
    fn note_support(&self, out: &mut Vec<usize>, i: usize, j: usize, n: usize)
        requires
            self.data_qubits_wf(),
            i <= 2 * self.d,
            j <= 2 * self.d,
            n < 4,
            all_below(old(out)@, self.data_qubit_positions@.len() as int),
        ensures
            all_below(final(out)@, self.data_qubit_positions@.len() as int),
            sites_of(final(out)@, self.data_qubit_positions@) == sites_of(old(out)@, self.data_qubit_positions@)
                + rsc_support_at(self.d as int, rsc_neighbor((i as int, j as int), n as int)),
    {
        let ghost before = sites_of(out@, self.data_qubit_positions@);
        let ghost nb = rsc_neighbor((i as int, j as int), n as int);
        let ghost sites = rsc_data_sites(self.d as int);
        if let Some((i2, j2)) = neighbor(i, j, n) {
            if self.is_data_qubit(i2, j2) {
                assert(sites.contains((i2, j2)));
                match find_site(&self.data_qubit_positions, i2, j2) {
                    Some(k) => {
                        out.push(k);
                        assert(sites_of(out@, self.data_qubit_positions@) =~= before + seq![nb]);
                        return ;
                    },
                    None => {
                        assert(false);
                    },
                }
            }
        }
        assert(before + Seq::<(int, int)>::empty() =~= before);
    }

    /// The stabilizers that error `e` on the data qubit at `(i, j)` flips.
    fn flipped_stabilizers(&self, i: usize, j: usize, e: Pauli) -> (r: Vec<usize>)
        requires
            self.stabilizers_wf(),
            i <= 2 * self.d,
            j <= 2 * self.d,
        ensures
            all_below(r@, self.stabilizer_positions@.len() as int),
            sites_of(r@, self.stabilizer_positions@) == rsc_flipped_sites(
                self.d as int,
                self.noise_type,
                (i as int, j as int),
                e,
            ),
    {
        let mut out: Vec<usize> = Vec::new();
        let ghost none = sites_of(out@, self.stabilizer_positions@);
        self.note_flip(&mut out, i, j, 0, e);
        assert(sites_of(out@, self.stabilizer_positions@) =~= rsc_flip_at(
            self.d as int,
            self.noise_type,
            rsc_neighbor((i as int, j as int), 0),
            e,
        )) by {
            assert(none =~= Seq::<(int, int)>::empty());
        }
        self.note_flip(&mut out, i, j, 1, e);
        self.note_flip(&mut out, i, j, 2, e);
        self.note_flip(&mut out, i, j, 3, e);
        out
    }

    /// Fills the action table: for each data qubit and each admitted error,
    /// the stabilizers on its diagonal neighbours whose basis differs from
    /// the error.
    fn init_data_qubit_actions(&mut self)
        requires
            old(self).data_qubits_wf(),
            old(self).stabilizers_wf(),
        ensures
            final(self).d == old(self).d,
            final(self).noise_type == old(self).noise_type,
            final(self).wf(),
    {
        let mut table: Vec<ActionEntry> = Vec::new();
        let count = self.data_qubit_positions.len();
        let mut q: usize = 0;
        while q < count
            invariant
                *self == *old(self),
                self.data_qubits_wf(),
                self.stabilizers_wf(),
                count == self.data_qubit_positions@.len(),
                q <= count,
                table@.len() == q,
                forall|m: int|
                    0 <= m < q ==> rsc_entry_ok(
                        #[trigger] table@[m],
                        self.d as int,
                        self.noise_type,
                        self.stabilizer_positions@,
                        self.data_qubit_positions@[m],
                    ),
            decreases count - q,
        {
            let site = self.data_qubit_positions[q];
            assert(rsc_data_sites(self.d as int).contains(self.data_qubit_positions@[q as int]));
            let x = if self.noise_type.permits(Pauli::X) {
                Some(self.flipped_stabilizers(site.0, site.1, Pauli::X))
            } else {
                None
            };
            let y = if self.noise_type.permits(Pauli::Y) {
                Some(self.flipped_stabilizers(site.0, site.1, Pauli::Y))
            } else {
                None
            };
            let z = if self.noise_type.permits(Pauli::Z) {
                Some(self.flipped_stabilizers(site.0, site.1, Pauli::Z))
            } else {
                None
            };
            table.push(ActionEntry { x, y, z });
            q += 1;
        }
        self.data_qubit_actions = table;
    }

    /// For each stabilizer, the data qubits that it checks, each paired with
    /// the stabilizer's basis.
    pub fn stabilizer_checks(&self) -> (checks: Vec<Vec<(usize, Pauli)>>)
        requires
            self.data_qubits_wf(),
            self.stabilizers_wf(),
        ensures
            checks@.len() == self.stabilizer_positions@.len(),
            forall|k: int| 0 <= k < checks@.len() ==> self.check_wf((#[trigger] checks@[k])@, k),
    {
        let mut checks: Vec<Vec<(usize, Pauli)>> = Vec::new();
        let count = self.stabilizer_positions.len();
        let mut k: usize = 0;
        while k < count
            invariant
                self.data_qubits_wf(),
                self.stabilizers_wf(),
                count == self.stabilizer_positions@.len(),
                k <= count,
                checks@.len() == k,
                forall|m: int| 0 <= m < k ==> self.check_wf((#[trigger] checks@[m])@, m),
            decreases count - k,
        {
            let site = self.stabilizer_positions[k];
            let basis = self.stabilizer_types[k];
            assert(rsc_stabilizer_sites(self.d as int, self.noise_type).contains(self.stabilizer_positions@[k as int]));
            let mut support: Vec<usize> = Vec::new();
            let ghost none = sites_of(support@, self.data_qubit_positions@);
            self.note_support(&mut support, site.0, site.1, 0);
            assert(sites_of(support@, self.data_qubit_positions@) =~= rsc_support_at(
                self.d as int,
                rsc_neighbor((site.0 as int, site.1 as int), 0),
            )) by {
                assert(none =~= Seq::<(int, int)>::empty());
            }
            self.note_support(&mut support, site.0, site.1, 1);
            self.note_support(&mut support, site.0, site.1, 2);
            self.note_support(&mut support, site.0, site.1, 3);
            proof {
                lemma_rsc_check_cardinality(self.d as int, self.noise_type, site.0 as int, site.1 as int);
                assert(sites_of(support@, self.data_qubit_positions@).len() == support@.len());
            }
            let check = with_basis(&support, basis);
            assert(check_qubits(check@) =~= support@);
            checks.push(check);
            k += 1;
        }
        checks
    }

    /// For each stabilizer, the outline in which it is drawn.
    pub fn stabilizer_shapes(&self) -> (shapes: Vec<ShapePlan>)
        requires
            self.data_qubits_wf(),
            self.stabilizers_wf(),
        ensures
            shapes@.len() == self.stabilizer_positions@.len(),
            forall|k: int| 0 <= k < shapes@.len() ==> self.shape_wf(#[trigger] shapes@[k], k),
    {
        let checks = self.stabilizer_checks();
        let mut shapes: Vec<ShapePlan> = Vec::new();
        let mut k: usize = 0;
        while k < checks.len()
            invariant
                self.stabilizers_wf(),
                checks@.len() == self.stabilizer_positions@.len(),
                forall|m: int| 0 <= m < checks@.len() ==> self.check_wf((#[trigger] checks@[m])@, m),
                k <= checks@.len(),
                shapes@.len() == k,
                forall|m: int| 0 <= m < k ==> self.shape_wf(#[trigger] shapes@[m], m),
            decreases checks@.len() - k,
        {
            let site = self.stabilizer_positions[k];
            let check = &checks[k];
            assert(self.check_wf(checks@[k as int]@, k as int));
            assert(rsc_stabilizer_sites(self.d as int, self.noise_type).contains(self.stabilizer_positions@[k as int]));
            let i = site.0;
            let j = site.1;
            if i > 0 && j > 0 && i < 2 * self.d && j < 2 * self.d {
                let mut corners: Vec<usize> = Vec::new();
                let mut m: usize = 0;
                while m < check.len()
                    invariant
                        m <= check@.len(),
                        corners@.len() == m,
                        forall|n: int| 0 <= n < m ==> corners@[n] == check@[n].0,
                    decreases check@.len() - m,
                {
                    corners.push(check[m].0);
                    m += 1;
                }
                assert(corners@ =~= check_qubits(check@));
                shapes.push(ShapePlan::Polygon { corners });
            } else {
                let quarter_turns: u8 = if i == 0 {
                    0
                } else if j == 0 {
                    1
                } else if i == 2 * self.d {
                    2
                } else {
                    3
                };
                let first = check[0].0;
                let second = check[1].0;
                assert(seq![first, second] =~= check_qubits(check@));
                shapes.push(ShapePlan::HalfDisc { first, second, quarter_turns });
            }
            k += 1;
        }
        shapes
    }

    /// For each stabilizer, the colour in which it is drawn: by its basis.
    pub fn stabilizer_colors(&self) -> (colors: Vec<Color>)
        requires
            self.stabilizers_wf(),
        ensures
            colors@.len() == self.stabilizer_positions@.len(),
            forall|k: int| 0 <= k < colors@.len() ==> #[trigger] colors@[k] == rsc_color(self.stabilizer_types@[k]),
    {
        let mut colors: Vec<Color> = Vec::new();
        let mut k: usize = 0;
        while k < self.stabilizer_positions.len()
            invariant
                self.stabilizers_wf(),
                k <= self.stabilizer_positions@.len(),
                colors@.len() == k,
                forall|m: int| 0 <= m < k ==> #[trigger] colors@[m] == rsc_color(self.stabilizer_types@[m]),
            decreases self.stabilizer_positions@.len() - k,
        {
            let site = self.stabilizer_positions[k];
            assert(rsc_stabilizer_sites(self.d as int, self.noise_type).contains(self.stabilizer_positions@[k as int]));
            colors.push(
                if self.is_z_stabilizer(site.0, site.1) {
                    Color::Green
                } else {
                    Color::Blue
                },
            );
            k += 1;
        }
        colors
    }
}

/// The `n`-th diagonal neighbour of `(i, j)`, unless it falls off the grid
/// to the left or above.
fn neighbor(i: usize, j: usize, n: usize) -> (r: Option<(usize, usize)>)
    requires
        i < usize::MAX,
        j < usize::MAX,
        n < 4,
    ensures
        match r {
            Some(p) => (p.0 as int, p.1 as int) == rsc_neighbor((i as int, j as int), n as int),
            None => rsc_neighbor((i as int, j as int), n as int).0 < 0 || rsc_neighbor(
                (i as int, j as int),
                n as int,
            ).1 < 0,
        },
{
    if n == 0 {
        if i >= 1 && j >= 1 {
            Some((i - 1, j - 1))
        } else {
            None
        }
    } else if n == 1 {
        if i >= 1 {
            Some((i - 1, j + 1))
        } else {
            None
        }
    } else if n == 2 {
        Some((i + 1, j + 1))
    } else {
        if j >= 1 {
            Some((i + 1, j - 1))
        } else {
            None
        }
    }
}

} // verus!
