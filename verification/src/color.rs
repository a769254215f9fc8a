//! The triangular color code under bit-flip noise.

use vstd::prelude::*;
use crate::actions::{check_qubits, with_basis, ActionEntry};
use crate::display::{Color, ShapePlan};
use crate::noise::Pauli;
use crate::sites::{
    all_below, find_site, lemma_list_done, lemma_list_jump, lemma_list_push, lemma_list_skip, lists,
    lists_before, shift, sites_of,
};

verus! {

/// Whether a triangle of distance `d` exists and can be swept with machine
/// integers.
pub open spec fn color_distance_fits(d: usize) -> bool {
    1 <= d && 4 * d + 4 <= usize::MAX
}

/// The number of rows of the triangle.
pub open spec fn color_rows(d: int) -> int {
    3 * (d - 1) / 2 + 1
}

/// The number of columns of the triangle's longest row.
pub open spec fn color_columns(d: int) -> int {
    2 * d - 1
}

/// The first column of row `r`.
pub open spec fn color_row_start(r: int) -> int {
    2 * (r / 3) + (if r % 3 == 0 { 0int } else { 1int })
}

/// The column just behind the last one of row `r`. Rows get shorter by one
/// with each row and start two columns later every third row.
pub open spec fn color_row_end(d: int, r: int) -> int {
    color_row_start(r) + color_columns(d) - 4 * (r / 3) - r % 3
}

/// Whether `(i, j)` holds a qubit of the triangle.
pub open spec fn color_is_qubit(d: int, i: int, j: int) -> bool {
    0 <= i < color_rows(d) && color_row_start(i) <= j < color_row_end(d, i)
}

/// Whether `(i, j)` holds a data qubit.
pub open spec fn color_is_data_qubit(d: int, i: int, j: int) -> bool {
    color_is_qubit(d, i, j) && (if i % 2 == 0 {
        j % 4 == 0 || j % 4 == 3
    } else {
        j % 4 == 1 || j % 4 == 2
    })
}

/// Whether `(i, j)` holds a stabilizer. All of them measure in the `Z`
/// basis.
pub open spec fn color_is_z_stabilizer(d: int, i: int, j: int) -> bool {
    color_is_qubit(d, i, j) && (if i % 2 == 0 {
        j % 4 == 1
    } else {
        j % 4 == 3
    })
}

/// The colour of a stabilizer in row `i`: the rows take the three colours
/// in turn.
pub open spec fn color_of_row(i: int) -> Color {
    if i % 3 == 0 {
        Color::Red
    } else if i % 3 == 1 {
        Color::Green
    } else {
        Color::Blue
    }
}

/// The column in which the qubit at `(i, j)` is drawn. Every fourth grid
/// column of a row holds no qubit of its own kind and takes no room, and the
/// rows of one block of three start at different grid columns.
pub open spec fn color_display_column(i: int, j: int) -> int {
    if i % 3 == 0 {
        let idx = j - (i / 3) * 2 + 1;
        idx / 4 * 3 + idx % 4 - 1
    } else if i % 3 == 1 {
        let idx = j - 1 - (i / 3) * 2;
        idx / 4 * 3 + idx % 4
    } else {
        let idx = j + 1 - (i / 3) * 2;
        idx / 4 * 3 + idx % 4 - 2
    }
}

/// By how many half columns row `i` is moved to the right when it is drawn.
pub open spec fn color_display_bias(i: int) -> int {
    i % 3 + 3 * (i / 3)
}

/// The data-qubit sites of the triangle of distance `d`.
pub open spec fn color_data_sites(d: int) -> Set<(usize, usize)> {
    Set::new(|x: (usize, usize)| color_is_data_qubit(d, x.0 as int, x.1 as int))
}

/// The stabilizer sites of the triangle of distance `d`.
pub open spec fn color_stabilizer_sites(d: int) -> Set<(usize, usize)> {
    Set::new(|x: (usize, usize)| color_is_z_stabilizer(d, x.0 as int, x.1 as int))
}

/// The offsets at which a data qubit looks for its stabilizers.
pub open spec fn color_action_offsets() -> Seq<(int, int)> {
    seq![(0, 1), (0, -2), (-1, 0), (1, 0), (-1, -1), (1, -1)]
}

/// The offsets at which a stabilizer looks for its data qubits.
pub open spec fn color_check_offsets() -> Seq<(int, int)> {
    seq![(-1, 0), (-1, 1), (0, 2), (1, 1), (1, 0), (0, -1)]
}

/// The site `nb` if a stabilizer stands there; nothing otherwise.
pub open spec fn color_flip_at(d: int, nb: (int, int)) -> Seq<(int, int)> {
    if color_is_z_stabilizer(d, nb.0, nb.1) {
        seq![nb]
    } else {
        Seq::empty()
    }
}

/// The site `nb` if a data qubit stands there; nothing otherwise.
pub open spec fn color_support_at(d: int, nb: (int, int)) -> Seq<(int, int)> {
    if color_is_data_qubit(d, nb.0, nb.1) {
        seq![nb]
    } else {
        Seq::empty()
    }
}

/// The sites of the stabilizers that an `X` error on the data qubit at
/// `site` flips, over the first `n` offsets.
pub open spec fn color_flipped_sites(d: int, site: (int, int), n: int) -> Seq<(int, int)>
    decreases n,
{
    if n <= 0 {
        Seq::empty()
    } else {
        let o = color_action_offsets()[n - 1];
        color_flipped_sites(d, site, n - 1) + color_flip_at(d, (site.0 + o.0, site.1 + o.1))
    }
}

/// The sites of the data qubits that the stabilizer at `site` checks, over
/// the first `n` offsets.
pub open spec fn color_check_sites(d: int, site: (int, int), n: int) -> Seq<(int, int)>
    decreases n,
{
    if n <= 0 {
        Seq::empty()
    } else {
        let o = color_check_offsets()[n - 1];
        color_check_sites(d, site, n - 1) + color_support_at(d, (site.0 + o.0, site.1 + o.1))
    }
}

/// Whether `entry` is the action-table entry of the data qubit at `site`:
/// it has the `X` error alone, with the stabilizers on the six neighbours.
pub open spec fn color_entry_ok(
    entry: ActionEntry,
    d: int,
    stabilizers: Seq<(usize, usize)>,
    site: (usize, usize),
) -> bool {
    &&& entry.flips(Pauli::Y).is_none()
    &&& entry.flips(Pauli::Z).is_none()
    &&& match entry.flips(Pauli::X) {
        Some(l) => all_below(l, stabilizers.len() as int) && sites_of(l, stabilizers) == color_flipped_sites(
            d,
            (site.0 as int, site.1 as int),
            6,
        ),
        None => false,
    }
}

/// A stabilizer of the color code checks at most six data qubits.
pub proof fn lemma_color_check_cardinality(d: int, site: (int, int), n: int)
    requires
        0 <= n <= 6,
    ensures
        color_check_sites(d, site, n).len() <= n,
    decreases n,
{
    if n > 0 {
        lemma_color_check_cardinality(d, site, n - 1);
    }
}

/// The lattice of a triangular color code that is decoded against bit
/// flips.
#[derive(Debug)]
pub struct TriangularColorCodeBitFlip {
    pub d: usize,
    /// The data qubits' coordinates, by index.
    pub data_qubit_positions: Vec<(usize, usize)>,
    /// The stabilizers' coordinates, by index.
    pub stabilizer_positions: Vec<(usize, usize)>,
    /// The stabilizers' bases, by index: `Z` throughout.
    pub stabilizer_types: Vec<Pauli>,
    /// The action table, by data-qubit index.
    pub data_qubit_actions: Vec<ActionEntry>,
}

impl TriangularColorCodeBitFlip {
    /// The data qubits are numbered row by row.
    pub open spec fn data_qubits_wf(&self) -> bool {
        &&& color_distance_fits(self.d)
        &&& lists(self.data_qubit_positions@, color_data_sites(self.d as int))
    }

    /// The stabilizers are numbered row by row and measure in the `Z`
    /// basis.
    pub open spec fn stabilizers_wf(&self) -> bool {
        &&& color_distance_fits(self.d)
        &&& lists(self.stabilizer_positions@, color_stabilizer_sites(self.d as int))
        &&& self.stabilizer_types@.len() == self.stabilizer_positions@.len()
        &&& forall|k: int| 0 <= k < self.stabilizer_types@.len() ==> #[trigger] self.stabilizer_types@[k] == Pauli::Z
    }

    /// Whether the action table's entry for data qubit `q` is the one that
    /// the lattice determines.
    pub open spec fn entry_wf(&self, q: int) -> bool {
        color_entry_ok(
            self.data_qubit_actions@[q],
            self.d as int,
            self.stabilizer_positions@,
            self.data_qubit_positions@[q],
        )
    }

    /// The invariant of a finished lattice: every field is determined by
    /// the distance.
    pub open spec fn wf(&self) -> bool {
        &&& self.data_qubits_wf()
        &&& self.stabilizers_wf()
        &&& self.data_qubit_actions@.len() == self.data_qubit_positions@.len()
        &&& forall|q: int| 0 <= q < self.data_qubit_actions@.len() ==> #[trigger] self.entry_wf(q)
    }

    /// Whether `check` is the check list of stabilizer `k`: the indices of
    /// the data qubits on its six neighbours, each with the basis `Z`.
    pub open spec fn check_wf(&self, check: Seq<(usize, Pauli)>, k: int) -> bool {
        let site = self.stabilizer_positions@[k];
        &&& all_below(check_qubits(check), self.data_qubit_positions@.len() as int)
        &&& forall|m: int| 0 <= m < check.len() ==> (#[trigger] check[m]).1 == Pauli::Z
        &&& sites_of(check_qubits(check), self.data_qubit_positions@) == color_check_sites(
            self.d as int,
            (site.0 as int, site.1 as int),
            6,
        )
        &&& check.len() <= 6
    }

    /// Whether `plan` is the outline of stabilizer `k`: the polygon of the
    /// data qubits that it checks.
    pub open spec fn shape_wf(&self, plan: ShapePlan, k: int) -> bool {
        let site = self.stabilizer_positions@[k];
        match plan {
            ShapePlan::Polygon { corners } => {
                &&& all_below(corners@, self.data_qubit_positions@.len() as int)
                &&& sites_of(corners@, self.data_qubit_positions@) == color_check_sites(
                    self.d as int,
                    (site.0 as int, site.1 as int),
                    6,
                )
            },
            ShapePlan::HalfDisc { .. } => false,
        }
    }

    /// Builds the triangle of distance `d`.
    pub fn new(d: usize) -> (code: Self)
        requires
            color_distance_fits(d),
        ensures
            code.d == d,
            code.wf(),
    {
        let mut code = TriangularColorCodeBitFlip {
            d,
            data_qubit_positions: Vec::new(),
            stabilizer_positions: Vec::new(),
            stabilizer_types: Vec::new(),
            data_qubit_actions: Vec::new(),
        };
        code.init_data_qubit_positions();
        code.init_stabilizer_positions();
        code.init_data_qubit_actions();
        code
    }

    /// The number of rows.
    pub fn rows(&self) -> (r: usize)
        requires
            color_distance_fits(self.d),
        ensures
            r == color_rows(self.d as int),
    {
        3 * (self.d - 1) / 2 + 1
    }

    /// The number of columns of the longest row.
    pub fn columns(&self) -> (r: usize)
        requires
            color_distance_fits(self.d),
        ensures
            r == color_columns(self.d as int),
    {
        2 * self.d - 1
    }

    /// The columns of row `r`.
    pub fn range_for_row(&self, r: usize) -> (range: std::ops::Range<usize>)
        requires
            color_distance_fits(self.d),
            r < color_rows(self.d as int),
        ensures
            range.start == color_row_start(r as int),
            range.end == color_row_end(self.d as int, r as int),
            range.start < range.end,
    {
        let cr = r / 3;
        let start = 2 * cr + (if r % 3 == 0 {
            0
        } else {
            1
        });
        let length = self.columns() - 4 * cr - (r % 3);
        start..(start + length)
    }

    /// Whether `(i, j)` holds a qubit.
    pub fn is_qubit(&self, i: usize, j: usize) -> (r: bool)
        requires
            color_distance_fits(self.d),
        ensures
            r == color_is_qubit(self.d as int, i as int, j as int),
    {
        if i >= self.rows() {
            return false;
        }
        let range = self.range_for_row(i);
        range.start <= j && j < range.end
    }

    /// Whether `(i, j)` holds a data qubit.
    pub fn is_data_qubit(&self, i: usize, j: usize) -> (r: bool)
        requires
            color_distance_fits(self.d),
        ensures
            r == color_is_data_qubit(self.d as int, i as int, j as int),
    {
        if !self.is_qubit(i, j) {
            return false;
        }
        if i % 2 == 0 {
            (j % 4) == 0 || (j % 4) == 3
        } else {
            (j % 4) == 1 || (j % 4) == 2
        }
    }

    /// Whether `(i, j)` holds a stabilizer.
    pub fn is_z_stabilizer(&self, i: usize, j: usize) -> (r: bool)
        requires
            color_distance_fits(self.d),
        ensures
            r == color_is_z_stabilizer(self.d as int, i as int, j as int),
    {
        if !self.is_qubit(i, j) {
            return false;
        }
        if i % 2 == 0 {
            j % 4 == 1
        } else {
            j % 4 == 3
        }
    }

    /// Numbers the data qubits row by row.
    fn init_data_qubit_positions(&mut self)
        requires
            color_distance_fits(old(self).d),
        ensures
            final(self).d == old(self).d,
            final(self).stabilizer_positions == old(self).stabilizer_positions,
            final(self).stabilizer_types == old(self).stabilizer_types,
            final(self).data_qubit_actions == old(self).data_qubit_actions,
            final(self).data_qubits_wf(),
    {
        let d = self.d;
        let rows = self.rows();
        let ghost sites = color_data_sites(d as int);
        let mut listed: Vec<(usize, usize)> = Vec::new();
        let mut i: usize = 0;
        while i < rows
            invariant
                color_distance_fits(d),
                self.d == d,
                rows == color_rows(d as int),
                i <= rows,
                sites == color_data_sites(d as int),
                lists_before(listed@, sites, i as int, 0),
            decreases rows - i,
        {
            let range = self.range_for_row(i);
            let mut j: usize = range.start;
            proof {
                lemma_list_jump(listed@, sites, i as int, 0, i as int, j as int);
            }
            while j < range.end
                invariant
                    color_distance_fits(d),
                    self.d == d,
                    i < rows,
                    rows == color_rows(d as int),
                    range.start == color_row_start(i as int),
                    range.end == color_row_end(d as int, i as int),
                    range.start <= j <= range.end,
                    sites == color_data_sites(d as int),
                    lists_before(listed@, sites, i as int, j as int),
                decreases range.end - j,
            {
                if self.is_data_qubit(i, j) {
                    proof {
                        lemma_list_push(listed@, sites, i, j);
                    }
                    listed.push((i, j));
                } else {
                    proof {
                        lemma_list_skip(listed@, sites, i, j);
                    }
                }
                j += 1;
            }
            proof {
                lemma_list_jump(listed@, sites, i as int, j as int, i + 1, 0);
            }
            i += 1;
        }
        proof {
            lemma_list_done(listed@, sites, rows as int);
        }
        self.data_qubit_positions = listed;
    }

    /// Numbers the stabilizers row by row and records their bases.
    fn init_stabilizer_positions(&mut self)
        requires
            color_distance_fits(old(self).d),
        ensures
            final(self).d == old(self).d,
            final(self).data_qubit_positions == old(self).data_qubit_positions,
            final(self).data_qubit_actions == old(self).data_qubit_actions,
            final(self).stabilizers_wf(),
    {
        let d = self.d;
        let rows = self.rows();
        let ghost sites = color_stabilizer_sites(d as int);
        let mut listed: Vec<(usize, usize)> = Vec::new();
        let mut types: Vec<Pauli> = Vec::new();
        let mut i: usize = 0;
        while i < rows
            invariant
                color_distance_fits(d),
                self.d == d,
                rows == color_rows(d as int),
                i <= rows,
                sites == color_stabilizer_sites(d as int),
                lists_before(listed@, sites, i as int, 0),
                types@.len() == listed@.len(),
                forall|k: int| 0 <= k < types@.len() ==> #[trigger] types@[k] == Pauli::Z,
            decreases rows - i,
        {
            let range = self.range_for_row(i);
            let mut j: usize = range.start;
            proof {
                lemma_list_jump(listed@, sites, i as int, 0, i as int, j as int);
            }
            while j < range.end
                invariant
                    color_distance_fits(d),
                    self.d == d,
                    i < rows,
                    rows == color_rows(d as int),
                    range.start == color_row_start(i as int),
                    range.end == color_row_end(d as int, i as int),
                    range.start <= j <= range.end,
                    sites == color_stabilizer_sites(d as int),
                    lists_before(listed@, sites, i as int, j as int),
                    types@.len() == listed@.len(),
                    forall|k: int| 0 <= k < types@.len() ==> #[trigger] types@[k] == Pauli::Z,
                decreases range.end - j,
            {
                if self.is_z_stabilizer(i, j) {
                    proof {
                        lemma_list_push(listed@, sites, i, j);
                    }
                    listed.push((i, j));
                    types.push(Pauli::Z);
                } else {
                    proof {
                        lemma_list_skip(listed@, sites, i, j);
                    }
                }
                j += 1;
            }
            proof {
                lemma_list_jump(listed@, sites, i as int, j as int, i + 1, 0);
            }
            i += 1;
        }
        proof {
            lemma_list_done(listed@, sites, rows as int);
        }
        self.stabilizer_positions = listed;
        self.stabilizer_types = types;
    }

    /// The stabilizers that an `X` error on the data qubit at `(i, j)`
    /// flips.
    fn flipped_stabilizers(&self, i: usize, j: usize) -> (r: Vec<usize>)
        requires
            self.stabilizers_wf(),
            i < color_rows(self.d as int),
            j < color_row_end(self.d as int, i as int),
        ensures
            all_below(r@, self.stabilizer_positions@.len() as int),
            sites_of(r@, self.stabilizer_positions@) == color_flipped_sites(self.d as int, (i as int, j as int), 6),
    {
        let ghost d = self.d as int;
        let ghost site = (i as int, j as int);
        let ghost sites = color_stabilizer_sites(d);
        let mut out: Vec<usize> = Vec::new();
        let mut n: usize = 0;
        assert(sites_of(out@, self.stabilizer_positions@) =~= color_flipped_sites(d, site, 0));
        while n < 6
            invariant
                self.stabilizers_wf(),
                d == self.d as int,
                site == (i as int, j as int),
                sites == color_stabilizer_sites(d),
                i < color_rows(d),
                j < color_row_end(d, i as int),
                n <= 6,
                all_below(out@, self.stabilizer_positions@.len() as int),
                sites_of(out@, self.stabilizer_positions@) == color_flipped_sites(d, site, n as int),
            decreases 6 - n,
        {
            let o = action_offset(n);
            let ghost before = sites_of(out@, self.stabilizer_positions@);
            let ghost nb = (site.0 + o.0, site.1 + o.1);
            let mut found = false;
            if let Some((i2, j2)) = shift(i, j, o.0, o.1) {
                if self.is_z_stabilizer(i2, j2) {
                    assert(sites.contains((i2, j2)));
                    match find_site(&self.stabilizer_positions, i2, j2) {
                        Some(k) => {
                            out.push(k);
                            found = true;
                            assert(sites_of(out@, self.stabilizer_positions@) =~= before + seq![nb]);
                        },
                        None => {
                            assert(false);
                        },
                    }
                }
            }
            proof {
                if !found {
                    assert(before + Seq::<(int, int)>::empty() =~= before);
                }
            }
            n += 1;
        }
        out
    }

    /// The data qubits that the stabilizer at `(i, j)` checks.
    fn supported_qubits(&self, i: usize, j: usize) -> (r: Vec<usize>)
        requires
            self.data_qubits_wf(),
            i < color_rows(self.d as int),
            j < color_row_end(self.d as int, i as int),
        ensures
            all_below(r@, self.data_qubit_positions@.len() as int),
            sites_of(r@, self.data_qubit_positions@) == color_check_sites(self.d as int, (i as int, j as int), 6),
    {
        let ghost d = self.d as int;
        let ghost site = (i as int, j as int);
        let ghost sites = color_data_sites(d);
        let mut out: Vec<usize> = Vec::new();
        let mut n: usize = 0;
        assert(sites_of(out@, self.data_qubit_positions@) =~= color_check_sites(d, site, 0));
        while n < 6
            invariant
                self.data_qubits_wf(),
                d == self.d as int,
                site == (i as int, j as int),
                sites == color_data_sites(d),
                i < color_rows(d),
                j < color_row_end(d, i as int),
                n <= 6,
                all_below(out@, self.data_qubit_positions@.len() as int),
                sites_of(out@, self.data_qubit_positions@) == color_check_sites(d, site, n as int),
            decreases 6 - n,
        {
            let o = check_offset(n);
            let ghost before = sites_of(out@, self.data_qubit_positions@);
            let ghost nb = (site.0 + o.0, site.1 + o.1);
            let mut found = false;
            if let Some((i2, j2)) = shift(i, j, o.0, o.1) {
                if self.is_data_qubit(i2, j2) {
                    assert(sites.contains((i2, j2)));
                    match find_site(&self.data_qubit_positions, i2, j2) {
                        Some(k) => {
                            out.push(k);
                            found = true;
                            assert(sites_of(out@, self.data_qubit_positions@) =~= before + seq![nb]);
                        },
                        None => {
                            assert(false);
                        },
                    }
                }
            }
            proof {
                if !found {
                    assert(before + Seq::<(int, int)>::empty() =~= before);
                }
            }
            n += 1;
        }
        out
    }

    /// Fills the action table: for each data qubit, the stabilizers that an
    /// `X` error on it flips.
    fn init_data_qubit_actions(&mut self)
        requires
            old(self).data_qubits_wf(),
            old(self).stabilizers_wf(),
        ensures
            final(self).d == old(self).d,
            final(self).wf(),
    {
        let mut table: Vec<ActionEntry> = Vec::new();
        let count = self.data_qubit_positions.len();
        let mut q: usize = 0;
        while q < count
            invariant
                *self == *old(self),
                self.data_qubits_wf(),
                self.stabilizers_wf(),
                count == self.data_qubit_positions@.len(),
                q <= count,
                table@.len() == q,
                forall|m: int|
                    0 <= m < q ==> color_entry_ok(
                        #[trigger] table@[m],
                        self.d as int,
                        self.stabilizer_positions@,
                        self.data_qubit_positions@[m],
                    ),
            decreases count - q,
        {
            let site = self.data_qubit_positions[q];
            assert(color_data_sites(self.d as int).contains(self.data_qubit_positions@[q as int]));
            let flipped = self.flipped_stabilizers(site.0, site.1);
            table.push(ActionEntry { x: Some(flipped), y: None, z: None });
            q += 1;
        }
        self.data_qubit_actions = table;
    }

    /// For each stabilizer, the data qubits that it checks, each paired with
    /// the basis `Z`.
    pub fn stabilizer_checks(&self) -> (checks: Vec<Vec<(usize, Pauli)>>)
        requires
            self.data_qubits_wf(),
            self.stabilizers_wf(),
        ensures
            checks@.len() == self.stabilizer_positions@.len(),
            forall|k: int| 0 <= k < checks@.len() ==> self.check_wf((#[trigger] checks@[k])@, k),
    {
        let mut checks: Vec<Vec<(usize, Pauli)>> = Vec::new();
        let count = self.stabilizer_positions.len();
        let mut k: usize = 0;
        while k < count
            invariant
                self.data_qubits_wf(),
                self.stabilizers_wf(),
                count == self.stabilizer_positions@.len(),
                k <= count,
                checks@.len() == k,
                forall|m: int| 0 <= m < k ==> self.check_wf((#[trigger] checks@[m])@, m),
            decreases count - k,
        {
            let site = self.stabilizer_positions[k];
            assert(color_stabilizer_sites(self.d as int).contains(self.stabilizer_positions@[k as int]));
            let support = self.supported_qubits(site.0, site.1);
            proof {
                lemma_color_check_cardinality(self.d as int, (site.0 as int, site.1 as int), 6);
                assert(sites_of(support@, self.data_qubit_positions@).len() == support@.len());
            }
            let check = with_basis(&support, self.stabilizer_types[k]);
            assert(check_qubits(check@) =~= support@);
            checks.push(check);
            k += 1;
        }
        checks
    }

    /// The column in which the qubit at `(i, j)` is drawn.
    pub fn display_column(&self, i: usize, j: usize) -> (r: usize)
        requires
            color_distance_fits(self.d),
            color_is_qubit(self.d as int, i as int, j as int),
        ensures
            r == color_display_column(i as int, j as int),
    {
        if i % 3 == 0 {
            let idx = j - (i / 3) * 2 + 1;
            idx / 4 * 3 + idx % 4 - 1
        } else if i % 3 == 1 {
            let idx = j - 1 - (i / 3) * 2;
            idx / 4 * 3 + idx % 4
        } else {
            let idx = j + 1 - (i / 3) * 2;
            idx / 4 * 3 + idx % 4 - 2
        }
    }

    /// By how many half columns row `i` is moved to the right when it is
    /// drawn.
    pub fn display_bias(&self, i: usize) -> (r: usize)
        requires
            color_distance_fits(self.d),
            i < color_rows(self.d as int),
        ensures
            r == color_display_bias(i as int),
    {
        i % 3 + 3 * (i / 3)
    }

    /// For each stabilizer, the outline in which it is drawn: the polygon of
    /// the data qubits that it checks.
    pub fn stabilizer_shapes(&self) -> (shapes: Vec<ShapePlan>)
        requires
            self.data_qubits_wf(),
            self.stabilizers_wf(),
        ensures
            shapes@.len() == self.stabilizer_positions@.len(),
            forall|k: int| 0 <= k < shapes@.len() ==> self.shape_wf(#[trigger] shapes@[k], k),
    {
        let checks = self.stabilizer_checks();
        let mut shapes: Vec<ShapePlan> = Vec::new();
        let mut k: usize = 0;
        while k < checks.len()
            invariant
                checks@.len() == self.stabilizer_positions@.len(),
                forall|m: int| 0 <= m < checks@.len() ==> self.check_wf((#[trigger] checks@[m])@, m),
                k <= checks@.len(),
                shapes@.len() == k,
                forall|m: int| 0 <= m < k ==> self.shape_wf(#[trigger] shapes@[m], m),
            decreases checks@.len() - k,
        {
            let check = &checks[k];
            assert(self.check_wf(checks@[k as int]@, k as int));
            let mut corners: Vec<usize> = Vec::new();
            let mut m: usize = 0;
            while m < check.len()
                invariant
                    m <= check@.len(),
                    corners@.len() == m,
                    forall|n: int| 0 <= n < m ==> corners@[n] == check@[n].0,
                decreases check@.len() - m,
            {
                corners.push(check[m].0);
                m += 1;
            }
            assert(corners@ =~= check_qubits(check@));
            shapes.push(ShapePlan::Polygon { corners });
            k += 1;
        }
        shapes
    }

    /// For each stabilizer, the colour in which it is drawn: by its row.
    pub fn stabilizer_colors(&self) -> (colors: Vec<Color>)
        ensures
            colors@.len() == self.stabilizer_positions@.len(),
            forall|k: int|
                0 <= k < colors@.len() ==> #[trigger] colors@[k] == color_of_row(
                    self.stabilizer_positions@[k].0 as int,
                ),
    {
        let mut colors: Vec<Color> = Vec::new();
        let mut k: usize = 0;
        while k < self.stabilizer_positions.len()
            invariant
                k <= self.stabilizer_positions@.len(),
                colors@.len() == k,
                forall|m: int|
                    0 <= m < k ==> #[trigger] colors@[m] == color_of_row(self.stabilizer_positions@[m].0 as int),
            decreases self.stabilizer_positions@.len() - k,
        {
            let i = self.stabilizer_positions[k].0;
            colors.push(
                if i % 3 == 0 {
                    Color::Red
                } else if i % 3 == 1 {
                    Color::Green
                } else {
                    Color::Blue
                },
            );
            k += 1;
        }
        colors
    }
}

/// The `n`-th offset at which a data qubit looks for its stabilizers.
fn action_offset(n: usize) -> (o: (i8, i8))
    requires
        n < 6,
    ensures
        (o.0 as int, o.1 as int) == color_action_offsets()[n as int],
        -2 <= o.0 <= 2,
        -2 <= o.1 <= 2,
{
    if n == 0 {
        (0, 1)
    } else if n == 1 {
        (0, -2)
    } else if n == 2 {
        (-1, 0)
    } else if n == 3 {
        (1, 0)
    } else if n == 4 {
        (-1, -1)
    } else {
        (1, -1)
    }
}

/// The `n`-th offset at which a stabilizer looks for its data qubits.
fn check_offset(n: usize) -> (o: (i8, i8))
    requires
        n < 6,
    ensures
        (o.0 as int, o.1 as int) == color_check_offsets()[n as int],
        -2 <= o.0 <= 2,
        -2 <= o.1 <= 2,
{
    if n == 0 {
        (-1, 0)
    } else if n == 1 {
        (-1, 1)
    } else if n == 2 {
        (0, 2)
    } else if n == 3 {
        (1, 1)
    } else if n == 4 {
        (1, 0)
    } else {
        (0, -1)
    }
}

} // verus!
