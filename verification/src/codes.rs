//! Compiled codes: a lattice together with its decoding hypergraph.

use vstd::prelude::*;
use crate::actions::ActionEntry;
use crate::color::{color_of_row, TriangularColorCodeBitFlip};
use crate::display::{
    color_code_id, color_code_name, color_id, color_name, rotated_code_id, rotated_code_name, rsc_id,
    rsc_name, Color, ShapePlan,
};
use crate::graph::{compile_actions, compiled, footprint, is_candidate};
use crate::noise::Pauli;
use crate::rotated::{rsc_color, rsc_is_interior, RotatedSurfaceCode};
use crate::sites::all_below;

verus! {

/// A weighted hypergraph over the stabilizers of a code. Every hyperedge
/// weighs one.
#[derive(Debug)]
pub struct Hypergraph {
    /// The number of vertices: one for each stabilizer.
    pub vertex_num: usize,
    /// The hyperedges, each a strictly increasing list of vertices.
    pub edges: Vec<Vec<usize>>,
}

/// What a client gets to know of a code.
#[derive(Debug)]
pub struct ClientCodeInfo {
    pub id: String,
    pub name: String,
    pub d: usize,
    /// The data qubits' grid coordinates.
    pub data_qubit_positions: Vec<(usize, usize)>,
    pub data_qubit_actions: Vec<ActionEntry>,
    /// The stabilizers' grid coordinates.
    pub stabilizer_positions: Vec<(usize, usize)>,
    /// The outlines in which the stabilizers are drawn, over data-qubit
    /// indices.
    pub stabilizer_shapes: Vec<ShapePlan>,
    pub stabilizer_checks: Vec<Vec<(usize, Pauli)>>,
    pub stabilizer_colors: Vec<Color>,
    pub logical_observables: Vec<Vec<(usize, Pauli)>>,
}

/// A compiled code: what the client sees, the hypergraph that the decoder
/// works on, and for each hyperedge the physical error that it stands for.
#[derive(Debug)]
pub struct ServerCodeInfo {
    pub client_info: ClientCodeInfo,
    pub solver_initializer: Hypergraph,
    pub edge_errors: Vec<(usize, Pauli)>,
}

/// Whether `p` lies on the given row, or on the given column.
pub open spec fn on_line(p: (usize, usize), along_row: bool, line: usize) -> bool {
    if along_row {
        p.0 == line
    } else {
        p.1 == line
    }
}

/// Whether `obs` names, by ascending index and each once, exactly the data
/// qubits on the given line, each with `basis`.
pub open spec fn observable_ok(
    obs: Seq<(usize, Pauli)>,
    positions: Seq<(usize, usize)>,
    along_row: bool,
    line: usize,
    basis: Pauli,
) -> bool {
    &&& forall|m: int|
        0 <= m < obs.len() ==> {
            &&& (#[trigger] obs[m]).1 == basis
            &&& obs[m].0 < positions.len()
            &&& on_line(positions[obs[m].0 as int], along_row, line)
        }
    &&& forall|a: int, b: int| 0 <= a < b < obs.len() ==> (#[trigger] obs[a]).0 < (#[trigger] obs[b]).0
    &&& forall|q: int|
        0 <= q < positions.len() && on_line(#[trigger] positions[q], along_row, line) ==> obs.contains(
            (q as usize, basis),
        )
}

/// The logical observable that acts with `basis` on every data qubit of one
/// row or column.
pub fn observable_on_line(positions: &Vec<(usize, usize)>, along_row: bool, line: usize, basis: Pauli) -> (obs:
    Vec<(usize, Pauli)>)
    ensures
        observable_ok(obs@, positions@, along_row, line, basis),
{
    let mut obs: Vec<(usize, Pauli)> = Vec::new();
    let mut q: usize = 0;
    while q < positions.len()
        invariant
            q <= positions@.len(),
            forall|m: int|
                0 <= m < obs@.len() ==> {
                    &&& (#[trigger] obs@[m]).1 == basis
                    &&& obs@[m].0 < q
                    &&& on_line(positions@[obs@[m].0 as int], along_row, line)
                },
            forall|a: int, b: int| 0 <= a < b < obs@.len() ==> (#[trigger] obs@[a]).0 < (#[trigger] obs@[b]).0,
            forall|p: int|
                0 <= p < q && on_line(#[trigger] positions@[p], along_row, line) ==> obs@.contains(
                    (p as usize, basis),
                ),
        decreases positions@.len() - q,
    {
        let site = positions[q];
        let hit = if along_row {
            site.0 == line
        } else {
            site.1 == line
        };
        if hit {
            let ghost prev = obs@;
            obs.push((q, basis));
            assert forall|p: int| 0 <= p < q + 1 && on_line(#[trigger] positions@[p], along_row, line) implies obs@.contains(
                (p as usize, basis),
            ) by {
                if p < q {
                    let m = choose|m: int| 0 <= m < prev.len() && prev[m] == (p as usize, basis);
                    assert(obs@[m] == (p as usize, basis));
                } else {
                    assert(obs@[prev.len() as int] == (p as usize, basis));
                }
            }
        }
        q += 1;
    }
    obs
}

impl ClientCodeInfo {
    /// Compiles the action table into the decoder's hypergraph: one vertex
    /// for each stabilizer, one hyperedge for each distinct non-empty
    /// footprint, and for each hyperedge the first error that has it.
    pub fn construct_graph(&self) -> (r: (Hypergraph, Vec<(usize, Pauli)>))
        ensures
            r.0.vertex_num == self.stabilizer_positions@.len(),
            compiled(self.data_qubit_actions@, r.0.edges@, r.1@),
    {
        let vertex_num = self.stabilizer_positions.len();
        let (edges, edge_errors) = compile_actions(&self.data_qubit_actions);
        (Hypergraph { vertex_num, edges }, edge_errors)
    }
}

/// Whether every list of the action table names stabilizers below `bound`
/// only.
pub open spec fn actions_below(actions: Seq<ActionEntry>, bound: int) -> bool {
    forall|q: int, e: Pauli|
        0 <= q < actions.len() ==> match (#[trigger] actions[q].flips(e)) {
            Some(l) => all_below(l, bound),
            None => true,
        }
}

/// Whether every vertex of every hyperedge is below `bound`.
pub open spec fn edges_below(edges: Seq<Vec<usize>>, bound: int) -> bool {
    forall|k: int, m: int| 0 <= k < edges.len() && 0 <= m < edges[k]@.len() ==> (#[trigger] edges[k]@[m]) < bound
}

/// A hypergraph compiled from an action table has no vertex that the table
/// does not name.
pub proof fn lemma_compiled_edges_below(
    actions: Seq<ActionEntry>,
    edges: Seq<Vec<usize>>,
    errors: Seq<(usize, Pauli)>,
    bound: int,
)
    requires
        compiled(actions, edges, errors),
        actions_below(actions, bound),
    ensures
        edges_below(edges, bound),
{
    assert forall|k: int, m: int| 0 <= k < edges.len() && 0 <= m < edges[k]@.len() implies (#[trigger] edges[k]@[m])
        < bound by {
        let err = errors[k];
        let x = edges[k]@[m];
        assert(is_candidate(actions, err));
        assert(edges[k]@.to_set().contains(x));
        assert(footprint(actions, err).contains(x));
        let l = actions[err.0 as int].flips(err.1).unwrap();
        assert(l.contains(x));
        let n = choose|n: int| 0 <= n < l.len() && l[n] == x;
        assert(all_below(l, bound));
        assert(l[n] < bound);
    }
}

impl ServerCodeInfo {
    /// The invariant of a compiled code: the hypergraph and the
    /// representatives are those of the action table, over the code's
    /// stabilizers.
    pub open spec fn wf(&self) -> bool {
        &&& self.solver_initializer.vertex_num == self.client_info.stabilizer_positions@.len()
        &&& compiled(self.client_info.data_qubit_actions@, self.solver_initializer.edges@, self.edge_errors@)
        &&& edges_below(self.solver_initializer.edges@, self.solver_initializer.vertex_num as int)
    }

    /// Compiles a rotated surface code.
    pub fn from_rotated_surface_code(code: RotatedSurfaceCode) -> (info: ServerCodeInfo)
        requires
            code.wf(),
        ensures
            info.wf(),
            info.client_info.id@ == rsc_id(code.noise_type, code.d as nat),
            info.client_info.name@ == rsc_name(code.noise_type, code.d as nat),
            info.client_info.d == code.d,
            info.client_info.data_qubit_positions == code.data_qubit_positions,
            info.client_info.data_qubit_actions == code.data_qubit_actions,
            info.client_info.stabilizer_positions == code.stabilizer_positions,
            info.client_info.stabilizer_checks@.len() == code.stabilizer_positions@.len(),
            forall|k: int|
                0 <= k < code.stabilizer_positions@.len() ==> code.check_wf(
                    (#[trigger] info.client_info.stabilizer_checks@[k])@,
                    k,
                ),
            info.client_info.stabilizer_shapes@.len() == code.stabilizer_positions@.len(),
            forall|k: int|
                0 <= k < code.stabilizer_positions@.len() ==> code.shape_wf(
                    #[trigger] info.client_info.stabilizer_shapes@[k],
                    k,
                ),
            info.client_info.stabilizer_colors@.len() == code.stabilizer_positions@.len(),
            forall|k: int|
                0 <= k < code.stabilizer_positions@.len() ==> #[trigger] info.client_info.stabilizer_colors@[k]
                    == rsc_color(code.stabilizer_types@[k]),
            info.client_info.logical_observables@.len() == 2,
            observable_ok(info.client_info.logical_observables@[0]@, code.data_qubit_positions@, false, 1, Pauli::Z),
            observable_ok(info.client_info.logical_observables@[1]@, code.data_qubit_positions@, true, 1, Pauli::X),
    {
        let z_observable = observable_on_line(&code.data_qubit_positions, false, 1, Pauli::Z);
        let x_observable = observable_on_line(&code.data_qubit_positions, true, 1, Pauli::X);
        let mut logical_observables: Vec<Vec<(usize, Pauli)>> = Vec::new();
        logical_observables.push(z_observable);
        logical_observables.push(x_observable);
        let stabilizer_shapes = code.stabilizer_shapes();
        let stabilizer_checks = code.stabilizer_checks();
        let stabilizer_colors = code.stabilizer_colors();
        let id = rotated_code_id(code.noise_type, code.d);
        let name = rotated_code_name(code.noise_type, code.d);
        proof {
            assert forall|q: int, e: Pauli| 0 <= q < code.data_qubit_actions@.len() implies match (
            #[trigger] code.data_qubit_actions@[q].flips(e)) {
                Some(l) => all_below(l, code.stabilizer_positions@.len() as int),
                None => true,
            } by {
                assert(code.entry_wf(q));
            }
        }
        let client_info = ClientCodeInfo {
            id,
            name,
            d: code.d,
            data_qubit_positions: code.data_qubit_positions,
            data_qubit_actions: code.data_qubit_actions,
            stabilizer_positions: code.stabilizer_positions,
            stabilizer_shapes,
            stabilizer_checks,
            stabilizer_colors,
            logical_observables,
        };
        let (solver_initializer, edge_errors) = client_info.construct_graph();
        proof {
            lemma_compiled_edges_below(
                client_info.data_qubit_actions@,
                solver_initializer.edges@,
                edge_errors@,
                solver_initializer.vertex_num as int,
            );
        }
        ServerCodeInfo { client_info, solver_initializer, edge_errors }
    }

    /// Compiles a triangular color code.
    pub fn from_triangular_color_code(code: TriangularColorCodeBitFlip) -> (info: ServerCodeInfo)
        requires
            code.wf(),
        ensures
            info.wf(),
            info.client_info.id@ == color_id(code.d as nat),
            info.client_info.name@ == color_name(code.d as nat),
            info.client_info.d == code.d,
            info.client_info.data_qubit_positions == code.data_qubit_positions,
            info.client_info.data_qubit_actions == code.data_qubit_actions,
            info.client_info.stabilizer_positions == code.stabilizer_positions,
            info.client_info.stabilizer_checks@.len() == code.stabilizer_positions@.len(),
            forall|k: int|
                0 <= k < code.stabilizer_positions@.len() ==> code.check_wf(
                    (#[trigger] info.client_info.stabilizer_checks@[k])@,
                    k,
                ),
            info.client_info.stabilizer_shapes@.len() == code.stabilizer_positions@.len(),
            forall|k: int|
                0 <= k < code.stabilizer_positions@.len() ==> code.shape_wf(
                    #[trigger] info.client_info.stabilizer_shapes@[k],
                    k,
                ),
            info.client_info.stabilizer_colors@.len() == code.stabilizer_positions@.len(),
            forall|k: int|
                0 <= k < code.stabilizer_positions@.len() ==> #[trigger] info.client_info.stabilizer_colors@[k]
                    == color_of_row(code.stabilizer_positions@[k].0 as int),
            info.client_info.logical_observables@.len() == 1,
            observable_ok(info.client_info.logical_observables@[0]@, code.data_qubit_positions@, true, 0, Pauli::Z),
    {
        let z_observable = observable_on_line(&code.data_qubit_positions, true, 0, Pauli::Z);
        let mut logical_observables: Vec<Vec<(usize, Pauli)>> = Vec::new();
        logical_observables.push(z_observable);
        let stabilizer_shapes = code.stabilizer_shapes();
        let stabilizer_checks = code.stabilizer_checks();
        let stabilizer_colors = code.stabilizer_colors();
        let id = color_code_id(code.d);
        let name = color_code_name(code.d);
        proof {
            assert forall|q: int, e: Pauli| 0 <= q < code.data_qubit_actions@.len() implies match (
            #[trigger] code.data_qubit_actions@[q].flips(e)) {
                Some(l) => all_below(l, code.stabilizer_positions@.len() as int),
                None => true,
            } by {
                assert(code.entry_wf(q));
            }
        }
        let client_info = ClientCodeInfo {
            id,
            name,
            d: code.d,
            data_qubit_positions: code.data_qubit_positions,
            data_qubit_actions: code.data_qubit_actions,
            stabilizer_positions: code.stabilizer_positions,
            stabilizer_shapes,
            stabilizer_checks,
            stabilizer_colors,
            logical_observables,
        };
        let (solver_initializer, edge_errors) = client_info.construct_graph();
        proof {
            lemma_compiled_edges_below(
                client_info.data_qubit_actions@,
                solver_initializer.edges@,
                edge_errors@,
                solver_initializer.vertex_num as int,
            );
        }
        ServerCodeInfo { client_info, solver_initializer, edge_errors }
    }
}

/// A stabilizer whose check list has not the number of data qubits that
/// its place in the lattice asks for. A code with such a stabilizer must
/// not be served.
#[derive(Clone, Copy, Debug, PartialEq, Eq, Structural, Hash)]
pub struct ConstructionInvariantViolation {
    /// The first stabilizer that is at fault.
    pub stabilizer: usize,
}

/// Whether stabilizer `k` of a rotated surface code has a check list, and
/// one of four data qubits inside the lattice and of two on its boundary.
pub open spec fn rotated_check_fits(
    d: int,
    positions: Seq<(usize, usize)>,
    checks: Seq<Vec<(usize, Pauli)>>,
    k: int,
) -> bool {
    &&& 0 <= k < positions.len()
    &&& k < checks.len()
    &&& checks[k]@.len() == (if rsc_is_interior(d, positions[k].0 as int, positions[k].1 as int) {
        4int
    } else {
        2int
    })
}

/// Whether stabilizer `k` of a color code has a check list, and one of at
/// most six data qubits.
pub open spec fn color_check_fits(stabilizers: int, checks: Seq<Vec<(usize, Pauli)>>, k: int) -> bool {
    0 <= k < stabilizers && k < checks.len() && checks[k]@.len() <= 6
}

/// Checks the check lists of a rotated surface code of distance `d` against
/// the stabilizers' places: one list for each stabilizer, of four data
/// qubits inside the lattice and of two on its boundary.
pub fn verify_rotated_checks(d: usize, positions: &Vec<(usize, usize)>, checks: &Vec<Vec<(usize, Pauli)>>) -> (r:
    Result<(), ConstructionInvariantViolation>)
    ensures
        match r {
            Ok(_) => checks@.len() == positions@.len() && forall|k: int|
                0 <= k < positions@.len() ==> rotated_check_fits(d as int, positions@, checks@, k),
            Err(v) => {
                &&& v.stabilizer <= positions@.len()
                &&& forall|k: int| 0 <= k < v.stabilizer ==> rotated_check_fits(d as int, positions@, checks@, k)
                &&& if v.stabilizer < positions@.len() {
                    !rotated_check_fits(d as int, positions@, checks@, v.stabilizer as int)
                } else {
                    checks@.len() > positions@.len()
                }
            },
        },
{
    let mut k: usize = 0;
    while k < positions.len()
        invariant
            k <= positions@.len(),
            k <= checks@.len(),
            forall|m: int| 0 <= m < k ==> rotated_check_fits(d as int, positions@, checks@, m),
        decreases positions@.len() - k,
    {
        if k >= checks.len() {
            return Err(ConstructionInvariantViolation { stabilizer: k });
        }
        let site = positions[k];
        let interior = site.0 > 0 && site.1 > 0 && site.0 / 2 < d && site.1 / 2 < d;
        let expected: usize = if interior {
            4
        } else {
            2
        };
        if checks[k].len() != expected {
            return Err(ConstructionInvariantViolation { stabilizer: k });
        }
        k += 1;
    }
    if checks.len() != positions.len() {
        return Err(ConstructionInvariantViolation { stabilizer: k });
    }
    Ok(())
}

/// Checks the check lists of a color code with `stabilizers` stabilizers:
/// one list for each, of at most six data qubits.
pub fn verify_color_checks(stabilizers: usize, checks: &Vec<Vec<(usize, Pauli)>>) -> (r: Result<
    (),
    ConstructionInvariantViolation,
>)
    ensures
        match r {
            Ok(_) => checks@.len() == stabilizers && forall|k: int|
                0 <= k < stabilizers ==> color_check_fits(stabilizers as int, checks@, k),
            Err(v) => {
                &&& v.stabilizer <= stabilizers
                &&& forall|k: int| 0 <= k < v.stabilizer ==> color_check_fits(stabilizers as int, checks@, k)
                &&& if v.stabilizer < stabilizers {
                    !color_check_fits(stabilizers as int, checks@, v.stabilizer as int)
                } else {
                    checks@.len() > stabilizers
                }
            },
        },
{
    let mut k: usize = 0;
    while k < stabilizers
        invariant
            k <= stabilizers,
            k <= checks@.len(),
            forall|m: int| 0 <= m < k ==> color_check_fits(stabilizers as int, checks@, m),
        decreases stabilizers - k,
    {
        if k >= checks.len() {
            return Err(ConstructionInvariantViolation { stabilizer: k });
        }
        if checks[k].len() > 6 {
            return Err(ConstructionInvariantViolation { stabilizer: k });
        }
        k += 1;
    }
    if checks.len() != stabilizers {
        return Err(ConstructionInvariantViolation { stabilizer: k });
    }
    Ok(())
}

/// The check lists that a well-formed rotated surface code computes for
/// itself always pass the check of their sizes.
pub proof fn lemma_rotated_checks_fit(code: RotatedSurfaceCode, checks: Seq<Vec<(usize, Pauli)>>, k: int)
    requires
        code.wf(),
        checks.len() == code.stabilizer_positions@.len(),
        0 <= k < checks.len(),
        code.check_wf(checks[k]@, k),
    ensures
        rotated_check_fits(code.d as int, code.stabilizer_positions@, checks, k),
{
}

} // verus!
