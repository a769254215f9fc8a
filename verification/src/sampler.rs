//! Random syndromes for exercising a decoder.
//!
//! Each data qubit independently suffers one of its admitted errors or none,
//! each with the same probability. The syndrome is the set of stabilizers
//! that an odd number of the drawn errors flip.

use vstd::prelude::*;
use crate::actions::ActionEntry;
use crate::codes::ServerCodeInfo;
use crate::graph::{contains, increasing, vertex_set};
use crate::noise::Pauli;

verus! {

/// The elements that are in exactly one of the two sets.
pub open spec fn sym_diff(a: Set<usize>, b: Set<usize>) -> Set<usize> {
    a.difference(b).union(b.difference(a))
}

/// The error that choice number `c` stands for: the entry's errors are
/// counted from zero in the order `X`, `Y`, `Z`, and any further number
/// stands for no error.
pub open spec fn spec_chosen_error(entry: ActionEntry, c: int) -> Option<Pauli> {
    let nx = if entry.x.is_some() { 1int } else { 0int };
    let ny = if entry.y.is_some() { 1int } else { 0int };
    if entry.x.is_some() && c == 0 {
        Some(Pauli::X)
    } else if entry.y.is_some() && c == nx {
        Some(Pauli::Y)
    } else if entry.z.is_some() && c == nx + ny {
        Some(Pauli::Z)
    } else {
        None
    }
}

/// The stabilizers that the chosen error flips; none for the identity.
pub open spec fn chosen_flips(entry: ActionEntry, c: int) -> Set<usize> {
    match spec_chosen_error(entry, c) {
        Some(e) => match entry.flips(e) {
            Some(l) => l.to_set(),
            None => Set::empty(),
        },
        None => Set::empty(),
    }
}

/// The syndrome of the errors chosen on the first `n` data qubits.
pub open spec fn syndrome_set(actions: Seq<ActionEntry>, choices: Seq<usize>, n: int) -> Set<usize>
    decreases n,
{
    if n <= 0 {
        Set::empty()
    } else {
        sym_diff(syndrome_set(actions, choices, n - 1), chosen_flips(actions[n - 1], choices[n - 1] as int))
    }
}

/// Whether each choice is one of its qubit's errors or the identity.
pub open spec fn choices_fit(actions: Seq<ActionEntry>, choices: Seq<usize>) -> bool {
    &&& choices.len() == actions.len()
    &&& forall|q: int| 0 <= q < choices.len() ==> #[trigger] choices[q] <= actions[q].spec_error_count()
}

/// The generator of pseudo-random numbers that the `rand` crate offers as
/// its standard one. Nothing of its state is known here.
#[verifier::external_type_specification]
#[verifier::external_body]
pub struct ExStdRng(rand::rngs::StdRng);

/// A generator that starts from `seed`.
///
/// This calls `seed_from_u64` of the `rand` crate for its standard
/// generator. Nothing is claimed of the generator that comes back.
#[verifier::external_body]
fn seeded_generator(seed: u64) -> (rng: rand::rngs::StdRng) {
    rand::SeedableRng::seed_from_u64(seed)
}

/// A generator that starts from what the thread's own generator yields.
///
/// This calls `from_rng` of the `rand` crate for its standard generator, on
/// the handle that `rand::rng` gives. Nothing is claimed of the generator
/// that comes back.
#[verifier::external_body]
fn fresh_generator() -> (rng: rand::rngs::StdRng) {
    rand::SeedableRng::from_rng(&mut rand::rng())
}

/// Draws a number below `n`, each with the same probability.
///
/// This calls `random_range` of the `rand` crate on the generator with the
/// range `0..n`. Nothing is claimed but that the number lies in the range,
/// which the crate documents; an empty range makes it panic, so `n` must be
/// positive.
#[verifier::external_body]
fn random_below(rng: &mut rand::rngs::StdRng, n: usize) -> (r: usize)
    requires
        n > 0,
    ensures
        r < n,
{
    rand::Rng::random_range(rng, 0..n)
}

/// The error that choice number `choice` stands for.
pub fn chosen_error(entry: &ActionEntry, choice: usize) -> (r: Option<Pauli>)
    ensures
        r == spec_chosen_error(*entry, choice as int),
{
    let mut next: usize = 0;
    if entry.x.is_some() {
        if choice == next {
            return Some(Pauli::X);
        }
        next += 1;
    }
    if entry.y.is_some() {
        if choice == next {
            return Some(Pauli::Y);
        }
        next += 1;
    }
    if entry.z.is_some() {
        if choice == next {
            return Some(Pauli::Z);
        }
    }
    None
}

/// The elements that occur in exactly one of `a` and `b`, in strictly
/// increasing order.
pub fn symmetric_difference(a: &Vec<usize>, b: &Vec<usize>) -> (r: Vec<usize>)
    ensures
        increasing(r@),
        r@.to_set() == sym_diff(a@.to_set(), b@.to_set()),
{
    let mut both: Vec<usize> = Vec::new();
    let mut m: usize = 0;
    while m < a.len()
        invariant
            m <= a@.len(),
            forall|k: int| 0 <= k < both@.len() ==> a@.contains(#[trigger] both@[k]) && !b@.contains(both@[k]),
            forall|n: int| 0 <= n < m && !b@.contains(#[trigger] a@[n]) ==> both@.contains(a@[n]),
        decreases a@.len() - m,
    {
        let x = a[m];
        if !contains(b, x) {
            let ghost prev = both@;
            both.push(x);
            assert forall|n: int| 0 <= n < m + 1 && !b@.contains(#[trigger] a@[n]) implies both@.contains(a@[n]) by {
                if n < m {
                    let k = choose|k: int| 0 <= k < prev.len() && prev[k] == a@[n];
                    assert(both@[k] == a@[n]);
                } else {
                    assert(both@[prev.len() as int] == a@[n]);
                }
            }
        }
        m += 1;
    }
    let ghost first = both@;
    let mut n: usize = 0;
    while n < b.len()
        invariant
            n <= b@.len(),
            forall|k: int|
                0 <= k < both@.len() ==> sym_diff(a@.to_set(), b@.to_set()).contains(#[trigger] both@[k]),
            forall|p: int| 0 <= p < a@.len() && !b@.contains(#[trigger] a@[p]) ==> both@.contains(a@[p]),
            forall|p: int| 0 <= p < n && !a@.contains(#[trigger] b@[p]) ==> both@.contains(b@[p]),
        decreases b@.len() - n,
    {
        let x = b[n];
        if !contains(a, x) {
            let ghost prev = both@;
            both.push(x);
            assert(b@.to_set().contains(x));
            assert forall|p: int| 0 <= p < a@.len() && !b@.contains(#[trigger] a@[p]) implies both@.contains(a@[p]) by {
                let k = choose|k: int| 0 <= k < prev.len() && prev[k] == a@[p];
                assert(both@[k] == a@[p]);
            }
            assert forall|p: int| 0 <= p < n + 1 && !a@.contains(#[trigger] b@[p]) implies both@.contains(b@[p]) by {
                if p < n {
                    let k = choose|k: int| 0 <= k < prev.len() && prev[k] == b@[p];
                    assert(both@[k] == b@[p]);
                } else {
                    assert(both@[prev.len() as int] == b@[p]);
                }
            }
        }
        n += 1;
    }
    proof {
        let want = sym_diff(a@.to_set(), b@.to_set());
        assert forall|x: usize| want.contains(x) implies both@.to_set().contains(x) by {
            if a@.contains(x) {
                let p = choose|p: int| 0 <= p < a@.len() && a@[p] == x;
                assert(both@.contains(a@[p]));
            } else {
                let p = choose|p: int| 0 <= p < b@.len() && b@[p] == x;
                assert(both@.contains(b@[p]));
            }
        }
        assert(both@.to_set() =~= want);
    }
    vertex_set(&both)
}

/// The syndrome of the chosen errors: choice `choices[q]` is applied to
/// data qubit `q`.
pub fn syndrome_of_choices(actions: &Vec<ActionEntry>, choices: &Vec<usize>) -> (r: Vec<usize>)
    requires
        choices@.len() == actions@.len(),
    ensures
        increasing(r@),
        r@.to_set() == syndrome_set(actions@, choices@, actions@.len() as int),
{
    let mut syndrome: Vec<usize> = Vec::new();
    let mut q: usize = 0;
    assert(syndrome@.to_set() =~= Set::<usize>::empty());
    while q < actions.len()
        invariant
            choices@.len() == actions@.len(),
            q <= actions@.len(),
            increasing(syndrome@),
            syndrome@.to_set() == syndrome_set(actions@, choices@, q as int),
        decreases actions@.len() - q,
    {
        let ghost before = syndrome@.to_set();
        match chosen_error(&actions[q], choices[q]) {
            Some(e) => {
                match actions[q].get(e) {
                    Some(l) => {
                        syndrome = symmetric_difference(&syndrome, l);
                    },
                    None => {
                        assert(sym_diff(before, Set::<usize>::empty()) =~= before);
                    },
                }
            },
            None => {
                assert(sym_diff(before, Set::<usize>::empty()) =~= before);
            },
        }
        q += 1;
    }
    syndrome
}

/// Draws random syndromes. Two samplers that start from the same seed draw
/// the same numbers, as far as the generator keeps its word.
pub struct SyndromeSampler {
    rng: rand::rngs::StdRng,
}

impl SyndromeSampler {
    /// A sampler whose draws are fixed by `seed`.
    pub fn seeded(seed: u64) -> SyndromeSampler {
        SyndromeSampler { rng: seeded_generator(seed) }
    }

    /// A sampler whose draws differ from run to run.
    pub fn unseeded() -> SyndromeSampler {
        SyndromeSampler { rng: fresh_generator() }
    }

    /// Draws one error or none for each data qubit and returns the
    /// syndrome. Which syndrome comes back is up to the generator; it is
    /// always the syndrome of some fitting choice of errors.
    pub fn sample(&mut self, code: &ServerCodeInfo) -> (r: Vec<usize>)
        ensures
            increasing(r@),
            exists|choices: Seq<usize>|
                #![auto]
                choices_fit(code.client_info.data_qubit_actions@, choices) && r@.to_set() == syndrome_set(
                    code.client_info.data_qubit_actions@,
                    choices,
                    code.client_info.data_qubit_actions@.len() as int,
                ),
    {
        let actions = &code.client_info.data_qubit_actions;
        let mut choices: Vec<usize> = Vec::new();
        let mut q: usize = 0;
        while q < actions.len()
            invariant
                q <= actions@.len(),
                choices@.len() == q,
                forall|m: int| 0 <= m < q ==> #[trigger] choices@[m] <= actions@[m].spec_error_count(),
            decreases actions@.len() - q,
        {
            let count = actions[q].error_count();
            let choice = random_below(&mut self.rng, count + 1);
            choices.push(choice);
            q += 1;
        }
        let r = syndrome_of_choices(actions, &choices);
        assert(choices_fit(actions@, choices@));
        r
    }
}

/// Draws one error or none for each data qubit and returns the syndrome.
/// Which syndrome comes back is up to chance; it is always the syndrome of
/// some fitting choice of errors.
pub fn generate_random_syndrome(code: &ServerCodeInfo) -> (r: Vec<usize>)
    ensures
        increasing(r@),
        exists|choices: Seq<usize>|
            #![auto]
            choices_fit(code.client_info.data_qubit_actions@, choices) && r@.to_set() == syndrome_set(
                code.client_info.data_qubit_actions@,
                choices,
                code.client_info.data_qubit_actions@.len() as int,
            ),
{
    let mut sampler = SyndromeSampler::unseeded();
    sampler.sample(code)
}

/// Draws a syndrome that is worth decoding: an empty one carries no work
/// and is not handed on. What was drawn is, as ever, the syndrome of some
/// fitting choice of errors.
pub fn sample_decodable_syndrome(code: &ServerCodeInfo) -> (r: Option<Vec<usize>>)
    ensures
        match r {
            Some(s) => s@.len() > 0 && increasing(s@),
            None => true,
        },
        exists|choices: Seq<usize>|
            #![auto]
            choices_fit(code.client_info.data_qubit_actions@, choices) && syndrome_set(
                code.client_info.data_qubit_actions@,
                choices,
                code.client_info.data_qubit_actions@.len() as int,
            ) == (match r {
                Some(s) => s@.to_set(),
                None => Set::<usize>::empty(),
            }),
{
    let syndrome = generate_random_syndrome(code);
    if syndrome.len() == 0 {
        assert(syndrome@.to_set() =~= Set::<usize>::empty());
        None
    } else {
        Some(syndrome)
    }
}

} // verus!
