//! Around the decoder: what is checked before a syndrome is handed to it,
//! and how its answer is read.

use vstd::prelude::*;
use vstd::string::*;
use crate::actions::ActionEntry;
use crate::codes::ServerCodeInfo;
use crate::graph::{compiled, footprint};
use crate::noise::Pauli;
use crate::sampler::sym_diff;

verus! {

/// Why a decode request was turned down.
#[derive(Clone, Copy, Debug, PartialEq, Eq, Structural, Hash)]
pub enum DecodeError {
    /// No code has the requested identifier.
    UnknownCode,
    /// The syndrome cannot be read or names a stabilizer that the code does
    /// not have.
    InvalidSyndrome,
    /// The decoder answered with a hyperedge that the code does not have.
    SolverFailure,
}

/// A request to decode a syndrome.
#[derive(Debug)]
pub struct DecodeParams {
    /// The identifier of the code.
    pub code_id: String,
    /// The triggered stabilizers, such as `"1,2,3"`.
    pub syndrome: String,
    /// Whether the answer is to carry the decoder's trace as data.
    pub with_json: Option<String>,
    /// Whether the answer is to carry the decoder's trace as a page.
    pub with_html: Option<String>,
    /// How many nodes a cluster of the decoder may have.
    pub cluster_node_limit: usize,
}

impl DecodeParams {
    /// A request without a trace and with the usual limit on clusters.
    pub fn new(code_id: String, syndrome: String) -> (r: DecodeParams)
        ensures
            r.code_id == code_id,
            r.syndrome == syndrome,
            r.with_json.is_none(),
            r.with_html.is_none(),
            r.cluster_node_limit == 200,
    {
        DecodeParams {
            code_id,
            syndrome,
            with_json: None,
            with_html: None,
            cluster_node_limit: default_cluster_node_limit(),
        }
    }

    /// Whether the decoder has to keep a trace for this request.
    pub fn wants_trace(&self) -> (r: bool)
        ensures
            r == (self.with_json.is_some() || self.with_html.is_some()),
    {
        self.with_json.is_some() || self.with_html.is_some()
    }
}

/// How many nodes a cluster may have when the request does not say.
pub fn default_cluster_node_limit() -> (r: usize)
    ensures
        r == 200,
{
    200
}

/// The first code with the given identifier.
pub fn find_code(codes: &Vec<ServerCodeInfo>, code_id: &str) -> (r: Option<usize>)
    ensures
        match r {
            Some(k) => k < codes@.len() && codes@[k as int].client_info.id@ == code_id@ && forall|m: int|
                0 <= m < k ==> codes@[m].client_info.id@ != code_id@,
            None => forall|m: int| 0 <= m < codes@.len() ==> codes@[m].client_info.id@ != code_id@,
        },
{
    let wanted = code_id.to_owned();
    let mut k: usize = 0;
    while k < codes.len()
        invariant
            k <= codes@.len(),
            wanted@ == code_id@,
            forall|m: int| 0 <= m < k ==> codes@[m].client_info.id@ != code_id@,
        decreases codes@.len() - k,
    {
        if codes[k].client_info.id == wanted {
            return Some(k);
        }
        k += 1;
    }
    None
}

/// Whether every index of the syndrome is a vertex of a hypergraph with
/// `vertex_num` vertices.
pub open spec fn syndrome_fits(syndrome: Seq<usize>, vertex_num: int) -> bool {
    forall|m: int| 0 <= m < syndrome.len() ==> syndrome[m] < vertex_num
}

/// Checks that every index of the syndrome names a stabilizer.
pub fn check_syndrome(syndrome: &Vec<usize>, vertex_num: usize) -> (r: Result<(), DecodeError>)
    ensures
        r == (if syndrome_fits(syndrome@, vertex_num as int) {
            Ok::<(), DecodeError>(())
        } else {
            Err::<(), DecodeError>(DecodeError::InvalidSyndrome)
        }),
{
    let mut m: usize = 0;
    while m < syndrome.len()
        invariant
            m <= syndrome@.len(),
            forall|n: int| 0 <= n < m ==> syndrome@[n] < vertex_num,
        decreases syndrome@.len() - m,
    {
        if syndrome[m] >= vertex_num {
            return Err(DecodeError::InvalidSyndrome);
        }
        m += 1;
    }
    Ok(())
}

/// Whether every hyperedge of the decoder's answer is one that has a
/// representative.
pub open spec fn subgraph_fits(subgraph: Seq<usize>, edge_count: int) -> bool {
    forall|m: int| 0 <= m < subgraph.len() ==> subgraph[m] < edge_count
}

/// Whether `correction` reads `subgraph` through the representatives: one
/// physical error for each hyperedge, in the same order.
pub open spec fn correction_of(
    correction: Seq<(usize, Pauli)>,
    edge_errors: Seq<(usize, Pauli)>,
    subgraph: Seq<usize>,
) -> bool {
    &&& correction.len() == subgraph.len()
    &&& forall|m: int| 0 <= m < subgraph.len() ==> correction[m] == edge_errors[subgraph[m] as int]
}

/// Reads the decoder's answer: each hyperedge becomes the physical error
/// that represents it. An answer that names a hyperedge without a
/// representative is a failure of the decoder.
pub fn map_correction(edge_errors: &Vec<(usize, Pauli)>, subgraph: &Vec<usize>) -> (r: Result<
    Vec<(usize, Pauli)>,
    DecodeError,
>)
    ensures
        match r {
            Ok(correction) => subgraph_fits(subgraph@, edge_errors@.len() as int) && correction_of(
                correction@,
                edge_errors@,
                subgraph@,
            ),
            Err(e) => e == DecodeError::SolverFailure && !subgraph_fits(subgraph@, edge_errors@.len() as int),
        },
{
    let mut correction: Vec<(usize, Pauli)> = Vec::new();
    let mut m: usize = 0;
    while m < subgraph.len()
        invariant
            m <= subgraph@.len(),
            correction@.len() == m,
            forall|n: int| 0 <= n < m ==> subgraph@[n] < edge_errors@.len(),
            forall|n: int| 0 <= n < m ==> correction@[n] == edge_errors@[subgraph@[n] as int],
        decreases subgraph@.len() - m,
    {
        let edge = subgraph[m];
        if edge >= edge_errors.len() {
            return Err(DecodeError::SolverFailure);
        }
        correction.push(edge_errors[edge]);
        m += 1;
    }
    Ok(correction)
}

/// The syndrome that the first `n` hyperedges of the decoder's answer
/// explain: the stabilizers that lie on an odd number of them.
pub open spec fn edges_syndrome(edges: Seq<Vec<usize>>, subgraph: Seq<usize>, n: int) -> Set<usize>
    decreases n,
{
    if n <= 0 {
        Set::empty()
    } else {
        sym_diff(edges_syndrome(edges, subgraph, n - 1), edges[subgraph[n - 1] as int]@.to_set())
    }
}

/// The syndrome that the first `n` physical errors of a correction cause.
pub open spec fn errors_syndrome(actions: Seq<ActionEntry>, correction: Seq<(usize, Pauli)>, n: int) -> Set<usize>
    decreases n,
{
    if n <= 0 {
        Set::empty()
    } else {
        sym_diff(errors_syndrome(actions, correction, n - 1), footprint(actions, correction[n - 1]))
    }
}

/// Reading the decoder's answer loses nothing: the physical errors of the
/// correction cause exactly the syndrome that the answer's hyperedges
/// explain. So where the decoder explains the syndrome of an injected
/// error, the correction and the injected error together flip no
/// stabilizer.
pub proof fn lemma_correction_keeps_syndrome(
    actions: Seq<ActionEntry>,
    edges: Seq<Vec<usize>>,
    edge_errors: Seq<(usize, Pauli)>,
    subgraph: Seq<usize>,
    correction: Seq<(usize, Pauli)>,
    n: int,
)
    requires
        compiled(actions, edges, edge_errors),
        subgraph_fits(subgraph, edge_errors.len() as int),
        correction_of(correction, edge_errors, subgraph),
        0 <= n <= subgraph.len(),
    ensures
        errors_syndrome(actions, correction, n) == edges_syndrome(edges, subgraph, n),
    decreases n,
{
    if n > 0 {
        lemma_correction_keeps_syndrome(actions, edges, edge_errors, subgraph, correction, n - 1);
        let k = subgraph[n - 1] as int;
        assert(correction[n - 1] == edge_errors[k]);
        assert(edges[k]@.to_set() == footprint(actions, edge_errors[k]));
    }
}

/// Whether `b` is the character of a decimal digit.
pub open spec fn is_digit(b: u8) -> bool {
    48 <= b && b <= 57
}

/// Whether `s` is made of decimal digits only.
pub open spec fn all_digits(s: Seq<u8>) -> bool {
    forall|k: int| 0 <= k < s.len() ==> is_digit(#[trigger] s[k])
}

/// The number that the decimal digits `s` write.
pub open spec fn digits_value(s: Seq<u8>) -> nat
    decreases s.len(),
{
    if s.len() == 0 {
        0
    } else {
        digits_value(s.drop_last()) * 10 + (s.last() - 48) as nat
    }
}

/// `s` without the plus sign that may stand in front of a number.
pub open spec fn unsigned_part(s: Seq<u8>) -> Seq<u8> {
    if s.len() > 0 && s[0] == 43u8 {
        s.subrange(1, s.len() as int)
    } else {
        s
    }
}

/// The index that `s` writes: one or more decimal digits, after at most one
/// plus sign, whose value a machine word holds.
pub open spec fn parse_index(s: Seq<u8>) -> Option<usize> {
    let body = unsigned_part(s);
    if body.len() > 0 && all_digits(body) && digits_value(body) <= usize::MAX {
        Some(digits_value(body) as usize)
    } else {
        None
    }
}

/// The position of the last comma in `s`, or -1 where it has none.
pub open spec fn last_comma(s: Seq<u8>) -> int
    decreases s.len(),
{
    if s.len() == 0 {
        -1
    } else if s.last() == 44u8 {
        s.len() - 1
    } else {
        last_comma(s.drop_last())
    }
}

/// The indices that `s` lists, separated by commas. Every piece between two
/// commas must write an index, so the empty text lists nothing readable.
pub open spec fn parse_list(s: Seq<u8>) -> Option<Seq<usize>>
    decreases s.len(),
{
    let c = last_comma(s);
    let piece = parse_index(s.subrange(c + 1, s.len() as int));
    if c < 0 {
        match piece {
            Some(v) => Some(seq![v]),
            None => None,
        }
    } else if c >= s.len() {
        // never taken: the last comma stands inside `s`
        None
    } else {
        match (parse_list(s.subrange(0, c)), piece) {
            (Some(h), Some(v)) => Some(h.push(v)),
            _ => None,
        }
    }
}

/// Where the last comma stands, no comma follows.
pub proof fn lemma_last_comma(s: Seq<u8>)
    ensures
        -1 <= last_comma(s) < s.len(),
        last_comma(s) >= 0 ==> s[last_comma(s)] == 44u8,
        forall|k: int| last_comma(s) < k < s.len() ==> s[k] != 44u8,
    decreases s.len(),
{
    if s.len() > 0 && s.last() != 44u8 {
        lemma_last_comma(s.drop_last());
        assert forall|k: int| last_comma(s) < k < s.len() implies s[k] != 44u8 by {
            if k < s.len() - 1 {
                assert(s.drop_last()[k] == s[k]);
            }
        }
    }
}

/// A comma that no comma follows is the last one.
pub proof fn lemma_last_comma_is(s: Seq<u8>, c: int)
    requires
        -1 <= c < s.len(),
        c >= 0 ==> s[c] == 44u8,
        forall|k: int| c < k < s.len() ==> s[k] != 44u8,
    ensures
        last_comma(s) == c,
{
    lemma_last_comma(s);
}

/// A longer run of digits writes no smaller number.
pub proof fn lemma_digits_value_grows(s: Seq<u8>, k: int)
    requires
        0 <= k <= s.len(),
    ensures
        digits_value(s.take(k)) <= digits_value(s),
    decreases s.len(),
{
    if k == s.len() {
        assert(s.take(k) =~= s);
    } else {
        lemma_digits_value_grows(s.drop_last(), k);
        assert(s.drop_last().take(k) =~= s.take(k));
    }
}

/// A list whose part before some comma cannot be read cannot be read.
pub proof fn lemma_unreadable_prefix(s: Seq<u8>, c: int)
    requires
        0 <= c < s.len(),
        s[c] == 44u8,
        parse_list(s.take(c)).is_none(),
    ensures
        parse_list(s).is_none(),
    decreases s.len(),
{
    lemma_last_comma(s);
    let last = last_comma(s);
    assert(last >= c);
    if last == c {
        assert(s.subrange(0, last) =~= s.take(c));
    } else {
        let t = s.subrange(0, last);
        assert(t.take(c) =~= s.take(c));
        lemma_unreadable_prefix(t, c);
    }
}

/// Reads the index that the bytes from `from` up to `to` write.
pub fn parse_index_in(bytes: &[u8], from: usize, to: usize) -> (r: Option<usize>)
    requires
        from <= to <= bytes@.len(),
    ensures
        r == parse_index(bytes@.subrange(from as int, to as int)),
{
    let ghost piece = bytes@.subrange(from as int, to as int);
    let mut k: usize = from;
    if k < to && bytes[k] == 43 {
        k += 1;
    }
    let start = k;
    let ghost body = bytes@.subrange(start as int, to as int);
    assert(body =~= unsigned_part(piece));
    if k == to {
        return None;
    }
    let mut acc: usize = 0;
    assert(body.take(0) =~= Seq::<u8>::empty());
    while k < to
        invariant
            from <= start <= k <= to <= bytes@.len(),
            piece == bytes@.subrange(from as int, to as int),
            body == bytes@.subrange(start as int, to as int),
            body == unsigned_part(piece),
            body.len() > 0,
            all_digits(body.take(k - start)),
            acc == digits_value(body.take(k - start)),
        decreases to - k,
    {
        let b = bytes[k];
        let ghost head = body.take(k - start);
        let ghost next = body.take(k - start + 1);
        assert(next.drop_last() =~= head);
        assert(next.last() == b);
        if b < 48 || b > 57 {
            assert(!is_digit(body[k - start]));
            return None;
        }
        let digit = (b - 48) as usize;
        if acc > (usize::MAX - digit) / 10 {
            proof {
                assert(digits_value(next) > usize::MAX);
                lemma_digits_value_grows(body, k - start + 1);
            }
            return None;
        }
        acc = acc * 10 + digit;
        assert(all_digits(next)) by {
            assert forall|m: int| 0 <= m < next.len() implies is_digit(#[trigger] next[m]) by {
                if m < head.len() {
                    assert(head[m] == next[m]);
                }
            }
        }
        k += 1;
    }
    assert(body.take(k - start) =~= body);
    Some(acc)
}

/// Reads a syndrome: indices separated by commas.
pub fn parse_syndrome_bytes(bytes: &[u8]) -> (r: Result<Vec<usize>, DecodeError>)
    ensures
        match r {
            Ok(v) => parse_list(bytes@) == Some(v@),
            Err(e) => e == DecodeError::InvalidSyndrome && parse_list(bytes@).is_none(),
        },
{
    let ghost s = bytes@;
    let mut out: Vec<usize> = Vec::new();
    let mut start: usize = 0;
    let mut pos: usize = 0;
    while pos < bytes.len()
        invariant
            s == bytes@,
            start <= pos <= s.len(),
            forall|k: int| start <= k < pos ==> s[k] != 44u8,
            start == 0 ==> out@.len() == 0,
            start > 0 ==> s[start - 1] == 44u8 && parse_list(s.take(start - 1)) == Some(out@),
        decreases s.len() - pos,
    {
        if bytes[pos] == 44 {
            let piece = parse_index_in(bytes, start, pos);
            proof {
                let t = s.take(pos as int);
                lemma_last_comma_is(t, start - 1);
                assert(t.subrange(start as int, pos as int) =~= s.subrange(start as int, pos as int));
                if start > 0 {
                    assert(t.subrange(0, start - 1) =~= s.take(start - 1));
                }
            }
            match piece {
                Some(v) => {
                    proof {
                        if start == 0 {
                            assert(out@.push(v) =~= seq![v]);
                        }
                    }
                    out.push(v);
                    start = pos + 1;
                },
                None => {
                    proof {
                        lemma_unreadable_prefix(s, pos as int);
                    }
                    return Err(DecodeError::InvalidSyndrome);
                },
            }
        }
        pos += 1;
    }
    let piece = parse_index_in(bytes, start, pos);
    proof {
        lemma_last_comma_is(s, start - 1);
        if start > 0 {
            assert(s.subrange(0, start - 1) =~= s.take(start - 1));
        }
    }
    match piece {
        Some(v) => {
            proof {
                if start == 0 {
                    assert(out@.push(v) =~= seq![v]);
                }
            }
            out.push(v);
            Ok(out)
        },
        None => Err(DecodeError::InvalidSyndrome),
    }
}

/// Reads a syndrome as a request writes it, such as `"1,2,3"`.
pub fn parse_syndrome(text: &str) -> (r: Result<Vec<usize>, DecodeError>)
    ensures
        match r {
            Ok(v) => parse_list(text.spec_bytes()) == Some(v@),
            Err(e) => e == DecodeError::InvalidSyndrome && parse_list(text.spec_bytes()).is_none(),
        },
{
    parse_syndrome_bytes(text.as_bytes())
}

/// What is settled before the decoder runs: which code the request means
/// and which stabilizers it reports. The first code with the identifier is
/// meant; the syndrome must be readable and name stabilizers of that code
/// only.
pub fn prepare_decode(codes: &Vec<ServerCodeInfo>, code_id: &str, syndrome: &str) -> (r: Result<
    (usize, Vec<usize>),
    DecodeError,
>)
    ensures
        match r {
            Ok((k, v)) => {
                &&& k < codes@.len()
                &&& codes@[k as int].client_info.id@ == code_id@
                &&& forall|m: int| 0 <= m < k ==> codes@[m].client_info.id@ != code_id@
                &&& parse_list(syndrome.spec_bytes()) == Some(v@)
                &&& syndrome_fits(v@, codes@[k as int].solver_initializer.vertex_num as int)
            },
            Err(DecodeError::UnknownCode) => forall|m: int|
                0 <= m < codes@.len() ==> codes@[m].client_info.id@ != code_id@,
            Err(DecodeError::InvalidSyndrome) => exists|k: int|
                {
                    &&& 0 <= k < codes@.len()
                    &&& #[trigger] codes@[k].client_info.id@ == code_id@
                    &&& forall|m: int| 0 <= m < k ==> codes@[m].client_info.id@ != code_id@
                    &&& match parse_list(syndrome.spec_bytes()) {
                        Some(l) => !syndrome_fits(l, codes@[k].solver_initializer.vertex_num as int),
                        None => true,
                    }
                },
            Err(DecodeError::SolverFailure) => false,
        },
{
    let k = match find_code(codes, code_id) {
        Some(k) => k,
        None => {
            return Err(DecodeError::UnknownCode);
        },
    };
    let listed = match parse_syndrome(syndrome) {
        Ok(v) => v,
        Err(_) => {
            return Err(DecodeError::InvalidSyndrome);
        },
    };
    match check_syndrome(&listed, codes[k].solver_initializer.vertex_num) {
        Ok(_) => Ok((k, listed)),
        Err(_) => Err(DecodeError::InvalidSyndrome),
    }
}

} // verus!
