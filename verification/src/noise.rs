//! Pauli labels and noise policies.

use vstd::prelude::*;
use vstd::string::*;

verus! {

/// A Pauli operator: the kind of a physical error on a data qubit, or the
/// basis in which a stabilizer measures.
#[derive(Clone, Copy, Debug, PartialEq, Eq, Structural, Hash)]
pub enum Pauli {
    X,
    Y,
    Z,
}

/// The one-letter label of a Pauli operator, as a sequence of characters.
pub open spec fn pauli_label(p: Pauli) -> Seq<char> {
    match p {
        Pauli::X => seq!['X'],
        Pauli::Y => seq!['Y'],
        Pauli::Z => seq!['Z'],
    }
}

/// The Pauli operator that a label names, if it names one.
pub open spec fn pauli_of_label(label: Seq<char>) -> Option<Pauli> {
    if label == seq!['X'] {
        Some(Pauli::X)
    } else if label == seq!['Y'] {
        Some(Pauli::Y)
    } else if label == seq!['Z'] {
        Some(Pauli::Z)
    } else {
        None
    }
}

impl Pauli {
    /// The label under which this operator is written: `"X"`, `"Y"` or `"Z"`.
    pub fn label(&self) -> (r: &'static str)
        ensures
            r@ == pauli_label(*self),
    {
        proof {
            reveal_strlit("X");
            reveal_strlit("Y");
            reveal_strlit("Z");
        }
        let r = match self {
            Pauli::X => "X",
            Pauli::Y => "Y",
            Pauli::Z => "Z",
        };
        assert(r@ =~= pauli_label(*self));
        r
    }

    /// Reads a label back. Anything but the three one-letter labels is no
    /// operator.
    pub fn from_label(label: &str) -> (r: Option<Pauli>)
        ensures
            r == pauli_of_label(label@),
    {
        if label.unicode_len() != 1 {
            return None;
        }
        let c = label.get_char(0);
        if c == 'X' {
            assert(label@ =~= seq!['X']);
            Some(Pauli::X)
        } else if c == 'Y' {
            assert(label@ =~= seq!['Y']);
            Some(Pauli::Y)
        } else if c == 'Z' {
            assert(label@ =~= seq!['Z']);
            Some(Pauli::Z)
        } else {
            None
        }
    }
}

/// Which physical errors a code is decoded against.
#[derive(Clone, Copy, Debug, PartialEq, Eq, Structural, Hash)]
pub enum NoiseType {
    /// Every qubit may suffer any of the three Pauli errors.
    Depolarize,
    /// Only `X` errors occur.
    BitFlip,
    /// Only `Y` errors occur.
    OnlyY,
}

/// Whether the policy admits the given Pauli error.
pub open spec fn noise_permits(noise: NoiseType, p: Pauli) -> bool {
    match noise {
        NoiseType::Depolarize => true,
        NoiseType::BitFlip => p == Pauli::X,
        NoiseType::OnlyY => p == Pauli::Y,
    }
}

/// Whether the policy admits the error written as `label`.
pub open spec fn noise_has_error(noise: NoiseType, label: Seq<char>) -> bool {
    match pauli_of_label(label) {
        Some(p) => noise_permits(noise, p),
        None => false,
    }
}

/// The lower-case name of a policy, as it appears in code identifiers.
pub open spec fn noise_name(noise: NoiseType) -> Seq<char> {
    match noise {
        NoiseType::Depolarize => "depolarize"@,
        NoiseType::BitFlip => "bit-flip"@,
        NoiseType::OnlyY => "only-Y"@,
    }
}

/// The policy's name as a human reads it in a title.
pub open spec fn noise_title(noise: NoiseType) -> Seq<char> {
    match noise {
        NoiseType::Depolarize => "Depolarize"@,
        NoiseType::BitFlip => "Bit-Flip"@,
        NoiseType::OnlyY => "Only Y"@,
    }
}

impl Default for NoiseType {
    fn default() -> (r: NoiseType)
        ensures
            r == NoiseType::Depolarize,
    {
        NoiseType::Depolarize
    }
}

impl NoiseType {
    /// Whether this policy admits the error written as `error_type`. A
    /// label that names no Pauli operator is admitted by no policy.
    pub fn has_error(&self, error_type: &str) -> (r: bool)
        ensures
            r == noise_has_error(*self, error_type@),
    {
        match Pauli::from_label(error_type) {
            Some(p) => self.permits(p),
            None => false,
        }
    }

    /// Whether this policy admits the Pauli error `p`.
    pub fn permits(&self, p: Pauli) -> (r: bool)
        ensures
            r == noise_permits(*self, p),
    {
        match self {
            NoiseType::Depolarize => true,
            NoiseType::BitFlip => p == Pauli::X,
            NoiseType::OnlyY => p == Pauli::Y,
        }
    }

    /// The lower-case name used in code identifiers.
    pub fn to_string(&self) -> (r: String)
        ensures
            r@ == noise_name(*self),
    {
        match self {
            NoiseType::Depolarize => "depolarize".to_owned(),
            NoiseType::BitFlip => "bit-flip".to_owned(),
            NoiseType::OnlyY => "only-Y".to_owned(),
        }
    }

    /// The capitalised name used where a policy is shown to a reader.
    pub fn title(&self) -> (r: String)
        ensures
            r@ == noise_title(*self),
    {
        match self {
            NoiseType::Depolarize => "Depolarize".to_owned(),
            NoiseType::BitFlip => "Bit-Flip".to_owned(),
            NoiseType::OnlyY => "Only Y".to_owned(),
        }
    }
}

} // verus!
