//! What a code shows of itself: identifiers, titles and colour hints.

use vstd::prelude::*;
use vstd::string::*;
use crate::noise::{noise_name, NoiseType};

verus! {

/// The colour in which a stabilizer is drawn.
#[derive(Clone, Copy, Debug, PartialEq, Eq, Structural, Hash)]
pub enum Color {
    Red,
    Green,
    Blue,
}

/// The colour as a hexadecimal triplet.
pub open spec fn color_hex(c: Color) -> Seq<char> {
    match c {
        Color::Red => "#ffe8e8"@,
        Color::Green => "#e8f5e8"@,
        Color::Blue => "#e8f0ff"@,
    }
}

impl Color {
    /// The colour as a hexadecimal triplet.
    pub fn hex(&self) -> (r: &'static str)
        ensures
            r@ == color_hex(*self),
    {
        match self {
            Color::Red => "#ffe8e8",
            Color::Green => "#e8f5e8",
            Color::Blue => "#e8f0ff",
        }
    }
}

/// How many points outline the half disc of a boundary stabilizer.
pub const ROUND_SEGMENTS: usize = 36;

/// The outline in which a stabilizer is drawn, over the indices of the data
/// qubits that it checks.
#[derive(Debug)]
pub enum ShapePlan {
    /// The polygon with the given data qubits as corners, in this order.
    Polygon { corners: Vec<usize> },
    /// A half disc centred midway between two data qubits. It opens after
    /// `quarter_turns` quarter turns: none on the upper boundary, one on the
    /// left, two on the lower, three on the right.
    HalfDisc { first: usize, second: usize, quarter_turns: u8 },
}

/// The character of a decimal digit.
pub open spec fn digit_char(n: int) -> char {
    if n == 0 {
        '0'
    } else if n == 1 {
        '1'
    } else if n == 2 {
        '2'
    } else if n == 3 {
        '3'
    } else if n == 4 {
        '4'
    } else if n == 5 {
        '5'
    } else if n == 6 {
        '6'
    } else if n == 7 {
        '7'
    } else if n == 8 {
        '8'
    } else {
        '9'
    }
}

/// A number in decimal notation, without leading zeros.
pub open spec fn decimal(n: nat) -> Seq<char>
    decreases n,
{
    if n < 10 {
        seq![digit_char(n as int)]
    } else {
        decimal(n / 10).push(digit_char((n % 10) as int))
    }
}

/// The identifier of a rotated surface code.
pub open spec fn rsc_id(noise: NoiseType, d: nat) -> Seq<char> {
    "rsc-"@ + noise_name(noise) + "-d-"@ + decimal(d)
}

/// How a noise policy is named inside a surface code's title.
pub open spec fn rsc_noise_note(noise: NoiseType) -> Seq<char> {
    match noise {
        NoiseType::Depolarize => ""@,
        NoiseType::BitFlip => "Bit-Flip, "@,
        NoiseType::OnlyY => "Y-Flip, "@,
    }
}

/// The title of a rotated surface code.
pub open spec fn rsc_name(noise: NoiseType, d: nat) -> Seq<char> {
    "Surface Code ("@ + rsc_noise_note(noise) + "d="@ + decimal(d) + ")"@
}

/// The identifier of a triangular color code.
pub open spec fn color_id(d: nat) -> Seq<char> {
    "color-d-"@ + decimal(d)
}

/// The title of a triangular color code.
pub open spec fn color_name(d: nat) -> Seq<char> {
    "Color Code (Bit-Flip, d="@ + decimal(d) + ")"@
}

/// The one-character string of a decimal digit.
fn digit_str(n: usize) -> (r: &'static str)
    requires
        n < 10,
    ensures
        r@ == seq![digit_char(n as int)],
{
    proof {
        reveal_strlit("0");
        reveal_strlit("1");
        reveal_strlit("2");
        reveal_strlit("3");
        reveal_strlit("4");
        reveal_strlit("5");
        reveal_strlit("6");
        reveal_strlit("7");
        reveal_strlit("8");
        reveal_strlit("9");
    }
    let r = if n == 0 {
        "0"
    } else if n == 1 {
        "1"
    } else if n == 2 {
        "2"
    } else if n == 3 {
        "3"
    } else if n == 4 {
        "4"
    } else if n == 5 {
        "5"
    } else if n == 6 {
        "6"
    } else if n == 7 {
        "7"
    } else if n == 8 {
        "8"
    } else {
        "9"
    };
    assert(r@ =~= seq![digit_char(n as int)]);
    r
}

/// Writes a number in decimal notation.
pub fn decimal_string(n: usize) -> (r: String)
    ensures
        r@ == decimal(n as nat),
    decreases n,
{
    if n < 10 {
        digit_str(n).to_owned()
    } else {
        let mut s = decimal_string(n / 10);
        let ghost head = s@;
        s.append(digit_str(n % 10));
        assert(s@ =~= head.push(digit_char((n % 10) as int)));
        s
    }
}

/// The identifier under which the rotated surface code of distance `d`
/// under `noise` is known.
pub fn rotated_code_id(noise: NoiseType, d: usize) -> (r: String)
    ensures
        r@ == rsc_id(noise, d as nat),
{
    let mut s = String::from_str("rsc-");
    s.append(noise.to_string().as_str());
    s.append("-d-");
    s.append(decimal_string(d).as_str());
    s
}

/// The title of the rotated surface code of distance `d` under `noise`.
pub fn rotated_code_name(noise: NoiseType, d: usize) -> (r: String)
    ensures
        r@ == rsc_name(noise, d as nat),
{
    let mut s = String::from_str("Surface Code (");
    s.append(
        match noise {
            NoiseType::Depolarize => "",
            NoiseType::BitFlip => "Bit-Flip, ",
            NoiseType::OnlyY => "Y-Flip, ",
        },
    );
    s.append("d=");
    s.append(decimal_string(d).as_str());
    s.append(")");
    s
}

/// The identifier under which the triangular color code of distance `d` is
/// known.
pub fn color_code_id(d: usize) -> (r: String)
    ensures
        r@ == color_id(d as nat),
{
    let mut s = String::from_str("color-d-");
    s.append(decimal_string(d).as_str());
    s
}

/// The title of the triangular color code of distance `d`.
pub fn color_code_name(d: usize) -> (r: String)
    ensures
        r@ == color_name(d as nat),
{
    let mut s = String::from_str("Color Code (Bit-Flip, d=");
    s.append(decimal_string(d).as_str());
    s.append(")");
    s
}

/// The numbers of `s` in decimal notation, separated by commas.
pub open spec fn comma_separated(s: Seq<usize>) -> Seq<char>
    decreases s.len(),
{
    if s.len() == 0 {
        Seq::empty()
    } else if s.len() == 1 {
        decimal(s[0] as nat)
    } else {
        comma_separated(s.drop_last()) + seq![','] + decimal(s.last() as nat)
    }
}

/// Writes a syndrome as a request carries it, such as `"1,2,3"`.
pub fn syndrome_text(syndrome: &Vec<usize>) -> (r: String)
    ensures
        r@ == comma_separated(syndrome@),
{
    let mut text = String::new();
    let mut m: usize = 0;
    proof {
        reveal_strlit(",");
        assert(syndrome@.take(0) =~= Seq::<usize>::empty());
    }
    while m < syndrome.len()
        invariant
            m <= syndrome@.len(),
            ","@ == seq![','],
            text@ == comma_separated(syndrome@.take(m as int)),
        decreases syndrome@.len() - m,
    {
        let ghost head = syndrome@.take(m as int);
        let ghost next = syndrome@.take(m + 1);
        assert(next.drop_last() =~= head);
        assert(next.last() == syndrome@[m as int]);
        if m > 0 {
            text.append(",");
        }
        text.append(decimal_string(syndrome[m]).as_str());
        proof {
            if m == 0 {
                assert(text@ =~= decimal(syndrome@[0] as nat));
            } else {
                assert(text@ =~= comma_separated(head) + seq![','] + decimal(syndrome@[m as int] as nat));
            }
        }
        m += 1;
    }
    assert(syndrome@.take(m as int) =~= syndrome@);
    text
}

/// The address at which the syndrome is submitted for decoding.
pub open spec fn decode_address(code_id: Seq<char>, syndrome: Seq<usize>) -> Seq<char> {
    "/api/decode?code_id="@ + code_id + "&syndrome="@ + comma_separated(syndrome)
}

/// The address at which to ask for the syndrome to be decoded against the
/// code `code_id`. An empty syndrome carries no decoding work and gets no
/// address.
pub fn decode_url(code_id: &str, syndrome: &Vec<usize>) -> (r: Option<String>)
    ensures
        match r {
            Some(url) => syndrome@.len() > 0 && url@ == decode_address(code_id@, syndrome@),
            None => syndrome@.len() == 0,
        },
{
    if syndrome.len() == 0 {
        return None;
    }
    let mut url = String::from_str("/api/decode?code_id=");
    url.append(code_id);
    url.append("&syndrome=");
    url.append(syndrome_text(syndrome).as_str());
    Some(url)
}

} // verus!
