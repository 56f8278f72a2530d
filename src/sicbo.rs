//! The payout table of the three-dice game.
use vstd::prelude::*;
use vstd::string::StringSliceAdditionalSpecFns;
use crate::text::{has_prefix, same_bytes, starts_with, DIGIT_ZERO};

verus! {

/// The byte value of `_`.
pub const UNDERSCORE: u8 = 95;

/// A bet of the three-dice game, with the parameters its rule needs.
#[derive(Clone, Copy, Debug, PartialEq, Eq, Structural)]
pub enum SicBoBet {
    /// The total of the three faces lies in 4..=10.
    Small,
    /// The total of the three faces lies in 11..=17.
    Big,
    /// Some two of the three faces show the given face.
    Double(u8),
    /// All three faces are equal.
    TripleAny,
    /// All three faces show the given face.
    Triple(u8),
    /// The total of the three faces is the given number.
    Sum(u8),
    /// Every face is one of the two given faces, and both appear.
    Comb(u8, u8),
    /// Pays once for each face that shows the given face.
    Single(u8),
    /// Any identifier outside the game's vocabulary; it never pays.
    Unknown,
}

/// Whether byte `b` is one of the digits `1` to `6`.
pub open spec fn is_face_digit(b: u8) -> bool {
    DIGIT_ZERO + 1 <= b <= DIGIT_ZERO + 6
}

/// Whether `s` is `prefix` followed by one face digit.
pub open spec fn face_after(s: Seq<u8>, prefix: Seq<u8>) -> bool {
    s.len() == prefix.len() + 1 && starts_with(s, prefix) && is_face_digit(s.last())
}

/// Whether `s` spells `comb_A_B` with faces `A < B`.
pub open spec fn is_comb_word(s: Seq<u8>) -> bool {
    &&& s.len() == 8
    &&& starts_with(s, "comb_".spec_bytes())
    &&& is_face_digit(s[5])
    &&& s[6] == UNDERSCORE
    &&& is_face_digit(s[7])
    &&& s[5] < s[7]
}

/// The bet that the identifier with UTF-8 bytes `s` names.
pub open spec fn sicbo_bet_of(s: Seq<u8>) -> SicBoBet {
    if s == "small".spec_bytes() {
        SicBoBet::Small
    } else if s == "big".spec_bytes() {
        SicBoBet::Big
    } else if s == "triple_any".spec_bytes() {
        SicBoBet::TripleAny
    } else if face_after(s, "double_".spec_bytes()) {
        SicBoBet::Double((s.last() - DIGIT_ZERO) as u8)
    } else if face_after(s, "triple_".spec_bytes()) {
        SicBoBet::Triple((s.last() - DIGIT_ZERO) as u8)
    } else if face_after(s, "single_".spec_bytes()) {
        SicBoBet::Single((s.last() - DIGIT_ZERO) as u8)
    } else if is_comb_word(s) {
        SicBoBet::Comb((s[5] - DIGIT_ZERO) as u8, (s[7] - DIGIT_ZERO) as u8)
    } else if s.len() == 5 && starts_with(s, "sum_".spec_bytes()) && DIGIT_ZERO + 4 <= s[4]
        <= DIGIT_ZERO + 9 {
        SicBoBet::Sum((s[4] - DIGIT_ZERO) as u8)
    } else if s.len() == 6 && starts_with(s, "sum_1".spec_bytes()) && DIGIT_ZERO <= s[5]
        <= DIGIT_ZERO + 7 {
        SicBoBet::Sum((10 + s[5] - DIGIT_ZERO) as u8)
    } else {
        SicBoBet::Unknown
    }
}

/// The total of the three faces.
pub open spec fn dice_total(d: Seq<u8>) -> int {
    d[0] + d[1] + d[2]
}

/// How many of the three faces show `n`.
pub open spec fn face_count(d: Seq<u8>, n: u8) -> int {
    (if d[0] == n { 1int } else { 0 }) + (if d[1] == n { 1int } else { 0 }) + (if d[2] == n {
        1int
    } else {
        0
    })
}

/// Whether some two of the three faces both show `n`.
pub open spec fn has_pair_of(d: Seq<u8>, n: u8) -> bool {
    (d[0] == n && d[1] == n) || (d[0] == n && d[2] == n) || (d[1] == n && d[2] == n)
}

/// Whether all three faces are equal.
pub open spec fn is_triple(d: Seq<u8>) -> bool {
    d[0] == d[1] && d[1] == d[2]
}

/// Whether every face is `a` or `b`, and both appear.
pub open spec fn is_combination(d: Seq<u8>, a: u8, b: u8) -> bool {
    &&& d[0] == a || d[0] == b
    &&& d[1] == a || d[1] == b
    &&& d[2] == a || d[2] == b
    &&& face_count(d, a) > 0
    &&& face_count(d, b) > 0
}

/// The multiplier of a bet on total `t`.
pub open spec fn sum_multiplier(t: int) -> int {
    if t == 4 || t == 17 {
        62
    } else if t == 5 || t == 16 {
        31
    } else if t == 6 || t == 15 {
        18
    } else if t == 7 || t == 14 {
        12
    } else if t == 8 || t == 13 {
        8
    } else if t == 9 || t == 12 {
        7
    } else if t == 10 || t == 11 {
        6
    } else {
        0
    }
}

/// The stake multiplier that `bet` earns when the dice show `d`.
pub open spec fn sicbo_payout(bet: SicBoBet, d: Seq<u8>) -> int {
    match bet {
        SicBoBet::Small => if 4 <= dice_total(d) <= 10 { 1 } else { 0 },
        SicBoBet::Big => if 11 <= dice_total(d) <= 17 { 1 } else { 0 },
        SicBoBet::Double(n) => if has_pair_of(d, n) { 10 } else { 0 },
        SicBoBet::TripleAny => if is_triple(d) { 30 } else { 0 },
        SicBoBet::Triple(n) => if is_triple(d) && d[0] == n { 180 } else { 0 },
        SicBoBet::Sum(t) => if dice_total(d) == t { sum_multiplier(t as int) } else { 0 },
        SicBoBet::Comb(a, b) => if is_combination(d, a, b) { 6 } else { 0 },
        SicBoBet::Single(n) => face_count(d, n),
        SicBoBet::Unknown => 0,
    }
}

/// The stake multiplier that the bet named `bet` earns when the dice show `d`.
pub open spec fn sicbo_multiplier_of(bet: Seq<u8>, d: Seq<u8>) -> int {
    sicbo_payout(sicbo_bet_of(bet), d)
}

/// Tests whether `s` is `prefix` followed by a face digit.
fn read_face_after(s: &[u8], prefix: &[u8]) -> (r: bool)
    ensures
        r == face_after(s@, prefix@),
{
    s.len() > prefix.len() && s.len() - 1 == prefix.len() && has_prefix(s, prefix) && DIGIT_ZERO
        + 1 <= s[prefix.len()] && s[prefix.len()] <= DIGIT_ZERO + 6
}

/// Reads a bet identifier of the three-dice game; an identifier outside the
/// vocabulary reads as `Unknown`.
pub fn parse_sicbo_bet(bet: &str) -> (r: SicBoBet)
    ensures
        r == sicbo_bet_of(bet.spec_bytes()),
{
    let s = bet.as_bytes();
    if same_bytes(s, "small".as_bytes()) {
        SicBoBet::Small
    } else if same_bytes(s, "big".as_bytes()) {
        SicBoBet::Big
    } else if same_bytes(s, "triple_any".as_bytes()) {
        SicBoBet::TripleAny
    } else if read_face_after(s, "double_".as_bytes()) {
        SicBoBet::Double(s[s.len() - 1] - DIGIT_ZERO)
    } else if read_face_after(s, "triple_".as_bytes()) {
        SicBoBet::Triple(s[s.len() - 1] - DIGIT_ZERO)
    } else if read_face_after(s, "single_".as_bytes()) {
        SicBoBet::Single(s[s.len() - 1] - DIGIT_ZERO)
    } else if s.len() == 8 && has_prefix(s, "comb_".as_bytes()) && DIGIT_ZERO + 1 <= s[5] && s[5]
        <= DIGIT_ZERO + 6 && s[6] == UNDERSCORE && DIGIT_ZERO + 1 <= s[7] && s[7] <= DIGIT_ZERO + 6
        && s[5] < s[7] {
        SicBoBet::Comb(s[5] - DIGIT_ZERO, s[7] - DIGIT_ZERO)
    } else if s.len() == 5 && has_prefix(s, "sum_".as_bytes()) && DIGIT_ZERO + 4 <= s[4] && s[4]
        <= DIGIT_ZERO + 9 {
        SicBoBet::Sum(s[4] - DIGIT_ZERO)
    } else if s.len() == 6 && has_prefix(s, "sum_1".as_bytes()) && DIGIT_ZERO <= s[5] && s[5]
        <= DIGIT_ZERO + 7 {
        SicBoBet::Sum(10 + s[5] - DIGIT_ZERO)
    } else {
        SicBoBet::Unknown
    }
}

/// How many of the three faces show `n`.
fn count_faces(dices: &Vec<u8>, n: u8) -> (r: u32)
    requires
        dices@.len() == 3,
    ensures
        r == face_count(dices@, n),
{
    let mut total: u32 = 0;
    if dices[0] == n {
        total = total + 1;
    }
    if dices[1] == n {
        total = total + 1;
    }
    if dices[2] == n {
        total = total + 1;
    }
    total
}

/// The stake multiplier that `bet` earns when the dice show `dices`.
pub fn sicbo_multiplier(bet: SicBoBet, dices: &Vec<u8>) -> (r: u32)
    requires
        dices@.len() == 3,
    ensures
        r == sicbo_payout(bet, dices@),
{
    let total: u32 = dices[0] as u32 + dices[1] as u32 + dices[2] as u32;
    let triple = dices[0] == dices[1] && dices[1] == dices[2];
    match bet {
        SicBoBet::Small => if 4 <= total && total <= 10 { 1 } else { 0 },
        SicBoBet::Big => if 11 <= total && total <= 17 { 1 } else { 0 },
        SicBoBet::Double(n) => {
            if (dices[0] == n && dices[1] == n) || (dices[0] == n && dices[2] == n) || (dices[1]
                == n && dices[2] == n) {
                10
            } else {
                0
            }
        },
        SicBoBet::TripleAny => if triple { 30 } else { 0 },
        SicBoBet::Triple(n) => if triple && dices[0] == n { 180 } else { 0 },
        SicBoBet::Sum(t) => {
            if total != t as u32 {
                0
            } else if t == 4 || t == 17 {
                62
            } else if t == 5 || t == 16 {
                31
            } else if t == 6 || t == 15 {
                18
            } else if t == 7 || t == 14 {
                12
            } else if t == 8 || t == 13 {
                8
            } else if t == 9 || t == 12 {
                7
            } else if t == 10 || t == 11 {
                6
            } else {
                0
            }
        },
        SicBoBet::Comb(a, b) => {
            let only_a_b = (dices[0] == a || dices[0] == b) && (dices[1] == a || dices[1] == b) && (
            dices[2] == a || dices[2] == b);
            if only_a_b && count_faces(dices, a) > 0 && count_faces(dices, b) > 0 {
                6
            } else {
                0
            }
        },
        SicBoBet::Single(n) => count_faces(dices, n),
        SicBoBet::Unknown => 0,
    }
}

/// The stake multiplier that the bet named `bet` earns when the dice show `dices`.
pub fn check_point_sicbo(bet: &str, dices: &Vec<u8>) -> (r: u32)
    requires
        dices@.len() == 3,
    ensures
        r == sicbo_multiplier_of(bet.spec_bytes(), dices@),
{
    sicbo_multiplier(parse_sicbo_bet(bet), dices)
}

} // verus!
