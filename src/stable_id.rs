//! Stable workspace ids: random 25-bit numbers written in lowercase hexadecimal.
use vstd::prelude::*;

verus! {

/// Ids are drawn below this bound.
pub const ID_BOUND: u32 = 33554432;

/// The lowercase hexadecimal digit of `d`.
pub open spec fn hex_digit(d: nat) -> char {
    if d < 10 {
        ((d + 48) as u8) as char
    } else {
        ((d + 87) as u8) as char
    }
}

/// `n` in lowercase hexadecimal, without leading zeros (`0` for zero).
pub open spec fn hex_spec(n: nat) -> Seq<char>
    decreases n,
{
    if n < 16 {
        seq![hex_digit(n)]
    } else {
        hex_spec(n / 16) + seq![hex_digit(n % 16)]
    }
}

fn digit_str(d: u32) -> (r: &'static str)
    requires
        d < 16,
    ensures
        r@ == seq![hex_digit(d as nat)],
{
    proof {
        reveal_strlit("0");
        reveal_strlit("1");
        reveal_strlit("2");
        reveal_strlit("3");
        reveal_strlit("4");
        reveal_strlit("5");
        reveal_strlit("6");
        reveal_strlit("7");
        reveal_strlit("8");
        reveal_strlit("9");
        reveal_strlit("a");
        reveal_strlit("b");
        reveal_strlit("c");
        reveal_strlit("d");
        reveal_strlit("e");
        reveal_strlit("f");
    }
    match d {
        0 => "0",
        1 => "1",
        2 => "2",
        3 => "3",
        4 => "4",
        5 => "5",
        6 => "6",
        7 => "7",
        8 => "8",
        9 => "9",
        10 => "a",
        11 => "b",
        12 => "c",
        13 => "d",
        14 => "e",
        _ => "f",
    }
}

/// Writes `n` in lowercase hexadecimal.
pub fn hex_string(n: u32) -> (r: String)
    ensures
        r@ == hex_spec(n as nat),
    decreases n,
{
    if n < 16 {
        let mut s = String::new();
        s.append(digit_str(n));
        assert(s@ =~= hex_spec(n as nat));
        s
    } else {
        let mut s = hex_string(n / 16);
        s.append(digit_str(n % 16));
        s
    }
}

/// Relies on `rand::random_range`: a number drawn from `0..ID_BOUND`, bound excluded.
#[verifier::external_body]
fn draw_below_bound() -> (r: u32)
    ensures
        r < ID_BOUND,
{
    rand::random_range(0..ID_BOUND)
}

/// A fresh random id: some number below `ID_BOUND` in lowercase hexadecimal. Callers compare
/// it with the ids in use to keep ids unique.
pub fn random_id() -> (r: String)
    ensures
        exists|n: nat| n < ID_BOUND && r@ == hex_spec(n),
{
    let n = draw_below_bound();
    hex_string(n)
}

} // verus!
