//! Decimal rendering of the numeric fields that formatted dates show:
//! plain, two-digit-padded and four-digit-padded numbers.

use vstd::prelude::*;

verus! {

/// One decimal digit as its character.
pub open spec fn dec_digit(d: int) -> char {
    if d == 0 { '0' } else if d == 1 { '1' } else if d == 2 { '2' } else if d == 3 { '3' }
    else if d == 4 { '4' } else if d == 5 { '5' } else if d == 6 { '6' } else if d == 7 { '7' }
    else if d == 8 { '8' } else { '9' }
}

/// The decimal rendering of a nonnegative number, most significant digit
/// first, without leading zeros.
pub open spec fn dec_str(n: nat) -> Seq<char>
    decreases n,
{
    if n < 10 {
        seq![dec_digit(n as int)]
    } else {
        dec_str(n / 10).push(dec_digit((n % 10) as int))
    }
}

/// The decimal rendering of an integer, with a leading minus sign when
/// negative.
pub open spec fn dec_int(n: int) -> Seq<char> {
    if n < 0 {
        seq!['-'] + dec_str((-n) as nat)
    } else {
        dec_str(n as nat)
    }
}

/// A number zero-padded to at least two digits.
pub open spec fn pad2(n: nat) -> Seq<char> {
    if n < 10 {
        seq!['0', dec_digit(n as int)]
    } else {
        dec_str(n)
    }
}

/// An integer zero-padded to at least two characters, as a two-character
/// right-aligned zero fill leaves it: only one-digit nonnegative numbers
/// gain a leading zero.
pub open spec fn pad2_int(n: int) -> Seq<char> {
    if 0 <= n < 10 {
        seq!['0', dec_digit(n)]
    } else {
        dec_int(n)
    }
}

/// A number zero-padded to at least four digits.
pub open spec fn pad4(n: nat) -> Seq<char> {
    if n < 10 {
        seq!['0', '0', '0', dec_digit(n as int)]
    } else if n < 100 {
        seq!['0', '0'] + dec_str(n)
    } else if n < 1000 {
        seq!['0'] + dec_str(n)
    } else {
        dec_str(n)
    }
}

/// One decimal digit as a string.
fn digit_str(d: u64) -> (r: &'static str)
    requires
        d < 10,
    ensures
        r@ =~= seq![dec_digit(d as int)],
{
    let r: &'static str = match d {
        0 => "0", 1 => "1", 2 => "2", 3 => "3", 4 => "4",
        5 => "5", 6 => "6", 7 => "7", 8 => "8", _ => "9",
    };
    proof {
        reveal_strlit("0"); reveal_strlit("1"); reveal_strlit("2"); reveal_strlit("3");
        reveal_strlit("4"); reveal_strlit("5"); reveal_strlit("6"); reveal_strlit("7");
        reveal_strlit("8"); reveal_strlit("9");
    }
    r
}

/// The decimal rendering of a nonnegative number.
pub fn u64_string(n: u64) -> (r: String)
    ensures
        r@ == dec_str(n as nat),
    decreases n,
{
    if n < 10 {
        String::from_str(digit_str(n))
    } else {
        let head = u64_string(n / 10);
        let r = head.concat(digit_str(n % 10));
        proof {
            assert(r@ =~= dec_str(n as nat));
        }
        r
    }
}

/// The decimal rendering of a signed number.
pub fn i64_string(n: i64) -> (r: String)
    ensures
        r@ == dec_int(n as int),
{
    if n >= 0 {
        u64_string(n as u64)
    } else {
        let mag = (-(n as i128)) as u64;
        let head = String::from_str("-");
        let r = head.concat(u64_string(mag).as_str());
        proof {
            reveal_strlit("-");
            assert(r@ =~= dec_int(n as int));
        }
        r
    }
}

/// A number zero-padded to at least two digits.
pub fn pad2_u32(n: u32) -> (r: String)
    ensures
        r@ == pad2(n as nat),
{
    if n < 10 {
        let head = String::from_str("0");
        let r = head.concat(digit_str(n as u64));
        proof {
            reveal_strlit("0");
            assert(r@ =~= pad2(n as nat));
        }
        r
    } else {
        u64_string(n as u64)
    }
}

/// An integer zero-padded to at least two characters.
pub fn pad2_i64(n: i64) -> (r: String)
    ensures
        r@ == pad2_int(n as int),
{
    if 0 <= n && n < 10 {
        let r = pad2_u32(n as u32);
        proof {
            assert(r@ =~= pad2_int(n as int));
        }
        r
    } else {
        i64_string(n)
    }
}

/// A number zero-padded to at least four digits.
pub fn pad4_u32(n: u32) -> (r: String)
    ensures
        r@ == pad4(n as nat),
{
    if n < 10 {
        let head = String::from_str("000");
        let r = head.concat(digit_str(n as u64));
        proof {
            reveal_strlit("000");
            assert(r@ =~= pad4(n as nat));
        }
        r
    } else if n < 100 {
        let head = String::from_str("00");
        let r = head.concat(u64_string(n as u64).as_str());
        proof {
            reveal_strlit("00");
            assert(r@ =~= pad4(n as nat));
        }
        r
    } else if n < 1000 {
        let head = String::from_str("0");
        let r = head.concat(u64_string(n as u64).as_str());
        proof {
            reveal_strlit("0");
            assert(r@ =~= pad4(n as nat));
        }
        r
    } else {
        u64_string(n as u64)
    }
}

} // verus!
