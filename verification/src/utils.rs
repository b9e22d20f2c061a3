//! Small utilities: a human-readable byte-size formatter over binary units,
//! decimal formatting of integers, and the wall clock.

use vstd::prelude::*;

verus! {

/// The decimal digit character for a value below ten.
pub open spec fn dec_digit(n: int) -> char {
    if n == 0 {
        '0'
    } else if n == 1 {
        '1'
    } else if n == 2 {
        '2'
    } else if n == 3 {
        '3'
    } else if n == 4 {
        '4'
    } else if n == 5 {
        '5'
    } else if n == 6 {
        '6'
    } else if n == 7 {
        '7'
    } else if n == 8 {
        '8'
    } else {
        '9'
    }
}

/// The decimal representation of a non-negative integer, without sign.
pub open spec fn dec_str_of_nat(n: int) -> Seq<char>
    decreases n,
{
    if n <= 0 {
        seq!['0']
    } else if n < 10 {
        seq![dec_digit(n)]
    } else {
        dec_str_of_nat(n / 10).push(dec_digit(n % 10))
    }
}

/// The decimal representation of an integer, with a leading minus sign for
/// negative values.
pub open spec fn dec_str_of(n: int) -> Seq<char> {
    if n < 0 {
        seq!['-'] + dec_str_of_nat(-n)
    } else {
        dec_str_of_nat(n)
    }
}

/// A one-character string slice holding the decimal digit of `n`.
fn digit_str(n: u8) -> (r: &'static str)
    requires
        n < 10,
    ensures
        r@ =~= seq![dec_digit(n as int)],
{
    proof {
        reveal_strlit("0");
        reveal_strlit("1");
        reveal_strlit("2");
        reveal_strlit("3");
        reveal_strlit("4");
        reveal_strlit("5");
        reveal_strlit("6");
        reveal_strlit("7");
        reveal_strlit("8");
        reveal_strlit("9");
    }
    match n {
        0 => "0",
        1 => "1",
        2 => "2",
        3 => "3",
        4 => "4",
        5 => "5",
        6 => "6",
        7 => "7",
        8 => "8",
        _ => "9",
    }
}

/// Format a non-negative 128-bit value in decimal.
pub fn u128_to_string(n: u128) -> (r: String)
    ensures
        r@ == dec_str_of_nat(n as int),
{
    let mut digits: Vec<u8> = Vec::new();
    let mut m: u128 = n;
    // Collect the digits least-significant first.
    while m >= 10
        invariant
            m >= 0,
            forall|i: int| 0 <= i < digits@.len() ==> digits@[i] < 10,
            dec_str_of_nat(n as int) =~= dec_str_of_nat(m as int) + digits_rev(digits@),
        decreases m,
    {
        digits.push((m % 10) as u8);
        m = m / 10;
        proof {
            assert(dec_str_of_nat(n as int) =~= dec_str_of_nat(m as int) + digits_rev(digits@));
        }
    }
    let mut out = String::new();
    out.append(digit_str(m as u8));
    let mut i: usize = digits.len();
    while i > 0
        invariant
            i <= digits@.len(),
            forall|j: int| 0 <= j < digits@.len() ==> digits@[j] < 10,
            out@ =~= dec_str_of_nat(m as int) + digits_rev(digits@.skip(i as int)),
            dec_str_of_nat(n as int) =~= dec_str_of_nat(m as int) + digits_rev(digits@),
        decreases i,
    {
        i = i - 1;
        out.append(digit_str(digits[i]));
        proof {
            assert(digits_rev(digits@.skip(i as int)) =~= digits_rev(digits@.skip(i as int + 1)).push(
                dec_digit(digits@[i as int] as int),
            ));
        }
    }
    proof {
        assert(digits@.skip(0) =~= digits@);
    }
    out
}

/// The digit characters of a least-significant-first digit list, read back
/// most-significant first.
pub open spec fn digits_rev(ds: Seq<u8>) -> Seq<char> {
    Seq::new(ds.len(), |i: int| dec_digit(ds[ds.len() - 1 - i] as int))
}

/// Format a signed 64-bit value in decimal.
pub fn i64_to_string(n: i64) -> (r: String)
    ensures
        r@ == dec_str_of(n as int),
{
    if n < 0 {
        let mag: u128 = (-(n as i128)) as u128;
        let mut out = String::new();
        proof {
            reveal_strlit("-");
        }
        out.append("-");
        let rest = u128_to_string(mag);
        out.append(rest.as_str());
        out
    } else {
        u128_to_string(n as u128)
    }
}

/// Relies on `std::time::SystemTime::now`: seconds since the Unix epoch.
/// Of the clock nothing is promised but a non-negative reading.
#[verifier::external_body]
pub fn current_timestamp() -> (r: i64)
    ensures
        r >= 0,
{
    std::time::SystemTime::now()
        .duration_since(std::time::UNIX_EPOCH)
        .map(|d| d.as_secs() as i64)
        .unwrap_or(0)
}

} // verus!
