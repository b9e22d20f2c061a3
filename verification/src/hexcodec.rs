//! Lowercase hexadecimal encoding and decoding of byte strings, verified
//! against a sequence-level model. Object hashes, salts and nonces travel
//! through the metadata index in this textual form.

use vstd::prelude::*;

verus! {

/// The lowercase hex digit for a nibble value.
pub open spec fn hex_digit(n: int) -> char {
    if n == 0 {
        '0'
    } else if n == 1 {
        '1'
    } else if n == 2 {
        '2'
    } else if n == 3 {
        '3'
    } else if n == 4 {
        '4'
    } else if n == 5 {
        '5'
    } else if n == 6 {
        '6'
    } else if n == 7 {
        '7'
    } else if n == 8 {
        '8'
    } else if n == 9 {
        '9'
    } else if n == 10 {
        'a'
    } else if n == 11 {
        'b'
    } else if n == 12 {
        'c'
    } else if n == 13 {
        'd'
    } else if n == 14 {
        'e'
    } else {
        'f'
    }
}

/// Hex encoding of a byte string: two lowercase digits per byte.
pub open spec fn hex_of(bytes: Seq<u8>) -> Seq<char> {
    Seq::new(
        bytes.len() * 2,
        |i: int|
            if i % 2 == 0 {
                hex_digit(bytes[i / 2] as int / 16)
            } else {
                hex_digit(bytes[i / 2] as int % 16)
            },
    )
}

/// The numeric value of a hex digit, or -1 for any other character.
/// Uppercase digits are accepted, as the decoder of the original wire
/// format tolerates them.
pub open spec fn hex_val(c: char) -> int {
    let u = c as int;
    if 48 <= u && u <= 57 {
        u - 48
    } else if 97 <= u && u <= 102 {
        u - 97 + 10
    } else if 65 <= u && u <= 70 {
        u - 65 + 10
    } else {
        -1
    }
}

/// Every character of the string is a hex digit.
pub open spec fn is_hex_seq(s: Seq<char>) -> bool {
    forall|i: int| 0 <= i < s.len() ==> hex_val(s[i]) >= 0
}

/// The bytes denoted by an even-length string of hex digits.
pub open spec fn hex_decoded(s: Seq<char>) -> Seq<u8> {
    Seq::new(s.len() / 2, |i: int| (hex_val(s[2 * i]) * 16 + hex_val(s[2 * i + 1])) as u8)
}

/// A one-character string slice holding the lowercase hex digit of `n`.
fn nibble_str(n: u8) -> (r: &'static str)
    requires
        n < 16,
    ensures
        r@ =~= seq![hex_digit(n as int)],
{
    proof {
        reveal_strlit("0");
        reveal_strlit("1");
        reveal_strlit("2");
        reveal_strlit("3");
        reveal_strlit("4");
        reveal_strlit("5");
        reveal_strlit("6");
        reveal_strlit("7");
        reveal_strlit("8");
        reveal_strlit("9");
        reveal_strlit("a");
        reveal_strlit("b");
        reveal_strlit("c");
        reveal_strlit("d");
        reveal_strlit("e");
        reveal_strlit("f");
    }
    match n {
        0 => "0",
        1 => "1",
        2 => "2",
        3 => "3",
        4 => "4",
        5 => "5",
        6 => "6",
        7 => "7",
        8 => "8",
        9 => "9",
        10 => "a",
        11 => "b",
        12 => "c",
        13 => "d",
        14 => "e",
        _ => "f",
    }
}

/// Encode a byte string as lowercase hex, two digits per byte.
pub fn hex_encode(bytes: &[u8]) -> (r: String)
    ensures
        r@ == hex_of(bytes@),
{
    let mut out = String::new();
    let mut i: usize = 0;
    while i < bytes.len()
        invariant
            i <= bytes@.len(),
            out@ =~= hex_of(bytes@.take(i as int)),
        decreases bytes@.len() - i,
    {
        let b = bytes[i];
        out.append(nibble_str(b / 16));
        out.append(nibble_str(b % 16));
        i = i + 1;
        proof {
            assert(out@ =~= hex_of(bytes@.take(i as int)));
        }
    }
    proof {
        assert(bytes@.take(bytes@.len() as int) =~= bytes@);
    }
    out
}

/// The numeric value of a hex digit character, or `None`.
fn hex_val_exec(c: char) -> (r: Option<u8>)
    ensures
        r is Some <==> hex_val(c) >= 0,
        r is Some ==> r->0 == hex_val(c),
{
    let u = c as u32;
    if 48 <= u && u <= 57 {
        Some((u - 48) as u8)
    } else if 97 <= u && u <= 102 {
        Some((u - 97 + 10) as u8)
    } else if 65 <= u && u <= 70 {
        Some((u - 65 + 10) as u8)
    } else {
        None
    }
}

/// Decode a string of hex digits into bytes. Returns `None` when the length
/// is odd or any character is not a hex digit.
pub fn hex_decode(s: &str) -> (r: Option<Vec<u8>>)
    ensures
        r is Some <==> (s@.len() % 2 == 0 && is_hex_seq(s@)),
        r is Some ==> r->0@ == hex_decoded(s@),
{
    let n = s.unicode_len();
    if n % 2 != 0 {
        return None;
    }
    let mut out: Vec<u8> = Vec::new();
    let mut i: usize = 0;
    while i < n
        invariant
            n == s@.len(),
            n % 2 == 0,
            i % 2 == 0,
            i <= n,
            forall|j: int| 0 <= j < i ==> hex_val(s@[j]) >= 0,
            out@ =~= hex_decoded(s@.take(i as int)),
        decreases n - i,
    {
        let c1 = s.get_char(i);
        let c2 = s.get_char(i + 1);
        let v1 = match hex_val_exec(c1) {
            Some(v) => v,
            None => {
                return None;
            },
        };
        let v2 = match hex_val_exec(c2) {
            Some(v) => v,
            None => {
                return None;
            },
        };
        out.push(v1 * 16 + v2);
        i = i + 2;
        proof {
            assert(out@ =~= hex_decoded(s@.take(i as int)));
        }
    }
    proof {
        assert(s@.take(n as int) =~= s@);
    }
    Some(out)
}

/// Hex encoding always yields hex digits, so a round trip through the
/// decoder is possible.
pub proof fn lemma_hex_of_is_hex_seq(bytes: Seq<u8>)
    ensures
        is_hex_seq(hex_of(bytes)),
        hex_of(bytes).len() == bytes.len() * 2,
{
    assert forall|i: int| 0 <= i < hex_of(bytes).len() implies hex_val(hex_of(bytes)[i]) >= 0 by {
        if i % 2 == 0 {
            assert(hex_of(bytes)[i] == hex_digit(bytes[i / 2] as int / 16));
        } else {
            assert(hex_of(bytes)[i] == hex_digit(bytes[i / 2] as int % 16));
        }
    }
}

/// Decoding inverts encoding: the bytes written as hex read back unchanged.
pub proof fn lemma_hex_round_trip(bytes: Seq<u8>)
    ensures
        hex_decoded(hex_of(bytes)) =~= bytes,
{
    let enc = hex_of(bytes);
    assert forall|i: int| 0 <= i < bytes.len() implies hex_decoded(enc)[i] == bytes[i] by {
        assert(enc[2 * i] == hex_digit(bytes[i] as int / 16));
        assert(enc[2 * i + 1] == hex_digit(bytes[i] as int % 16));
        assert(hex_val(hex_digit(bytes[i] as int / 16)) == bytes[i] as int / 16);
        assert(hex_val(hex_digit(bytes[i] as int % 16)) == bytes[i] as int % 16);
    }
}

} // verus!
