//! Hex decoding of the configured AES key.
//!
//! The key reaches the process as 64 hex characters; decoding them is plain
//! enough to state and prove directly.

use vstd::prelude::*;

verus! {

/// The value of an ASCII hex digit; 16 for any other byte.
pub open spec fn hex_digit_value(c: u8) -> int {
    if 48 <= c <= 57 {
        c - 48
    } else if 97 <= c <= 102 {
        c - 87
    } else if 65 <= c <= 70 {
        c - 55
    } else {
        16
    }
}

/// Whether `c` is an ASCII hex digit.
pub open spec fn is_hex_digit(c: u8) -> bool {
    hex_digit_value(c) < 16
}

/// The bytes an even-length hex string decodes to.
pub open spec fn hex_decoded(s: Seq<u8>) -> Seq<u8> {
    Seq::new(
        (s.len() / 2) as nat,
        |i: int| (hex_digit_value(s[2 * i]) * 16 + hex_digit_value(s[2 * i + 1])) as u8,
    )
}

/// The value of one hex digit byte.
fn hex_digit(c: u8) -> (r: u8)
    ensures
        r == hex_digit_value(c),
{
    if c >= 48 && c <= 57 {
        c - 48
    } else if c >= 97 && c <= 102 {
        c - 87
    } else if c >= 65 && c <= 70 {
        c - 55
    } else {
        16
    }
}

/// Decode an ASCII hex string: `None` exactly when its length is odd or a
/// byte is no hex digit.
pub fn decode_hex(s: &[u8]) -> (r: Option<Vec<u8>>)
    ensures
        r is Some <==> s@.len() % 2 == 0 && (forall|i: int| 0 <= i < s@.len() ==> is_hex_digit(
            s@[i],
        )),
        r is Some ==> r->Some_0@ == hex_decoded(s@),
{
    if s.len() % 2 != 0 {
        return None;
    }
    let mut out: Vec<u8> = Vec::new();
    let mut i: usize = 0;
    while i < s.len()
        invariant
            s@.len() % 2 == 0,
            i % 2 == 0,
            i <= s@.len(),
            forall|j: int| 0 <= j < i ==> is_hex_digit(s@[j]),
            out@.len() == i / 2,
            forall|k: int|
                0 <= k < i / 2 ==> out@[k] == (hex_digit_value(s@[2 * k]) * 16 + hex_digit_value(
                    s@[2 * k + 1],
                )) as u8,
        decreases s@.len() - i,
    {
        let hi = hex_digit(s[i]);
        if hi >= 16 {
            return None;
        }
        let lo = hex_digit(s[i + 1]);
        if lo >= 16 {
            return None;
        }
        out.push(hi * 16 + lo);
        i += 2;
    }
    proof {
        assert(out@ =~= hex_decoded(s@));
    }
    Some(out)
}

} // verus!
