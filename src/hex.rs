//! Hexadecimal text of byte strings.
use crate::name::hex_digit;
use vstd::prelude::*;
use vstd::string::StringSliceAdditionalSpecFns;

verus! {

/// Whether `c` is a hexadecimal digit (either case).
pub open spec fn is_hex_digit(c: u8) -> bool {
    (48 <= c <= 57) || (97 <= c <= 102) || (65 <= c <= 70)
}

/// The value of hexadecimal digit `c`.
pub open spec fn hex_value(c: u8) -> u8 {
    if 48 <= c <= 57 {
        (c - 48) as u8
    } else if 97 <= c <= 102 {
        (c - 87) as u8
    } else {
        (c - 55) as u8
    }
}

/// The bytes that the pairs of hexadecimal digits of `s` stand for.
pub open spec fn hex_bytes(s: Seq<u8>) -> Seq<u8> {
    Seq::new(s.len() / 2, |i: int| (hex_value(s[2 * i]) * 16 + hex_value(s[2 * i + 1])) as u8)
}

/// The lowercase hexadecimal text of `b`, two digits per byte.
pub open spec fn hex_text(b: Seq<u8>) -> Seq<u8> {
    Seq::new(2 * b.len(), |i: int| if i % 2 == 0 { hex_digit(b[i / 2] / 16) } else { hex_digit(b[i / 2] % 16) })
}

fn digit_value(c: u8) -> (r: u8)
    requires
        is_hex_digit(c),
    ensures
        r == hex_value(c),
        r < 16,
{
    if 48 <= c && c <= 57 {
        c - 48
    } else if 97 <= c && c <= 102 {
        c - 87
    } else {
        c - 55
    }
}

/// Parses a string of hexadecimal digit pairs into the bytes they stand for.
pub fn parse(s: &str) -> (r: Vec<u8>)
    requires
        s.spec_bytes().len() % 2 == 0,
        forall|i: int| 0 <= i < s.spec_bytes().len() ==> is_hex_digit(#[trigger] s.spec_bytes()[i]),
    ensures
        r@ == hex_bytes(s.spec_bytes()),
{
    let b = s.as_bytes();
    let mut out: Vec<u8> = Vec::new();
    let mut i: usize = 0;
    while i + 1 < b.len()
        invariant
            b@ == s.spec_bytes(),
            b@.len() % 2 == 0,
            i % 2 == 0,
            i <= b@.len(),
            forall|k: int| 0 <= k < b@.len() ==> is_hex_digit(#[trigger] b@[k]),
            out@.len() == i / 2,
            forall|k: int| 0 <= k < out@.len() ==> out@[k] == hex_bytes(b@)[k],
        decreases b@.len() - i,
    {
        let hi = digit_value(b[i]);
        let lo = digit_value(b[i + 1]);
        out.push(hi * 16 + lo);
        i = i + 2;
    }
    proof {
        assert(out@ =~= hex_bytes(b@));
    }
    out
}

/// The lowercase hexadecimal text of `b`, two digits per byte.
pub fn encode(b: &[u8]) -> (r: String)
    ensures
        r@ == hex_text(b@).map_values(|c: u8| c as char),
{
    let mut out: Vec<u8> = Vec::new();
    let mut i: usize = 0;
    while i < b.len()
        invariant
            i <= b@.len(),
            out@.len() == 2 * i,
            forall|k: int| 0 <= k < out@.len() ==> out@[k] == hex_text(b@)[k] && out@[k] < 128,
        decreases b@.len() - i,
    {
        let hi = b[i] / 16;
        let lo = b[i] % 16;
        out.push(if hi < 10 { 48 + hi } else { 87 + hi });
        out.push(if lo < 10 { 48 + lo } else { 87 + lo });
        i = i + 1;
    }
    proof {
        assert(out@ =~= hex_text(b@));
    }
    crate::name::ascii_string(out)
}

} // verus!
