use vstd::prelude::*;
use vstd::string::StringSliceAdditionalSpecFns;

verus! {

pub open spec fn is_hex_digit(c: u8) -> bool {
    (48 <= c <= 57) || (65 <= c <= 70) || (97 <= c <= 102)
}

/// The value of one hexadecimal digit, either case.
pub open spec fn hex_value(c: u8) -> int {
    if 65 <= c <= 70 {
        c - 55
    } else if 97 <= c <= 102 {
        c - 87
    } else {
        c - 48
    }
}

/// Every byte that takes part in a pair is a hexadecimal digit; an odd last
/// byte is not read.
pub open spec fn hex_pairs(b: Seq<u8>) -> bool {
    forall|i: int| 0 <= i < (b.len() / 2) * 2 ==> is_hex_digit(#[trigger] b[i])
}

/// One byte for each pair of hexadecimal digits, the first digit the high one.
pub open spec fn hex_decoding(b: Seq<u8>) -> Seq<u8> {
    Seq::new(b.len() / 2, |i: int| (hex_value(b[2 * i]) * 16 + hex_value(b[2 * i + 1])) as u8)
}

/// Decodes pairs of hexadecimal digits into bytes.
pub fn decode(hex: &str) -> (r: Vec<u8>)
    requires
        hex_pairs(hex.spec_bytes()),
    ensures
        r@ == hex_decoding(hex.spec_bytes()),
{
    let b = hex.as_bytes();
    let n = b.len() / 2;
    assert(b.len() == b@.len());
    let mut out: Vec<u8> = Vec::new();
    let mut i: usize = 0;
    while i < n
        invariant
            b@ == hex.spec_bytes(),
            hex_pairs(b@),
            n == b@.len() / 2,
            n == b.len() / 2,
            0 <= i <= n,
            out@ == hex_decoding(b@).take(i as int),
        decreases n - i,
    {
        assert(2 * i + 1 < b.len()) by (nonlinear_arith)
            requires
                i < n,
                n == b.len() / 2,
        ;
        assert(2 * i + 1 < (b@.len() / 2) * 2) by (nonlinear_arith)
            requires
                i < n,
                n == b@.len() / 2,
        ;
        assert(is_hex_digit(b@[2 * i as int]));
        assert(is_hex_digit(b@[2 * i + 1]));
        let hi = val(b[2 * i]);
        let lo = val(b[2 * i + 1]);
        out.push(hi * 16 + lo);
        proof {
            assert(out@ =~= hex_decoding(b@).take(i + 1));
        }
        i = i + 1;
    }
    proof {
        assert(hex_decoding(b@).take(n as int) =~= hex_decoding(b@));
    }
    out
}

/// The value of one hexadecimal digit.
fn val(c: u8) -> (r: u8)
    requires
        is_hex_digit(c),
    ensures
        r as int == hex_value(c),
        r < 16,
{
    if 65 <= c && c <= 70 {
        c - 65 + 10
    } else if 97 <= c && c <= 102 {
        c - 97 + 10
    } else {
        c - 48
    }
}

} // verus!
