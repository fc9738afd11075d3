use vstd::prelude::*;

use crate::util::text::{lossy_string, text_of};

verus! {

/// ASCII decimal digits of `n`, most significant first, without leading zeros.
pub open spec fn dec_digits(n: nat) -> Seq<u8>
    decreases n,
{
    if n < 10 {
        seq![(48 + n) as u8]
    } else {
        dec_digits(n / 10).push((48 + n % 10) as u8)
    }
}

pub open spec fn is_digit(b: u8) -> bool {
    48 <= b <= 57
}

pub open spec fn all_digits(s: Seq<u8>) -> bool {
    s.len() > 0 && forall|k: int| 0 <= k < s.len() ==> is_digit(#[trigger] s[k])
}

/// The number that a sequence of ASCII digits spells.
pub open spec fn digits_value(s: Seq<u8>) -> nat
    decreases s.len(),
{
    if s.len() == 0 {
        0
    } else {
        digits_value(s.drop_last()) * 10 + (s.last() - 48) as nat
    }
}

/// The number that `s` spells, where it is digits only and spells one up to
/// `bound`; else zero.
pub open spec fn digits_or_zero(s: Seq<u8>, bound: nat) -> nat {
    if all_digits(s) && digits_value(s) <= bound {
        digits_value(s)
    } else {
        0
    }
}

/// A decimal field read permissively: an optional `+` and the digits of a
/// number up to `bound`; anything else counts as zero.
pub open spec fn permissive_value(s: Seq<u8>, bound: nat) -> nat {
    if s.len() > 0 && s[0] == 43u8 {
        digits_or_zero(s.drop_first(), bound)
    } else {
        digits_or_zero(s, bound)
    }
}

pub proof fn lemma_dec_digits(n: nat)
    ensures
        all_digits(dec_digits(n)),
        digits_value(dec_digits(n)) == n,
        dec_digits(n).len() >= 1,
    decreases n,
{
    if n < 10 {
        let d = dec_digits(n);
        assert(d.drop_last() == Seq::<u8>::empty());
        assert(d.last() as int == 48 + n);
        assert(digits_value(d) == digits_value(d.drop_last()) * 10 + (d.last() - 48) as nat);
    } else {
        lemma_dec_digits(n / 10);
        let d = dec_digits(n);
        assert(d.drop_last() == dec_digits(n / 10));
        assert(d.last() as int == 48 + n % 10);
        assert(digits_value(d) == digits_value(d.drop_last()) * 10 + (d.last() - 48) as nat);
        assert((n / 10) * 10 + n % 10 == n) by (nonlinear_arith);
        assert forall|k: int| 0 <= k < d.len() implies is_digit(#[trigger] d[k]) by {
            if k < d.len() - 1 {
                assert(d[k] == dec_digits(n / 10)[k]);
            }
        }
    }
}

pub proof fn lemma_prefix_value_le(s: Seq<u8>, j: int)
    requires
        all_digits(s),
        0 <= j <= s.len(),
    ensures
        digits_value(s.subrange(0, j)) <= digits_value(s),
    decreases s.len(),
{
    if j < s.len() {
        let t = s.drop_last();
        assert(t.subrange(0, j) == s.subrange(0, j));
        if t.len() > 0 {
            assert forall|k: int| 0 <= k < t.len() implies is_digit(#[trigger] t[k]) by {
                assert(t[k] == s[k]);
            }
            lemma_prefix_value_le(t, j);
        } else {
            assert(s.subrange(0, j).len() == 0);
        }
        assert(is_digit(s[s.len() - 1]));
    } else {
        assert(s.subrange(0, j) == s);
    }
}

/// Writes the decimal digits of `n` after what `out` holds.
pub fn push_decimal(out: &mut Vec<u8>, n: u64)
    ensures
        final(out)@ == old(out)@ + dec_digits(n as nat),
    decreases n,
{
    if n < 10 {
        out.push((48 + n) as u8);
    } else {
        push_decimal(out, n / 10);
        out.push((48 + n % 10) as u8);
    }
}

/// The decimal text of `n`.
pub open spec fn decimal_text(n: nat) -> Seq<char> {
    text_of(dec_digits(n))
}

/// The decimal text of `n`, as a string.
pub fn decimal_string(n: u64) -> (r: String)
    ensures
        r@ == decimal_text(n as nat),
{
    let mut digits: Vec<u8> = Vec::new();
    push_decimal(&mut digits, n);
    proof {
        assert(digits@ =~= dec_digits(n as nat));
    }
    lossy_string(digits.as_slice())
}

/// Reads `s` as a decimal number, with an optional leading `+`, no larger than
/// `bound`; anything else reads as zero.
pub fn parse_permissive(s: &[u8], bound: u64) -> (r: u64)
    ensures
        r as nat == permissive_value(s@, bound as nat),
{
    if s.len() > 0 && s[0] == 43u8 {
        let rest = &s[1..s.len()];
        proof {
            assert(rest@ =~= s@.drop_first());
        }
        parse_digits(rest, bound)
    } else {
        parse_digits(s, bound)
    }
}

/// Reads `s` as the digits of a number no larger than `bound`; anything else
/// reads as zero.
fn parse_digits(s: &[u8], bound: u64) -> (r: u64)
    ensures
        r as nat == digits_or_zero(s@, bound as nat),
{
    let mut v: u64 = 0;
    let mut i: usize = 0;
    if s.len() == 0 {
        return 0;
    }
    while i < s.len()
        invariant
            0 <= i <= s.len(),
            all_digits(s@.subrange(0, i as int)) || i == 0,
            v as nat == digits_value(s@.subrange(0, i as int)),
            v <= bound,
        decreases s.len() - i,
    {
        let b = s[i];
        if b < 48 || b > 57 {
            proof {
                assert(!is_digit(s@[i as int]));
                assert(!all_digits(s@));
            }
            return 0;
        }
        let d = (b - 48) as u64;
        if d > bound || v > (bound - d) / 10 {
            proof {
                let p = s@.subrange(0, i as int + 1);
                assert(p.drop_last() == s@.subrange(0, i as int));
                assert(digits_value(p) == v * 10 + d);
                assert(v * 10 + d > bound) by (nonlinear_arith)
                    requires d > bound || v > (bound - d) / 10, d <= 9;
                if all_digits(s@) {
                    lemma_prefix_value_le(s@, i as int + 1);
                }
            }
            return 0;
        }
        proof {
            let p = s@.subrange(0, i as int + 1);
            assert(p.drop_last() == s@.subrange(0, i as int));
            assert(v * 10 + d <= bound) by (nonlinear_arith)
                requires v <= (bound - d) / 10, d <= bound;
            assert forall|k: int| 0 <= k < p.len() implies is_digit(#[trigger] p[k]) by {
                if k < i {
                    assert(p[k] == s@.subrange(0, i as int)[k]);
                }
            }
        }
        v = v * 10 + d;
        i = i + 1;
    }
    proof {
        assert(s@.subrange(0, s@.len() as int) == s@);
    }
    v
}

} // verus!
