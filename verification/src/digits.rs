//! Base-10 reading and writing of unsigned integers, with exact
//! specifications: `dec_val` gives the value of a digit string, and
//! `dec_str` the canonical digit string of a value.

use vstd::prelude::*;

use crate::text::{all_digits, is_digit};

verus! {

/// Numeric value of one ASCII digit.
pub open spec fn digit_val(b: u8) -> nat
    recommends
        is_digit(b),
{
    (b - 48) as nat
}

/// Numeric value of a digit string, most significant digit first.
/// The empty string has value 0.
pub open spec fn dec_val(s: Seq<u8>) -> nat
    recommends
        all_digits(s),
    decreases s.len(),
{
    if s.len() == 0 {
        0
    } else {
        dec_val(s.drop_last()) * 10 + digit_val(s.last())
    }
}

/// The digit part of an unsigned-integer literal: everything after an
/// optional leading `'+'`, as Rust's own unsigned parser reads it.
pub open spec fn uint_digits(s: Seq<u8>) -> Seq<u8> {
    if s.len() > 0 && s[0] == 43 {
        s.skip(1)
    } else {
        s
    }
}

/// `s` is a well-formed unsigned-integer literal: at least one digit,
/// all digits after the optional sign.
pub open spec fn is_uint_str(s: Seq<u8>) -> bool {
    uint_digits(s).len() > 0 && all_digits(uint_digits(s))
}

/// Numeric value of a well-formed unsigned-integer literal.
pub open spec fn uint_val(s: Seq<u8>) -> nat
    recommends
        is_uint_str(s),
{
    dec_val(uint_digits(s))
}

/// The value of a digit string is at least the value of any of its
/// prefixes.
pub proof fn lemma_dec_val_prefix(s: Seq<u8>, i: int)
    requires
        0 <= i <= s.len(),
    ensures
        dec_val(s) >= dec_val(s.take(i)),
    decreases s.len() - i,
{
    if i < s.len() {
        assert(s.take(i + 1).drop_last() =~= s.take(i));
        assert(s.take(i + 1).last() == s[i]);
        assert(dec_val(s.take(i + 1)) == dec_val(s.take(i)) * 10 + digit_val(s[i]));
        assert(dec_val(s.take(i)) * 10 >= dec_val(s.take(i)));
        lemma_dec_val_prefix(s, i + 1);
    } else {
        assert(s.take(i) =~= s);
    }
}

/// Reads an unsigned integer as Rust's `u64` parser does: an optional
/// leading `'+'`, then one or more decimal digits, value at most
/// `u64::MAX`.  Returns `None` exactly on malformed or too-large input.
pub fn parse_u64(s: &[u8]) -> (r: Option<u64>)
    ensures
        match r {
            Some(v) => is_uint_str(s@) && uint_val(s@) == v,
            None => !is_uint_str(s@) || uint_val(s@) > u64::MAX,
        },
{
    let start: usize = if s.len() > 0 && s[0] == 43 {
        1
    } else {
        0
    };
    proof {
        assert(uint_digits(s@) =~= s@.skip(start as int));
    }
    if s.len() == start {
        return None;
    }
    let ghost d: Seq<u8> = uint_digits(s@);
    let mut acc: u64 = 0;
    let mut i: usize = start;
    while i < s.len()
        invariant
            start <= i <= s@.len(),
            start < s@.len(),
            d == uint_digits(s@),
            d =~= s@.skip(start as int),
            all_digits(d.take(i - start)),
            acc == dec_val(d.take(i - start)),
        decreases s@.len() - i,
    {
        let b = s[i];
        proof {
            assert(d[i - start] == s@[i as int]);
        }
        if b < 48 || b > 57 {
            proof {
                assert(!is_digit(d[i - start]));
            }
            return None;
        }
        let dv: u64 = (b - 48) as u64;
        proof {
            assert(d.take(i - start + 1).drop_last() =~= d.take(i - start));
            assert(d.take(i - start + 1).last() == d[i - start]);
            assert(dec_val(d.take(i - start + 1)) == acc * 10 + dv);
        }
        if acc > (u64::MAX - dv) / 10 {
            proof {
                assert(acc * 10 + dv > u64::MAX) by {
                    let m: int = u64::MAX - dv;
                    assert(m / 10 * 10 + m % 10 == m) by (nonlinear_arith);
                    assert(acc >= m / 10 + 1);
                    assert(acc * 10 >= (m / 10 + 1) * 10) by (nonlinear_arith)
                        requires
                            acc >= m / 10 + 1,
                    ;
                }
                lemma_dec_val_prefix(d, i - start + 1);
            }
            return None;
        }
        acc = acc * 10 + dv;
        i = i + 1;
    }
    proof {
        assert(d.take(i - start) =~= d);
    }
    Some(acc)
}

/// The canonical base-10 digit string of a value: no sign, no leading
/// zero (except for the value 0 itself).
pub open spec fn dec_str(v: nat) -> Seq<u8>
    decreases v,
{
    if v < 10 {
        seq![(48 + v) as u8]
    } else {
        dec_str(v / 10).push((48 + v % 10) as u8)
    }
}

/// A canonical digit string is nonempty and all digits.
pub proof fn lemma_dec_str_digits(v: nat)
    ensures
        dec_str(v).len() >= 1,
        all_digits(dec_str(v)),
        is_digit(dec_str(v)[0]),
    decreases v,
{
    if v < 10 {
    } else {
        lemma_dec_str_digits(v / 10);
        assert forall|i: int| 0 <= i < dec_str(v).len() implies is_digit(dec_str(v)[i]) by {
            if i < dec_str(v / 10).len() {
                assert(dec_str(v)[i] == dec_str(v / 10)[i]);
            } else {
                assert(dec_str(v)[i] == (48 + v % 10) as u8);
            }
        }
    }
}

/// Writing a value and reading it back gives the value again.
pub proof fn lemma_dec_val_dec_str(v: nat)
    ensures
        dec_val(dec_str(v)) == v,
    decreases v,
{
    if v < 10 {
        let s = dec_str(v);
        assert(s == seq![(48 + v) as u8]);
        assert(s.drop_last() =~= Seq::<u8>::empty());
        assert(s.last() == (48 + v) as u8);
        assert(dec_val(s) == dec_val(s.drop_last()) * 10 + digit_val(s.last()));
        assert(dec_val(s.drop_last()) == 0);
        assert(digit_val((48 + v) as u8) == v);
    } else {
        lemma_dec_val_dec_str(v / 10);
        assert(dec_str(v).drop_last() =~= dec_str(v / 10));
        assert(dec_str(v).last() == (48 + v % 10) as u8);
        assert(digit_val((48 + v % 10) as u8) == v % 10);
        assert(dec_val(dec_str(v)) == v / 10 * 10 + v % 10);
        assert(v / 10 * 10 + v % 10 == v) by (nonlinear_arith);
    }
}

/// A canonical digit string is a well-formed unsigned-integer literal
/// that reads back as the value it was written from.
pub proof fn lemma_dec_str_uint(v: nat)
    ensures
        is_uint_str(dec_str(v)),
        uint_val(dec_str(v)) == v,
{
    lemma_dec_str_digits(v);
    lemma_dec_val_dec_str(v);
    assert(dec_str(v)[0] != 43);
    assert(uint_digits(dec_str(v)) == dec_str(v));
}

/// Appends the canonical digit string of `v` to `out`.
fn push_dec(v: u64, out: &mut Vec<u8>)
    ensures
        final(out)@ == old(out)@ + dec_str(v as nat),
    decreases v,
{
    if v < 10 {
        out.push((48 + v) as u8);
        proof {
            assert(out@ =~= old(out)@ + dec_str(v as nat));
        }
    } else {
        push_dec(v / 10, out);
        out.push((48 + (v % 10)) as u8);
        proof {
            assert(out@ =~= old(out)@ + dec_str(v as nat));
        }
    }
}

/// The canonical base-10 rendering of a `u64`.
pub fn u64_to_dec(v: u64) -> (r: Vec<u8>)
    ensures
        r@ == dec_str(v as nat),
{
    let mut out: Vec<u8> = Vec::new();
    push_dec(v, &mut out);
    proof {
        assert(out@ =~= dec_str(v as nat));
    }
    out
}

} // verus!
