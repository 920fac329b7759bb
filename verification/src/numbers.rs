//! Exact IEEE-754 `f64` bit patterns of integers.
//!
//! Float cells are held as their bit patterns. Counts that the transformers
//! produce as floats are integers of magnitude at most 2^53, which binary64
//! represents exactly; this module computes their bit patterns.

use vstd::prelude::*;
use vstd::arithmetic::power2::{pow2, lemma_pow2_unfold, lemma2_to64, lemma2_to64_rest, lemma_pow2_strictly_increases};

verus! {

/// `floor(log2(m))` for `m >= 1` (and 0 for `m <= 1`).
pub open spec fn log2_floor(m: nat) -> nat
    decreases m,
{
    if m < 2 {
        0
    } else {
        1 + log2_floor(m / 2)
    }
}

/// 2^53: every integer of smaller magnitude is exactly an `f64` with a
/// binary exponent below 53.
pub open spec fn exact_limit() -> int {
    pow2(53) as int
}

/// The IEEE-754 binary64 bit pattern of the integer `v`, for `|v| < 2^53`:
/// the sign bit, the biased exponent `floor(log2 |v|) + 1023`, and the bits
/// of `|v|` below its leading one, left-aligned in the 52-bit fraction.
pub open spec fn f64_bits_of_int(v: int) -> int {
    if v == 0 {
        0
    } else {
        let m = if v < 0 { -v } else { v };
        let e = log2_floor(m as nat);
        (if v < 0 { pow2(63) as int } else { 0 }) + (e + 1023) * pow2(52) + (m - pow2(e)) * pow2((52 - e) as nat)
    }
}

/// `log2_floor(m)` is the `e` with `2^e <= m < 2^(e+1)`.
pub proof fn lemma_log2_floor(m: nat, e: nat)
    requires
        pow2(e) <= m < pow2(e + 1),
    ensures
        log2_floor(m) == e,
    decreases e,
{
    lemma_pow2_unfold(e + 1);
    if e == 0 {
        lemma2_to64();
    } else {
        lemma_pow2_unfold(e);
        lemma_log2_floor(m / 2, (e - 1) as nat);
    }
}

/// The `f64` bit pattern of `v` (as `(v as f64).to_bits()` gives it).
pub fn f64_bits_from_int(v: i64) -> (r: u64)
    requires
        -exact_limit() < v < exact_limit(),
    ensures
        r == f64_bits_of_int(v as int),
{
    if v == 0 {
        return 0;
    }
    proof {
        lemma2_to64();
        lemma2_to64_rest();
    }
    let m: u64 = if v < 0 { (-v) as u64 } else { v as u64 };
    let mut p: u64 = 1;
    let mut e: u64 = 0;
    while m >= 2 * p
        invariant
            1 <= m < pow2(53),
            pow2(53) == 0x20_0000_0000_0000,
            1 <= p,
            p == pow2(e as nat),
            p <= m,
            e <= 52,
        decreases m - p,
    {
        proof {
            lemma_pow2_unfold((e + 1) as nat);
            if e + 1 > 52 {
                lemma_pow2_strictly_increases(52, (e + 1) as nat);
                if e + 1 > 53 {
                    lemma_pow2_strictly_increases(53, (e + 1) as nat);
                }
            }
        }
        p = 2 * p;
        e = e + 1;
    }
    proof {
        lemma_pow2_unfold((e + 1) as nat);
        lemma_log2_floor(m as nat, e as nat);
    }
    let mut mant: u64 = m - p;
    let mut i: u64 = 0;
    while i < 52 - e
        invariant
            e <= 52,
            i <= 52 - e,
            m - p < pow2(e as nat),
            mant == (m - p) * pow2(i as nat),
            mant < pow2((e + i) as nat),
            pow2(52) == 0x10_0000_0000_0000,
        decreases 52 - e - i,
    {
        proof {
            lemma_pow2_unfold((i + 1) as nat);
            lemma_pow2_unfold((e + i + 1) as nat);
            if e + i < 52 {
                lemma_pow2_strictly_increases((e + i) as nat, 52);
            }
            let a = (m - p) as int;
            let b = pow2(i as nat) as int;
            assert(a * (2 * b) == (a * b) * 2) by (nonlinear_arith);
            if e + i + 1 > 52 {
                lemma_pow2_strictly_increases(52, (e + i + 1) as nat);
            }
        }
        mant = mant * 2;
        i = i + 1;
    }
    proof {
        assert(e <= 52) by {
            if e > 52 {
                lemma_pow2_strictly_increases(52, e as nat);
            }
        }
    }
    let sign: u64 = if v < 0 { 0x8000_0000_0000_0000u64 } else { 0 };
    assert((e + 1023) * 0x10_0000_0000_0000 <= 1075 * 0x10_0000_0000_0000) by (nonlinear_arith)
        requires
            e <= 52,
    ;
    let r = sign + (e + 1023) * 0x10_0000_0000_0000 + mant;
    proof {
        assert(i == 52 - e);
    }
    r
}

} // verus!
