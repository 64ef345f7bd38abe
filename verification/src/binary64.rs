//! IEEE-754 binary64 values as bit patterns: one sign bit, eleven exponent
//! bits, fifty-two fraction bits.
//!
//! A pattern whose exponent field `e` is below 2047 stands for the number
//! `± s · 2^(max(e, 1) − 1075)`, where the significand `s` is the fraction,
//! plus `2^52` if `e` is not zero.

use vstd::arithmetic::div_mod::lemma_fundamental_div_mod_converse;
use vstd::arithmetic::power2::{lemma2_to64, lemma_pow2_adds, lemma_pow2_pos, lemma_pow2_unfold, pow2};
use vstd::prelude::*;

verus! {

/// The sign bit.
pub const SIGN: u64 = 0x8000_0000_0000_0000;

/// The pattern of positive infinity: exponent field 2047, fraction zero.
pub const INFINITY: u64 = 0x7ff0_0000_0000_0000;

/// `2^52`: the weight of the exponent field's lowest bit, and the bit that a
/// normal number's significand has above its fraction.
pub const HIDDEN: u64 = 0x10_0000_0000_0000;

/// The exponent that a significand is scaled by when the value is the
/// integer itself: `s · 2^(BIAS − 1075)` is `s`.
pub const BIAS: u64 = 1075;

pub open spec fn fraction(bits: u64) -> nat {
    (bits % HIDDEN) as nat
}

pub open spec fn exponent_field(bits: u64) -> nat {
    ((bits / HIDDEN) % 2048) as nat
}

pub open spec fn sign_bit(bits: u64) -> bool {
    bits >= SIGN
}

/// Neither a number nor an infinity.
pub open spec fn is_nan(bits: u64) -> bool {
    exponent_field(bits) == 2047 && fraction(bits) != 0
}

/// Positive or negative zero.
pub open spec fn is_zero(bits: u64) -> bool {
    exponent_field(bits) == 0 && fraction(bits) == 0
}

/// Greater than zero: a number or an infinity with the sign bit clear, and
/// not zero. This is what the comparison `value > 0.0` computes.
pub open spec fn is_positive(bits: u64) -> bool {
    !sign_bit(bits) && !is_nan(bits) && !is_zero(bits)
}

/// Less than zero: a number or an infinity with the sign bit set, and not
/// zero.
pub open spec fn is_negative(bits: u64) -> bool {
    sign_bit(bits) && !is_nan(bits) && !is_zero(bits)
}

/// The significand of a finite pattern.
pub open spec fn significand(bits: u64) -> nat {
    if exponent_field(bits) == 0 {
        fraction(bits)
    } else {
        HIDDEN as nat + fraction(bits)
    }
}

/// The exponent `q` of a finite pattern, as in `s · 2^(q − 1075)`.
pub open spec fn exponent(bits: u64) -> nat {
    if exponent_field(bits) == 0 {
        1
    } else {
        exponent_field(bits)
    }
}

/// `bits` is the number `num / 2^shift`, and is `+0` if that is zero.
pub open spec fn is_dyadic(bits: u64, num: int, shift: nat) -> bool {
    &&& exponent_field(bits) < 2047
    &&& exponent(bits) <= BIAS
    &&& sign_bit(bits) == (num < 0)
    &&& significand(bits) * pow2(shift) == (if num < 0 {
        -num
    } else {
        num
    }) * pow2((BIAS - exponent(bits)) as nat)
}

/// The significand and exponent of `sig · 2^(exp − 1075)` after the
/// significand has been doubled, and the exponent lowered, until the
/// significand has its bit `2^52` set or the exponent is 1.
pub open spec fn normal_form(sig: nat, exp: nat) -> (nat, nat)
    decreases 2 * HIDDEN - sig,
{
    if 0 < sig < HIDDEN && exp > 1 {
        normal_form(2 * sig, (exp - 1) as nat)
    } else {
        (sig, exp)
    }
}

/// The pattern of `± sig · 2^(exp − 1075)`, for `sig < 2^53` and
/// `1 <= exp <= 2046`.
pub open spec fn pack(negative: bool, sig: nat, exp: nat) -> u64 {
    let (s, e) = normal_form(sig, exp);
    let magnitude = if s < HIDDEN {
        s
    } else {
        (e * HIDDEN + (s - HIDDEN)) as nat
    };
    if negative {
        (SIGN + magnitude) as u64
    } else {
        magnitude as u64
    }
}

/// Tests [`is_positive`].
pub fn positive(bits: u64) -> (r: bool)
    ensures
        r == is_positive(bits),
{
    0 < bits && bits <= INFINITY
}

/// Tests [`is_nan`].
pub fn nan(bits: u64) -> (r: bool)
    ensures
        r == is_nan(bits),
{
    let magnitude = if bits >= SIGN {
        bits - SIGN
    } else {
        bits
    };
    magnitude > INFINITY
}

/// Encodes `± sig · 2^(exp − 1075)`.
pub fn encode(negative: bool, sig: u64, exp: u64) -> (bits: u64)
    requires
        sig < 2 * HIDDEN,
        1 <= exp <= 2046,
    ensures
        bits == pack(negative, sig as nat, exp as nat),
{
    let mut s: u64 = sig;
    let mut e: u64 = exp;
    while 0 < s && s < HIDDEN && e > 1
        invariant
            s < 2 * HIDDEN,
            1 <= e <= 2046,
            normal_form(s as nat, e as nat) == normal_form(sig as nat, exp as nat),
        decreases 2 * HIDDEN - s,
    {
        s = 2 * s;
        e = e - 1;
    }
    let magnitude = if s < HIDDEN {
        s
    } else {
        e * HIDDEN + (s - HIDDEN)
    };
    if negative {
        SIGN + magnitude
    } else {
        magnitude
    }
}

/// Normalising keeps the value: the significand grows by the power of two
/// that the exponent drops by.
pub proof fn lemma_normal_form(sig: nat, exp: nat)
    requires
        sig < 2 * HIDDEN,
        1 <= exp,
    ensures
        ({
            let (s, e) = normal_form(sig, exp);
            &&& 1 <= e <= exp
            &&& s < 2 * HIDDEN
            &&& s == sig * pow2((exp - e) as nat)
            &&& (s < HIDDEN ==> s == 0 || e == 1)
        }),
    decreases 2 * HIDDEN - sig,
{
    lemma2_to64();
    if 0 < sig < HIDDEN && exp > 1 {
        lemma_normal_form(2 * sig, (exp - 1) as nat);
        let (s, e) = normal_form(2 * sig, (exp - 1) as nat);
        let k = (exp - 1 - e) as nat;
        assert(pow2(k + 1) == 2 * pow2(k)) by {
            lemma_pow2_unfold(k + 1);
        }
        assert(s == sig * pow2(k + 1)) by (nonlinear_arith)
            requires
                s == (2 * sig) * pow2(k),
                pow2(k + 1) == 2 * pow2(k),
        ;
    } else {
        assert(sig * pow2(0) == sig);
    }
}

/// The fields of a packed pattern are those of the normal form.
pub proof fn lemma_pack_fields(negative: bool, sig: nat, exp: nat)
    requires
        sig < 2 * HIDDEN,
        1 <= exp <= 2046,
    ensures
        ({
            let (s, e) = normal_form(sig, exp);
            let bits = pack(negative, sig, exp);
            &&& sign_bit(bits) == negative
            &&& significand(bits) == s
            &&& exponent(bits) <= e
            &&& s > 0 ==> exponent(bits) == e
            &&& exponent_field(bits) < 2047
        }),
{
    lemma_normal_form(sig, exp);
    let (s, e) = normal_form(sig, exp);
    let bits = pack(negative, sig, exp);
    let field: int = if s < HIDDEN {
        0
    } else {
        e as int
    };
    let frac: int = if s < HIDDEN {
        s as int
    } else {
        s - HIDDEN
    };
    let top: int = if negative {
        2048 + field
    } else {
        field
    };
    assert(bits == top * HIDDEN + frac);
    lemma_fundamental_div_mod_converse(bits as int, HIDDEN as int, top, frac);
}

/// A packed pattern stands for the number it was packed from: for an
/// integer `num` below `2^53` in size, the pattern packed from its size
/// with exponent `1075 − shift` is `num / 2^shift`.
pub proof fn law_pack_value(num: int, shift: nat)
    requires
        -(2 * HIDDEN) < num < 2 * HIDDEN,
        shift <= BIAS - 1,
    ensures
        is_dyadic(
            pack(num < 0, (if num < 0 {
                -num
            } else {
                num
            }) as nat, (BIAS - shift) as nat),
            num,
            shift,
        ),
{
    let m = (if num < 0 {
        -num
    } else {
        num
    }) as nat;
    let exp = (BIAS - shift) as nat;
    let (s, e) = normal_form(m, exp);
    let bits = pack(num < 0, m, exp);
    lemma_normal_form(m, exp);
    lemma_pack_fields(num < 0, m, exp);
    if m == 0 {
        assert(s == 0) by (nonlinear_arith)
            requires
                s == m * pow2((exp - e) as nat),
                m == 0,
        ;
        assert(significand(bits) == 0);
        assert(significand(bits) * pow2(shift) == 0) by (nonlinear_arith)
            requires
                significand(bits) == 0,
        ;
        assert(m * pow2((BIAS - exponent(bits)) as nat) == 0) by (nonlinear_arith)
            requires
                m == 0,
        ;
    } else {
        lemma_pow2_pos((exp - e) as nat);
        assert(s > 0) by (nonlinear_arith)
            requires
                s == m * pow2((exp - e) as nat),
                m > 0,
                pow2((exp - e) as nat) > 0,
        ;
        lemma_pow2_adds((exp - e) as nat, shift);
        assert((exp - e) + shift == BIAS - e);
        assert(s * pow2(shift) == m * pow2((BIAS - e) as nat)) by (nonlinear_arith)
            requires
                s == m * pow2((exp - e) as nat),
                pow2((exp - e) as nat) * pow2(shift) == pow2((BIAS - e) as nat),
        ;
    }
}

} // verus!
