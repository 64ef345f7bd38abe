//! Register ids: hexadecimal digits, which one prefix character that is no
//! such digit may precede, as in `_1f`.

use vstd::prelude::*;
use vstd::slice::slice_subrange;
use vstd::string::StringSliceAdditionalSpecFns;

verus! {

/// The value of one hexadecimal digit, upper or lower case.
pub open spec fn hex_digit(b: u8) -> Option<nat> {
    if 0x30 <= b <= 0x39 {
        Some((b - 0x30) as nat)
    } else if 0x61 <= b <= 0x66 {
        Some((b - 0x61 + 10) as nat)
    } else if 0x41 <= b <= 0x46 {
        Some((b - 0x41 + 10) as nat)
    } else {
        None
    }
}

/// Every byte of `s` is a hexadecimal digit.
pub open spec fn all_hex(s: Seq<u8>) -> bool {
    forall|i: int| 0 <= i < s.len() ==> (#[trigger] hex_digit(s[i])) is Some
}

/// The number that the digits of `s` write in base sixteen, most significant
/// digit first. A byte that is no digit counts as zero.
pub open spec fn hex_value(s: Seq<u8>) -> nat
    decreases s.len(),
{
    if s.len() == 0 {
        0
    } else {
        16 * hex_value(s.drop_last()) + match hex_digit(s.last()) {
            Some(d) => d,
            None => 0,
        }
    }
}

/// The digits of an id: the token without its prefix character, if it has
/// one.
pub open spec fn digits_of(token: Seq<u8>) -> Seq<u8> {
    if token.len() > 0 && hex_digit(token[0]) is None {
        token.skip(1)
    } else {
        token
    }
}

/// The register that `token` names: after the prefix character, if there is
/// one, it is one or more hexadecimal digits whose value fits `usize`.
pub open spec fn id_value(token: Seq<u8>) -> Option<usize> {
    let digits = digits_of(token);
    if digits.len() >= 1 && all_hex(digits) && hex_value(digits) <= usize::MAX {
        Some(hex_value(digits) as usize)
    } else {
        None
    }
}

/// A longer run of digits never writes a smaller number than its prefix.
pub proof fn lemma_hex_value_prefix(s: Seq<u8>, k: int)
    requires
        0 <= k <= s.len(),
    ensures
        hex_value(s.take(k)) <= hex_value(s),
    decreases s.len(),
{
    if k == s.len() {
        assert(s.take(k) =~= s);
    } else {
        assert(s.drop_last().take(k) =~= s.take(k));
        lemma_hex_value_prefix(s.drop_last(), k);
    }
}

pub fn digit_of(b: u8) -> (r: Option<u8>)
    ensures
        match r {
            Some(d) => hex_digit(b) == Some(d as nat) && d < 16,
            None => hex_digit(b) is None,
        },
{
    if 0x30 <= b && b <= 0x39 {
        Some(b - 0x30)
    } else if 0x61 <= b && b <= 0x66 {
        Some(b - 0x61 + 10)
    } else if 0x41 <= b && b <= 0x46 {
        Some(b - 0x41 + 10)
    } else {
        None
    }
}

/// Reads a register id from the bytes of a token.
pub fn parse_id_bytes(token: &[u8]) -> (r: Option<usize>)
    ensures
        r == id_value(token@),
{
    let start: usize = if token.len() > 0 && digit_of(token[0]).is_none() {
        1
    } else {
        0
    };
    let digits = slice_subrange(token, start, token.len());
    assert(digits@ =~= digits_of(token@));
    if digits.len() == 0 {
        return None;
    }
    let mut acc: usize = 0;
    let mut i: usize = 0;
    assert(digits@.take(0) =~= Seq::<u8>::empty());
    while i < digits.len()
        invariant
            i <= digits.len(),
            digits@ == digits_of(token@),
            all_hex(digits@.take(i as int)),
            acc == hex_value(digits@.take(i as int)),
        decreases digits.len() - i,
    {
        let ghost next = digits@.take(i + 1);
        proof {
            assert(next.drop_last() =~= digits@.take(i as int));
            assert(next.last() == digits@[i as int]);
        }
        match digit_of(digits[i]) {
            None => {
                return None;
            },
            Some(d) => {
                let d: usize = d as usize;
                if acc > (usize::MAX - d) / 16 {
                    proof {
                        lemma_hex_value_prefix(digits@, i + 1);
                    }
                    return None;
                }
                acc = acc * 16 + d;
                assert forall|j: int| 0 <= j < next.len() implies (#[trigger] hex_digit(
                    next[j],
                )) is Some by {
                    if j < i {
                        assert(next[j] == digits@.take(i as int)[j]);
                    }
                }
            },
        }
        i += 1;
    }
    assert(digits@.take(i as int) =~= digits@);
    Some(acc)
}

/// Reads a register id: hexadecimal digits after an optional prefix
/// character.
pub fn parse_id(id: &str) -> (r: Option<usize>)
    ensures
        r == id_value(id.spec_bytes()),
{
    parse_id_bytes(id.as_bytes())
}

} // verus!
