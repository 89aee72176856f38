//! Decoding from hexadecimal or decimal text and rendering back.

use vstd::prelude::*;
use vstd::string::StrSliceExecFns;
use vstd::string::StringExecFns;

use crate::decimal::{
    all_dec_digits, dec_digits_of_str, dec_value, is_dec_digit, lemma_pow64e_4,
    lemma_u64_digits_value_4, lemma_u64_digits_value_bound, lemma_u64_digits_value_lower,
    limbs_decimal_string, pow64, pow64e,
};
use crate::hex::{
    all_hex_digits, hex_pad, hex_str, hex_value, lemma_hex_value_bound, lemma_pow16_32,
    lemma_pow16_monotone, parse_hex_limb, hex_limb_str, hex_pad_str,
};
use crate::u256::{lemma_u256_of_as_nat, pow256, u256_of_nat, U256};

verus! {

/// Why a piece of text was refused by the decoder.
#[derive(Clone, Copy, Debug, PartialEq, Eq, Structural)]
pub enum DecodeError {
    /// Hexadecimal input longer than `0x` followed by 64 digits.
    TooLong,
    /// A limb substring of hexadecimal input begins with `+` or `-`.
    SignPrefix,
    /// A character outside the expected digit alphabet.
    InvalidDigit,
    /// Decimal input denotes a magnitude of 2^256 or more.
    OutOfRange,
}

pub open spec fn is_sign_char(c: char) -> bool {
    c == '+' || c == '-'
}

/// Text selects the hexadecimal grammar by starting with `0x`.
pub open spec fn has_hex_prefix(s: Seq<char>) -> bool {
    s.len() >= 2 && s[0] == '0' && s[1] == 'x'
}

/// Where the low-limb substring begins: the last 32 characters, or
/// everything after the prefix when fewer remain.
pub open spec fn hex_low_start(s: Seq<char>) -> int {
    if s.len() >= 34 {
        s.len() - 32
    } else {
        2
    }
}

/// What decoding a `0x`-prefixed string yields: the trailing up to 32
/// digits form the low limb and the digits before them the high limb; an
/// empty substring denotes zero. Over-long input, a leading sign in either
/// substring, and non-hexadecimal characters are refused, in that order of
/// detection (low limb before high limb).
pub open spec fn hex_decode(s: Seq<char>) -> Result<U256, DecodeError> {
    if s.len() > 66 {
        Result::Err(DecodeError::TooLong)
    } else {
        let lows = s.subrange(hex_low_start(s), s.len() as int);
        let highs = s.subrange(2, hex_low_start(s));
        if lows.len() > 0 && is_sign_char(lows[0]) {
            Result::Err(DecodeError::SignPrefix)
        } else if !all_hex_digits(lows) {
            Result::Err(DecodeError::InvalidDigit)
        } else if highs.len() > 0 && is_sign_char(highs[0]) {
            Result::Err(DecodeError::SignPrefix)
        } else if !all_hex_digits(highs) {
            Result::Err(DecodeError::InvalidDigit)
        } else {
            Result::Ok(
                U256 { high: hex_value(highs) as u128, low: hex_value(lows) as u128 },
            )
        }
    }
}

/// What decoding an unprefixed string yields: its base-10 magnitude when
/// the text is one or more decimal digits (leading zeros permitted) and
/// the magnitude is representable; otherwise the matching refusal.
pub open spec fn dec_decode(s: Seq<char>) -> Result<U256, DecodeError> {
    if s.len() == 0 || !all_dec_digits(s) {
        Result::Err(DecodeError::InvalidDigit)
    } else if dec_value(s) >= pow256() {
        Result::Err(DecodeError::OutOfRange)
    } else {
        Result::Ok(u256_of_nat(dec_value(s)))
    }
}

/// The decoder's full contract: the `0x` prefix selects the hexadecimal
/// grammar, anything else is read as decimal.
pub open spec fn decode(s: Seq<char>) -> Result<U256, DecodeError> {
    if has_hex_prefix(s) {
        hex_decode(s)
    } else {
        dec_decode(s)
    }
}

/// The canonical hexadecimal rendering: `0x`, then the low limb alone and
/// unpadded when the high limb is zero, else the unpadded high limb
/// followed by the low limb zero-padded to exactly 32 digits.
pub open spec fn hex_render(v: U256) -> Seq<char> {
    seq!['0', 'x'] + if v.high == 0 {
        hex_str(v.low as nat)
    } else {
        hex_str(v.high as nat) + hex_pad(v.low as nat, 32)
    }
}

impl U256 {
    /// Decodes hexadecimal (`0x`-prefixed) or decimal text, exactly as
    /// [`decode`] describes.
    pub fn from_str(s: &str) -> (r: Result<U256, DecodeError>)
        ensures
            r == decode(s@),
    {
        let n = s.unicode_len();
        if n >= 2 && s.get_char(0) == '0' && s.get_char(1) == 'x' {
            if n > 66 {
                return Result::Err(DecodeError::TooLong);
            }
            let low_start: usize = if n >= 34 {
                n - 32
            } else {
                2
            };
            let ghost lows = s@.subrange(low_start as int, n as int);
            let ghost highs = s@.subrange(2, low_start as int);
            if low_start < n {
                let c = s.get_char(low_start);
                if c == '+' || c == '-' {
                    return Result::Err(DecodeError::SignPrefix);
                }
            }
            let low = match parse_hex_limb(s, low_start, n) {
                Option::Some(v) => v,
                Option::None => {
                    return Result::Err(DecodeError::InvalidDigit);
                },
            };
            if low_start > 2 {
                let c = s.get_char(2);
                if c == '+' || c == '-' {
                    return Result::Err(DecodeError::SignPrefix);
                }
            }
            let high = match parse_hex_limb(s, 2, low_start) {
                Option::Some(v) => v,
                Option::None => {
                    return Result::Err(DecodeError::InvalidDigit);
                },
            };
            proof {
                lemma_hex_value_bound(lows);
                lemma_hex_value_bound(highs);
                lemma_pow16_monotone(lows.len(), 32);
                lemma_pow16_monotone(highs.len(), 32);
                lemma_pow16_32();
            }
            Result::Ok(U256 { high, low })
        } else {
            if n == 0 {
                return Result::Err(DecodeError::InvalidDigit);
            }
            let mut i: usize = 0;
            while i < n
                invariant
                    0 <= i <= n,
                    n == s@.len(),
                    !has_hex_prefix(s@),
                    all_dec_digits(s@.subrange(0, i as int)),
                decreases n - i,
            {
                let u = s.get_char(i) as u32;
                if !(48 <= u && u <= 57) {
                    proof {
                        assert(!is_dec_digit(s@[i as int]));
                        assert(!all_dec_digits(s@));
                    }
                    return Result::Err(DecodeError::InvalidDigit);
                }
                proof {
                    assert(s@.subrange(0, (i + 1) as int).drop_last() =~= s@.subrange(
                        0,
                        i as int,
                    ));
                    assert(s@.subrange(0, (i + 1) as int).last() == s@[i as int]);
                }
                i = i + 1;
            }
            proof {
                assert(s@.subrange(0, n as int) =~= s@);
            }
            let ds = dec_digits_of_str(s);
            if ds.len() > 4 {
                proof {
                    lemma_u64_digits_value_lower(ds@);
                    lemma_pow64e_monotone(4, (ds@.len() - 1) as nat);
                    lemma_pow64e_4();
                }
                return Result::Err(DecodeError::OutOfRange);
            }
            let d0: u64 = if ds.len() > 0 {
                ds[0]
            } else {
                0
            };
            let d1: u64 = if ds.len() > 1 {
                ds[1]
            } else {
                0
            };
            let d2: u64 = if ds.len() > 2 {
                ds[2]
            } else {
                0
            };
            let d3: u64 = if ds.len() > 3 {
                ds[3]
            } else {
                0
            };
            let high: u128 = (d3 as u128) * 0x10000000000000000u128 + (d2 as u128);
            let low: u128 = (d1 as u128) * 0x10000000000000000u128 + (d0 as u128);
            let r = U256 { high, low };
            proof {
                lemma_u64_digits_value_4(ds@, d0, d1, d2, d3);
                lemma_u64_digits_value_bound(ds@);
                lemma_pow64e_monotone(ds@.len(), 4);
                lemma_pow64e_4();
                lemma_u256_of_as_nat(r);
            }
            Result::Ok(r)
        }
    }

    /// Renders the value in lowercase hexadecimal, exactly as
    /// [`hex_render`] describes.
    pub fn to_hex(self) -> (r: String)
        ensures
            r@ == hex_render(self),
    {
        let mut s = String::from_str("0x");
        proof {
            reveal_strlit("0x");
            assert(s@ =~= seq!['0', 'x']);
        }
        if self.high == 0 {
            let tail = hex_limb_str(self.low);
            s.append(tail.as_str());
        } else {
            let head = hex_limb_str(self.high);
            s.append(head.as_str());
            let tail = hex_pad_str(self.low, 32);
            s.append(tail.as_str());
            proof {
                assert(s@ =~= hex_render(self));
            }
        }
        s
    }

    /// Renders the magnitude `high * 2^128 + low` in base 10, with no sign
    /// and no leading zeros.
    pub fn to_decimal(self) -> (r: String)
        ensures
            r@.len() > 0,
            all_dec_digits(r@),
            dec_value(r@) == self.as_nat(),
            r@.len() > 1 ==> r@[0] != '0',
    {
        limbs_decimal_string(self.high, self.low)
    }
}

/// Powers of 2^64 grow with the exponent.
pub proof fn lemma_pow64e_monotone(e1: nat, e2: nat)
    requires
        e1 <= e2,
    ensures
        pow64e(e1) <= pow64e(e2),
    decreases e2,
{
    if e1 < e2 {
        lemma_pow64e_monotone(e1, (e2 - 1) as nat);
        assert(pow64e((e2 - 1) as nat) <= pow64() * pow64e((e2 - 1) as nat))
            by (nonlinear_arith)
            requires
                pow64() >= 1,
        ;
    }
}

} // verus!
