//! Hexadecimal digits, their values, and limb-level parsing and rendering.

use vstd::prelude::*;
use vstd::string::StrSliceExecFns;
use vstd::string::StringExecFns;

use crate::u256::pow128;

verus! {

/// The numeric value of a hexadecimal digit, case-insensitive;
/// 16 for any character outside the hexadecimal alphabet.
pub open spec fn hex_digit_val(c: char) -> nat {
    let u = c as u32;
    if '0' as u32 <= u && u <= '9' as u32 {
        (u - '0' as u32) as nat
    } else if 'a' as u32 <= u && u <= 'f' as u32 {
        (u - 'a' as u32 + 10) as nat
    } else if 'A' as u32 <= u && u <= 'F' as u32 {
        (u - 'A' as u32 + 10) as nat
    } else {
        16
    }
}

pub open spec fn is_hex_digit(c: char) -> bool {
    hex_digit_val(c) < 16
}

pub open spec fn all_hex_digits(s: Seq<char>) -> bool {
    forall|i: int| 0 <= i < s.len() ==> is_hex_digit(#[trigger] s[i])
}

/// The value of a big-endian string of hexadecimal digits;
/// the empty string denotes zero.
pub open spec fn hex_value(s: Seq<char>) -> nat
    decreases s.len(),
{
    if s.len() == 0 {
        0
    } else {
        16 * hex_value(s.drop_last()) + hex_digit_val(s.last())
    }
}

/// 16^e, the number of strings of e hexadecimal digits.
pub open spec fn pow16(e: nat) -> nat
    decreases e,
{
    if e == 0 {
        1
    } else {
        16 * pow16((e - 1) as nat)
    }
}

/// The lowercase hexadecimal digit for a value below 16.
pub open spec fn hex_char(d: nat) -> char {
    if d == 0 {
        '0'
    } else if d == 1 {
        '1'
    } else if d == 2 {
        '2'
    } else if d == 3 {
        '3'
    } else if d == 4 {
        '4'
    } else if d == 5 {
        '5'
    } else if d == 6 {
        '6'
    } else if d == 7 {
        '7'
    } else if d == 8 {
        '8'
    } else if d == 9 {
        '9'
    } else if d == 10 {
        'a'
    } else if d == 11 {
        'b'
    } else if d == 12 {
        'c'
    } else if d == 13 {
        'd'
    } else if d == 14 {
        'e'
    } else {
        'f'
    }
}

/// The shortest lowercase hexadecimal rendering of a number;
/// a single digit for values below 16, zero included.
pub open spec fn hex_str(n: nat) -> Seq<char>
    decreases n,
{
    if n < 16 {
        seq![hex_char(n)]
    } else {
        hex_str(n / 16).push(hex_char(n % 16))
    }
}

/// The lowercase hexadecimal rendering of `n % 16^w`, zero-padded to
/// exactly `w` digits.
pub open spec fn hex_pad(n: nat, w: nat) -> Seq<char>
    decreases w,
{
    if w == 0 {
        Seq::empty()
    } else {
        hex_pad(n / 16, (w - 1) as nat).push(hex_char(n % 16))
    }
}

/// 16^32 is 2^128, the limb range.
pub proof fn lemma_pow16_32()
    ensures
        pow16(32) == pow128(),
{
    reveal_with_fuel(pow16, 33);
}

/// Powers of 16 grow with the exponent.
pub proof fn lemma_pow16_monotone(e1: nat, e2: nat)
    requires
        e1 <= e2,
    ensures
        pow16(e1) <= pow16(e2),
    decreases e2,
{
    if e1 < e2 {
        lemma_pow16_monotone(e1, (e2 - 1) as nat);
        assert(pow16((e2 - 1) as nat) >= 1) by {
            lemma_pow16_monotone(0, (e2 - 1) as nat);
        }
    }
}

/// A string of w hexadecimal digits denotes a value below 16^w.
pub proof fn lemma_hex_value_bound(s: Seq<char>)
    requires
        all_hex_digits(s),
    ensures
        hex_value(s) < pow16(s.len()),
    decreases s.len(),
{
    if s.len() > 0 {
        lemma_hex_value_bound(s.drop_last());
    }
}

/// A digit below 16 reads back from its lowercase rendering.
pub proof fn lemma_hex_char_val(d: nat)
    requires
        d < 16,
    ensures
        hex_digit_val(hex_char(d)) == d,
        is_hex_digit(hex_char(d)),
{
    if d == 0 {
        assert(hex_digit_val('0') == 0);
    } else if d == 1 {
        assert(hex_digit_val('1') == 1);
    } else if d == 2 {
        assert(hex_digit_val('2') == 2);
    } else if d == 3 {
        assert(hex_digit_val('3') == 3);
    } else if d == 4 {
        assert(hex_digit_val('4') == 4);
    } else if d == 5 {
        assert(hex_digit_val('5') == 5);
    } else if d == 6 {
        assert(hex_digit_val('6') == 6);
    } else if d == 7 {
        assert(hex_digit_val('7') == 7);
    } else if d == 8 {
        assert(hex_digit_val('8') == 8);
    } else if d == 9 {
        assert(hex_digit_val('9') == 9);
    } else if d == 10 {
        assert(hex_digit_val('a') == 10);
    } else if d == 11 {
        assert(hex_digit_val('b') == 11);
    } else if d == 12 {
        assert(hex_digit_val('c') == 12);
    } else if d == 13 {
        assert(hex_digit_val('d') == 13);
    } else if d == 14 {
        assert(hex_digit_val('e') == 14);
    } else {
        assert(hex_digit_val('f') == 15);
    }
}

/// The shortest rendering is made of hexadecimal digits, is never empty,
/// and reads back to the number it renders.
pub proof fn lemma_hex_str_props(n: nat)
    ensures
        all_hex_digits(hex_str(n)),
        hex_str(n).len() >= 1,
        hex_value(hex_str(n)) == n,
    decreases n,
{
    lemma_hex_char_val(n % 16);
    if n < 16 {
        let s = seq![hex_char(n)];
        assert(s.drop_last() =~= Seq::<char>::empty());
        assert(hex_value(s) == 16 * hex_value(s.drop_last()) + hex_digit_val(s.last()));
        assert(n % 16 == n);
    } else {
        lemma_hex_str_props(n / 16);
        assert(hex_str(n).drop_last() =~= hex_str(n / 16));
        vstd::arithmetic::div_mod::lemma_fundamental_div_mod(n as int, 16);
    }
}

/// A number below 16^k renders in at most k digits, for k at least 1.
pub proof fn lemma_hex_str_len(n: nat, k: nat)
    requires
        k >= 1,
        n < pow16(k),
    ensures
        hex_str(n).len() <= k,
    decreases n,
{
    if n >= 16 {
        assert(k >= 2) by {
            if k < 2 {
                reveal_with_fuel(pow16, 3);
                assert(pow16(k) == 16);
            }
        }
        assert(n / 16 < pow16((k - 1) as nat)) by (nonlinear_arith)
            requires
                n < pow16(k) && pow16(k) == 16 * pow16((k - 1) as nat),
        ;
        lemma_hex_str_len(n / 16, (k - 1) as nat);
    }
}

/// A padded rendering has exactly the requested width, is made of
/// hexadecimal digits, and reads back to the number when that fits.
pub proof fn lemma_hex_pad_props(n: nat, w: nat)
    requires
        n < pow16(w),
    ensures
        all_hex_digits(hex_pad(n, w)),
        hex_pad(n, w).len() == w,
        hex_value(hex_pad(n, w)) == n,
    decreases w,
{
    if w > 0 {
        assert(n / 16 < pow16((w - 1) as nat) && n % 16 < 16 && n == 16 * (n / 16) + n
            % 16) by (nonlinear_arith)
            requires
                n < pow16(w) && pow16(w) == 16 * pow16((w - 1) as nat),
        ;
        lemma_hex_pad_props(n / 16, (w - 1) as nat);
        assert(hex_pad(n, w).drop_last() =~= hex_pad(n / 16, (w - 1) as nat));
    }
}

/// The numeric value of one character, if it is a hexadecimal digit.
fn hex_char_value(c: char) -> (r: Option<u8>)
    ensures
        r is Some <==> is_hex_digit(c),
        r is Some ==> r->0 == hex_digit_val(c),
{
    let u = c as u32;
    if 48 <= u && u <= 57 {
        Some((u - 48) as u8)
    } else if 97 <= u && u <= 102 {
        Some((u - 97 + 10) as u8)
    } else if 65 <= u && u <= 70 {
        Some((u - 65 + 10) as u8)
    } else {
        None
    }
}

/// Parses the characters of `s` in `[start, end)` as one big-endian
/// hexadecimal limb; `None` on any character outside the alphabet.
pub(crate) fn parse_hex_limb(s: &str, start: usize, end: usize) -> (r: Option<u128>)
    requires
        start <= end <= s@.len(),
        end - start <= 32,
    ensures
        r is Some <==> all_hex_digits(s@.subrange(start as int, end as int)),
        r is Some ==> r->0 == hex_value(s@.subrange(start as int, end as int)),
{
    let mut acc: u128 = 0;
    let mut i: usize = start;
    proof {
        assert(s@.subrange(start as int, start as int) =~= Seq::<char>::empty());
    }
    while i < end
        invariant
            start <= i <= end <= s@.len(),
            end - start <= 32,
            all_hex_digits(s@.subrange(start as int, i as int)),
            acc == hex_value(s@.subrange(start as int, i as int)),
        decreases end - i,
    {
        let c = s.get_char(i);
        match hex_char_value(c) {
            None => {
                proof {
                    let full = s@.subrange(start as int, end as int);
                    assert(full[i - start] == c);
                }
                return None;
            },
            Some(d) => {
                proof {
                    let prefix = s@.subrange(start as int, i as int);
                    lemma_hex_value_bound(prefix);
                    lemma_pow16_monotone(prefix.len(), 31);
                    lemma_pow16_32();
                    assert(pow16(32) == 16 * pow16(31));
                }
                acc = acc * 16 + (d as u128);
                proof {
                    assert(s@.subrange(start as int, (i + 1) as int).drop_last() =~= s@
                        .subrange(start as int, i as int));
                }
                i = i + 1;
            },
        }
    }
    proof {
        assert(s@.subrange(start as int, i as int) =~= s@.subrange(
            start as int,
            end as int,
        ));
    }
    Some(acc)
}

/// The lowercase hexadecimal digit for a limb value below 16, as a
/// one-character string.
fn hex_digit_str(d: u128) -> (r: &'static str)
    requires
        d < 16,
    ensures
        r@ == seq![hex_char(d as nat)],
{
    proof {
        reveal_strlit("0");
        reveal_strlit("1");
        reveal_strlit("2");
        reveal_strlit("3");
        reveal_strlit("4");
        reveal_strlit("5");
        reveal_strlit("6");
        reveal_strlit("7");
        reveal_strlit("8");
        reveal_strlit("9");
        reveal_strlit("a");
        reveal_strlit("b");
        reveal_strlit("c");
        reveal_strlit("d");
        reveal_strlit("e");
        reveal_strlit("f");
    }
    let r: &'static str = if d == 0 {
        "0"
    } else if d == 1 {
        "1"
    } else if d == 2 {
        "2"
    } else if d == 3 {
        "3"
    } else if d == 4 {
        "4"
    } else if d == 5 {
        "5"
    } else if d == 6 {
        "6"
    } else if d == 7 {
        "7"
    } else if d == 8 {
        "8"
    } else if d == 9 {
        "9"
    } else if d == 10 {
        "a"
    } else if d == 11 {
        "b"
    } else if d == 12 {
        "c"
    } else if d == 13 {
        "d"
    } else if d == 14 {
        "e"
    } else {
        "f"
    };
    proof {
        assert(r@ =~= seq![hex_char(d as nat)]);
    }
    r
}

/// Renders a limb in lowercase hexadecimal without padding.
pub(crate) fn hex_limb_str(n: u128) -> (r: String)
    ensures
        r@ == hex_str(n as nat),
    decreases n,
{
    if n < 16 {
        let r = String::from_str(hex_digit_str(n));
        proof {
            assert(r@ =~= hex_str(n as nat));
        }
        r
    } else {
        proof {
            assert(n / 16 < n) by (nonlinear_arith)
                requires
                    n >= 16,
            ;
        }
        let mut s = hex_limb_str(n / 16);
        s.append(hex_digit_str(n % 16));
        proof {
            assert(s@ =~= hex_str(n as nat));
        }
        s
    }
}

/// Renders a limb in lowercase hexadecimal, zero-padded to `w` digits.
pub(crate) fn hex_pad_str(n: u128, w: usize) -> (r: String)
    ensures
        r@ == hex_pad(n as nat, w as nat),
    decreases w,
{
    if w == 0 {
        let r = String::new();
        proof {
            assert(r@ =~= hex_pad(n as nat, 0));
        }
        r
    } else {
        let mut s = hex_pad_str(n / 16, w - 1);
        s.append(hex_digit_str(n % 16));
        proof {
            assert(s@ =~= hex_pad(n as nat, w as nat));
        }
        s
    }
}

} // verus!
