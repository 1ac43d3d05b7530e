//! The base62 codec: conversion of an unsigned 128-bit integer to and from
//! its positional numeral over a fixed 62-symbol alphabet.
//!
//! The alphabet is part of the external contract and never changes:
//! '0'..'9' stand for the digit values 0..9, 'A'..'Z' for 10..35, and
//! 'a'..'z' for 36..61. A numeral is written most-significant digit first.

use vstd::prelude::*;

verus! {

use crate::error::DecodeError;

/// Whether `c` is one of the 62 symbols of the alphabet.
pub open spec fn is_base62_char(c: char) -> bool {
    ('0' <= c && c <= '9') || ('A' <= c && c <= 'Z') || ('a' <= c && c <= 'z')
}

/// The digit value of an alphabet symbol: '0'..'9' are 0..9, 'A'..'Z' are
/// 10..35, 'a'..'z' are 36..61. Meaningful only when `is_base62_char(c)`.
pub open spec fn char_value(c: char) -> int {
    if '0' <= c && c <= '9' {
        c as int - '0' as int
    } else if 'A' <= c && c <= 'Z' {
        10 + c as int - 'A' as int
    } else {
        36 + c as int - 'a' as int
    }
}

/// Whether every character of `s` is an alphabet symbol.
pub open spec fn all_base62(s: Seq<char>) -> bool {
    forall|i: int| 0 <= i < s.len() ==> is_base62_char(#[trigger] s[i])
}

/// The number a digit string denotes, most-significant digit first:
/// the empty string denotes 0, and appending a digit multiplies the
/// value so far by 62 and adds the digit.
pub open spec fn str_value(s: Seq<char>) -> int
    decreases s.len(),
{
    if s.len() == 0 {
        0
    } else {
        62 * str_value(s.drop_last()) + char_value(s.last())
    }
}

/// The alphabet symbol that stands for digit value `d`.
fn digit_char(d: u8) -> (c: char)
    requires
        d < 62,
    ensures
        is_base62_char(c),
        char_value(c) == d as int,
{
    if d < 10 {
        ('0' as u8 + d) as char
    } else if d < 36 {
        ('A' as u8 + (d - 10)) as char
    } else {
        ('a' as u8 + (d - 36)) as char
    }
}

/// The digit value of `c`, or `None` when `c` is outside the alphabet.
fn char_digit(c: char) -> (r: Option<u8>)
    ensures
        is_base62_char(c) ==> 0 <= char_value(c) < 62 && r == Some(char_value(c) as u8),
        !is_base62_char(c) ==> r == None::<u8>,
{
    let u = c as u32;
    if '0' as u32 <= u && u <= '9' as u32 {
        Some((u - '0' as u32) as u8)
    } else if 'A' as u32 <= u && u <= 'Z' as u32 {
        Some((10 + u - 'A' as u32) as u8)
    } else if 'a' as u32 <= u && u <= 'z' as u32 {
        Some((36 + u - 'a' as u32) as u8)
    } else {
        None
    }
}

/// Relies on String::push: appends exactly the given character.
#[verifier::external_body]
pub(crate) fn push_char(s: &mut String, c: char)
    ensures
        final(s)@ == old(s)@.push(c),
{
    s.push(c);
}

/// The minimal base62 numeral of a positive value, most-significant digit
/// first: the digits of `value / 62` followed by the symbol for `value % 62`.
fn encode_pos(value: u128) -> (r: String)
    requires
        value > 0,
    ensures
        r@.len() >= 1,
        all_base62(r@),
        str_value(r@) == value as int,
        char_value(r@[0]) != 0,
    decreases value,
{
    proof {
        vstd::arithmetic::div_mod::lemma_fundamental_div_mod(value as int, 62);
        vstd::arithmetic::div_mod::lemma_mod_division_less_than_divisor(value as int, 62);
    }
    let d = (value % 62) as u8;
    let c = digit_char(d);
    if value / 62 == 0 {
        let mut r = String::new();
        push_char(&mut r, c);
        proof {
            assert(r@.drop_last() =~= Seq::<char>::empty());
            assert(str_value(r@) == 62 * str_value(r@.drop_last()) + char_value(c));
        }
        r
    } else {
        let mut r = encode_pos(value / 62);
        let ghost prefix = r@;
        push_char(&mut r, c);
        proof {
            assert(r@.drop_last() =~= prefix);
            assert(str_value(r@) == 62 * str_value(prefix) + char_value(c));
        }
        r
    }
}

/// Encodes a 128-bit unsigned integer as its minimal base62 numeral,
/// most-significant digit first. Total: every `value` has an encoding.
/// The value 0 encodes as the single symbol "0"; for any other value the
/// leading digit is not the zero symbol.
pub fn encode(value: u128) -> (r: String)
    ensures
        r@.len() >= 1,
        all_base62(r@),
        str_value(r@) == value as int,
        value == 0 ==> r@ == seq!['0'],
        value != 0 ==> char_value(r@[0]) != 0 && r@[0] != '0',
{
    if value == 0 {
        let mut r = String::new();
        push_char(&mut r, '0');
        proof {
            assert(r@ =~= seq!['0']);
            assert(r@.drop_last() =~= Seq::<char>::empty());
            assert(str_value(r@) == 62 * str_value(r@.drop_last()) + char_value('0'));
        }
        r
    } else {
        encode_pos(value)
    }
}

/// What decoding does from position `i` onward with `acc` accumulated so
/// far, scanning left to right: a character outside the alphabet stops it
/// with `InvalidBase62Byte`, a multiply-then-add that would leave the
/// 128-bit range stops it with `ArithmeticOverflow`, and reaching the end
/// yields the accumulator.
pub open spec fn decode_from(s: Seq<char>, i: int, acc: u128) -> Result<u128, DecodeError>
    decreases s.len() - i,
{
    if i >= s.len() {
        Ok(acc)
    } else if !is_base62_char(s[i]) {
        Err(DecodeError::InvalidBase62Byte(s[i], i as usize))
    } else if 62 * (acc as int) + char_value(s[i]) > u128::MAX as int {
        Err(DecodeError::ArithmeticOverflow)
    } else {
        decode_from(s, i + 1, (62 * (acc as int) + char_value(s[i])) as u128)
    }
}

/// What decoding a whole string returns: its digits accumulated from an
/// empty accumulator. The empty string decodes to 0.
pub open spec fn decode_spec(s: Seq<char>) -> Result<u128, DecodeError> {
    decode_from(s, 0, 0)
}

/// Interprets `s` as a base62 numeral, most-significant digit first.
/// Returns exactly what `decode_spec` says: `Ok` of the denoted value,
/// `InvalidBase62Byte` at the first character outside the alphabet, or
/// `ArithmeticOverflow` as soon as the value would leave the 128-bit range.
pub fn decode(s: &str) -> (r: Result<u128, DecodeError>)
    ensures
        r == decode_spec(s@),
{
    let n = s.unicode_len();
    let mut i: usize = 0;
    let mut acc: u128 = 0;
    proof {
        assert(s@.take(0) =~= Seq::<char>::empty());
    }
    while i < n
        invariant
            n == s@.len(),
            i <= n,
            acc as int == str_value(s@.take(i as int)),
            decode_spec(s@) == decode_from(s@, i as int, acc),
        decreases n - i,
    {
        let c = s.get_char(i);
        match char_digit(c) {
            None => {
                return Err(DecodeError::InvalidBase62Byte(c, i));
            },
            Some(d) => {
                let next = match acc.checked_mul(62) {
                    Some(p) => p.checked_add(d as u128),
                    None => None,
                };
                match next {
                    None => {
                        return Err(DecodeError::ArithmeticOverflow);
                    },
                    Some(v) => {
                        proof {
                            assert(s@.take(i + 1).drop_last() =~= s@.take(i as int));
                        }
                        acc = v;
                        i = i + 1;
                    },
                }
            },
        }
    }
    Ok(acc)
}

proof fn lemma_str_value_nonneg(s: Seq<char>)
    requires
        all_base62(s),
    ensures
        str_value(s) >= 0,
    decreases s.len(),
{
    if s.len() > 0 {
        assert(all_base62(s.drop_last())) by {
            assert(forall|i: int|
                0 <= i < s.drop_last().len() ==> #[trigger] s.drop_last()[i] == s[i]);
        }
        lemma_str_value_nonneg(s.drop_last());
    }
}

proof fn lemma_str_value_take_succ(s: Seq<char>, i: int)
    requires
        0 <= i < s.len(),
    ensures
        str_value(s.take(i + 1)) == 62 * str_value(s.take(i)) + char_value(s[i]),
{
    assert(s.take(i + 1).drop_last() =~= s.take(i));
    assert(s.take(i + 1).last() == s[i]);
}

/// The value of a digit string never shrinks as more digits arrive:
/// each step multiplies a nonnegative value by 62 and adds a digit.
proof fn lemma_str_value_take_mono(s: Seq<char>, i: int, j: int)
    requires
        0 <= i <= j <= s.len(),
        forall|t: int| 0 <= t < j ==> is_base62_char(#[trigger] s[t]),
    ensures
        str_value(s.take(i)) <= str_value(s.take(j)),
    decreases j - i,
{
    if i < j {
        lemma_str_value_take_mono(s, i, j - 1);
        lemma_str_value_take_succ(s, j - 1);
        assert(all_base62(s.take(j - 1))) by {
            assert(forall|t: int|
                0 <= t < s.take(j - 1).len() ==> #[trigger] s.take(j - 1)[t] == s[t]);
        }
        lemma_str_value_nonneg(s.take(j - 1));
    }
}

proof fn lemma_decode_from_ok(s: Seq<char>, i: int)
    requires
        all_base62(s),
        0 <= i <= s.len(),
        str_value(s) <= u128::MAX,
    ensures
        decode_from(s, i, str_value(s.take(i)) as u128) == Ok::<u128, DecodeError>(str_value(s) as u128),
    decreases s.len() - i,
{
    lemma_str_value_nonneg(s);
    assert(s.take(s.len() as int) =~= s);
    lemma_str_value_take_mono(s, i, s.len() as int);
    assert(all_base62(s.take(i))) by {
        assert(forall|t: int| 0 <= t < s.take(i).len() ==> #[trigger] s.take(i)[t] == s[t]);
    }
    lemma_str_value_nonneg(s.take(i));
    if i < s.len() {
        lemma_str_value_take_succ(s, i);
        lemma_str_value_take_mono(s, i + 1, s.len() as int);
        lemma_decode_from_ok(s, i + 1);
    }
}

/// Law: a string of alphabet symbols whose value fits in 128 bits decodes
/// to exactly that value. In particular the empty string decodes to 0.
pub proof fn lemma_decode_ok(s: Seq<char>)
    requires
        all_base62(s),
        str_value(s) <= u128::MAX,
    ensures
        decode_spec(s) == Ok::<u128, DecodeError>(str_value(s) as u128),
{
    assert(s.take(0) =~= Seq::<char>::empty());
    lemma_decode_from_ok(s, 0);
}

/// Law (round trip): any string meeting `encode`'s postcondition for `x`
/// decodes to `Ok(x)`; with `encode`'s contract this gives
/// `decode(encode(x)) == Ok(x)` for every 128-bit `x`.
pub proof fn lemma_round_trip(s: Seq<char>, x: u128)
    requires
        all_base62(s),
        str_value(s) == x as int,
    ensures
        decode_spec(s) == Ok::<u128, DecodeError>(x),
{
    lemma_decode_ok(s);
}

proof fn lemma_decode_from_overflow(s: Seq<char>, i: int)
    requires
        all_base62(s),
        0 <= i <= s.len(),
        str_value(s.take(i)) <= u128::MAX,
        str_value(s) > u128::MAX,
    ensures
        decode_from(s, i, str_value(s.take(i)) as u128) == Err::<u128, DecodeError>(DecodeError::ArithmeticOverflow),
    decreases s.len() - i,
{
    assert(s.take(s.len() as int) =~= s);
    assert(all_base62(s.take(i))) by {
        assert(forall|t: int| 0 <= t < s.take(i).len() ==> #[trigger] s.take(i)[t] == s[t]);
    }
    lemma_str_value_nonneg(s.take(i));
    if i == s.len() {
        assert(false);
    } else {
        lemma_str_value_take_succ(s, i);
        if str_value(s.take(i + 1)) <= u128::MAX {
            lemma_decode_from_overflow(s, i + 1);
        }
    }
}

/// Law (overflow detection): a string of alphabet symbols that denotes a
/// value outside the 128-bit range decodes to `ArithmeticOverflow`, never
/// to a wrapped or truncated value.
pub proof fn lemma_decode_overflow(s: Seq<char>)
    requires
        all_base62(s),
        str_value(s) > u128::MAX,
    ensures
        decode_spec(s) == Err::<u128, DecodeError>(DecodeError::ArithmeticOverflow),
{
    assert(s.take(0) =~= Seq::<char>::empty());
    lemma_decode_from_overflow(s, 0);
}

proof fn lemma_decode_from_invalid(s: Seq<char>, i: int, k: int)
    requires
        0 <= i <= k < s.len(),
        forall|t: int| 0 <= t < k ==> is_base62_char(#[trigger] s[t]),
        !is_base62_char(s[k]),
        str_value(s.take(k)) <= u128::MAX,
    ensures
        decode_from(s, i, str_value(s.take(i)) as u128) == Err::<u128, DecodeError>(
            DecodeError::InvalidBase62Byte(s[k], k as usize),
        ),
    decreases k - i,
{
    lemma_str_value_take_mono(s, i, k);
    assert(all_base62(s.take(i))) by {
        assert(forall|t: int| 0 <= t < s.take(i).len() ==> #[trigger] s.take(i)[t] == s[t]);
    }
    lemma_str_value_nonneg(s.take(i));
    if i < k {
        lemma_str_value_take_succ(s, i);
        lemma_str_value_take_mono(s, i + 1, k);
        lemma_decode_from_invalid(s, i + 1, k);
    }
}

/// Law (invalid-character detection): a string whose first character
/// outside the alphabet stands at position `k` decodes to
/// `InvalidBase62Byte` naming that character and that position, provided
/// the digits before it still fit in 128 bits (otherwise the scan stops
/// earlier with `ArithmeticOverflow`).
pub proof fn lemma_decode_invalid_char(s: Seq<char>, k: int)
    requires
        0 <= k < s.len(),
        forall|t: int| 0 <= t < k ==> is_base62_char(#[trigger] s[t]),
        !is_base62_char(s[k]),
        str_value(s.take(k)) <= u128::MAX,
    ensures
        decode_spec(s) == Err::<u128, DecodeError>(DecodeError::InvalidBase62Byte(s[k], k as usize)),
{
    assert(s.take(0) =~= Seq::<char>::empty());
    lemma_decode_from_invalid(s, 0, k);
}

} // verus!
