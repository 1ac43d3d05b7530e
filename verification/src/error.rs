use vstd::prelude::*;

verus! {

use crate::base62::push_char;

/// The two ways a base62 string can fail to decode. Both are recoverable:
/// decoding surfaces them to the caller as a typed result and never panics.
#[derive(Clone, Copy, Debug, PartialEq, Eq, Structural)]
pub enum DecodeError {
    /// The input held a character outside the base62 alphabet; carries the
    /// offending character and its zero-based position in the input.
    InvalidBase62Byte(char, usize),
    /// The numeral the input spells does not fit in an unsigned 128-bit value.
    ArithmeticOverflow,
}

/// The decimal digits of a positive number, most-significant first:
/// the digits of `n / 10` followed by the symbol for `n % 10`.
pub open spec fn dec_digits(n: int) -> Seq<char>
    decreases n,
{
    if n <= 0 {
        Seq::<char>::empty()
    } else {
        dec_digits(n / 10).push(('0' as int + n % 10) as char)
    }
}

/// The usual decimal numeral of a nonnegative number: "0" for zero,
/// otherwise its digits with no leading zero.
pub open spec fn decimal_seq(n: int) -> Seq<char> {
    if n == 0 {
        seq!['0']
    } else {
        dec_digits(n)
    }
}

/// The description `message` returns for each error, character for
/// character.
pub open spec fn message_spec(e: DecodeError) -> Seq<char> {
    match e {
        DecodeError::InvalidBase62Byte(c, p) => "Invalid character '"@ + seq![c]
            + "' at position "@ + decimal_seq(p as int),
        DecodeError::ArithmeticOverflow => "Decode result is too large"@,
    }
}

/// The decimal numeral of a positive number, built most-significant digit
/// first.
fn dec_pos(n: usize) -> (r: String)
    requires
        n > 0,
    ensures
        r@ == dec_digits(n as int),
    decreases n,
{
    proof {
        vstd::arithmetic::div_mod::lemma_fundamental_div_mod(n as int, 10);
        vstd::arithmetic::div_mod::lemma_mod_division_less_than_divisor(n as int, 10);
    }
    let d = (n % 10) as u8;
    let c = ('0' as u8 + d) as char;
    if n / 10 == 0 {
        let mut r = String::new();
        push_char(&mut r, c);
        proof {
            assert(dec_digits(0) =~= Seq::<char>::empty());
            assert(r@ =~= dec_digits(n as int));
        }
        r
    } else {
        let mut r = dec_pos(n / 10);
        push_char(&mut r, c);
        proof {
            assert(r@ =~= dec_digits(n as int));
        }
        r
    }
}

impl DecodeError {
    /// The human-readable description of the error: the offending character
    /// and its position for `InvalidBase62Byte`, a fixed sentence for
    /// `ArithmeticOverflow`.
    pub fn message(&self) -> (r: String)
        ensures
            r@ == message_spec(*self),
    {
        match self {
            DecodeError::InvalidBase62Byte(c, p) => {
                let mut r = String::from_str("Invalid character '");
                push_char(&mut r, *c);
                r.append("' at position ");
                if *p == 0 {
                    push_char(&mut r, '0');
                    proof {
                        assert(r@ =~= message_spec(*self));
                    }
                } else {
                    let digits = dec_pos(*p);
                    r.append(digits.as_str());
                    proof {
                        assert(r@ =~= message_spec(*self));
                    }
                }
                r
            },
            DecodeError::ArithmeticOverflow => String::from_str("Decode result is too large"),
        }
    }
}

} // verus!
