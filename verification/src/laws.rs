//! Laws of the decoder, stated over the byte-stream model and proved for
//! every input at once.

use vstd::prelude::*;

use crate::decoder::spec_decode;
use crate::integer::all_digits;
use crate::integer::dec_value;
use crate::integer::is_digit;
use crate::line::lemma_line_of_terminated;
use crate::value::DecodeError;
use crate::value::SpecValue;

verus! {

/// Law: decoding is a pure function of the byte stream. Two sources that
/// hold the same bytes with the cursor at the same place decode to the
/// same value tree or the same error, and move the cursor by the same
/// amount; no state outlives a decode call. The decoder's contract pins
/// its result to `spec_decode` of its input, so this holds of every
/// call.
pub proof fn lemma_decode_deterministic(s1: Seq<u8>, p1: int, s2: Seq<u8>, p2: int)
    requires
        s1 == s2,
        p1 == p2,
    ensures
        spec_decode(s1, p1) == spec_decode(s2, p2),
{
}

/// The canonical decimal digits of a magnitude, most significant first.
pub open spec fn spec_digits(m: nat) -> Seq<u8>
    decreases m,
{
    if m < 10 {
        seq![(48 + m) as u8]
    } else {
        spec_digits(m / 10).push((48 + m % 10) as u8)
    }
}

/// The canonical wire encoding of an integer reply: the `:` tag, an
/// optional minus sign, the decimal digits, and the CRLF terminator.
pub open spec fn spec_encode_integer(n: int) -> Seq<u8> {
    let body = if n < 0 {
        seq![45u8] + spec_digits((-n) as nat)
    } else {
        spec_digits(n as nat)
    };
    seq![58u8] + body + seq![13u8, 10u8]
}

/// Canonical digits are digits, and there is at least one of them.
proof fn lemma_digits_are_digits(m: nat)
    ensures
        all_digits(spec_digits(m)),
        spec_digits(m).len() >= 1,
    decreases m,
{
    if m < 10 {
        assert(is_digit(spec_digits(m)[0]));
    } else {
        lemma_digits_are_digits(m / 10);
        let front = spec_digits(m / 10);
        let whole = spec_digits(m);
        assert forall|i: int| 0 <= i < whole.len() implies is_digit(#[trigger] whole[i]) by {
            if i < front.len() {
                assert(whole[i] == front[i]);
            }
        }
    }
}

/// Canonical digits denote the magnitude they were made from.
proof fn lemma_digits_value(m: nat)
    ensures
        dec_value(spec_digits(m)) == m,
    decreases m,
{
    if m < 10 {
        let whole = spec_digits(m);
        assert(whole.len() == 1);
        assert(whole.subrange(0, 0) =~= Seq::empty());
        assert(whole[0] == (48 + m) as u8);
        assert((48 + m) as u8 as int == 48 + m);
        assert(dec_value(whole) == dec_value(whole.subrange(0, 0)) * 10 + (whole[0] as int - 48));
    } else {
        lemma_digits_value(m / 10);
        let front = spec_digits(m / 10);
        let whole = spec_digits(m);
        assert(whole.subrange(0, whole.len() - 1) =~= front);
        assert(whole[whole.len() - 1] == (48 + m % 10) as u8);
        assert((48 + m % 10) as u8 as int == 48 + m % 10);
        vstd::arithmetic::div_mod::lemma_fundamental_div_mod(m as int, 10);
        assert(dec_value(whole) == (m / 10) * 10 + m % 10);
    }
}

/// Law: decoding the canonical encoding of any 64-bit signed integer
/// yields exactly that integer and consumes the whole encoding. Together
/// with the decoder's contract this is the round trip for integer
/// replies: whatever integer is put on the wire comes back unchanged.
pub proof fn lemma_integer_round_trip(n: i64)
    ensures
        ({
            let s = spec_encode_integer(n as int);
            spec_decode(s, 0) == (
                Ok::<SpecValue, DecodeError>(SpecValue::Integer(n as int)),
                s.len() as int,
            )
        }),
{
    let mag: nat = if n < 0 {
        (-(n as int)) as nat
    } else {
        n as nat
    };
    lemma_digits_are_digits(mag);
    lemma_digits_value(mag);
    let digits = spec_digits(mag);
    let body = if n < 0 {
        seq![45u8] + digits
    } else {
        digits
    };
    let s = spec_encode_integer(n as int);
    let end = 1 + body.len() as int;
    assert(s.len() == end + 2);
    assert(s[0] == 58u8);
    assert(s[end] == 13u8);
    assert(s[end + 1] == 10u8);
    assert forall|i: int| 1 <= i < end implies s[i] != 13u8 by {
        assert(s[i] == body[i - 1]);
        if n < 0 && i == 1 {
            assert(body[0] == 45u8);
        } else {
            assert(body[i - 1] == digits[if n < 0 {
                i - 2
            } else {
                i - 1
            }]);
            assert(is_digit(s[i]));
        }
    }
    lemma_line_of_terminated(s, 1, end);
    assert(s.subrange(1, end) =~= body);
    if n < 0 {
        assert(body[0] == 45u8);
        assert(body.subrange(1, body.len() as int) =~= digits);
        assert(dec_value(digits) == mag);
        assert(-dec_value(digits) >= i64::MIN as int);
    } else {
        assert(body[0] == digits[0]);
        assert(is_digit(body[0]));
        assert(body[0] != 45u8 && body[0] != 43u8);
        assert(dec_value(body) == mag);
        assert(dec_value(body) <= i64::MAX as int);
    }
}

} // verus!
