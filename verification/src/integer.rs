//! The integer parser: reads one CRLF-terminated line and parses it as a
//! signed base-10 integer with an optional leading sign.

use vstd::prelude::*;

use crate::line::read_to_string;
use crate::line::spec_line;
use crate::line::SimpleStringReader;
use crate::source::ByteSource;
use crate::value::DecodeError;

verus! {

/// Is `b` the code of a decimal digit?
pub open spec fn is_digit(b: u8) -> bool {
    48 <= b <= 57
}

/// Does every byte of `l` code a decimal digit?
pub open spec fn all_digits(l: Seq<u8>) -> bool {
    forall|i: int| 0 <= i < l.len() ==> is_digit(#[trigger] l[i])
}

/// The value of a sequence of decimal digits, most significant first.
pub open spec fn dec_value(l: Seq<u8>) -> int
    decreases l.len(),
{
    if l.len() == 0 {
        0int
    } else {
        dec_value(l.subrange(0, l.len() - 1)) * 10 + (l[l.len() - 1] as int - 48)
    }
}

/// The signed integer a RESP integer line denotes, or the exact error:
/// an empty line, a non-digit (after the optional sign) or a bare sign,
/// or a value that does not fit in 64 signed bits. A leading `-` negates
/// the magnitude, a leading `+` is accepted, and leading zeros are
/// accepted.
pub open spec fn spec_parse_integer(l: Seq<u8>) -> Result<i64, DecodeError> {
    if l.len() == 0 {
        Err(DecodeError::EmptyIntegerLine)
    } else {
        let negative = l[0] == 45u8;
        let digits = if l[0] == 45u8 || l[0] == 43u8 {
            l.subrange(1, l.len() as int)
        } else {
            l
        };
        if digits.len() == 0 || !all_digits(digits) {
            Err(DecodeError::NonNumericContent)
        } else {
            let m = dec_value(digits);
            if negative {
                if -m >= i64::MIN as int {
                    Ok((-m) as i64)
                } else {
                    Err(DecodeError::IntegerOverflow)
                }
            } else {
                if m <= i64::MAX as int {
                    Ok(m as i64)
                } else {
                    Err(DecodeError::IntegerOverflow)
                }
            }
        }
    }
}

/// What reading an integer line from `s` at `pos` yields: the line read,
/// then parsed; errors of the line reader pass through unchanged.
pub open spec fn spec_integer(s: Seq<u8>, pos: int) -> (Result<i64, DecodeError>, int) {
    let (lr, q) = spec_line(s, pos);
    match lr {
        Ok(l) => (spec_parse_integer(l), q),
        Err(e) => (Err(e), q),
    }
}

/// A sequence of digits has a value of at least zero.
pub proof fn lemma_dec_value_nonneg(l: Seq<u8>)
    requires
        all_digits(l),
    ensures
        dec_value(l) >= 0,
    decreases l.len(),
{
    if l.len() > 0 {
        let front = l.subrange(0, l.len() - 1);
        assert(all_digits(front));
        lemma_dec_value_nonneg(front);
    }
}

/// Dropping digits from the end of a sequence never raises its value.
pub proof fn lemma_dec_value_prefix(l: Seq<u8>, k: int)
    requires
        all_digits(l),
        0 <= k <= l.len(),
    ensures
        dec_value(l.subrange(0, k)) <= dec_value(l),
    decreases l.len() - k,
{
    if k < l.len() {
        let next = l.subrange(0, k + 1);
        assert(all_digits(next));
        assert(next.subrange(0, k) =~= l.subrange(0, k));
        lemma_dec_value_nonneg(l.subrange(0, k));
        lemma_dec_value_prefix(l, k + 1);
    } else {
        assert(l.subrange(0, k) =~= l);
    }
}

/// Parse the bytes of one already-read line as a signed decimal integer.
#[verifier::loop_isolation(false)]
pub fn parse_integer(l: &Vec<u8>) -> (r: Result<i64, DecodeError>)
    ensures
        r == spec_parse_integer(l@),
{
    if l.len() == 0 {
        return Err(DecodeError::EmptyIntegerLine);
    }
    let first = l[0];
    let negative = first == 45u8;
    let start: usize = if first == 45u8 || first == 43u8 {
        1
    } else {
        0
    };
    let ghost digits = if start == 1 {
        l@.subrange(1, l@.len() as int)
    } else {
        l@
    };
    if l.len() == start {
        return Err(DecodeError::NonNumericContent);
    }
    let mut i: usize = start;
    while i < l.len()
        invariant
            start <= i <= l@.len(),
            start == 0 || start == 1,
            start < l@.len(),
            digits == l@.subrange(start as int, l@.len() as int),
            forall|j: int| start <= j < i ==> is_digit(#[trigger] l@[j]),
        decreases l@.len() - i,
    {
        let b = l[i];
        if b < 48u8 || b > 57u8 {
            proof {
                assert(digits[i - start] == l@[i as int]);
                assert(!is_digit(digits[i - start]));
            }
            return Err(DecodeError::NonNumericContent);
        }
        i = i + 1;
    }
    proof {
        assert forall|j: int| 0 <= j < digits.len() implies is_digit(#[trigger] digits[j]) by {
            assert(digits[j] == l@[j + start]);
        }
    }
    let bound: u64 = if negative {
        9223372036854775808u64
    } else {
        9223372036854775807u64
    };
    let mut m: u64 = 0;
    let mut k: usize = start;
    while k < l.len()
        invariant
            start <= k <= l@.len(),
            start == 0 || start == 1,
            start < l@.len(),
            digits == l@.subrange(start as int, l@.len() as int),
            all_digits(digits),
            negative ==> bound == 9223372036854775808u64,
            !negative ==> bound == 9223372036854775807u64,
            m <= bound,
            m as int == dec_value(l@.subrange(start as int, k as int)),
        decreases l@.len() - k,
    {
        let b = l[k];
        proof {
            assert(digits[k - start] == l@[k as int]);
        }
        let d = b - 48u8;
        if m > (bound - d as u64) / 10 {
            proof {
                let prefix = l@.subrange(start as int, k as int);
                let next = l@.subrange(start as int, k + 1);
                assert(next.subrange(0, next.len() - 1) =~= prefix);
                let bd = bound as int - d as int;
                vstd::arithmetic::div_mod::lemma_fundamental_div_mod(bd, 10);
                assert(m as int * 10 + d as int > bound as int);
                assert(dec_value(next) > bound as int);
                let dk = (k + 1 - start) as int;
                assert(digits.subrange(0, dk) =~= next);
                lemma_dec_value_prefix(digits, dk);
                assert(dec_value(digits) > bound as int);
            }
            return Err(DecodeError::IntegerOverflow);
        }
        proof {
            let prefix = l@.subrange(start as int, k as int);
            let next = l@.subrange(start as int, k + 1);
            assert(next.subrange(0, next.len() - 1) =~= prefix);
            let bd = bound as int - d as int;
            vstd::arithmetic::div_mod::lemma_fundamental_div_mod(bd, 10);
            assert(m as int * 10 + d as int <= bound as int);
        }
        m = m * 10 + d as u64;
        k = k + 1;
    }
    proof {
        assert(l@.subrange(start as int, l@.len() as int) =~= digits);
    }
    if negative {
        if m == 9223372036854775808u64 {
            Ok(i64::MIN)
        } else {
            Ok(-(m as i64))
        }
    } else {
        Ok(m as i64)
    }
}

/// Read one CRLF-terminated line from the source and parse it as a
/// signed decimal integer; errors of the line reader pass through.
pub fn read_integer(src: &mut ByteSource) -> (r: Result<i64, DecodeError>)
    ensures
        final(src).bytes() == old(src).bytes(),
        ({
            let (ir, q) = spec_integer(old(src).bytes(), old(src).position());
            r == ir && final(src).position() == q
        }),
{
    let mut reader = SimpleStringReader::new();
    match read_to_string(&mut reader, src) {
        Ok(line) => parse_integer(&line),
        Err(e) => Err(e),
    }
}

} // verus!
