//! The recursive top-level decoder: reads one type tag, dispatches to the
//! matching sub-reader, and, for arrays, decodes the declared number of
//! elements by re-entering itself. One call returns one fully decoded
//! value tree, or the first error met, and what it returns is a pure
//! function of the input bytes.

use vstd::prelude::*;

use crate::bulk::spec_bulk;
use crate::bulk::LengthBoundedReader;
use crate::integer::read_integer;
use crate::integer::spec_integer;
use crate::line::lemma_line_bounds;
use crate::line::read_to_string;
use crate::line::spec_line;
use crate::line::SimpleStringReader;
use crate::source::ByteSource;
use crate::tag::read_type;
use crate::tag::spec_tag;
use crate::value::result_model;
use crate::value::seq_model;
use crate::value::value_model;
use crate::value::DecodeError;
use crate::value::RespType;
use crate::value::RespValue;
use crate::value::SpecValue;

verus! {

/// What decoding one RESP value from `s` at `pos` yields, paired with
/// the cursor position after the decode: a type tag, then the framing
/// that the tag demands, recursively for arrays. This is the decoder's
/// whole meaning: a pure function of the byte stream.
pub open spec fn spec_decode(s: Seq<u8>, pos: int) -> (Result<SpecValue, DecodeError>, int)
    decreases s.len() - pos, 0int,
{
    let (tr, p1) = spec_tag(s, pos);
    match tr {
        Err(e) => (Err(e), p1),
        Ok(t) => match t {
            RespType::SimpleString => {
                let (lr, p2) = spec_line(s, p1);
                match lr {
                    Ok(l) => (Ok(SpecValue::SimpleString(l)), p2),
                    Err(e) => (Err(e), p2),
                }
            },
            RespType::Error => {
                let (lr, p2) = spec_line(s, p1);
                match lr {
                    Ok(l) => (Ok(SpecValue::Error(l)), p2),
                    Err(e) => (Err(e), p2),
                }
            },
            RespType::Integer => {
                let (ir, p2) = spec_integer(s, p1);
                match ir {
                    Ok(i) => (Ok(SpecValue::Integer(i as int)), p2),
                    Err(e) => (Err(e), p2),
                }
            },
            RespType::BulkString => {
                let (ir, p2) = spec_integer(s, p1);
                match ir {
                    Err(e) => (Err(e), p2),
                    Ok(n) => if n < 0 {
                        (Ok(SpecValue::BulkString(None)), p2)
                    } else {
                        let (br, p3) = spec_bulk(s, p2, n as int);
                        match br {
                            Ok(b) => (Ok(SpecValue::BulkString(Some(b))), p3),
                            Err(e) => (Err(e), p3),
                        }
                    },
                }
            },
            RespType::Array => {
                let (ir, p2) = spec_integer(s, p1);
                match ir {
                    Err(e) => (Err(e), p2),
                    Ok(n) => if n < 0 {
                        (Ok(SpecValue::Array(None)), p2)
                    } else if pos < p2 <= s.len() {
                        let (er, p3) = spec_decode_elems(s, p2, n as nat);
                        match er {
                            Ok(es) => (Ok(SpecValue::Array(Some(es))), p3),
                            Err(e) => (Err(e), p3),
                        }
                    } else {
                        // An integer line always moves the cursor forward
                        // and never past the end, so this branch is never
                        // taken; it keeps the recursion visibly bounded.
                        (Err(DecodeError::UnexpectedEndOfStream), p2)
                    },
                }
            },
        },
    }
}

/// What decoding `n` consecutive RESP values from `s` at `pos` yields:
/// the values in order, or the first error; partially decoded elements
/// are discarded on an error, but their bytes stay consumed.
pub open spec fn spec_decode_elems(s: Seq<u8>, pos: int, n: nat) -> (Result<
    Seq<SpecValue>,
    DecodeError,
>, int)
    decreases s.len() - pos, 1int,
{
    if n == 0 {
        (Ok(Seq::empty()), pos)
    } else {
        let (vr, p1) = spec_decode(s, pos);
        match vr {
            Err(e) => (Err(e), p1),
            Ok(v) => if pos < p1 <= s.len() {
                let (rr, p2) = spec_decode_elems(s, p1, (n - 1) as nat);
                match rr {
                    Ok(vs) => (Ok(seq![v] + vs), p2),
                    Err(e) => (Err(e), p2),
                }
            } else {
                // A decoded value always consumes at least its tag byte,
                // so this branch is never taken; it keeps the recursion
                // visibly bounded.
                (Err(DecodeError::UnexpectedEndOfStream), p1)
            },
        }
    }
}

/// Prepending already-decoded elements to the outcome of decoding the
/// remaining elements of an array.
pub open spec fn elems_cont(acc: Seq<SpecValue>, r: (Result<Seq<SpecValue>, DecodeError>, int)) -> (
    Result<Seq<SpecValue>, DecodeError>,
    int,
) {
    match r.0 {
        Ok(vs) => (Ok(acc + vs), r.1),
        Err(e) => (Err(e), r.1),
    }
}

/// One decode never moves the cursor backward nor past the end, and a
/// successful decode consumes at least one byte.
pub proof fn lemma_decode_advances(s: Seq<u8>, pos: int)
    requires
        0 <= pos <= s.len(),
    ensures
        ({
            let (r, q) = spec_decode(s, pos);
            pos <= q <= s.len() && (r is Ok ==> pos < q)
        }),
    decreases s.len() - pos, 0int,
{
    let (tr, p1) = spec_tag(s, pos);
    if tr is Ok {
        lemma_line_bounds(s, p1);
        let t = tr->Ok_0;
        if t is BulkString || t is Array {
            let (ir, p2) = spec_integer(s, p1);
            if ir is Ok && ir->Ok_0 >= 0 && t is Array {
                if pos < p2 <= s.len() {
                    lemma_decode_elems_advances(s, p2, ir->Ok_0 as nat);
                }
            }
        }
    }
}

/// Decoding a run of elements never moves the cursor backward nor past
/// the end.
pub proof fn lemma_decode_elems_advances(s: Seq<u8>, pos: int, n: nat)
    requires
        0 <= pos <= s.len(),
    ensures
        ({
            let (r, q) = spec_decode_elems(s, pos, n);
            pos <= q <= s.len()
        }),
    decreases s.len() - pos, 1int,
{
    if n > 0 {
        lemma_decode_advances(s, pos);
        let (vr, p1) = spec_decode(s, pos);
        if vr is Ok && pos < p1 <= s.len() {
            lemma_decode_elems_advances(s, p1, (n - 1) as nat);
        }
    }
}

/// A successfully decoded run of elements holds exactly as many values
/// as the declared count asked for.
pub proof fn lemma_decode_elems_count(s: Seq<u8>, pos: int, n: nat)
    ensures
        ({
            let (r, q) = spec_decode_elems(s, pos, n);
            r is Ok ==> r->Ok_0.len() == n
        }),
    decreases s.len() - pos, 1int,
{
    if n > 0 {
        let (vr, p1) = spec_decode(s, pos);
        if vr is Ok && pos < p1 <= s.len() {
            lemma_decode_elems_count(s, p1, (n - 1) as nat);
        }
    }
}

/// Read the full payload of a bulk string whose declared length has
/// already been read: exactly `n` verbatim bytes, then the CRLF
/// terminator.
#[verifier::loop_isolation(false)]
fn read_bulk_payload(src: &mut ByteSource, n: u64) -> (r: Result<Vec<u8>, DecodeError>)
    ensures
        final(src).bytes() == old(src).bytes(),
        ({
            let (br, q) = spec_bulk(old(src).bytes(), old(src).position(), n as int);
            &&& final(src).position() == q
            &&& match (r, br) {
                (Ok(c), Ok(b)) => c@ == b,
                (Err(e1), Err(e2)) => e1 == e2,
                _ => false,
            }
        }),
{
    proof {
        use_type_invariant(&*src);
    }
    let ghost s = src.bytes();
    let ghost p = src.position();
    let mut reader = LengthBoundedReader::new(n);
    let mut acc: Vec<u8> = Vec::new();
    loop
        invariant
            src.bytes() == s,
            reader.length() == n,
            !reader.is_terminated(),
            0 <= reader.emitted() <= n,
            src.position() == p + reader.emitted(),
            src.position() <= s.len(),
            acc@ == s.subrange(p, p + reader.emitted()),
        decreases s.len() - src.position(),
    {
        let rem = src.remaining();
        let want: usize = if rem == 0 {
            1
        } else {
            rem
        };
        let ghost q0 = reader.emitted();
        match reader.read(src, want) {
            Err(e) => {
                return Err(e);
            },
            Ok(mut c) => {
                proof {
                    let k = if want as int <= n - q0 {
                        want as int
                    } else {
                        n - q0
                    };
                    assert(acc@ + c@ =~= s.subrange(p, p + q0 + k));
                }
                acc.append(&mut c);
                if reader.done() {
                    proof {
                        assert(acc@ =~= s.subrange(p, p + n as int));
                    }
                    return Ok(acc);
                }
            },
        }
    }
}

/// Decode one RESP value from the source: read a type tag, then the
/// framing that the tag demands; for an array, decode the declared
/// number of elements by decoding one value at a time, in order. The
/// result, and exactly how far the cursor moves, are given by
/// `spec_decode` of the input bytes: decoding is a pure function of the
/// byte stream, with no state kept between calls.
#[verifier::loop_isolation(false)]
pub fn decode_value(src: &mut ByteSource) -> (r: Result<RespValue, DecodeError>)
    ensures
        final(src).bytes() == old(src).bytes(),
        ({
            let (sr, q) = spec_decode(old(src).bytes(), old(src).position());
            result_model(r) == sr && final(src).position() == q
        }),
    decreases src.bytes().len() - src.position(),
{
    proof {
        use_type_invariant(&*src);
    }
    let ghost s = src.bytes();
    let ghost p0 = src.position();
    let t = match read_type(src) {
        Ok(t) => t,
        Err(e) => {
            return Err(e);
        },
    };
    let ghost p1 = src.position();
    proof {
        lemma_line_bounds(s, p1);
    }
    match t {
        RespType::SimpleString => {
            let mut reader = SimpleStringReader::new();
            match read_to_string(&mut reader, src) {
                Ok(l) => Ok(RespValue::SimpleString(l)),
                Err(e) => Err(e),
            }
        },
        RespType::Error => {
            let mut reader = SimpleStringReader::new();
            match read_to_string(&mut reader, src) {
                Ok(l) => Ok(RespValue::Error(l)),
                Err(e) => Err(e),
            }
        },
        RespType::Integer => {
            match read_integer(src) {
                Ok(i) => Ok(RespValue::Integer(i)),
                Err(e) => Err(e),
            }
        },
        RespType::BulkString => {
            let n = match read_integer(src) {
                Ok(n) => n,
                Err(e) => {
                    return Err(e);
                },
            };
            if n < 0 {
                Ok(RespValue::BulkString(None))
            } else {
                match read_bulk_payload(src, n as u64) {
                    Ok(b) => Ok(RespValue::BulkString(Some(b))),
                    Err(e) => Err(e),
                }
            }
        },
        RespType::Array => {
            let n = match read_integer(src) {
                Ok(n) => n,
                Err(e) => {
                    return Err(e);
                },
            };
            if n < 0 {
                Ok(RespValue::Array(None))
            } else {
                let ghost p2 = src.position();
                let n_u = n as u64;
                let mut elems: Vec<RespValue> = Vec::new();
                let mut i: u64 = 0;
                while i < n_u
                    invariant
                        src.bytes() == s,
                        p0 < p2 <= src.position() <= s.len(),
                        i <= n_u,
                        elems@.len() == i,
                        spec_decode_elems(s, p2, n_u as nat) == elems_cont(
                            seq_model(elems@),
                            spec_decode_elems(s, src.position(), (n_u - i) as nat),
                        ),
                    decreases n_u - i,
                {
                    let ghost pos_i = src.position();
                    let ghost acc_before = elems@;
                    match decode_value(src) {
                        Ok(v) => {
                            proof {
                                lemma_decode_advances(s, pos_i);
                                crate::value::lemma_seq_model_push(acc_before, v);
                                let (rr, q2) = spec_decode_elems(
                                    s,
                                    src.position(),
                                    (n_u - i - 1) as nat,
                                );
                                match rr {
                                    Ok(vs) => {
                                        assert(seq_model(acc_before) + (seq![value_model(v)] + vs)
                                            =~= seq_model(acc_before).push(value_model(v)) + vs);
                                    },
                                    Err(_) => {},
                                }
                            }
                            elems.push(v);
                            i = i + 1;
                        },
                        Err(e) => {
                            return Err(e);
                        },
                    }
                }
                proof {
                    assert(seq_model(elems@) + Seq::<SpecValue>::empty() =~= seq_model(elems@));
                }
                Ok(RespValue::Array(Some(elems)))
            }
        },
    }
}

} // verus!
