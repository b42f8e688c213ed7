//! The RESP data model: type tags, decoded values, and decode errors,
//! together with the mathematical model of a decoded value tree.

use vstd::prelude::*;

verus! {

broadcast use vstd::std_specs::vec::group_vec_axioms;

/// The five RESP value kinds, told apart by the leading tag byte
/// (`+`, `-`, `:`, `$`, `*` respectively).
#[derive(PartialEq, Eq, Structural, Debug, Clone, Copy)]
pub enum RespType {
    SimpleString,
    Error,
    Integer,
    BulkString,
    Array,
}

/// Everything that can go wrong while decoding one RESP value.
///
/// A null bulk string or null array is a normal value, never an error.
#[derive(PartialEq, Eq, Structural, Debug, Clone, Copy)]
pub enum DecodeError {
    /// The source ran out of bytes in the middle of a frame.
    UnexpectedEndOfStream,
    /// The leading byte of a frame matched none of the five type tags.
    UnknownTypeTag(u8),
    /// A carriage return inside a line was not followed by a line feed.
    MalformedLineTerminator,
    /// A bulk-string payload was not followed by a carriage return and
    /// a line feed.
    MalformedLengthTerminator,
    /// An integer line held no characters at all.
    EmptyIntegerLine,
    /// An integer line held a character that is not a decimal digit
    /// (after an optional leading sign), or a sign with no digits.
    NonNumericContent,
    /// An integer line held a well-formed decimal number that does not
    /// fit in a 64-bit signed integer.
    IntegerOverflow,
}

/// A decoded RESP value: a pure tree, owned by the caller.
#[derive(PartialEq, Debug)]
pub enum RespValue {
    /// Line-delimited text; never contains a carriage return.
    SimpleString(Vec<u8>),
    /// Same framing as a simple string, but carries a failure reply.
    Error(Vec<u8>),
    /// A signed 64-bit integer.
    Integer(i64),
    /// A length-prefixed binary blob, or `None` for the null bulk string.
    BulkString(Option<Vec<u8>>),
    /// An ordered sequence of values, or `None` for the null array.
    Array(Option<Vec<RespValue>>),
}

/// The mathematical model of a decoded value: byte sequences and
/// unbounded integers in place of vectors and machine words.
pub ghost enum SpecValue {
    SimpleString(Seq<u8>),
    Error(Seq<u8>),
    Integer(int),
    BulkString(Option<Seq<u8>>),
    Array(Option<Seq<SpecValue>>),
}

/// The model of one executable value.
pub open spec fn value_model(v: RespValue) -> SpecValue
    decreases v,
{
    match v {
        RespValue::SimpleString(b) => SpecValue::SimpleString(b@),
        RespValue::Error(b) => SpecValue::Error(b@),
        RespValue::Integer(i) => SpecValue::Integer(i as int),
        RespValue::BulkString(p) => SpecValue::BulkString(
            match p {
                Option::Some(b) => Option::Some(b@),
                Option::None => Option::None,
            },
        ),
        RespValue::Array(e) => SpecValue::Array(
            match e {
                Option::Some(vs) => Option::Some(seq_model(vs@)),
                Option::None => Option::None,
            },
        ),
    }
}

/// The model of a sequence of executable values, element by element.
pub open spec fn seq_model(s: Seq<RespValue>) -> Seq<SpecValue>
    decreases s,
{
    if s.len() == 0 {
        Seq::empty()
    } else {
        seq_model(s.subrange(0, s.len() - 1)).push(value_model(s[s.len() - 1]))
    }
}

/// The model of a whole decode outcome.
pub open spec fn result_model(r: Result<RespValue, DecodeError>) -> Result<SpecValue, DecodeError> {
    match r {
        Result::Ok(v) => Result::Ok(value_model(v)),
        Result::Err(e) => Result::Err(e),
    }
}

/// Modelling commutes with appending one value at the end.
pub proof fn lemma_seq_model_push(s: Seq<RespValue>, v: RespValue)
    ensures
        seq_model(s.push(v)) == seq_model(s).push(value_model(v)),
{
    assert(s.push(v).subrange(0, s.push(v).len() - 1) =~= s);
    assert(s.push(v)[s.push(v).len() - 1] == v);
}

} // verus!
