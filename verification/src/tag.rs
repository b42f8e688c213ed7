//! The type-tag reader: the entry point of every decode step. It consumes
//! exactly one byte and classifies it as one of the five RESP types.

use vstd::prelude::*;

use crate::source::ByteSource;
use crate::value::DecodeError;
use crate::value::RespType;

verus! {

/// The RESP type a single tag byte names, or the unknown-tag error.
pub open spec fn tag_of(b: u8) -> Result<RespType, DecodeError> {
    if b == 43u8 {
        Ok(RespType::SimpleString)
    } else if b == 45u8 {
        Ok(RespType::Error)
    } else if b == 58u8 {
        Ok(RespType::Integer)
    } else if b == 36u8 {
        Ok(RespType::BulkString)
    } else if b == 42u8 {
        Ok(RespType::Array)
    } else {
        Err(DecodeError::UnknownTypeTag(b))
    }
}

/// What reading one type tag from `s` at `pos` yields, paired with the
/// cursor position after the read.
pub open spec fn spec_tag(s: Seq<u8>, pos: int) -> (Result<RespType, DecodeError>, int) {
    if 0 <= pos < s.len() {
        (tag_of(s[pos]), pos + 1)
    } else {
        (Err(DecodeError::UnexpectedEndOfStream), pos)
    }
}

/// Read exactly one byte from the source and map it to a RESP type:
/// `+ - : $ *` name the five types, any other byte is an error, and an
/// exhausted source is an end-of-stream error.
pub fn read_type(src: &mut ByteSource) -> (r: Result<RespType, DecodeError>)
    ensures
        final(src).bytes() == old(src).bytes(),
        ({
            let (tr, tq) = spec_tag(old(src).bytes(), old(src).position());
            r == tr && final(src).position() == tq
        }),
{
    proof {
        use_type_invariant(&*src);
    }
    match src.next() {
        None => Err(DecodeError::UnexpectedEndOfStream),
        Some(b) => {
            if b == 43u8 {
                Ok(RespType::SimpleString)
            } else if b == 45u8 {
                Ok(RespType::Error)
            } else if b == 58u8 {
                Ok(RespType::Integer)
            } else if b == 36u8 {
                Ok(RespType::BulkString)
            } else if b == 42u8 {
                Ok(RespType::Array)
            } else {
                Err(DecodeError::UnknownTypeTag(b))
            }
        },
    }
}

} // verus!
