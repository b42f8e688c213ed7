//! Tests of the recursive value decoder on whole frames, covering every
//! RESP type, the null sentinels, nesting, and each decode error.

use resp_decoder::decoder::decode_value;
use resp_decoder::source::ByteSource;
use resp_decoder::value::DecodeError;
use resp_decoder::value::RespValue;

fn decode_str(s: &str) -> Result<RespValue, DecodeError> {
    let mut src = ByteSource::new(s.as_bytes().to_vec());
    decode_value(&mut src)
}

#[test]
fn empty_input_fails_with_end_of_stream() {
    assert_eq!(Err(DecodeError::UnexpectedEndOfStream), decode_str(""));
}

#[test]
fn unknown_type_tag_fails() {
    assert_eq!(Err(DecodeError::UnknownTypeTag(b'?')), decode_str("?"));
}

#[test]
fn simple_strings_decode() {
    assert_eq!(Ok(RespValue::SimpleString(Vec::new())), decode_str("+\r\n"));
    assert_eq!(
        Ok(RespValue::SimpleString("OK".as_bytes().to_vec())),
        decode_str("+OK\r\n")
    );
}

#[test]
fn error_replies_decode() {
    assert_eq!(
        Ok(RespValue::Error("ERR unknown command".as_bytes().to_vec())),
        decode_str("-ERR unknown command\r\n")
    );
}

#[test]
fn lone_cr_in_simple_string_is_malformed() {
    assert_eq!(
        Err(DecodeError::MalformedLineTerminator),
        decode_str("+Foo\rBar\r\n")
    );
}

#[test]
fn integers_round_trip() {
    assert_eq!(Ok(RespValue::Integer(0)), decode_str(":0\r\n"));
    assert_eq!(Ok(RespValue::Integer(0)), decode_str(":-0\r\n"));
    assert_eq!(Ok(RespValue::Integer(-1)), decode_str(":-1\r\n"));
    assert_eq!(Ok(RespValue::Integer(2147483647)), decode_str(":2147483647\r\n"));
    assert_eq!(Ok(RespValue::Integer(i64::MAX)), decode_str(":9223372036854775807\r\n"));
    assert_eq!(Ok(RespValue::Integer(i64::MIN)), decode_str(":-9223372036854775808\r\n"));
}

#[test]
fn integer_frame_errors_are_exact() {
    assert_eq!(Err(DecodeError::EmptyIntegerLine), decode_str(":\r\n"));
    assert_eq!(Err(DecodeError::NonNumericContent), decode_str(":12a\r\n"));
    assert_eq!(Err(DecodeError::IntegerOverflow), decode_str(":9223372036854775808\r\n"));
}

#[test]
fn bulk_strings_decode() {
    assert_eq!(Ok(RespValue::BulkString(Some(Vec::new()))), decode_str("$0\r\n\r\n"));
    assert_eq!(Ok(RespValue::BulkString(None)), decode_str("$-1\r\n"));
    assert_eq!(
        Ok(RespValue::BulkString(Some("abc".as_bytes().to_vec()))),
        decode_str("$3\r\nabc\r\n")
    );
}

#[test]
fn bulk_string_payload_is_binary_safe() {
    assert_eq!(
        Ok(RespValue::BulkString(Some("ab\r\ncd\0e".as_bytes().to_vec()))),
        decode_str("$8\r\nab\r\ncd\0e\r\n")
    );
}

#[test]
fn truncated_bulk_string_is_end_of_stream() {
    assert_eq!(Err(DecodeError::UnexpectedEndOfStream), decode_str("$3\r\nab"));
    assert_eq!(Err(DecodeError::UnexpectedEndOfStream), decode_str("$3\r\nabc"));
    assert_eq!(Err(DecodeError::UnexpectedEndOfStream), decode_str("$3\r\nabc\r"));
}

#[test]
fn bulk_string_without_crlf_after_payload_is_malformed() {
    assert_eq!(
        Err(DecodeError::MalformedLengthTerminator),
        decode_str("$3\r\nabcXY")
    );
}

#[test]
fn any_negative_declared_length_is_the_null_sentinel() {
    assert_eq!(Ok(RespValue::BulkString(None)), decode_str("$-2\r\n"));
    assert_eq!(Ok(RespValue::Array(None)), decode_str("*-3\r\n"));
}

#[test]
fn arrays_decode() {
    assert_eq!(Ok(RespValue::Array(Some(Vec::new()))), decode_str("*0\r\n"));
    assert_eq!(Ok(RespValue::Array(None)), decode_str("*-1\r\n"));
    assert_eq!(
        Ok(RespValue::Array(Some(vec![RespValue::Integer(1), RespValue::Integer(2)]))),
        decode_str("*2\r\n:1\r\n:2\r\n")
    );
}

#[test]
fn nested_arrays_decode() {
    assert_eq!(
        Ok(RespValue::Array(Some(vec![RespValue::Array(Some(vec![RespValue::Integer(5)]))]))),
        decode_str("*1\r\n*1\r\n:5\r\n")
    );
}

#[test]
fn array_of_mixed_types_decodes() {
    assert_eq!(
        Ok(RespValue::Array(Some(vec![
            RespValue::SimpleString("OK".as_bytes().to_vec()),
            RespValue::BulkString(None),
            RespValue::Integer(-7),
        ]))),
        decode_str("*3\r\n+OK\r\n$-1\r\n:-7\r\n")
    );
}

#[test]
fn failing_element_fails_the_whole_array() {
    assert_eq!(Err(DecodeError::UnexpectedEndOfStream), decode_str("*2\r\n:1\r\n"));
    assert_eq!(Err(DecodeError::UnknownTypeTag(b'x')), decode_str("*2\r\n:1\r\nx"));
}

#[test]
fn decoding_is_a_pure_function_of_the_bytes() {
    assert_eq!(decode_str("*2\r\n:1\r\n+A\r\n"), decode_str("*2\r\n:1\r\n+A\r\n"));
    assert_eq!(decode_str("$3\r\nab"), decode_str("$3\r\nab"));

    let mut first = ByteSource::new("+OK\r\n".as_bytes().to_vec());
    let mut second = ByteSource::new("+OK\r\n".as_bytes().to_vec());
    assert_eq!(decode_value(&mut first), decode_value(&mut second));
}

#[test]
fn successive_values_decode_from_one_source() {
    let mut src = ByteSource::new("+OK\r\n:42\r\n$2\r\nhi\r\n".as_bytes().to_vec());
    assert_eq!(Ok(RespValue::SimpleString("OK".as_bytes().to_vec())), decode_value(&mut src));
    assert_eq!(Ok(RespValue::Integer(42)), decode_value(&mut src));
    assert_eq!(
        Ok(RespValue::BulkString(Some("hi".as_bytes().to_vec()))),
        decode_value(&mut src)
    );
    assert_eq!(Err(DecodeError::UnexpectedEndOfStream), decode_value(&mut src));
}
