//! Tests of the sub-readers: type tags, delimited lines, and integer
//! lines, each driven against an in-memory byte source.

use resp_decoder::bulk::LengthBoundedReader;
use resp_decoder::integer::parse_integer;
use resp_decoder::integer::read_integer;
use resp_decoder::line::read_to_string;
use resp_decoder::line::SimpleStringReader;
use resp_decoder::source::ByteSource;
use resp_decoder::tag::read_type;
use resp_decoder::value::DecodeError;
use resp_decoder::value::RespType;

fn source_of(s: &str) -> ByteSource {
    ByteSource::new(s.as_bytes().to_vec())
}

#[test]
fn test_read_integer() {
    let mut bytes = source_of("");
    assert!(read_integer(&mut bytes).is_err());

    let mut bytes = source_of("\r\n");
    assert!(read_integer(&mut bytes).is_err());

    let mut bytes = source_of("0\r\n");
    assert_eq!(0, read_integer(&mut bytes).unwrap());

    let mut bytes = source_of("-0\r\n");
    assert_eq!(0, read_integer(&mut bytes).unwrap());

    let mut bytes = source_of("-1\r\n");
    assert_eq!(-1, read_integer(&mut bytes).unwrap());
}

#[test]
fn test_simple_string() {
    let mut bytes = source_of("\r");
    let mut reader = SimpleStringReader::new();
    assert!(read_to_string(&mut reader, &mut bytes).is_err());

    let mut bytes = source_of("Foo\rBar\r\n");
    let mut reader = SimpleStringReader::new();
    assert!(read_to_string(&mut reader, &mut bytes).is_err());

    let mut bytes = source_of("\r\n");
    let mut reader = SimpleStringReader::new();
    assert_eq!("".as_bytes().to_vec(), read_to_string(&mut reader, &mut bytes).unwrap());

    let mut bytes = source_of("OK\r\n");
    let mut reader = SimpleStringReader::new();
    assert_eq!("OK".as_bytes().to_vec(), read_to_string(&mut reader, &mut bytes).unwrap());

    let mut bytes = source_of("Foo\r\nBar");
    let mut reader = SimpleStringReader::new();
    assert_eq!("Foo".as_bytes().to_vec(), read_to_string(&mut reader, &mut bytes).unwrap());
    assert_eq!("".as_bytes().to_vec(), read_to_string(&mut reader, &mut bytes).unwrap());
}

#[test]
fn test_read_type() {
    let mut bytes = source_of("");
    assert!(read_type(&mut bytes).is_err());

    let mut bytes = source_of("?");
    assert!(read_type(&mut bytes).is_err());

    let mut bytes = source_of("+");
    assert_eq!(RespType::SimpleString, read_type(&mut bytes).unwrap());

    let mut bytes = source_of("-");
    assert_eq!(RespType::Error, read_type(&mut bytes).unwrap());

    let mut bytes = source_of(":");
    assert_eq!(RespType::Integer, read_type(&mut bytes).unwrap());

    let mut bytes = source_of("$");
    assert_eq!(RespType::BulkString, read_type(&mut bytes).unwrap());

    let mut bytes = source_of("*");
    assert_eq!(RespType::Array, read_type(&mut bytes).unwrap());
}

#[test]
fn unknown_tag_byte_is_named_in_the_error() {
    let mut bytes = source_of("?");
    assert_eq!(Err(DecodeError::UnknownTypeTag(b'?')), read_type(&mut bytes));
}

#[test]
fn lone_cr_inside_a_line_is_malformed() {
    let mut bytes = source_of("Foo\rBar\r\n");
    let mut reader = SimpleStringReader::new();
    assert_eq!(
        Err(DecodeError::MalformedLineTerminator),
        read_to_string(&mut reader, &mut bytes)
    );
}

#[test]
fn unterminated_line_is_end_of_stream() {
    let mut bytes = source_of("Foo");
    let mut reader = SimpleStringReader::new();
    assert_eq!(
        Err(DecodeError::UnexpectedEndOfStream),
        read_to_string(&mut reader, &mut bytes)
    );

    let mut bytes = source_of("\r");
    let mut reader = SimpleStringReader::new();
    assert_eq!(
        Err(DecodeError::UnexpectedEndOfStream),
        read_to_string(&mut reader, &mut bytes)
    );
}

#[test]
fn integer_line_errors_are_exact() {
    let mut bytes = source_of("\r\n");
    assert_eq!(Err(DecodeError::EmptyIntegerLine), read_integer(&mut bytes));

    let mut bytes = source_of("abc\r\n");
    assert_eq!(Err(DecodeError::NonNumericContent), read_integer(&mut bytes));

    let mut bytes = source_of("12x\r\n");
    assert_eq!(Err(DecodeError::NonNumericContent), read_integer(&mut bytes));

    let mut bytes = source_of("-\r\n");
    assert_eq!(Err(DecodeError::NonNumericContent), read_integer(&mut bytes));

    let mut bytes = source_of("+\r\n");
    assert_eq!(Err(DecodeError::NonNumericContent), read_integer(&mut bytes));
}

#[test]
fn integer_signs_and_leading_zeros_are_accepted() {
    let mut bytes = source_of("007\r\n");
    assert_eq!(7, read_integer(&mut bytes).unwrap());

    let mut bytes = source_of("+5\r\n");
    assert_eq!(5, read_integer(&mut bytes).unwrap());

    let mut bytes = source_of("9223372036854775807\r\n");
    assert_eq!(i64::MAX, read_integer(&mut bytes).unwrap());

    let mut bytes = source_of("-9223372036854775808\r\n");
    assert_eq!(i64::MIN, read_integer(&mut bytes).unwrap());
}

#[test]
fn integer_overflow_is_reported() {
    let mut bytes = source_of("9223372036854775808\r\n");
    assert_eq!(Err(DecodeError::IntegerOverflow), read_integer(&mut bytes));

    let mut bytes = source_of("-9223372036854775809\r\n");
    assert_eq!(Err(DecodeError::IntegerOverflow), read_integer(&mut bytes));

    assert_eq!(
        Err(DecodeError::IntegerOverflow),
        parse_integer(&"99999999999999999999".as_bytes().to_vec())
    );
}

#[test]
fn parse_integer_rejects_non_digits_before_overflow() {
    let line = "99999999999999999999x".as_bytes().to_vec();
    assert_eq!(Err(DecodeError::NonNumericContent), parse_integer(&line));
}

#[test]
fn simple_string_reader_reads_in_chunks() {
    let mut bytes = source_of("Hello\r\n");
    let mut reader = SimpleStringReader::new();
    assert_eq!("Hel".as_bytes().to_vec(), reader.read(&mut bytes, 3).unwrap());
    assert_eq!("lo".as_bytes().to_vec(), reader.read(&mut bytes, 10).unwrap());
    assert!(reader.read(&mut bytes, 10).unwrap().is_empty());
}

#[test]
fn length_bounded_reader_chunks_and_terminates() {
    let mut bytes = source_of("abcde\r\nrest");
    let mut reader = LengthBoundedReader::new(5);
    assert_eq!("abc".as_bytes().to_vec(), reader.read(&mut bytes, 3).unwrap());
    assert!(!reader.done());
    assert_eq!("de".as_bytes().to_vec(), reader.read(&mut bytes, 10).unwrap());
    assert!(reader.done());
    assert!(reader.read(&mut bytes, 10).unwrap().is_empty());
}

#[test]
fn length_bounded_reader_rejects_a_missing_terminator() {
    let mut bytes = source_of("abcXY");
    let mut reader = LengthBoundedReader::new(3);
    assert_eq!(
        Err(DecodeError::MalformedLengthTerminator),
        reader.read(&mut bytes, 3)
    );

    let mut bytes = source_of("ab");
    let mut reader = LengthBoundedReader::new(3);
    assert_eq!(
        Err(DecodeError::UnexpectedEndOfStream),
        reader.read(&mut bytes, 3)
    );
}
