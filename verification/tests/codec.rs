use rust_eez::resp::ProtocolError;
use rust_eez::resp::RespType;

fn decode_all(raw: &str) -> RespType {
    match RespType::deserialize(raw.as_bytes()) {
        Ok((value, rest)) => {
            assert!(rest.is_empty());
            value
        }
        Err(e) => panic!("could not decode {:?}: {:?}", raw, e),
    }
}

#[test]
fn working_simple_string_deserializer() {
    assert_eq!(decode_all("+OK\r\n"), RespType::String("OK".into()));
}

#[test]
fn working_simple_string_serializer() {
    assert_eq!(
        RespType::String("OK".into()).serialize(),
        "+OK\r\n".as_bytes().to_vec()
    );
}

#[test]
fn working_error_deserializer() {
    assert_eq!(
        decode_all("-ERR Some Error\r\n"),
        RespType::Error("ERR Some Error".into())
    );
}

#[test]
fn working_error_serializer() {
    assert_eq!(
        RespType::Error("ERR Some Error".into()).serialize(),
        "-ERR Some Error\r\n".as_bytes().to_vec()
    );
}

#[test]
fn working_bulk_string_deserializer() {
    assert_eq!(decode_all("$2\r\nHI\r\n"), RespType::BulkString("HI".into()));
}

#[test]
fn working_bulk_string_serializer() {
    assert_eq!(
        RespType::BulkString("HI".into()).serialize(),
        "$2\r\nHI\r\n".as_bytes().to_vec()
    );
}

#[test]
fn working_simple_integer_deserialization() {
    assert_eq!(decode_all(":69\r\n"), RespType::Integer(69));
}

#[test]
fn working_simple_integer_serializer() {
    assert_eq!(RespType::Integer(69).serialize(), ":69\r\n".as_bytes().to_vec());
}

#[test]
fn working_array_deserialization() {
    assert_eq!(
        decode_all("*2\r\n$5\r\nHello\r\n$5\r\nWorld\r\n"),
        RespType::Array(vec![
            RespType::BulkString("Hello".into()),
            RespType::BulkString("World".into())
        ])
    );
}

#[test]
fn working_array_serialization() {
    assert_eq!(
        RespType::Array(vec![
            RespType::BulkString("Hello".into()),
            RespType::BulkString("World".into())
        ])
        .serialize(),
        "*2\r\n$5\r\nHello\r\n$5\r\nWorld\r\n".as_bytes().to_vec()
    );
}

#[test]
fn working_null_deserializer() {
    assert_eq!(decode_all("$-1\r\n"), RespType::Null);
}

#[test]
fn working_null_serializer() {
    assert_eq!(RespType::Null.serialize(), "$-1\r\n".as_bytes().to_vec());
}

#[test]
fn unknown_tag_is_reported_with_its_byte() {
    assert_eq!(
        RespType::deserialize(b"?what\r\n").err(),
        Some(ProtocolError::UnknownType(b'?'))
    );
}

fn decode_err(raw: &[u8]) -> ProtocolError {
    match RespType::deserialize(raw) {
        Ok((value, _)) => panic!("decoded {:?} from {:?}", value, raw),
        Err(e) => e,
    }
}

#[test]
fn empty_simple_string_is_decoded() {
    assert_eq!(decode_all("+\r\n"), RespType::String("".into()));
}

#[test]
fn empty_bulk_string_differs_from_null() {
    assert_eq!(decode_all("$0\r\n\r\n"), RespType::BulkString("".into()));
    assert_eq!(decode_all("$-1\r\n"), RespType::Null);
    assert_eq!(
        RespType::BulkString("".into()).serialize(),
        b"$0\r\n\r\n".to_vec()
    );
}

#[test]
fn any_negative_bulk_length_is_null() {
    assert_eq!(decode_all("$-7\r\n"), RespType::Null);
}

#[test]
fn empty_array_is_decoded() {
    assert_eq!(decode_all("*0\r\n"), RespType::Array(vec![]));
    assert_eq!(RespType::Array(vec![]).serialize(), b"*0\r\n".to_vec());
}

#[test]
fn nested_array_of_every_kind_is_decoded() {
    let raw = "*6\r\n+OK\r\n-ERR no\r\n:-12\r\n$3\r\nabc\r\n$-1\r\n*2\r\n*0\r\n:7\r\n";
    let expected = RespType::Array(vec![
        RespType::String("OK".into()),
        RespType::Error("ERR no".into()),
        RespType::Integer(-12),
        RespType::BulkString("abc".into()),
        RespType::Null,
        RespType::Array(vec![RespType::Array(vec![]), RespType::Integer(7)]),
    ]);
    assert_eq!(decode_all(raw), expected);
    assert_eq!(expected.serialize(), raw.as_bytes().to_vec());
}

#[test]
fn integer_takes_an_optional_sign() {
    assert_eq!(decode_all(":+5\r\n"), RespType::Integer(5));
    assert_eq!(decode_all(":-5\r\n"), RespType::Integer(-5));
    assert_eq!(decode_all(":5\r\n"), RespType::Integer(5));
    assert_eq!(decode_all(":-0\r\n"), RespType::Integer(0));
    assert_eq!(decode_all(":007\r\n"), RespType::Integer(7));
}

#[test]
fn integer_covers_the_whole_range() {
    assert_eq!(
        decode_all(":9223372036854775807\r\n"),
        RespType::Integer(i64::MAX)
    );
    assert_eq!(
        decode_all(":-9223372036854775808\r\n"),
        RespType::Integer(i64::MIN)
    );
    assert_eq!(
        decode_all(":0000000000000000000000000000042\r\n"),
        RespType::Integer(42)
    );
}

#[test]
fn integer_out_of_range_is_refused() {
    assert_eq!(
        decode_err(b":9223372036854775808\r\n"),
        ProtocolError::InvalidInteger
    );
    assert_eq!(
        decode_err(b":-9223372036854775809\r\n"),
        ProtocolError::InvalidInteger
    );
    assert_eq!(
        decode_err(b":99999999999999999999999999999999999999999\r\n"),
        ProtocolError::InvalidInteger
    );
}

#[test]
fn integer_that_is_no_number_is_refused() {
    assert_eq!(decode_err(b":\r\n"), ProtocolError::InvalidInteger);
    assert_eq!(decode_err(b":-\r\n"), ProtocolError::InvalidInteger);
    assert_eq!(decode_err(b":+\r\n"), ProtocolError::InvalidInteger);
    assert_eq!(decode_err(b":12a\r\n"), ProtocolError::InvalidInteger);
    assert_eq!(decode_err(b":1-2\r\n"), ProtocolError::InvalidInteger);
    assert_eq!(decode_err(b":--2\r\n"), ProtocolError::InvalidInteger);
    assert_eq!(decode_err(b": 2\r\n"), ProtocolError::InvalidInteger);
    assert_eq!(decode_err(b"$abc\r\n"), ProtocolError::InvalidInteger);
    assert_eq!(decode_err(b"*x\r\n"), ProtocolError::InvalidInteger);
}

#[test]
fn input_that_ends_too_soon_is_truncated() {
    assert_eq!(decode_err(b""), ProtocolError::Truncated);
    assert_eq!(decode_err(b"+OK"), ProtocolError::Truncated);
    assert_eq!(decode_err(b"+OK\r"), ProtocolError::Truncated);
    assert_eq!(decode_err(b":12"), ProtocolError::Truncated);
    assert_eq!(decode_err(b":12\r"), ProtocolError::Truncated);
    assert_eq!(decode_err(b":1x"), ProtocolError::Truncated);
    assert_eq!(decode_err(b"$5\r\nabc\r\n"), ProtocolError::Truncated);
    assert_eq!(decode_err(b"$3\r\nabc\r"), ProtocolError::Truncated);
    assert_eq!(decode_err(b"$3\r\nabc"), ProtocolError::Truncated);
    assert_eq!(decode_err(b"*2\r\n:1\r\n"), ProtocolError::Truncated);
    assert_eq!(
        decode_err(b"*9223372036854775807\r\n"),
        ProtocolError::Truncated
    );
    assert_eq!(
        decode_err(b"$9223372036854775807\r\nabc\r\n"),
        ProtocolError::Truncated
    );
}

#[test]
fn negative_array_length_is_refused() {
    assert_eq!(decode_err(b"*-1\r\n"), ProtocolError::NegativeLength);
}

#[test]
fn unknown_tag_inside_an_array_is_reported() {
    assert_eq!(
        decode_err(b"*2\r\n:1\r\n!2\r\n"),
        ProtocolError::UnknownType(b'!')
    );
}

#[test]
fn first_error_in_an_array_wins() {
    assert_eq!(
        decode_err(b"*3\r\n:x\r\n!2\r\n"),
        ProtocolError::InvalidInteger
    );
}

#[test]
fn decoding_stops_after_one_value() {
    let raw = b"*1\r\n$4\r\nPING\r\n*2\r\n$3\r\nGET\r\n$1\r\nk\r\n";
    let (first, rest) = RespType::deserialize(raw).unwrap();
    assert_eq!(
        first,
        RespType::Array(vec![RespType::BulkString("PING".into())])
    );
    assert_eq!(rest, b"*2\r\n$3\r\nGET\r\n$1\r\nk\r\n");
    let (second, rest) = RespType::deserialize(rest).unwrap();
    assert_eq!(
        second,
        RespType::Array(vec![
            RespType::BulkString("GET".into()),
            RespType::BulkString("k".into())
        ])
    );
    assert!(rest.is_empty());
}

#[test]
fn byte_after_the_carriage_return_of_a_number_is_skipped() {
    let (value, rest) = RespType::deserialize(b":5\rX+OK\r\n").unwrap();
    assert_eq!(value, RespType::Integer(5));
    assert_eq!(rest, b"+OK\r\n");
}

#[test]
fn two_bytes_after_a_bulk_string_are_skipped() {
    let (value, rest) = RespType::deserialize(b"$11\r\nHELLO WORLD\0\0\0").unwrap();
    assert_eq!(value, RespType::BulkString("HELLO WORLD".into()));
    assert_eq!(rest, b"\0");
}

#[test]
fn bulk_string_may_hold_line_ends() {
    assert_eq!(
        decode_all("$4\r\na\r\nb\r\n"),
        RespType::BulkString("a\r\nb".into())
    );
}

#[test]
fn simple_string_ends_at_the_first_line_end() {
    let (value, rest) = RespType::deserialize(b"+a\rb\nc\r\r\nrest").unwrap();
    assert_eq!(value, RespType::String("a\rb\nc\r".into()));
    assert_eq!(rest, b"rest");
}

#[test]
fn each_byte_is_read_as_one_character() {
    let (value, rest) = RespType::deserialize(b"$2\r\n\xff\x80\r\n").unwrap();
    assert_eq!(value, RespType::BulkString("\u{ff}\u{80}".into()));
    assert!(rest.is_empty());
    let (value, _) = RespType::deserialize(b"+\xe9\r\n").unwrap();
    assert_eq!(value, RespType::String("\u{e9}".into()));
}

#[test]
fn bulk_length_counts_bytes() {
    assert_eq!(
        RespType::BulkString("\u{ff}".into()).serialize(),
        b"$2\r\n\xc3\xbf\r\n".to_vec()
    );
    assert_eq!(
        RespType::BulkString("0123456789".into()).serialize(),
        b"$10\r\n0123456789\r\n".to_vec()
    );
}

#[test]
fn text_beyond_ascii_does_not_come_back() {
    let bytes = RespType::BulkString("\u{ff}".into()).serialize();
    let (value, _) = RespType::deserialize(&bytes).unwrap();
    assert_eq!(value, RespType::BulkString("\u{c3}\u{bf}".into()));
}

#[test]
fn integers_are_written_in_decimal() {
    assert_eq!(RespType::Integer(0).serialize(), b":0\r\n".to_vec());
    assert_eq!(RespType::Integer(-1).serialize(), b":-1\r\n".to_vec());
    assert_eq!(RespType::Integer(10).serialize(), b":10\r\n".to_vec());
    assert_eq!(
        RespType::Integer(i64::MAX).serialize(),
        b":9223372036854775807\r\n".to_vec()
    );
    assert_eq!(
        RespType::Integer(i64::MIN).serialize(),
        b":-9223372036854775808\r\n".to_vec()
    );
}

#[test]
fn array_length_is_written_in_decimal() {
    let mut items = Vec::new();
    for i in 0..12 {
        items.push(RespType::Integer(i));
    }
    let bytes = RespType::Array(items).serialize();
    assert!(bytes.starts_with(b"*12\r\n:0\r\n:1\r\n"));
    assert!(bytes.ends_with(b":11\r\n"));
}

#[test]
fn serialize_into_appends() {
    let mut bytes = b"+OK\r\n".to_vec();
    RespType::Integer(3).serialize_into(&mut bytes);
    RespType::Null.serialize_into(&mut bytes);
    assert_eq!(bytes, b"+OK\r\n:3\r\n$-1\r\n".to_vec());
}

#[test]
fn decoding_what_was_encoded_gives_the_value_back() {
    let values = vec![
        RespType::String("OK".into()),
        RespType::String("".into()),
        RespType::String("lone \r and \n stay".into()),
        RespType::Error("WRONGTYPE no".into()),
        RespType::Integer(0),
        RespType::Integer(-42),
        RespType::Integer(i64::MIN),
        RespType::Integer(i64::MAX),
        RespType::BulkString("".into()),
        RespType::BulkString("with\r\nline end".into()),
        RespType::Null,
        RespType::Array(vec![]),
        RespType::Array(vec![
            RespType::Null,
            RespType::Array(vec![RespType::BulkString("x".into()), RespType::Integer(1)]),
            RespType::String("y".into()),
        ]),
    ];
    for value in values {
        let expected = format!("{:?}", value);
        let mut bytes = value.serialize();
        bytes.extend_from_slice(b"tail");
        let (decoded, rest) = RespType::deserialize(&bytes).unwrap();
        assert_eq!(format!("{:?}", decoded), expected);
        assert_eq!(rest, b"tail");
    }
}

#[test]
fn encoding_what_was_decoded_normalizes_null() {
    let (value, _) = RespType::deserialize(b"$-5\r\n").unwrap();
    assert_eq!(value.serialize(), b"$-1\r\n".to_vec());
}

#[test]
fn number_field_is_read_alone() {
    assert_eq!(
        RespType::deserialize_number(b"-17\r\nrest"),
        Ok((-17, &b"rest"[..]))
    );
    assert_eq!(
        RespType::deserialize_number(b"17"),
        Err(ProtocolError::Truncated)
    );
}

#[test]
fn simple_string_field_is_read_alone() {
    assert_eq!(
        RespType::deserialize_simple_string(b"OK\r\nrest"),
        Ok(("OK".to_string(), &b"rest"[..]))
    );
    assert_eq!(
        RespType::deserialize_simple_string(b"OK\n"),
        Err(ProtocolError::Truncated)
    );
}

#[test]
fn simple_string_with_a_line_end_does_not_come_back() {
    let bytes = RespType::String("a\r\nb".into()).serialize();
    assert_eq!(bytes, b"+a\r\nb\r\n".to_vec());
    let (value, rest) = RespType::deserialize(&bytes).unwrap();
    assert_eq!(value, RespType::String("a".into()));
    assert_eq!(rest, b"b\r\n");
}
