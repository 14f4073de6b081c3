use redis_server::resp::Value;

#[test]
fn sut_deserialises_simple_string_correctly() {
    // Arrange
    let buf: &[u8] = b"+PING\r\n";

    // Act
    let (actual, _) = Value::deserialize(buf).unwrap();

    // Assert
    let expected = Value::SimpleString("PING".to_string());
    assert_eq!(actual, expected);
}

#[test]
fn sut_deserialises_bulk_string_correctly() {
    // Arrange
    let buf: &[u8] = b"$4\r\nECHO\r\n";

    // Act
    let (actual, _) = Value::deserialize(buf).unwrap();

    // Assert
    let expected = Value::BulkString("ECHO".to_string());
    assert_eq!(actual, expected);
}

#[test]
fn sut_deserialises_array_correctly() {
    // Arrange
    let buf: &[u8] = b"*2\r\n+PING\r\n$4\r\nECHO\r\n";

    // Act
    let (actual, _) = Value::deserialize(buf).unwrap();

    // Assert
    let expected = Value::Array(vec![
        Value::SimpleString("PING".to_string()),
        Value::BulkString("ECHO".to_string()),
    ]);
    assert_eq!(actual, expected);
}

#[test]
fn sut_deserialises_null_correctly() {
    let buf: &[u8] = b"$-1\r\n";
    let (actual, rest) = Value::deserialize(buf).unwrap();
    assert_eq!(actual, Value::Null);
    assert_eq!(rest, 5);
}

#[test]
fn sut_serialises_simple_string_correctly() {
    let value = Value::SimpleString("PONG".to_string());
    assert_eq!(value.serialize(), b"+PONG\r\n".to_vec());
}

#[test]
fn sut_serialises_bulk_string_correctly() {
    let value = Value::BulkString("hello".to_string());
    assert_eq!(value.serialize(), b"$5\r\nhello\r\n".to_vec());
}

#[test]
fn sut_serialises_null_correctly() {
    assert_eq!(Value::Null.serialize(), b"$-1\r\n".to_vec());
}

#[test]
fn sut_serialises_array_correctly() {
    let value = Value::Array(vec![
        Value::BulkString("SET".to_string()),
        Value::BulkString("foo".to_string()),
        Value::BulkString("bar".to_string()),
    ]);
    assert_eq!(
        value.serialize(),
        b"*3\r\n$3\r\nSET\r\n$3\r\nfoo\r\n$3\r\nbar\r\n".to_vec()
    );
}

#[test]
fn sut_round_trips_nested_arrays() {
    let value = Value::Array(vec![
        Value::Array(vec![Value::SimpleString("a".to_string()), Value::Null]),
        Value::BulkString("payload with \r\n inside".to_string()),
    ]);
    let bytes = value.serialize();
    let (decoded, consumed) = Value::deserialize(&bytes).unwrap();
    assert_eq!(decoded, value);
    assert_eq!(consumed, bytes.len());
}

#[test]
fn sut_decodes_multibyte_text_exactly() {
    // the bulk length counts bytes, not characters
    let buf: &[u8] = b"$3\r\nh\xc3\xa9\r\n";
    let (actual, _) = Value::deserialize(buf).unwrap();
    assert_eq!(actual, Value::BulkString("h\u{e9}".to_string()));
}

#[test]
fn sut_rejects_invalid_utf8_payload() {
    let buf: &[u8] = b"$2\r\n\xff\xfe\r\n";
    assert!(Value::deserialize(buf).is_none());
}

#[test]
fn sut_rejects_empty_buffer() {
    assert!(Value::deserialize(b"").is_none());
}

#[test]
fn sut_rejects_unknown_type_tag() {
    assert!(Value::deserialize(b":1\r\n").is_none());
}

#[test]
fn sut_rejects_carriage_return_without_line_feed_in_header() {
    assert!(Value::deserialize(b"+PI\rNG\r\n").is_none());
}

#[test]
fn sut_rejects_negative_bulk_length_other_than_minus_one() {
    assert!(Value::deserialize(b"$-2\r\n\r\n").is_none());
}

#[test]
fn sut_rejects_bulk_length_mismatch() {
    assert!(Value::deserialize(b"$5\r\nECHO\r\n").is_none());
}
