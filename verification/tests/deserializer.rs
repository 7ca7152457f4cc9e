use thor::de::Deserializer;
use thor::error::Error;
use thor::value::Value;

#[test]
fn cursor_primitives() {
    let input = b"i-42e3:abc";
    let mut de = Deserializer::from_bytes(input);
    assert_eq!(de.peek_byte(), Ok(b'i'));
    assert_eq!(de.peek_two_bytes(), Ok((b'i', b'-')));
    assert_eq!(de.next_byte(), Ok(b'i'));
    let mut empty = Deserializer::from_bytes(b"");
    assert_eq!(empty.peek_byte(), Err(Error::Eof));
    assert_eq!(empty.peek_two_bytes(), Err(Error::Eof));
    assert_eq!(empty.next_byte(), Err(Error::Eof));
}

#[test]
fn number_tokens() {
    let mut de = Deserializer::from_bytes(b"123x");
    assert_eq!(de.parse_unsigned(), Ok(123));

    let mut de = Deserializer::from_bytes(b"-17e");
    assert_eq!(de.parse_signed(), Ok((true, 17)));
    let mut de = Deserializer::from_bytes(b"17e");
    assert_eq!(de.parse_signed(), Ok((false, 17)));

    let mut de = Deserializer::from_bytes(b"i99e");
    assert_eq!(de.parse_bencoding_num_unsigned(), Ok(99));
    let mut de = Deserializer::from_bytes(b"i-99e");
    assert_eq!(de.parse_bencoding_num_unsigned(), Err(Error::ExpectedInteger));
    let mut de = Deserializer::from_bytes(b"i-99e");
    assert_eq!(de.parse_bencoding_num_signed(), Ok((true, 99)));
    let mut de = Deserializer::from_bytes(b"x1e");
    assert_eq!(de.parse_bencoding_num_signed(), Err(Error::ExpectedInteger));
}

#[test]
fn string_tokens() {
    let mut de = Deserializer::from_bytes(b"3:abc");
    assert_eq!(de.parse_byte_string(), Ok(b"abc".to_vec()));

    let mut de = Deserializer::from_bytes(b"3:abc");
    assert_eq!(de.parse_string(), Ok("abc".to_string()));

    let mut de = Deserializer::from_bytes(b"2:\xff\xfe");
    assert_eq!(de.parse_string(), Err(Error::ExpectedString));
}

#[test]
fn whole_values() {
    let mut de = Deserializer::from_bytes(b"li1ei2ee3:abc");
    let v = de.parse_value().unwrap();
    assert_eq!(
        v,
        Value::List(vec![
            Value::Int { negative: false, magnitude: 1 },
            Value::Int { negative: false, magnitude: 2 },
        ])
    );
    // the cursor stands right after the list
    assert_eq!(de.parse_value().unwrap(), Value::Bytes(b"abc".to_vec()));
}
