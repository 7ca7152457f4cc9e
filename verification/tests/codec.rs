use thor::access::dict_get;
use thor::de::from_bytes;
use thor::error::Error;
use thor::ser::to_bytes;
use thor::value::{dict_insert, Value};

fn uint(n: u64) -> Value {
    Value::Int { negative: false, magnitude: n }
}

fn bytes(b: &[u8]) -> Value {
    Value::Bytes(b.to_vec())
}

#[test]
fn test_struct_deserialization() {
    let j = b"d3:inti1e3:seql1:a1:bee";
    let v = from_bytes(j).unwrap();
    let expected = Value::Dict(vec![
        (b"int".to_vec(), uint(1)),
        (b"seq".to_vec(), Value::List(vec![bytes(b"a"), bytes(b"b")])),
    ]);
    assert_eq!(expected, v);
    // the typed reading of the same record
    let int_field = v.lookup(b"int").unwrap().unwrap();
    assert_eq!(int_field.as_u32().unwrap(), 1);
    let seq_field = v.lookup(b"seq").unwrap().unwrap();
    let items = seq_field.as_list().unwrap();
    assert_eq!(items.len(), 2);
    assert_eq!(items[0].as_string().unwrap(), "a");
    assert_eq!(items[1].as_string().unwrap(), "b");
}

#[test]
fn test_enum_deserialization() {
    // a unit variant is the bare byte string naming it
    let e = from_bytes(b"4:Unit").unwrap();
    assert_eq!(e, bytes(b"Unit"));

    // a newtype variant is a one-entry dictionary
    let e = from_bytes(b"d7:Newtypei1ee").unwrap();
    assert_eq!(
        e,
        Value::Dict(vec![(b"Newtype".to_vec(), uint(1))])
    );

    // a tuple variant maps the name to a list
    let e = from_bytes(b"d5:Tupleli1ei2eee").unwrap();
    assert_eq!(
        e,
        Value::Dict(vec![(
            b"Tuple".to_vec(),
            Value::List(vec![uint(1), uint(2)])
        )])
    );

    // a record variant maps the name to a dictionary
    let e = from_bytes(b"d6:Structd1:ai1eee").unwrap();
    assert_eq!(
        e,
        Value::Dict(vec![(
            b"Struct".to_vec(),
            Value::Dict(vec![(b"a".to_vec(), uint(1))])
        )])
    );
}

#[test]
fn ser_test_struct_serialization() {
    let test = Value::Dict(vec![
        (b"int".to_vec(), uint(1)),
        (b"seq".to_vec(), Value::List(vec![bytes(b"20"), bytes(b"40")])),
    ]);
    let expected = "d3:inti1e3:seql2:202:40ee";
    assert_eq!(to_bytes(&test), expected.as_bytes());
}

#[test]
fn ser_test_enum_serialization() {
    let u = bytes(b"Unit");
    assert_eq!(to_bytes(&u), b"4:Unit");

    let n = Value::Dict(vec![(b"Newtype".to_vec(), uint(1))]);
    assert_eq!(to_bytes(&n), b"d7:Newtypei1ee");

    let t = Value::Dict(vec![(
        b"Tuple".to_vec(),
        Value::List(vec![uint(1), uint(2)]),
    )]);
    assert_eq!(to_bytes(&t), b"d5:Tupleli1ei2eee");

    let s = Value::Dict(vec![(
        b"Struct".to_vec(),
        Value::Dict(vec![(b"a".to_vec(), uint(1))]),
    )]);
    assert_eq!(to_bytes(&s), b"d6:Structd1:ai1eee");
}

#[test]
fn mod_test_struct_serialization() {
    // fields declared in non-sorted order still encode sorted
    let test = Value::Dict(vec![
        (b"seq".to_vec(), Value::List(vec![bytes(b"20"), bytes(b"40")])),
        (b"int".to_vec(), uint(1)),
    ]);
    let expected = "d3:inti1e3:seql2:202:40ee";
    assert_eq!(to_bytes(&test), expected.as_bytes());
}

#[test]
fn test_map_serialization() {
    // entries inserted in arbitrary order come out sorted by raw key
    let mut pairs: Vec<(Vec<u8>, Value)> = Vec::new();
    dict_insert(&mut pairs, b"my_key".to_vec(), uint(20));
    dict_insert(&mut pairs, b"other_key".to_vec(), uint(1000));
    dict_insert(&mut pairs, b"abc".to_vec(), uint(501));
    let map = Value::Dict(pairs);
    let expected = "d3:abci501e6:my_keyi20e9:other_keyi1000ee";
    assert_eq!(to_bytes(&map), expected.as_bytes());
}

#[test]
fn mod_test_enum_serialization() {
    let u = bytes(b"Unit");
    assert_eq!(to_bytes(&u), b"4:Unit");

    let n = Value::Dict(vec![(b"Newtype".to_vec(), uint(1))]);
    assert_eq!(to_bytes(&n), b"d7:Newtypei1ee");

    let t = Value::Dict(vec![(
        b"Tuple".to_vec(),
        Value::List(vec![uint(1), uint(2)]),
    )]);
    assert_eq!(to_bytes(&t), b"d5:Tupleli1ei2eee");

    let s = Value::Dict(vec![(
        b"Struct".to_vec(),
        Value::Dict(vec![(b"a".to_vec(), uint(1))]),
    )]);
    assert_eq!(to_bytes(&s), b"d6:Structd1:ai1eee");

    // fields declared unsorted encode sorted inside the variant payload
    let sorted = Value::Dict(vec![(
        b"StructSorted".to_vec(),
        Value::Dict(vec![
            (b"uiui".to_vec(), bytes(b"temp_string")),
            (b"abc".to_vec(), uint(1024)),
            (b"ppp".to_vec(), uint(1)),
        ]),
    )]);
    let expected = "d12:StructSortedd3:abci1024e3:pppi1e4:uiui11:temp_stringee";
    assert_eq!(to_bytes(&sorted), expected.as_bytes());
}

#[test]
fn test_option_serialization() {
    // the absent optional field contributes no key at all
    let s = Value::Dict(vec![
        (b"string_field".to_vec(), bytes(b"abcdef")),
        (b"other_field".to_vec(), Value::List(vec![])),
    ]);
    let expected = "d11:other_fieldle12:string_field6:abcdefe";
    assert_eq!(to_bytes(&s), expected.as_bytes());
}

#[test]
fn test_nested_struct_serialization() {
    let s = Value::Dict(vec![
        (
            b"nested_field".to_vec(),
            Value::Dict(vec![
                (b"field1".to_vec(), uint(20)),
                (b"field2".to_vec(), uint(64)),
            ]),
        ),
        (b"string_field".to_vec(), bytes(b"abcdef")),
    ]);
    let expected = "d12:nested_fieldd6:field1i20e6:field2i64ee12:string_field6:abcdefe";
    assert_eq!(to_bytes(&s), expected.as_bytes());
}

#[test]
fn round_trip_samples() {
    // records with nested records, lists, optional absents, byte
    // buffers and tagged unions all decode back to themselves
    let samples: Vec<Value> = vec![
        uint(0),
        uint(u64::MAX),
        Value::Int { negative: true, magnitude: 1 },
        Value::Int { negative: true, magnitude: u64::MAX },
        bytes(b""),
        bytes(b"\x00\xff\xfe raw bytes"),
        Value::List(vec![]),
        Value::List(vec![uint(1), bytes(b"x"), Value::List(vec![uint(2)])]),
        Value::Dict(vec![]),
        Value::Dict(vec![
            (b"a".to_vec(), Value::Dict(vec![(b"b".to_vec(), uint(1))])),
            (b"z".to_vec(), Value::List(vec![bytes(b"s")])),
        ]),
        Value::Dict(vec![(b"Newtype".to_vec(), uint(1))]),
        bytes(b"Unit"),
    ];
    for v in samples {
        let encoded = to_bytes(&v);
        let decoded = from_bytes(&encoded).unwrap();
        assert_eq!(decoded, v);
        // canonical encoding is idempotent, byte-exact
        let re_encoded = to_bytes(&decoded);
        assert_eq!(re_encoded, encoded);
    }
}

#[test]
fn encoding_canonicalizes_unsorted_input() {
    // an unsorted dictionary with a duplicate key encodes sorted, the
    // later binding of the key winning
    let v = Value::Dict(vec![
        (b"zz".to_vec(), uint(1)),
        (b"aa".to_vec(), uint(2)),
        (b"zz".to_vec(), uint(3)),
    ]);
    assert_eq!(to_bytes(&v), b"d2:aai2e2:zzi3ee");
    // negative zero is emitted as plain zero
    let z = Value::Int { negative: true, magnitude: 0 };
    assert_eq!(to_bytes(&z), b"i0e");
}

#[test]
fn trailing_bytes_rejected() {
    let v = Value::Dict(vec![(b"a".to_vec(), uint(1))]);
    let mut encoded = to_bytes(&v);
    assert!(from_bytes(&encoded).is_ok());
    encoded.push(b'x');
    assert_eq!(from_bytes(&encoded), Err(Error::TrailingCharacters));
}

#[test]
fn integer_range_checked() {
    // fits the 64-bit wire integer but not a narrow unsigned width
    let v = from_bytes(b"i9999999999999999999e").unwrap();
    assert_eq!(v.as_u32(), Err(Error::ExpectedInteger));
    assert_eq!(v.as_u16(), Err(Error::ExpectedInteger));
    assert_eq!(v.as_i64(), Err(Error::ExpectedInteger));
    assert_eq!(v.as_u64(), Ok(9999999999999999999));
    // beyond 64 bits the decode itself fails
    assert_eq!(from_bytes(b"i99999999999999999999e"), Err(Error::Syntax));
}

#[test]
fn decoder_error_kinds() {
    assert_eq!(from_bytes(b""), Err(Error::Eof));
    assert_eq!(from_bytes(b"x"), Err(Error::Syntax));
    assert_eq!(from_bytes(b"ie"), Err(Error::ExpectedInteger));
    assert_eq!(from_bytes(b"i1x"), Err(Error::ExpectedIntegerEnd));
    assert_eq!(from_bytes(b"i12"), Err(Error::Eof));
    assert_eq!(from_bytes(b"3abc"), Err(Error::ExpectedByteString));
    assert_eq!(from_bytes(b"5:ab"), Err(Error::Eof));
    assert_eq!(from_bytes(b"li1e"), Err(Error::Eof));
    assert_eq!(from_bytes(b"di1ei2ee"), Err(Error::ExpectedString));
    // lenient about what producers must not emit: leading zeros,
    // negative zero, unsorted and duplicate keys
    assert_eq!(from_bytes(b"i007e").unwrap(), uint(7));
    assert_eq!(
        from_bytes(b"i-0e").unwrap(),
        Value::Int { negative: false, magnitude: 0 }
    );
    let dup = from_bytes(b"d1:ai1e1:ai2ee").unwrap();
    let pairs = dup.as_dict().unwrap();
    assert_eq!(dict_get(pairs, b"a"), Some(&uint(2)));
}

#[test]
fn typed_accessor_errors() {
    let s = from_bytes(b"3:abc").unwrap();
    assert_eq!(s.as_string().unwrap(), "abc");
    assert_eq!(s.as_u32(), Err(Error::ExpectedInteger));
    assert_eq!(s.as_list().map(|_| ()), Err(Error::ExpectedList));
    assert_eq!(s.as_dict().map(|_| ()), Err(Error::ExpectedMap));
    assert_eq!(s.as_char(), Err(Error::ExpectedChar));
    let c = from_bytes(b"1:x").unwrap();
    assert_eq!(c.as_char(), Ok('x'));
    let i = from_bytes(b"i5e").unwrap();
    assert_eq!(i.as_bytes().map(|_| ()), Err(Error::ExpectedByteString));
    assert_eq!(i.as_bool(), Ok(true));
    assert_eq!(from_bytes(b"i0e").unwrap().as_bool(), Ok(false));
    // a byte string that is not UTF-8 is not a string
    let raw = from_bytes(b"2:\xff\xfe").unwrap();
    assert_eq!(raw.as_string(), Err(Error::ExpectedString));
    // negative values read back signed
    let neg = from_bytes(b"i-42e").unwrap();
    assert_eq!(neg.as_i64(), Ok(-42));
    assert_eq!(neg.as_i32(), Ok(-42));
    assert_eq!(neg.as_u64(), Err(Error::ExpectedInteger));
}

#[test]
fn tagged_union_reading() {
    let unit = from_bytes(b"4:Unit").unwrap();
    let (name, payload) = unit.as_variant().unwrap();
    assert_eq!(name, b"Unit");
    assert!(payload.is_none());

    let newtype = from_bytes(b"d7:Newtypei1ee").unwrap();
    let (name, payload) = newtype.as_variant().unwrap();
    assert_eq!(name, b"Newtype");
    assert_eq!(payload.unwrap().as_u32().unwrap(), 1);

    // neither a byte string nor a dictionary
    let not_enum = from_bytes(b"i5e").unwrap();
    assert_eq!(not_enum.as_variant().map(|_| ()), Err(Error::ExpectedEnum));
    let empty = from_bytes(b"de").unwrap();
    assert_eq!(empty.as_variant().map(|_| ()), Err(Error::ExpectedEnum));
    // the variant dictionary must end after its single entry
    let two = from_bytes(b"d1:ai1e1:bi2ee").unwrap();
    assert_eq!(two.as_variant().map(|_| ()), Err(Error::ExpectedMapEnd));
}
