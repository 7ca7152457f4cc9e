use thor::model::{FileInfo, InfoDict, MetaInfo};

fn sample_info() -> InfoDict {
    InfoDict {
        files: None,
        length: Some(5),
        md5sum: None,
        name: "a".to_string(),
        piece_length: 16384,
        pieces: b"01234567890123456789".to_vec(),
        private: None,
    }
}

#[test]
fn info_dict_encoding_is_canonical() {
    let d = sample_info();
    let encoded = d.encode();
    assert_eq!(
        encoded,
        b"d6:lengthi5e4:name1:a12:piece lengthi16384e6:pieces20:01234567890123456789e"
    );
}

#[test]
fn info_dict_optional_fields_omitted() {
    // no `md5sum`, `files` or `private` key appears anywhere
    let d = sample_info();
    let encoded = d.encode();
    let text = String::from_utf8_lossy(&encoded).to_string();
    assert!(!text.contains("md5sum"));
    assert!(!text.contains("files"));
    assert!(!text.contains("private"));
}

#[test]
fn meta_info_round_trip() {
    let t = MetaInfo {
        announce: "udp://tracker.example:6969/announce".to_string(),
        announce_list: Some(vec![
            vec!["udp://tracker.example:6969/announce".to_string()],
            vec!["udp://backup.example:1337".to_string()],
        ]),
        comment: Some("a comment".to_string()),
        created_by: None,
        creation_date: Some(1700000000),
        encoding: Some("UTF-8".to_string()),
        info: InfoDict {
            files: Some(vec![
                FileInfo {
                    length: 100,
                    md5sum: None,
                    path: vec!["dir".to_string(), "file.bin".to_string()],
                },
                FileInfo {
                    length: 7,
                    md5sum: Some("0123456789abcdef0123456789abcdef".to_string()),
                    path: vec!["other".to_string()],
                },
            ]),
            length: None,
            md5sum: None,
            name: "sample".to_string(),
            piece_length: 32768,
            pieces: vec![0u8; 40],
            private: Some(true),
        },
    };
    let encoded = t.encode();
    let back = MetaInfo::decode(&encoded).unwrap();
    assert_eq!(back, t);
    // canonical encoding is idempotent on the record level too
    assert_eq!(back.encode(), encoded);
}

#[test]
fn meta_info_requires_its_fields() {
    // a well-formed value that is not a dictionary
    assert!(MetaInfo::decode(b"le").is_err());
    // announce present but info missing
    assert!(MetaInfo::decode(b"d8:announce3:urle").is_err());
    // unknown keys are accepted and skipped
    let t = MetaInfo::decode(
        b"d8:announce3:url5:extrali1ee4:infod6:lengthi5e4:name1:a12:piece lengthi16384e6:pieces20:01234567890123456789ee",
    )
    .unwrap();
    assert_eq!(t.announce, "url");
    assert_eq!(t.info.length, Some(5));
    assert_eq!(t.info.name, "a");
    assert_eq!(t.info.piece_length, 16384);
    assert_eq!(t.announce_list, None);
}

#[test]
fn file_info_round_trip() {
    let f = FileInfo {
        length: 42,
        md5sum: Some("d41d8cd98f00b204e9800998ecf8427e".to_string()),
        path: vec!["a".to_string(), "b".to_string()],
    };
    let v = f.to_value();
    let encoded = thor::ser::to_bytes(&v);
    assert_eq!(
        encoded,
        b"d6:lengthi42e6:md5sum32:d41d8cd98f00b204e9800998ecf8427e4:pathl1:a1:bee"
    );
    let decoded = thor::de::from_bytes(&encoded).unwrap();
    let back = FileInfo::from_value(&decoded).unwrap();
    assert_eq!(back, f);
}
