use thor::model::InfoDict;
use thor::peer::Peer;
use thor::tracker::{
    get_connect_request, get_hashed_info_dict, get_peer_id, read_announce_response,
    read_connect_response, AnnounceResponse, ConnectResponse, Session, SessionState, TrackerError,
};

fn be32(x: u32) -> [u8; 4] {
    x.to_be_bytes()
}

fn be64(x: u64) -> [u8; 8] {
    x.to_be_bytes()
}

fn sent_transaction_id(request: &[u8]) -> u32 {
    // every request carries its transaction id in bytes 12..16
    u32::from_be_bytes([request[12], request[13], request[14], request[15]])
}

#[test]
fn connect_request_layout() {
    let req = get_connect_request(0x01020304);
    let mut expected = Vec::new();
    expected.extend_from_slice(&be64(0x41727101980));
    expected.extend_from_slice(&be32(0));
    expected.extend_from_slice(&be32(0x01020304));
    assert_eq!(req, expected);
    assert_eq!(req.len(), 16);
}

#[test]
fn connect_response_extracts_connection_id() {
    let mut session = Session::new(6881);
    let req = session.connect_request();
    let txn = sent_transaction_id(&req);

    // action CONNECT, the echoed transaction id, then the connection id
    let mut buf = Vec::new();
    buf.extend_from_slice(&be32(0));
    buf.extend_from_slice(&be32(txn));
    buf.extend_from_slice(&be64(0xAABBCCDDEEFF0011));
    let nread = buf.len();
    buf.resize(1024, 0);

    let cid = session.on_connect_response(&buf, nread).unwrap();
    assert_eq!(cid, 0xAABBCCDDEEFF0011);
    assert_eq!(
        session.state,
        SessionState::Connected { connection_id: 0xAABBCCDDEEFF0011 }
    );
}

#[test]
fn mismatched_transaction_id_prevents_announce() {
    let mut session = Session::new(6881);
    let req = session.connect_request();
    let txn = sent_transaction_id(&req);

    let mut buf = Vec::new();
    buf.extend_from_slice(&be32(0));
    buf.extend_from_slice(&be32(txn.wrapping_add(1)));
    buf.extend_from_slice(&be64(0xAABBCCDDEEFF0011));
    let nread = buf.len();

    let r = session.on_connect_response(&buf, nread);
    assert_eq!(r, Err(TrackerError::IncorrectTransactionId));
    assert_eq!(session.state, SessionState::Idle);

    // the subsequent announce is not attempted: no bytes are built
    let info_hash = [0u8; 20];
    let peer_id = [1u8; 20];
    let announce = session.announce_request(&info_hash, &peer_id);
    assert!(matches!(announce, Err(TrackerError::Io(_))));
    assert_eq!(session.state, SessionState::Idle);
}

#[test]
fn timeout_yields_timeout_and_resets() {
    let mut session = Session::new(6881);
    let _req = session.connect_request();
    let e = session.on_timeout();
    assert_eq!(e, TrackerError::Timeout);
    assert_eq!(session.state, SessionState::Idle);
}

#[test]
fn announce_response_parsed_with_peers_in_order() {
    let mut session = Session::new(6881);
    let req = session.connect_request();
    let txn = sent_transaction_id(&req);
    let mut buf = Vec::new();
    buf.extend_from_slice(&be32(0));
    buf.extend_from_slice(&be32(txn));
    buf.extend_from_slice(&be64(7));
    session.on_connect_response(&buf, 16).unwrap();

    let info_hash = [0u8; 20];
    let peer_id = [1u8; 20];
    let announce = session.announce_request(&info_hash, &peer_id).unwrap();
    assert_eq!(announce.len(), 100);
    let announce_txn = sent_transaction_id(&announce);

    let mut resp = Vec::new();
    resp.extend_from_slice(&be32(1));
    resp.extend_from_slice(&be32(announce_txn));
    resp.extend_from_slice(&be32(1800));
    resp.extend_from_slice(&be32(3));
    resp.extend_from_slice(&be32(5));
    resp.extend_from_slice(&be32(0x01020304));
    resp.extend_from_slice(&6881u16.to_be_bytes());
    resp.extend_from_slice(&be32(0x05060708));
    resp.extend_from_slice(&6882u16.to_be_bytes());
    let nread = resp.len();

    let payload = session.on_announce_response(&resp, nread).unwrap();
    assert_eq!(payload.interval, 1800);
    assert_eq!(payload.num_leechers, 3);
    assert_eq!(payload.num_seeders, 5);
    assert_eq!(
        payload.peers,
        vec![
            Peer { ip: 0x01020304, port: 6881 },
            Peer { ip: 0x05060708, port: 6882 },
        ]
    );
    assert_eq!(session.state, SessionState::Connected { connection_id: 7 });
}

#[test]
fn server_error_is_surfaced() {
    let mut resp = Vec::new();
    resp.extend_from_slice(&be32(3));
    resp.extend_from_slice(&be32(9));
    resp.extend_from_slice(b"tracker says no");
    match read_connect_response(&resp, resp.len()).unwrap() {
        ConnectResponse::Error(msg) => assert_eq!(msg, "tracker says no"),
        other => panic!("expected a server error, got {:?}", other),
    }
    match read_announce_response(&resp, resp.len()).unwrap() {
        AnnounceResponse::Error(msg) => assert_eq!(msg, "tracker says no"),
        other => panic!("expected a server error, got {:?}", other),
    }
}

#[test]
fn framing_errors_rejected() {
    // unknown action code
    let mut resp = Vec::new();
    resp.extend_from_slice(&be32(250));
    resp.extend_from_slice(&be32(9));
    resp.extend_from_slice(&be64(1));
    assert_eq!(
        read_connect_response(&resp, resp.len()),
        Err(TrackerError::IncorrectAction)
    );
    assert_eq!(
        read_announce_response(&resp, resp.len()),
        Err(TrackerError::IncorrectAction)
    );
    // too short to frame at all
    assert!(matches!(
        read_connect_response(&resp, 5),
        Err(TrackerError::Io(_))
    ));
    // a connect payload that is not exactly sixteen bytes
    let mut long = Vec::new();
    long.extend_from_slice(&be32(0));
    long.extend_from_slice(&be32(9));
    long.extend_from_slice(&be64(1));
    long.extend_from_slice(&[0u8; 4]);
    assert!(matches!(
        read_connect_response(&long, long.len()),
        Err(TrackerError::Io(_))
    ));
    // an announce response ending in a partial peer entry
    let mut ragged = Vec::new();
    ragged.extend_from_slice(&be32(1));
    ragged.extend_from_slice(&be32(9));
    ragged.extend_from_slice(&[0u8; 12]);
    ragged.extend_from_slice(&[0u8; 3]);
    assert!(matches!(
        read_announce_response(&ragged, ragged.len()),
        Err(TrackerError::Io(_))
    ));
}

#[test]
fn peer_id_has_prefix_and_size() {
    let id = get_peer_id();
    assert_eq!(id.len(), 20);
    assert_eq!(&id[..11], b"TH-0.1.0---");
    assert_eq!(Peer::size(), 6);
}

#[test]
fn info_hash_is_sha1_of_canonical_encoding() {
    let d = InfoDict {
        files: None,
        length: Some(5),
        md5sum: None,
        name: "a".to_string(),
        piece_length: 16384,
        pieces: b"01234567890123456789".to_vec(),
        private: None,
    };
    let hash = get_hashed_info_dict(&d);
    let expected: [u8; 20] = [
        0xd1, 0x7f, 0x2c, 0x87, 0xa4, 0x92, 0x1b, 0xaf, 0xb5, 0xb7, 0x31, 0xc9, 0xce, 0x90,
        0xa2, 0x58, 0x56, 0x8e, 0xcc, 0x8d,
    ];
    assert_eq!(hash, expected);
}

#[test]
fn scrape_flow() {
    let mut session = Session::new(6881);
    let req = session.connect_request();
    let txn = sent_transaction_id(&req);
    let mut buf = Vec::new();
    buf.extend_from_slice(&be32(0));
    buf.extend_from_slice(&be32(txn));
    buf.extend_from_slice(&be64(7));
    session.on_connect_response(&buf, 16).unwrap();

    let scrape = session.scrape_request().unwrap();
    assert_eq!(scrape.len(), 16);
    assert_eq!(&scrape[..8], &be64(7));
    assert_eq!(&scrape[8..12], &be32(2));

    assert!(session.on_scrape_response(20).is_ok());
    assert_eq!(session.state, SessionState::Connected { connection_id: 7 });

    let scrape = session.scrape_request().unwrap();
    assert_eq!(scrape.len(), 16);
    assert!(matches!(
        session.on_scrape_response(8),
        Err(TrackerError::Io(_))
    ));
}
