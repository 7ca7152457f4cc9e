use vstd::prelude::*;

use crate::model::InfoDict;
use crate::peer::Peer;
use crate::ser::enc;
use crate::text::bytes_to_string_lossy;
use rand::Rng;
use sha1::Digest;
use vstd::string::StringExecFns;

verus! {

/// The protocol identifier every CONNECT request opens with.
pub const MAGIC_CONSTANT: u64 = 0x41727101980;

/// The receive buffer size; a datagram this long or longer was
/// truncated and is treated as a protocol error.
pub const RECV_BUF_SIZE: usize = 1024;

/// The CONNECT action code.
pub const ACTION_CONNECT: u32 = 0;

/// The ANNOUNCE action code.
pub const ACTION_ANNOUNCE: u32 = 1;

/// The SCRAPE action code.
pub const ACTION_SCRAPE: u32 = 2;

/// The ERROR action code.
pub const ACTION_ERROR: u32 = 3;

/// The announce event sent on the first announce of a session.
pub const EVENT_STARTED: u32 = 2;

/// How many peers an announce asks for; conservative enough that the
/// response fits one datagram.
pub const NUM_WANT: u32 = 30;

/// What can go wrong talking to a tracker.
#[derive(Debug, PartialEq, Eq, Clone)]
pub enum TrackerError {
    /// No port in the default range could be bound.
    PortsExhausted,
    /// A CONNECT response echoed a transaction id other than the one
    /// sent.
    IncorrectTransactionId,
    /// A response carried an action code that fits no known response.
    IncorrectAction,
    /// The tracker did not answer within the deadline.
    Timeout,
    /// The transport failed, or a datagram was too malformed to frame;
    /// the text describes the fault.
    Io(String),
    /// A tracker address could not be parsed.
    AddrParsing(String),
    /// The tracker itself reported an error; its message.
    Server(String),
}

/// The big-endian bytes of a 16-bit number, most significant first.
pub open spec fn be16(x: u16) -> Seq<u8> {
    seq![(x / 0x100) as u8, (x % 0x100) as u8]
}

/// The big-endian bytes of a 32-bit number.
pub open spec fn be32(x: u32) -> Seq<u8> {
    seq![
        (x / 0x1000000) as u8,
        ((x / 0x10000) % 0x100) as u8,
        ((x / 0x100) % 0x100) as u8,
        (x % 0x100) as u8,
    ]
}

/// The big-endian bytes of a 64-bit number.
pub open spec fn be64(x: u64) -> Seq<u8> {
    seq![
        (x / 0x100000000000000) as u8,
        ((x / 0x1000000000000) % 0x100) as u8,
        ((x / 0x10000000000) % 0x100) as u8,
        ((x / 0x100000000) % 0x100) as u8,
        ((x / 0x1000000) % 0x100) as u8,
        ((x / 0x10000) % 0x100) as u8,
        ((x / 0x100) % 0x100) as u8,
        (x % 0x100) as u8,
    ]
}

/// The number two big-endian bytes hold.
pub open spec fn val16(s: Seq<u8>) -> int {
    s[0] * 0x100 + s[1]
}

/// The number four big-endian bytes hold.
pub open spec fn val32(s: Seq<u8>) -> int {
    s[0] * 0x1000000 + s[1] * 0x10000 + s[2] * 0x100 + s[3]
}

/// The number eight big-endian bytes hold.
pub open spec fn val64(s: Seq<u8>) -> int {
    s[0] * 0x100000000000000 + s[1] * 0x1000000000000 + s[2] * 0x10000000000 + s[3] * 0x100000000
        + s[4] * 0x1000000 + s[5] * 0x10000 + s[6] * 0x100 + s[7]
}

/// Appends a 16-bit number big-endian.
pub fn push_u16_be(out: &mut Vec<u8>, x: u16)
    ensures
        final(out)@ == old(out)@ + be16(x),
{
    out.push((x / 0x100) as u8);
    out.push((x % 0x100) as u8);
    assert(out@ =~= old(out)@ + be16(x));
}

/// Appends a 32-bit number big-endian.
pub fn push_u32_be(out: &mut Vec<u8>, x: u32)
    ensures
        final(out)@ == old(out)@ + be32(x),
{
    out.push((x / 0x1000000) as u8);
    out.push(((x / 0x10000) % 0x100) as u8);
    out.push(((x / 0x100) % 0x100) as u8);
    out.push((x % 0x100) as u8);
    assert(out@ =~= old(out)@ + be32(x));
}

/// Appends a 64-bit number big-endian.
pub fn push_u64_be(out: &mut Vec<u8>, x: u64)
    ensures
        final(out)@ == old(out)@ + be64(x),
{
    out.push((x / 0x100000000000000) as u8);
    out.push(((x / 0x1000000000000) % 0x100) as u8);
    out.push(((x / 0x10000000000) % 0x100) as u8);
    out.push(((x / 0x100000000) % 0x100) as u8);
    out.push(((x / 0x1000000) % 0x100) as u8);
    out.push(((x / 0x10000) % 0x100) as u8);
    out.push(((x / 0x100) % 0x100) as u8);
    out.push((x % 0x100) as u8);
    assert(out@ =~= old(out)@ + be64(x));
}

/// Reads a big-endian 16-bit number at `off`.
pub fn read_u16_be(buf: &[u8], off: usize) -> (r: u16)
    requires
        off + 2 <= buf@.len(),
    ensures
        r as int == val16(buf@.subrange(off as int, off + 2)),
{
    let r = (buf[off] as u16) * 0x100 + (buf[off + 1] as u16);
    proof {
        let s = buf@.subrange(off as int, off + 2);
        assert(s[0] == buf@[off as int]);
        assert(s[1] == buf@[off + 1]);
    }
    r
}

/// Reads a big-endian 32-bit number at `off`.
pub fn read_u32_be(buf: &[u8], off: usize) -> (r: u32)
    requires
        off + 4 <= buf@.len(),
    ensures
        r as int == val32(buf@.subrange(off as int, off + 4)),
{
    let r = (buf[off] as u32) * 0x1000000 + (buf[off + 1] as u32) * 0x10000 + (buf[off + 2] as u32)
        * 0x100 + (buf[off + 3] as u32);
    proof {
        let s = buf@.subrange(off as int, off + 4);
        assert(s[0] == buf@[off as int]);
        assert(s[1] == buf@[off + 1]);
        assert(s[2] == buf@[off + 2]);
        assert(s[3] == buf@[off + 3]);
    }
    r
}

/// Reads a big-endian 64-bit number at `off`.
pub fn read_u64_be(buf: &[u8], off: usize) -> (r: u64)
    requires
        off + 8 <= buf@.len(),
    ensures
        r as int == val64(buf@.subrange(off as int, off + 8)),
{
    let r = (buf[off] as u64) * 0x100000000000000 + (buf[off + 1] as u64) * 0x1000000000000 + (
    buf[off + 2] as u64) * 0x10000000000 + (buf[off + 3] as u64) * 0x100000000 + (buf[off
        + 4] as u64) * 0x1000000 + (buf[off + 5] as u64) * 0x10000 + (buf[off + 6] as u64) * 0x100
        + (buf[off + 7] as u64);
    proof {
        let s = buf@.subrange(off as int, off + 8);
        assert(s[0] == buf@[off as int]);
        assert(s[1] == buf@[off + 1]);
        assert(s[2] == buf@[off + 2]);
        assert(s[3] == buf@[off + 3]);
        assert(s[4] == buf@[off + 4]);
        assert(s[5] == buf@[off + 5]);
        assert(s[6] == buf@[off + 6]);
        assert(s[7] == buf@[off + 7]);
    }
    r
}

/// Relies on `rand::Rng::gen` through `rand::thread_rng`: a random
/// byte.  Nothing can be promised of its value.
#[verifier::external_body]
fn random_u8() -> u8 {
    rand::thread_rng().gen()
}

/// Relies on `rand::Rng::gen` through `rand::thread_rng`: a random
/// 32-bit number, used for transaction ids and announce keys.  Nothing
/// can be promised of its value.
#[verifier::external_body]
fn random_u32() -> u32 {
    rand::thread_rng().gen()
}

/// The uninterpreted SHA-1 digest: a function of the input bytes alone.
pub uninterp spec fn sha1_of(bytes: Seq<u8>) -> Seq<u8>;

/// Relies on the `sha1` crate's `Sha1` hasher: its digest is a function
/// of the input bytes alone and is always exactly 20 bytes
/// (`OutputSize = U20`).
#[verifier::external_body]
fn sha1_digest(bytes: &[u8]) -> (r: Vec<u8>)
    ensures
        r@ == sha1_of(bytes@),
        r@.len() == 20,
{
    let mut hasher = sha1::Sha1::new();
    hasher.update(bytes);
    hasher.finalize().to_vec()
}

/// The 20-byte info-hash that identifies a torrent on the wire: SHA-1
/// of the canonical bencoding of the info dictionary alone.
pub fn get_hashed_info_dict(info_dict: &InfoDict) -> (r: Vec<u8>)
    ensures
        r@ == sha1_of(enc(info_dict.vm())),
        r@.len() == 20,
{
    let bytes = info_dict.encode();
    sha1_digest(bytes.as_slice())
}

/// The fixed ASCII prefix of every peer id this client generates.
pub open spec fn peer_id_prefix() -> Seq<u8> {
    seq![0x54u8, 0x48, 0x2d, 0x30, 0x2e, 0x31, 0x2e, 0x30, 0x2d, 0x2d, 0x2d]
}

/// A fresh 20-byte peer id: the client prefix `TH-0.1.0---` padded
/// with random bytes.
pub fn get_peer_id() -> (r: Vec<u8>)
    ensures
        r@.len() == 20,
        r@.subrange(0, 11) == peer_id_prefix(),
{
    let prefix: [u8; 11] = [0x54, 0x48, 0x2d, 0x30, 0x2e, 0x31, 0x2e, 0x30, 0x2d, 0x2d, 0x2d];
    let mut r: Vec<u8> = vstd::slice::slice_to_vec(prefix.as_slice());
    let mut i: usize = 0;
    while i < 9
        invariant
            0 <= i <= 9,
            r@.len() == 11 + i,
            r@.subrange(0, 11) =~= peer_id_prefix(),
        decreases 9 - i,
    {
        let b = random_u8();
        let ghost before = r@;
        r.push(b);
        proof {
            assert(r@.subrange(0, 11) =~= before.subrange(0, 11));
        }
        i = i + 1;
    }
    r
}

/// The 16 bytes of a CONNECT request: the protocol magic, the CONNECT
/// action, the transaction id.
pub open spec fn connect_request_bytes(transaction_id: u32) -> Seq<u8> {
    be64(MAGIC_CONSTANT) + be32(ACTION_CONNECT) + be32(transaction_id)
}

/// Builds a CONNECT request for the given transaction id.
pub fn get_connect_request(transaction_id: u32) -> (r: Vec<u8>)
    ensures
        r@ == connect_request_bytes(transaction_id),
        r@.len() == 16,
{
    let mut w: Vec<u8> = Vec::new();
    push_u64_be(&mut w, MAGIC_CONSTANT);
    push_u32_be(&mut w, ACTION_CONNECT);
    push_u32_be(&mut w, transaction_id);
    assert(w@ =~= connect_request_bytes(transaction_id));
    w
}

/// The bytes of an ANNOUNCE request, fields big-endian in wire
/// order; the event is `started`, the address field zero (use the
/// source address), and the peer count asked for is `NUM_WANT`.
pub open spec fn announce_request_bytes(
    connection_id: u64,
    transaction_id: u32,
    listening_port: u16,
    info_hash: Seq<u8>,
    peer_id: Seq<u8>,
    key: u32,
) -> Seq<u8> {
    be64(connection_id) + be32(ACTION_ANNOUNCE) + be32(transaction_id) + info_hash + peer_id
        + be64(0) + be64(0) + be64(0) + be32(EVENT_STARTED) + be32(0) + be32(key) + be32(NUM_WANT)
        + be16(listening_port) + be16(0)
}

/// Whether `req` is an ANNOUNCE request for this connection,
/// transaction, port, info-hash and peer id, under some announce key.
pub open spec fn is_announce_request_for(
    req: Seq<u8>,
    connection_id: u64,
    txn: u32,
    port: u16,
    info_hash: Seq<u8>,
    peer_id: Seq<u8>,
) -> bool {
    exists|key: u32|
        req == announce_request_bytes(connection_id, txn, port, info_hash, peer_id, key)
}

/// Builds an ANNOUNCE request.  The info-hash and peer id must be
/// exactly 20 bytes, as the wire layout fixes their fields.
pub fn get_announce_request(
    connection_id: u64,
    transaction_id: u32,
    listening_port: u16,
    info_hash: &[u8],
    peer_id: &[u8],
    key: u32,
) -> (r: Vec<u8>)
    requires
        info_hash@.len() == 20,
        peer_id@.len() == 20,
    ensures
        r@ == announce_request_bytes(
            connection_id,
            transaction_id,
            listening_port,
            info_hash@,
            peer_id@,
            key,
        ),
        r@.len() == 100,
{
    let mut w: Vec<u8> = Vec::new();
    push_u64_be(&mut w, connection_id);
    push_u32_be(&mut w, ACTION_ANNOUNCE);
    push_u32_be(&mut w, transaction_id);
    crate::ser::push_bytes(&mut w, info_hash);
    crate::ser::push_bytes(&mut w, peer_id);
    push_u64_be(&mut w, 0);
    push_u64_be(&mut w, 0);
    push_u64_be(&mut w, 0);
    push_u32_be(&mut w, EVENT_STARTED);
    push_u32_be(&mut w, 0);
    push_u32_be(&mut w, key);
    push_u32_be(&mut w, NUM_WANT);
    push_u16_be(&mut w, listening_port);
    push_u16_be(&mut w, 0);
    assert(w@ =~= announce_request_bytes(
        connection_id,
        transaction_id,
        listening_port,
        info_hash@,
        peer_id@,
        key,
    ));
    w
}

/// The 16 bytes of a SCRAPE request header: connection id, the SCRAPE
/// action, the transaction id.
pub open spec fn scrape_request_bytes(connection_id: u64, transaction_id: u32) -> Seq<u8> {
    be64(connection_id) + be32(ACTION_SCRAPE) + be32(transaction_id)
}

/// Builds a SCRAPE request header.
pub fn get_scrape_request(connection_id: u64, transaction_id: u32) -> (r: Vec<u8>)
    ensures
        r@ == scrape_request_bytes(connection_id, transaction_id),
        r@.len() == 16,
{
    let mut w: Vec<u8> = Vec::new();
    push_u64_be(&mut w, connection_id);
    push_u32_be(&mut w, ACTION_SCRAPE);
    push_u32_be(&mut w, transaction_id);
    assert(w@ =~= scrape_request_bytes(connection_id, transaction_id));
    w
}

/// The fields of a well-formed CONNECT response.
#[derive(Debug, PartialEq, Eq, Structural, Clone, Copy)]
pub struct ConnectResponsePayload {
    pub action: u32,
    pub transaction_id: u32,
    pub connection_id: u64,
}

/// A CONNECT response: either its payload or the server's error text.
#[derive(Debug, PartialEq, Eq, Clone)]
pub enum ConnectResponse {
    Payload(ConnectResponsePayload),
    Error(String),
}

/// Parses the first `nread` bytes of a received datagram as a CONNECT
/// response.  A datagram too short to frame, or a CONNECT payload that
/// is not exactly 16 bytes, is a transport-level fault; an unknown
/// action code is a protocol violation.
pub fn read_connect_response(buf: &[u8], nread: usize) -> (r: Result<
    ConnectResponse,
    TrackerError,
>)
    requires
        nread <= buf@.len(),
    ensures
        nread < 8 ==> r matches Err(TrackerError::Io(_)),
        nread >= 8 ==> {
            let action = val32(buf@.subrange(0, 4));
            let txn = val32(buf@.subrange(4, 8));
            if action == ACTION_CONNECT {
                if nread == 16 {
                    r matches Ok(ConnectResponse::Payload(p)) && p.action as int == action
                        && p.transaction_id as int == txn && p.connection_id as int == val64(
                        buf@.subrange(8, 16),
                    )
                } else {
                    r matches Err(TrackerError::Io(_))
                }
            } else if action == ACTION_ERROR {
                r matches Ok(ConnectResponse::Error(msg)) && (vstd::utf8::valid_utf8(
                    buf@.subrange(8, nread as int),
                ) ==> msg@ == vstd::utf8::decode_utf8(buf@.subrange(8, nread as int)))
            } else {
                r matches Err(TrackerError::IncorrectAction)
            }
        },
{
    if nread < 8 {
        return Err(TrackerError::Io(String::from_str("datagram too short for a response")));
    }
    let action = read_u32_be(buf, 0);
    let transaction_id = read_u32_be(buf, 4);
    if action == ACTION_CONNECT {
        if nread != 16 {
            return Err(
                TrackerError::Io(String::from_str("connect response is not sixteen bytes")),
            );
        }
        let connection_id = read_u64_be(buf, 8);
        Ok(ConnectResponse::Payload(ConnectResponsePayload { action, transaction_id, connection_id }))
    } else if action == ACTION_ERROR {
        let msg = bytes_to_string_lossy(vstd::slice::slice_subrange(buf, 8, nread));
        Ok(ConnectResponse::Error(msg))
    } else {
        Err(TrackerError::IncorrectAction)
    }
}

/// The fields of a well-formed ANNOUNCE response.
#[derive(Debug, PartialEq)]
pub struct AnnounceResponsePayload {
    pub transaction_id: u32,
    pub interval: u32,
    pub num_leechers: u32,
    pub num_seeders: u32,
    pub peers: Vec<Peer>,
}

/// An ANNOUNCE response: either its payload or the server's error text.
#[derive(Debug, PartialEq)]
pub enum AnnounceResponse {
    Payload(AnnounceResponsePayload),
    Error(String),
}

/// Parses the first `bytes_read` bytes of a received datagram as an
/// ANNOUNCE response: interval, leecher and seeder counts, then packed
/// peers to the end of the datagram.  A trailing fragment of a peer
/// entry is a transport-level fault.
#[verifier::loop_isolation(false)]
pub fn read_announce_response(buf: &[u8], bytes_read: usize) -> (r: Result<
    AnnounceResponse,
    TrackerError,
>)
    requires
        bytes_read <= buf@.len(),
    ensures
        bytes_read < 8 ==> r matches Err(TrackerError::Io(_)),
        bytes_read >= 8 ==> {
            let action = val32(buf@.subrange(0, 4));
            let txn = val32(buf@.subrange(4, 8));
            if action == ACTION_ANNOUNCE {
                if bytes_read >= 20 && (bytes_read - 20) % 6 == 0 {
                    r matches Ok(AnnounceResponse::Payload(p)) && p.transaction_id as int == txn
                        && p.interval as int == val32(buf@.subrange(8, 12))
                        && p.num_leechers as int == val32(buf@.subrange(12, 16))
                        && p.num_seeders as int == val32(buf@.subrange(16, 20)) && p.peers@.len()
                        == (bytes_read - 20) as int / 6 && (forall|i: int|
                        0 <= i < p.peers@.len() ==> (#[trigger] p.peers@[i]).ip as int == val32(
                            buf@.subrange(20 + 6 * i, 24 + 6 * i),
                        ) && p.peers@[i].port as int == val16(
                            buf@.subrange(24 + 6 * i, 26 + 6 * i),
                        ))
                } else {
                    r matches Err(TrackerError::Io(_))
                }
            } else if action == ACTION_ERROR {
                r matches Ok(AnnounceResponse::Error(msg)) && (vstd::utf8::valid_utf8(
                    buf@.subrange(8, bytes_read as int),
                ) ==> msg@ == vstd::utf8::decode_utf8(buf@.subrange(8, bytes_read as int)))
            } else {
                r matches Err(TrackerError::IncorrectAction)
            }
        },
{
    if bytes_read < 8 {
        return Err(TrackerError::Io(String::from_str("datagram too short for a response")));
    }
    let action = read_u32_be(buf, 0);
    let transaction_id = read_u32_be(buf, 4);
    if action == ACTION_ANNOUNCE {
        if bytes_read < 20 {
            return Err(
                TrackerError::Io(String::from_str("announce response is shorter than its header")),
            );
        }
        if (bytes_read - 20) % 6 != 0 {
            return Err(
                TrackerError::Io(String::from_str("announce response ends in a partial peer")),
            );
        }
        let interval = read_u32_be(buf, 8);
        let num_leechers = read_u32_be(buf, 12);
        let num_seeders = read_u32_be(buf, 16);
        let count: usize = (bytes_read - 20) / 6;
        let mut peers: Vec<Peer> = Vec::new();
        let mut i: usize = 0;
        while i < count
            invariant
                0 <= i <= count,
                peers@.len() == i,
                forall|k: int|
                    0 <= k < i ==> (#[trigger] peers@[k]).ip as int == val32(
                        buf@.subrange(20 + 6 * k, 24 + 6 * k),
                    ) && peers@[k].port as int == val16(buf@.subrange(24 + 6 * k, 26 + 6 * k)),
            decreases count - i,
        {
            let ip = read_u32_be(buf, 20 + 6 * i);
            let port = read_u16_be(buf, 24 + 6 * i);
            peers.push(Peer { ip, port });
            i = i + 1;
        }
        Ok(
            AnnounceResponse::Payload(
                AnnounceResponsePayload {
                    transaction_id,
                    interval,
                    num_leechers,
                    num_seeders,
                    peers,
                },
            ),
        )
    } else if action == ACTION_ERROR {
        let msg = bytes_to_string_lossy(vstd::slice::slice_subrange(buf, 8, bytes_read));
        Ok(AnnounceResponse::Error(msg))
    } else {
        Err(TrackerError::IncorrectAction)
    }
}

/// Where a tracker conversation stands.
#[derive(Debug, PartialEq, Eq, Structural, Clone, Copy)]
pub enum SessionState {
    /// Nothing is in flight and no connection id is held.
    Idle,
    /// A CONNECT request with this transaction id is in flight.
    AwaitingConnect { txn: u32 },
    /// The tracker issued this connection id; requests can be built.
    Connected { connection_id: u64 },
    /// An ANNOUNCE request with this transaction id is in flight.
    AwaitingAnnounce { connection_id: u64, txn: u32 },
    /// A SCRAPE request with this transaction id is in flight.
    AwaitingScrape { connection_id: u64, txn: u32 },
}

/// The decision core of the UDP tracker client.  It builds each
/// outbound packet, remembers the transaction id in flight, and judges
/// each response; the caller owns the socket, performs each send and
/// timed receive, and hands the received bytes (or the timeout) back.
/// Requests are strictly sequential: a new one can only be built once
/// the previous one was answered or abandoned.
pub struct Session {
    /// The protocol state.
    pub state: SessionState,
    /// The local port the caller actually bound; announces carry it.
    pub port: u16,
}

impl Session {
    /// A fresh session for a socket bound to `port`.
    pub fn new(port: u16) -> (s: Session)
        ensures
            s.state == SessionState::Idle,
            s.port == port,
    {
        Session { state: SessionState::Idle, port }
    }

    /// Builds a CONNECT request under a fresh random transaction id
    /// and records that id as in flight.
    pub fn connect_request(&mut self) -> (r: Vec<u8>)
        requires
            old(self).state == SessionState::Idle,
        ensures
            final(self).port == old(self).port,
            final(self).state matches SessionState::AwaitingConnect { txn } && r@
                == connect_request_bytes(txn),
    {
        let txn = random_u32();
        self.state = SessionState::AwaitingConnect { txn };
        get_connect_request(txn)
    }

    /// Judges a CONNECT response.  A payload whose echoed transaction
    /// id differs from the one in flight is rejected with
    /// `IncorrectTransactionId` and the session stays unconnected, so
    /// no announce can follow it.  Only a well-formed payload bearing
    /// the right transaction id connects the session.
    pub fn on_connect_response(&mut self, buf: &[u8], nread: usize) -> (r: Result<
        u64,
        TrackerError,
    >)
        requires
            old(self).state matches SessionState::AwaitingConnect { .. },
            nread <= buf@.len(),
        ensures
            final(self).port == old(self).port,
            old(self).state matches SessionState::AwaitingConnect { txn } ==> match r {
                Ok(cid) => {
                    &&& final(self).state == SessionState::Connected { connection_id: cid }
                    &&& nread == 16
                    &&& val32(buf@.subrange(0, 4)) == ACTION_CONNECT
                    &&& val32(buf@.subrange(4, 8)) == txn as int
                    &&& cid as int == val64(buf@.subrange(8, 16))
                },
                Err(e) => {
                    &&& final(self).state == SessionState::Idle
                    &&& if nread < 8 {
                        e matches TrackerError::Io(_)
                    } else if val32(buf@.subrange(0, 4)) == ACTION_CONNECT {
                        if nread != 16 {
                            e matches TrackerError::Io(_)
                        } else {
                            val32(buf@.subrange(4, 8)) != txn as int && e
                                == TrackerError::IncorrectTransactionId
                        }
                    } else if val32(buf@.subrange(0, 4)) == ACTION_ERROR {
                        e matches TrackerError::Server(msg) && (vstd::utf8::valid_utf8(
                            buf@.subrange(8, nread as int),
                        ) ==> msg@ == vstd::utf8::decode_utf8(buf@.subrange(8, nread as int)))
                    } else {
                        e == TrackerError::IncorrectAction
                    }
                },
            },
    {
        let txn = match self.state {
            SessionState::AwaitingConnect { txn } => txn,
            _ => vstd::pervasive::unreached(),
        };
        match read_connect_response(buf, nread) {
            Ok(ConnectResponse::Payload(p)) => {
                if p.transaction_id != txn {
                    self.state = SessionState::Idle;
                    Err(TrackerError::IncorrectTransactionId)
                } else {
                    self.state = SessionState::Connected { connection_id: p.connection_id };
                    Ok(p.connection_id)
                }
            },
            Ok(ConnectResponse::Error(s)) => {
                self.state = SessionState::Idle;
                Err(TrackerError::Server(s))
            },
            Err(e) => {
                self.state = SessionState::Idle;
                Err(e)
            },
        }
    }

    /// Abandons the transaction in flight after the receive deadline
    /// passed, yielding `Timeout`.  A held connection id survives: an
    /// abandoned announce or scrape leaves the session connected, an
    /// abandoned connect leaves it idle.
    pub fn on_timeout(&mut self) -> (e: TrackerError)
        ensures
            e == TrackerError::Timeout,
            final(self).port == old(self).port,
            final(self).state == match old(self).state {
                SessionState::AwaitingConnect { .. } => SessionState::Idle,
                SessionState::AwaitingAnnounce { connection_id, .. } => SessionState::Connected {
                    connection_id,
                },
                SessionState::AwaitingScrape { connection_id, .. } => SessionState::Connected {
                    connection_id,
                },
                s => s,
            },
    {
        match self.state {
            SessionState::AwaitingConnect { .. } => {
                self.state = SessionState::Idle;
            },
            SessionState::AwaitingAnnounce { connection_id, .. } => {
                self.state = SessionState::Connected { connection_id };
            },
            SessionState::AwaitingScrape { connection_id, .. } => {
                self.state = SessionState::Connected { connection_id };
            },
            _ => {},
        }
        TrackerError::Timeout
    }

    /// Builds an ANNOUNCE request under the held connection id, a
    /// fresh transaction id and a fresh random key.  Without a
    /// connection no bytes are built and nothing changes: a session
    /// whose connect was rejected cannot announce.
    #[verifier::rlimit(100)]
    pub fn announce_request(&mut self, info_hash: &[u8], peer_id: &[u8]) -> (r: Result<
        Vec<u8>,
        TrackerError,
    >)
        requires
            info_hash@.len() == 20,
            peer_id@.len() == 20,
        ensures
            final(self).port == old(self).port,
            match r {
                Ok(req) => {
                    &&& old(self).state matches SessionState::Connected { connection_id }
                    &&& final(self).state matches SessionState::AwaitingAnnounce {
                        connection_id: c2,
                        txn,
                    } && c2 == connection_id && is_announce_request_for(
                        req@,
                        connection_id,
                        txn,
                        old(self).port,
                        info_hash@,
                        peer_id@,
                    )
                },
                Err(e) => {
                    &&& !(old(self).state matches SessionState::Connected { .. })
                    &&& *final(self) == *old(self)
                    &&& e matches TrackerError::Io(_)
                },
            },
    {
        match self.state {
            SessionState::Connected { connection_id } => {
                let txn = random_u32();
                let key = random_u32();
                let req = get_announce_request(
                    connection_id,
                    txn,
                    self.port,
                    info_hash,
                    peer_id,
                    key,
                );
                self.state = SessionState::AwaitingAnnounce { connection_id, txn };
                proof {
                    assert(is_announce_request_for(
                        req@,
                        connection_id,
                        txn,
                        old(self).port,
                        info_hash@,
                        peer_id@,
                    )) by {
                        assert(req@ == announce_request_bytes(
                            connection_id,
                            txn,
                            old(self).port,
                            info_hash@,
                            peer_id@,
                            key,
                        ));
                    }
                }
                Ok(req)
            },
            _ => Err(TrackerError::Io(String::from_str("announce without a connection"))),
        }
    }

    /// Judges an ANNOUNCE response.  A response that is not a
    /// well-formed announce payload bearing the transaction id in
    /// flight is rejected, but the connection survives: the caller may
    /// retry.
    pub fn on_announce_response(&mut self, buf: &[u8], nread: usize) -> (r: Result<
        AnnounceResponsePayload,
        TrackerError,
    >)
        requires
            old(self).state matches SessionState::AwaitingAnnounce { .. },
            nread <= buf@.len(),
        ensures
            final(self).port == old(self).port,
            old(self).state matches SessionState::AwaitingAnnounce { connection_id, txn } ==> {
                &&& final(self).state == SessionState::Connected { connection_id }
                &&& match r {
                    Ok(p) => {
                        &&& nread >= 20
                        &&& (nread - 20) % 6 == 0
                        &&& val32(buf@.subrange(0, 4)) == ACTION_ANNOUNCE
                        &&& p.transaction_id as int == val32(buf@.subrange(4, 8))
                        &&& p.transaction_id == txn
                        &&& p.interval as int == val32(buf@.subrange(8, 12))
                        &&& p.num_leechers as int == val32(buf@.subrange(12, 16))
                        &&& p.num_seeders as int == val32(buf@.subrange(16, 20))
                        &&& p.peers@.len() == (nread - 20) as int / 6
                        &&& forall|i: int|
                            0 <= i < p.peers@.len() ==> (#[trigger] p.peers@[i]).ip as int
                                == val32(buf@.subrange(20 + 6 * i, 24 + 6 * i))
                                && p.peers@[i].port as int == val16(
                                buf@.subrange(24 + 6 * i, 26 + 6 * i),
                            )
                    },
                    Err(e) => {
                        if nread < 8 {
                            e matches TrackerError::Io(_)
                        } else if val32(buf@.subrange(0, 4)) == ACTION_ANNOUNCE {
                            if nread < 20 || (nread - 20) % 6 != 0 {
                                e matches TrackerError::Io(_)
                            } else {
                                val32(buf@.subrange(4, 8)) != txn as int && (e matches
                                TrackerError::Server(_))
                            }
                        } else if val32(buf@.subrange(0, 4)) == ACTION_ERROR {
                            e matches TrackerError::Server(msg) && (vstd::utf8::valid_utf8(
                                buf@.subrange(8, nread as int),
                            ) ==> msg@ == vstd::utf8::decode_utf8(buf@.subrange(8, nread as int)))
                        } else {
                            e == TrackerError::IncorrectAction
                        }
                    },
                }
            },
    {
        let (connection_id, txn) = match self.state {
            SessionState::AwaitingAnnounce { connection_id, txn } => (connection_id, txn),
            _ => vstd::pervasive::unreached(),
        };
        self.state = SessionState::Connected { connection_id };
        match read_announce_response(buf, nread) {
            Ok(AnnounceResponse::Payload(p)) => {
                if p.transaction_id != txn {
                    Err(TrackerError::Server(String::from_str("received incorrect transaction id")))
                } else {
                    Ok(p)
                }
            },
            Ok(AnnounceResponse::Error(s)) => Err(TrackerError::Server(s)),
            Err(e) => Err(e),
        }
    }

    /// Builds a SCRAPE request under the held connection id and a
    /// fresh transaction id.  Without a connection no bytes are built
    /// and nothing changes.
    pub fn scrape_request(&mut self) -> (r: Result<Vec<u8>, TrackerError>)
        ensures
            final(self).port == old(self).port,
            match r {
                Ok(req) => {
                    &&& old(self).state matches SessionState::Connected { connection_id }
                    &&& final(self).state matches SessionState::AwaitingScrape {
                        connection_id: c2,
                        txn,
                    } && c2 == connection_id && req@ == scrape_request_bytes(connection_id, txn)
                },
                Err(e) => {
                    &&& !(old(self).state matches SessionState::Connected { .. })
                    &&& *final(self) == *old(self)
                    &&& e matches TrackerError::Io(_)
                },
            },
    {
        match self.state {
            SessionState::Connected { connection_id } => {
                let txn = random_u32();
                let req = get_scrape_request(connection_id, txn);
                self.state = SessionState::AwaitingScrape { connection_id, txn };
                Ok(req)
            },
            _ => Err(TrackerError::Io(String::from_str("scrape without a connection"))),
        }
    }

    /// Judges a SCRAPE response leniently: any datagram of at least
    /// twenty bytes is accepted, a shorter one is a transport-level
    /// fault.  The connection survives either way.
    pub fn on_scrape_response(&mut self, nread: usize) -> (r: Result<(), TrackerError>)
        requires
            old(self).state matches SessionState::AwaitingScrape { .. },
        ensures
            final(self).port == old(self).port,
            old(self).state matches SessionState::AwaitingScrape { connection_id, txn } ==> {
                &&& final(self).state == SessionState::Connected { connection_id }
                &&& r is Ok <==> nread >= 20
                &&& r matches Err(e) ==> e matches TrackerError::Io(_)
            },
    {
        let connection_id = match self.state {
            SessionState::AwaitingScrape { connection_id, .. } => connection_id,
            _ => vstd::pervasive::unreached(),
        };
        self.state = SessionState::Connected { connection_id };
        if nread >= 20 {
            Ok(())
        } else {
            Err(TrackerError::Io(String::from_str("scrape response is too short")))
        }
    }
}

} // verus!
