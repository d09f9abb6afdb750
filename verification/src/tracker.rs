//! Trackers: the client's peer id, the HTTP announce url, the UDP tracker
//! protocol, and the peer lists trackers answer with.

use crate::peer::PeerInfo;
use crate::text::{
    decimal, hex_digit_upper, hex_upper, push_decimal, push_signed_decimal, push_str,
    signed_decimal, str_starts_with,
};
use crate::wire::{
    be_u16, be_u32_at, be_u64_at, push_all, push_u16_be, push_u32_be, push_u64_be, read_u32_be,
    read_u64_be, u16_be_bytes, u32_be_bytes, u64_be_bytes,
};
use vstd::prelude::*;

verus! {

/// Fills 20 bytes from `rand::thread_rng()` with `rand::Rng::fill`.
///
/// Nothing is claimed of the bytes: they are random.
#[verifier::external_body]
fn random_bytes() -> [u8; 20] {
    let mut b = [0u8; 20];
    rand::Rng::fill(&mut rand::thread_rng(), &mut b);
    b
}

/// Draws a number with `rand::random::<u32>()`.
///
/// Nothing is claimed of the number: it is random.
#[verifier::external_body]
fn random_u32() -> u32 {
    rand::random::<u32>()
}

/// The first six bytes of every peer id of this client, "-RU001".
pub open spec fn peer_id_prefix() -> Seq<u8> {
    seq![45u8, 82u8, 85u8, 48u8, 48u8, 49u8]
}

/// The peer id made from the 20 bytes `random`: "-RU001" in place of its
/// first six bytes, the other 14 kept.
pub fn peer_id_from(random: [u8; 20]) -> (r: [u8; 20])
    ensures
        r@ == peer_id_prefix() + random@.skip(6),
{
    let mut peer_id = random;
    peer_id[0] = 45;
    peer_id[1] = 82;
    peer_id[2] = 85;
    peer_id[3] = 48;
    peer_id[4] = 48;
    peer_id[5] = 49;
    assert(peer_id@ =~= peer_id_prefix() + random@.skip(6));
    peer_id
}

/// A fresh peer id: "-RU001" followed by 14 random bytes (see
/// [`peer_id_from`]).
pub fn generate_peer_id() -> (r: [u8; 20])
    ensures
        r@.take(6) == peer_id_prefix(),
{
    let random = random_bytes();
    let r = peer_id_from(random);
    assert(r@.take(6) =~= peer_id_prefix());
    r
}

/// Each byte of `b` written as `%` and two upper-case hexadecimal digits.
pub open spec fn escaped(b: Seq<u8>) -> Seq<char>
    decreases b.len(),
{
    if b.len() == 0 {
        Seq::empty()
    } else {
        escaped(b.drop_last()) + seq![
            '%',
            hex_upper((b.last() / 16) as nat),
            hex_upper((b.last() % 16) as nat),
        ]
    }
}

/// The value of an upper-case hexadecimal digit, or -1.
pub open spec fn upper_hex_value(c: char) -> int {
    if '0' <= c && c <= '9' {
        c as int - 48
    } else if 'A' <= c && c <= 'F' {
        c as int - 55
    } else {
        -1
    }
}

/// Whether characters `3 * i .. 3 * i + 3` of `e` escape byte `i` of `b`: `%`,
/// then the byte's high and low halves as upper-case hexadecimal digits, which
/// read back as the byte.
pub open spec fn escapes_byte(e: Seq<char>, b: Seq<u8>, i: int) -> bool {
    &&& e[3 * i] == '%'
    &&& e[3 * i + 1] == hex_upper((b[i] / 16) as nat)
    &&& e[3 * i + 2] == hex_upper((b[i] % 16) as nat)
    &&& upper_hex_value(e[3 * i + 1]) * 16 + upper_hex_value(e[3 * i + 2]) == b[i]
}

/// Escaping writes three characters per byte, which escape that byte (see
/// [`escapes_byte`]).
pub proof fn law_urlencode_escapes(b: Seq<u8>)
    ensures
        escaped(b).len() == 3 * b.len(),
        forall|i: int| 0 <= i < b.len() ==> #[trigger] escapes_byte(escaped(b), b, i),
    decreases b.len(),
{
    if b.len() > 0 {
        let p = b.drop_last();
        law_urlencode_escapes(p);
        let e = escaped(b);
        assert(e == escaped(p) + seq![
            '%',
            hex_upper((b.last() / 16) as nat),
            hex_upper((b.last() % 16) as nat),
        ]);
        assert forall|i: int| 0 <= i < b.len() implies #[trigger] escapes_byte(e, b, i) by {
            let hi = (b[i] / 16) as nat;
            let lo = (b[i] % 16) as nat;
            assert(upper_hex_value(hex_upper(hi)) == hi);
            assert(upper_hex_value(hex_upper(lo)) == lo);
            if i < b.len() - 1 {
                assert(escapes_byte(escaped(p), p, i));
                assert(b[i] == p[i]);
                assert(e[3 * i] == escaped(p)[3 * i]);
                assert(e[3 * i + 1] == escaped(p)[3 * i + 1]);
                assert(e[3 * i + 2] == escaped(p)[3 * i + 2]);
            } else {
                assert(3 * i == escaped(p).len());
            }
        }
    }
}

/// Writes each byte of `bytes` as `%` and two upper-case hexadecimal digits.
pub fn urlencode(bytes: &[u8]) -> (r: String)
    ensures
        r@ == escaped(bytes@),
        r@.len() == 3 * bytes@.len(),
{
    let mut r = String::new();
    let mut i: usize = 0;
    while i < bytes.len()
        invariant
            i <= bytes@.len(),
            r@ == escaped(bytes@.take(i as int)),
            r@.len() == 3 * i,
        decreases bytes@.len() - i,
    {
        let b = bytes[i];
        r.push('%');
        r.push(hex_digit_upper(b / 16));
        r.push(hex_digit_upper(b % 16));
        proof {
            assert(bytes@.take(i + 1).drop_last() =~= bytes@.take(i as int));
            assert(r@ =~= escaped(bytes@.take(i + 1)));
        }
        i = i + 1;
    }
    assert(bytes@.take(bytes@.len() as int) =~= bytes@);
    r
}

/// The dotted-decimal text of an IPv4 address, as `Ipv4Addr` displays it.
pub open spec fn dotted_quad(a: u8, b: u8, c: u8, d: u8) -> Seq<char> {
    decimal(a as nat) + "."@ + decimal(b as nat) + "."@ + decimal(c as nat) + "."@ + decimal(
        d as nat,
    )
}

/// The address of the `i`-th 6-byte entry of a compact peer list: four bytes
/// of IPv4 address, two of big-endian port.
pub open spec fn compact_ip(b: Seq<u8>, i: int) -> Seq<char> {
    dotted_quad(b[6 * i], b[6 * i + 1], b[6 * i + 2], b[6 * i + 3])
}

/// The port of the `i`-th 6-byte entry of a compact peer list.
pub open spec fn compact_port(b: Seq<u8>, i: int) -> u16 {
    be_u16(b[6 * i + 4], b[6 * i + 5])
}

/// Whether `peers` are the entries of the compact peer list `b` (a trailing
/// partial entry is ignored).
pub open spec fn compact_peers(peers: Seq<PeerInfo>, b: Seq<u8>) -> bool {
    &&& peers.len() == b.len() / 6
    &&& forall|i: int|
        0 <= i < peers.len() ==> (#[trigger] peers[i]).ip@ == compact_ip(b, i) && peers[i].port
            == compact_port(b, i)
}

fn push_dotted_quad(s: &mut String, a: u8, b: u8, c: u8, d: u8)
    ensures
        final(s)@ == old(s)@ + dotted_quad(a, b, c, d),
{
    push_decimal(s, a as u64);
    push_str(s, ".");
    push_decimal(s, b as u64);
    push_str(s, ".");
    push_decimal(s, c as u64);
    push_str(s, ".");
    push_decimal(s, d as u64);
    assert(s@ =~= old(s)@ + dotted_quad(a, b, c, d));
}

/// The peers of the compact peer list at positions `from ..` of `binary`.
fn compact_peers_from(binary: &[u8], from: usize) -> (r: Vec<PeerInfo>)
    requires
        from <= binary@.len(),
    ensures
        compact_peers(r@, binary@.skip(from as int)),
{
    let ghost b = binary@.skip(from as int);
    let n = (binary.len() - from) / 6;
    let mut r: Vec<PeerInfo> = Vec::new();
    let mut i: usize = 0;
    while i < n
        invariant
            from <= binary.len(),
            b == binary@.skip(from as int),
            b.len() == binary.len() - from,
            n == b.len() / 6,
            i <= n,
            r@.len() == i,
            forall|k: int|
                0 <= k < i ==> (#[trigger] r@[k]).ip@ == compact_ip(b, k) && r@[k].port
                    == compact_port(b, k),
        decreases n - i,
    {
        assert(6 * i + 6 <= b.len()) by (nonlinear_arith)
            requires
                i < n,
                n == b.len() / 6,
        ;
        let at = from + 6 * i;
        let mut ip = String::new();
        push_dotted_quad(&mut ip, binary[at], binary[at + 1], binary[at + 2], binary[at + 3]);
        let port = (binary[at + 4] as u16) * 256 + binary[at + 5] as u16;
        r.push(PeerInfo { ip, port });
        i = i + 1;
    }
    r
}

/// The peers of a compact peer list: 6 bytes per peer, a trailing partial
/// entry ignored.
pub fn parse_binary_peers(binary: &[u8]) -> (r: Vec<PeerInfo>)
    ensures
        compact_peers(r@, binary@),
{
    let r = compact_peers_from(binary, 0);
    assert(binary@.skip(0) =~= binary@);
    r
}

/// The kind of a tracker, by the scheme of its announce url.
#[derive(Debug, PartialEq, Eq)]
pub enum TrackerKind {
    Udp,
    Http,
    Unsupported,
}

/// The kind of the tracker at `announce`: `udp://` urls are UDP trackers,
/// `http://` and `https://` urls HTTP trackers.
pub open spec fn tracker_kind_of(announce: Seq<char>) -> TrackerKind {
    if "udp://"@.is_prefix_of(announce) {
        TrackerKind::Udp
    } else if "http://"@.is_prefix_of(announce) || "https://"@.is_prefix_of(announce) {
        TrackerKind::Http
    } else {
        TrackerKind::Unsupported
    }
}

/// The kind of the tracker at `announce`.
pub fn tracker_kind(announce: &str) -> (r: TrackerKind)
    ensures
        r == tracker_kind_of(announce@),
{
    if str_starts_with(announce, "udp://") {
        TrackerKind::Udp
    } else if str_starts_with(announce, "http://") || str_starts_with(announce, "https://") {
        TrackerKind::Http
    } else {
        TrackerKind::Unsupported
    }
}

/// The trackers of `trackers` that are not UDP trackers, in order.
pub open spec fn non_udp(trackers: Seq<Seq<char>>) -> Seq<Seq<char>> {
    trackers.filter(|t: Seq<char>| !"udp://"@.is_prefix_of(t))
}

/// The trackers that are asked for peers over HTTP: all but the `udp://` ones.
pub fn http_trackers(trackers: &Vec<String>) -> (r: Vec<String>)
    ensures
        crate::text::string_views(r@) == non_udp(crate::text::string_views(trackers@)),
{
    let ghost all = crate::text::string_views(trackers@);
    let mut r: Vec<String> = Vec::new();
    let mut i: usize = 0;
    while i < trackers.len()
        invariant
            i <= trackers@.len(),
            all == crate::text::string_views(trackers@),
            crate::text::string_views(r@) == non_udp(all.take(i as int)),
        decreases trackers@.len() - i,
    {
        proof {
            assert(all.take(i + 1).drop_last() =~= all.take(i as int));
            reveal_with_fuel(Seq::<Seq<char>>::filter, 1);
        }
        if !str_starts_with(trackers[i].as_str(), "udp://") {
            r.push(trackers[i].clone());
            proof {
                assert(crate::text::string_views(r@) =~= non_udp(all.take(i + 1)));
            }
        } else {
            proof {
                assert(crate::text::string_views(r@) =~= non_udp(all.take(i + 1)));
            }
        }
        i = i + 1;
    }
    assert(all.take(trackers@.len() as int) =~= all);
    r
}


/// The magic number that opens a UDP tracker connect request.
pub const PROTOCOL_ID: u64 = 0x0000041727101980;

/// The 16 bytes of a UDP connect request: the magic number, action 0
/// (connect), and the transaction id.
pub open spec fn connect_bytes(transaction_id: u32) -> Seq<u8> {
    u64_be_bytes(PROTOCOL_ID) + u32_be_bytes(0) + u32_be_bytes(transaction_id)
}

/// A UDP connect request with a fresh random transaction id, and that id.
pub fn connection_request() -> (r: (u32, Vec<u8>))
    ensures
        r.1@ == connect_bytes(r.0),
        r.1@.len() == 16,
{
    let transaction_id = random_u32();
    let mut request: Vec<u8> = Vec::with_capacity(16);
    push_u64_be(&mut request, PROTOCOL_ID);
    push_u32_be(&mut request, 0);
    push_u32_be(&mut request, transaction_id);
    assert(request@ =~= connect_bytes(transaction_id));
    (transaction_id, request)
}

/// The outcome of a UDP connect response received into the 16-byte buffer
/// `response`, of which `size` bytes arrived, for a request with id
/// `transaction_id`.
pub open spec fn connect_outcome(response: Seq<u8>, size: usize, transaction_id: u32) -> Result<u64, Seq<char>> {
    if size != 16 {
        Err("Invalid connection response size: "@ + decimal(size as nat))
    } else if be_u32_at(response, 0) != 0 {
        Err("Invalid action in connection response: "@ + decimal(be_u32_at(response, 0) as nat))
    } else if be_u32_at(response, 4) != transaction_id {
        Err("Transaction ID mismatch in connection response"@)
    } else {
        Ok(be_u64_at(response, 8))
    }
}

/// The connection id of a UDP connect response, or the text saying why the
/// response is refused.
pub fn parse_connection_response(response: &[u8], size: usize, transaction_id: u32) -> (r: Result<u64, String>)
    requires
        response@.len() == 16,
    ensures
        match connect_outcome(response@, size, transaction_id) {
            Ok(id) => r == Ok::<u64, String>(id),
            Err(t) => r matches Err(m) && m@ == t,
        },
{
    if size != 16 {
        let mut t = String::new();
        push_str(&mut t, "Invalid connection response size: ");
        push_decimal(&mut t, size as u64);
        return Err(t);
    }
    let action = read_u32_be(response, 0);
    if action != 0 {
        let mut t = String::new();
        push_str(&mut t, "Invalid action in connection response: ");
        push_decimal(&mut t, action as u64);
        return Err(t);
    }
    if read_u32_be(response, 4) != transaction_id {
        let mut t = String::new();
        push_str(&mut t, "Transaction ID mismatch in connection response");
        return Err(t);
    }
    Ok(read_u64_be(response, 8))
}

/// A tracker's connect response to the request with id `transaction_id` is
/// taken, and yields the connection id it carries.
pub proof fn law_connect_response_accepted(transaction_id: u32, connection_id: u64)
    ensures
        connect_outcome(
            u32_be_bytes(0) + u32_be_bytes(transaction_id) + u64_be_bytes(connection_id),
            16,
            transaction_id,
        ) == Ok::<u64, Seq<char>>(connection_id),
{
    let b = u32_be_bytes(0) + u32_be_bytes(transaction_id) + u64_be_bytes(connection_id);
    crate::wire::lemma_u32_roundtrip(0);
    crate::wire::lemma_u32_roundtrip(transaction_id);
    crate::wire::lemma_u64_roundtrip(connection_id);
    assert(b.subrange(0, 4) =~= u32_be_bytes(0));
    assert(b.subrange(4, 8) =~= u32_be_bytes(transaction_id));
    assert(b.subrange(8, 16) =~= u64_be_bytes(connection_id));
    assert(be_u32_at(b, 0) == be_u32_at(u32_be_bytes(0), 0));
    assert(be_u32_at(b, 4) == be_u32_at(u32_be_bytes(transaction_id), 0));
    let c = u64_be_bytes(connection_id);
    assert(be_u32_at(b, 8) == be_u32_at(c, 0));
    assert(be_u32_at(b, 12) == be_u32_at(c, 4));
}

/// The 98 bytes of a UDP announce: connection id, action, transaction id,
/// info hash, peer id, downloaded 0, left `total_length`, uploaded 0, event 0,
/// IP 0, key 0, num_want -1, port 6881.
pub open spec fn announce_bytes(
    connection_id: u64,
    action: u32,
    transaction_id: u32,
    info_hash: Seq<u8>,
    peer_id: Seq<u8>,
    total_length: i64,
) -> Seq<u8> {
    u64_be_bytes(connection_id) + u32_be_bytes(action) + u32_be_bytes(transaction_id) + info_hash
        + peer_id + u64_be_bytes(0) + u64_be_bytes(total_length as u64) + u64_be_bytes(0)
        + u32_be_bytes(0) + u32_be_bytes(0) + u32_be_bytes(0) + u32_be_bytes(0xffff_ffff)
        + u16_be_bytes(6881)
}

fn announce_with(
    connection_id: u64,
    action: u32,
    transaction_id: u32,
    info_hash: &[u8; 20],
    peer_id: &[u8; 20],
    total_length: i64,
) -> (r: Vec<u8>)
    ensures
        r@ == announce_bytes(connection_id, action, transaction_id, info_hash@, peer_id@, total_length),
        r@.len() == 98,
{
    let mut request: Vec<u8> = Vec::with_capacity(98);
    push_u64_be(&mut request, connection_id);
    push_u32_be(&mut request, action);
    push_u32_be(&mut request, transaction_id);
    push_all(&mut request, info_hash.as_slice());
    push_all(&mut request, peer_id.as_slice());
    push_u64_be(&mut request, 0);
    push_u64_be(&mut request, total_length as u64);
    push_u64_be(&mut request, 0);
    push_u32_be(&mut request, 0);
    push_u32_be(&mut request, 0);
    push_u32_be(&mut request, 0);
    push_u32_be(&mut request, 0xffff_ffff);
    push_u16_be(&mut request, 6881);
    assert(request@ =~= announce_bytes(
        connection_id,
        action,
        transaction_id,
        info_hash@,
        peer_id@,
        total_length,
    ));
    request
}

/// A UDP announce (action 2, as this client sends it) with a fresh random
/// transaction id, and that id.
pub fn announce_request(connection_id: u64, info_hash: &[u8; 20], peer_id: &[u8; 20], total_length: i64) -> (r: (u32, Vec<u8>))
    ensures
        r.1@ == announce_bytes(connection_id, 2, r.0, info_hash@, peer_id@, total_length),
        r.1@.len() == 98,
{
    let transaction_id = random_u32();
    (transaction_id, announce_with(connection_id, 2, transaction_id, info_hash, peer_id, total_length))
}

/// The info hash with its bytes in reverse order.
pub open spec fn reversed_hash(h: Seq<u8>) -> Seq<u8> {
    Seq::new(20, |i: int| h[19 - i])
}

/// The announce sent again after a scrape reply: action 1 and the info hash
/// with its bytes reversed, the same transaction id.
pub fn scrape_retry_request(
    connection_id: u64,
    transaction_id: u32,
    info_hash: &[u8; 20],
    peer_id: &[u8; 20],
    total_length: i64,
) -> (r: Vec<u8>)
    ensures
        r@ == announce_bytes(
            connection_id,
            1,
            transaction_id,
            reversed_hash(info_hash@),
            peer_id@,
            total_length,
        ),
{
    let mut formatted_hash: [u8; 20] = [0u8; 20];
    let mut i: usize = 0;
    while i < 20
        invariant
            i <= 20,
            forall|k: int| 0 <= k < i ==> formatted_hash@[k] == info_hash@[19 - k],
        decreases 20 - i,
    {
        formatted_hash[i] = info_hash[19 - i];
        i = i + 1;
    }
    assert(formatted_hash@ =~= reversed_hash(info_hash@));
    announce_with(connection_id, 1, transaction_id, &formatted_hash, peer_id, total_length)
}

/// What `String::from_utf8_lossy` makes of `bytes`.
pub uninterp spec fn utf8_lossy(bytes: Seq<u8>) -> Seq<char>;

/// Decodes `bytes` as UTF-8 with `String::from_utf8_lossy`, replacing invalid
/// sequences.
///
/// Claims that the text depends on the bytes alone, and (as the documentation
/// says) that valid UTF-8 is decoded as it is. What replaces invalid
/// sequences is left unsaid.
#[verifier::external_body]
fn from_utf8_lossy(bytes: &[u8]) -> (r: String)
    ensures
        r@ == utf8_lossy(bytes@),
        vstd::utf8::valid_utf8(bytes@) ==> r@ == vstd::utf8::decode_utf8(bytes@),
{
    String::from_utf8_lossy(bytes).into_owned()
}

/// What a UDP tracker's reply to an announce means to the client.
#[derive(Debug)]
pub enum AnnounceReply {
    /// Fewer than 20 bytes arrived.
    TooShort,
    /// The reply answers another request.
    TransactionMismatch,
    /// Action 1: the announce succeeded.
    Peers { interval: u32, leechers: u32, seeders: u32, peers: Vec<PeerInfo> },
    /// Action 2: a scrape reply; the client announces again.
    Scrape,
    /// Action 3: the tracker refused, with a message.
    Failure { message: String },
    /// Any other action.
    UnexpectedAction { action: u32 },
}

/// Classifies the `response` (the bytes that arrived) of a UDP tracker to the
/// announce with id `transaction_id`.
pub fn classify_announce_response(response: &[u8], transaction_id: u32) -> (r: AnnounceReply)
    ensures
        response@.len() < 20 ==> r is TooShort,
        response@.len() >= 20 && be_u32_at(response@, 4) != transaction_id ==> r is TransactionMismatch,
        response@.len() >= 20 && be_u32_at(response@, 4) == transaction_id ==> {
            let action = be_u32_at(response@, 0);
            if action == 1 {
                r matches AnnounceReply::Peers { interval, leechers, seeders, peers } && interval
                    == be_u32_at(response@, 8) && leechers == be_u32_at(response@, 12) && seeders
                    == be_u32_at(response@, 16) && compact_peers(peers@, response@.skip(20))
            } else if action == 2 {
                r is Scrape
            } else if action == 3 {
                r matches AnnounceReply::Failure { message } && message@ == utf8_lossy(
                    response@.skip(8),
                )
            } else {
                r matches AnnounceReply::UnexpectedAction { action: a } && a == action
            }
        },
{
    if response.len() < 20 {
        return AnnounceReply::TooShort;
    }
    let action = read_u32_be(response, 0);
    if read_u32_be(response, 4) != transaction_id {
        return AnnounceReply::TransactionMismatch;
    }
    if action == 1 {
        let interval = read_u32_be(response, 8);
        let leechers = read_u32_be(response, 12);
        let seeders = read_u32_be(response, 16);
        let peers = compact_peers_from(response, 20);
        AnnounceReply::Peers { interval, leechers, seeders, peers }
    } else if action == 2 {
        AnnounceReply::Scrape
    } else if action == 3 {
        let rest = crate::wire::copy_range(response, 8, response.len());
        assert(response@.subrange(8, response@.len() as int) =~= response@.skip(8));
        AnnounceReply::Failure { message: from_utf8_lossy(rest.as_slice()) }
    } else {
        AnnounceReply::UnexpectedAction { action }
    }
}

/// The peers of the reply to the announce sent again after a scrape: action 1
/// carries peers, any other action fails.
pub fn parse_scrape_retry_response(response: &[u8]) -> (r: Result<Vec<PeerInfo>, String>)
    requires
        response@.len() >= 4,
        be_u32_at(response@, 0) == 1 ==> response@.len() >= 20,
    ensures
        be_u32_at(response@, 0) == 1 ==> (r matches Ok(peers) && compact_peers(
            peers@,
            response@.skip(20),
        )),
        be_u32_at(response@, 0) != 1 ==> (r matches Err(t) && t@
            == "Failed to get proper announce response after scrape"@),
{
    if read_u32_be(response, 0) == 1 {
        Ok(compact_peers_from(response, 20))
    } else {
        let mut t = String::new();
        push_str(&mut t, "Failed to get proper announce response after scrape");
        Err(t)
    }
}

/// How many times the client tries each exchange with a UDP tracker (the
/// connection request, then the announce).
pub const UDP_ATTEMPTS: u32 = 2;

/// The attempts left at one exchange with a UDP tracker.
#[derive(Debug)]
pub struct UdpAttempts {
    pub left: u32,
}

/// What the announce exchange does after a reply.
#[derive(Debug)]
pub enum AnnounceAction {
    /// The announce succeeded with these peers.
    Done(Vec<PeerInfo>),
    /// A scrape reply: announce once more (see [`scrape_retry_request`]).
    ScrapeRetry,
    /// Send the announce again.
    Retry,
    /// No attempt is left.
    GiveUp,
}

impl UdpAttempts {
    /// A fresh exchange, with every attempt left.
    pub fn new() -> (r: UdpAttempts)
        ensures
            r.left == UDP_ATTEMPTS,
    {
        UdpAttempts { left: UDP_ATTEMPTS }
    }

    /// Records a failed attempt; whether another attempt is left.
    pub fn fail(&mut self) -> (again: bool)
        requires
            old(self).left > 0,
        ensures
            final(self).left == old(self).left - 1,
            again == (final(self).left > 0),
    {
        self.left = self.left - 1;
        self.left > 0
    }

    /// The decision on a reply to the announce: peers end the exchange, a
    /// scrape reply calls for one more announce, anything else costs an
    /// attempt.
    pub fn on_reply(&mut self, reply: AnnounceReply) -> (r: AnnounceAction)
        requires
            old(self).left > 0,
        ensures
            reply matches AnnounceReply::Peers { peers, .. } ==> r == AnnounceAction::Done(peers)
                && final(self).left == old(self).left,
            reply is Scrape ==> r is ScrapeRetry && final(self).left == old(self).left,
            !(reply is Peers) && !(reply is Scrape) ==> {
                &&& final(self).left == old(self).left - 1
                &&& final(self).left > 0 ==> r is Retry
                &&& final(self).left == 0 ==> r is GiveUp
            },
    {
        match reply {
            AnnounceReply::Peers { peers, .. } => AnnounceAction::Done(peers),
            AnnounceReply::Scrape => AnnounceAction::ScrapeRetry,
            _ => {
                if self.fail() {
                    AnnounceAction::Retry
                } else {
                    AnnounceAction::GiveUp
                }
            },
        }
    }
}

/// The views of a list of query pairs.
pub open spec fn pair_views(pairs: Seq<(String, String)>) -> Seq<(Seq<char>, Seq<char>)> {
    pairs.map_values(|p: (String, String)| (p.0@, p.1@))
}

/// What `url::Url::parse(base)`, followed by `append_pair` of each of `pairs` on
/// its `query_pairs_mut()`, serializes to; `None` when `base` does not parse.
pub uninterp spec fn url_with_query(base: Seq<char>, pairs: Seq<(Seq<char>, Seq<char>)>) -> Option<Seq<char>>;

/// Parses `base` with `url::Url::parse` and appends `pairs` to its query with
/// `form_urlencoded`'s `append_pair`.
///
/// Claims that the outcome depends on `base` and `pairs` alone. The text of
/// the error, `url::ParseError`'s `Display`, is left unsaid.
#[verifier::external_body]
fn url_with_query_pairs(base: &str, pairs: &Vec<(String, String)>) -> (r: Result<String, String>)
    ensures
        match r {
            Ok(u) => url_with_query(base@, pair_views(pairs@)) == Some(u@),
            Err(_) => url_with_query(base@, pair_views(pairs@)) is None,
        },
{
    let mut url = url::Url::parse(base).map_err(|e| e.to_string())?;
    url.query_pairs_mut().extend_pairs(pairs.iter());
    Ok(url.into())
}

/// The query of an HTTP announce, in order: the url-encoded info hash, the
/// peer id, port 6881, uploaded 0, downloaded 0, left `total_length`, compact
/// 1, event started.
pub open spec fn announce_query(info_hash: Seq<u8>, peer_id: Seq<u8>, total_length: i64) -> Seq<(Seq<char>, Seq<char>)> {
    seq![
        ("info_hash"@, escaped(info_hash)),
        ("peer_id"@, utf8_lossy(peer_id)),
        ("port"@, "6881"@),
        ("uploaded"@, "0"@),
        ("downloaded"@, "0"@),
        ("left"@, signed_decimal(total_length as int)),
        ("compact"@, "1"@),
        ("event"@, "started"@),
    ]
}

fn pair(k: &str, v: String) -> (r: (String, String))
    ensures
        r.0@ == k@,
        r.1@ == v@,
{
    (crate::text::owned(k), v)
}

/// The url of an HTTP announce to the tracker at `announce`.
pub fn announce_url(announce: &str, info_hash: &[u8; 20], peer_id: &[u8; 20], total_length: i64) -> (r: Result<String, String>)
    ensures
        match url_with_query(announce@, announce_query(info_hash@, peer_id@, total_length)) {
            Some(u) => r matches Ok(s) && s@ == u,
            None => r matches Err(_),
        },
{
    let mut left = String::new();
    push_signed_decimal(&mut left, total_length);
    let mut pairs: Vec<(String, String)> = Vec::new();
    pairs.push(pair("info_hash", urlencode(info_hash.as_slice())));
    pairs.push(pair("peer_id", from_utf8_lossy(peer_id.as_slice())));
    pairs.push(pair("port", crate::text::owned("6881")));
    pairs.push(pair("uploaded", crate::text::owned("0")));
    pairs.push(pair("downloaded", crate::text::owned("0")));
    pairs.push(pair("left", left));
    pairs.push(pair("compact", crate::text::owned("1")));
    pairs.push(pair("event", crate::text::owned("started")));
    assert(pair_views(pairs@) =~= announce_query(info_hash@, peer_id@, total_length));
    match url_with_query_pairs(announce, &pairs) {
        Ok(u) => Ok(u),
        Err(e) => Err(e),
    }
}

/// The peers of an HTTP tracker's response: its `peer` list when that is not
/// empty, else its compact `peers`; an error when there are none.
pub fn select_peers(peer: Vec<PeerInfo>, peers_binary: Option<Vec<u8>>) -> (r: Result<Vec<PeerInfo>, String>)
    ensures
        peer@.len() > 0 ==> (r matches Ok(p) && p@ == peer@),
        peer@.len() == 0 ==> match peers_binary {
            None => r matches Err(t) && t@ == "No peers found in response"@,
            Some(b) => if b@.len() / 6 == 0 {
                r matches Err(t) && t@ == "Tracker returned no peers"@
            } else {
                r matches Ok(p) && compact_peers(p@, b@)
            },
        },
{
    let peers = if peer.len() > 0 {
        peer
    } else if let Some(binary_peer) = peers_binary {
        parse_binary_peers(binary_peer.as_slice())
    } else {
        let mut t = String::new();
        push_str(&mut t, "No peers found in response");
        return Err(t);
    };
    if peers.len() == 0 {
        let mut t = String::new();
        push_str(&mut t, "Tracker returned no peers");
        Err(t)
    } else {
        Ok(peers)
    }
}


/// The answer of an HTTP tracker to an announce.
#[derive(Debug)]
pub struct TrackerResponse {
    pub interval: Option<i64>,
    pub peer: Vec<PeerInfo>,
    pub peers_binary: Option<Vec<u8>>,
}

impl TrackerResponse {
    /// The peers the tracker answered with (see [`select_peers`]).
    pub fn into_peers(self) -> (r: Result<Vec<PeerInfo>, String>)
        ensures
            self.peer@.len() > 0 ==> (r matches Ok(p) && p@ == self.peer@),
            self.peer@.len() == 0 ==> match self.peers_binary {
                None => r matches Err(t) && t@
                    == "No peers found in response"@,
                Some(b) => if b@.len() / 6 == 0 {
                    r matches Err(t) && t@ == "Tracker returned no peers"@
                } else {
                    r matches Ok(p) && compact_peers(p@, b@)
                },
            },
    {
        select_peers(self.peer, self.peers_binary)
    }
}

} // verus!
