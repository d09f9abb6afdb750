//! The peer wire protocol: messages, their codec, the handshake, and the
//! state a client keeps about each peer.

use crate::error::TorrentError;
use crate::text::{debug_bytes, decimal, push_debug_bytes, push_decimal, push_str};
use crate::wire::{be_u32_at, copy_range, push_u32_be, read_u32_be, u32_be_bytes};
use crate::text::{debug_hex_bytes, push_debug_hex_bytes};
use std::collections::{HashMap, HashSet};
use vstd::prelude::*;

verus! {

/// A message of the peer wire protocol.
#[derive(Debug)]
pub enum PeerMessage {
    KeepAlive,
    Choke,
    Unchoke,
    Interested,
    NotInterested,
    Have { piece_idx: u32 },
    BitField { bitfield: Vec<u8> },
    Request { index: u32, begin: u32, length: u32 },
    Piece { index: u32, begin: u32, block: Vec<u8> },
    Cancel { index: u32, begin: u32, length: u32 },
}

/// The mathematical value of a [`PeerMessage`].
pub enum MessageView {
    KeepAlive,
    Choke,
    Unchoke,
    Interested,
    NotInterested,
    Have(u32),
    BitField(Seq<u8>),
    Request(u32, u32, u32),
    Piece(u32, u32, Seq<u8>),
    Cancel(u32, u32, u32),
}

impl View for PeerMessage {
    type V = MessageView;

    open spec fn view(&self) -> MessageView {
        match self {
            PeerMessage::KeepAlive => MessageView::KeepAlive,
            PeerMessage::Choke => MessageView::Choke,
            PeerMessage::Unchoke => MessageView::Unchoke,
            PeerMessage::Interested => MessageView::Interested,
            PeerMessage::NotInterested => MessageView::NotInterested,
            PeerMessage::Have { piece_idx } => MessageView::Have(*piece_idx),
            PeerMessage::BitField { bitfield } => MessageView::BitField(bitfield@),
            PeerMessage::Request { index, begin, length } => MessageView::Request(
                *index,
                *begin,
                *length,
            ),
            PeerMessage::Piece { index, begin, block } => MessageView::Piece(
                *index,
                *begin,
                block@,
            ),
            PeerMessage::Cancel { index, begin, length } => MessageView::Cancel(
                *index,
                *begin,
                *length,
            ),
        }
    }
}

/// How many payload bytes follow the id byte of a message whose length prefix
/// is `msg_len` and whose id is `id`: fixed for the fixed-size messages,
/// the rest of the frame otherwise.
pub open spec fn payload_len(msg_len: u32, id: u8) -> int {
    if id <= 3 {
        0
    } else if id == 4 {
        4
    } else if id == 6 || id == 8 {
        12
    } else {
        msg_len - 1
    }
}

/// The message with id `id` and payload `p`, or `None` when the id is unknown.
pub open spec fn decoded(id: u8, p: Seq<u8>) -> Option<MessageView> {
    if id == 0 {
        Some(MessageView::Choke)
    } else if id == 1 {
        Some(MessageView::Unchoke)
    } else if id == 2 {
        Some(MessageView::Interested)
    } else if id == 3 {
        Some(MessageView::NotInterested)
    } else if id == 4 {
        Some(MessageView::Have(be_u32_at(p, 0)))
    } else if id == 5 {
        Some(MessageView::BitField(p))
    } else if id == 6 {
        Some(MessageView::Request(be_u32_at(p, 0), be_u32_at(p, 4), be_u32_at(p, 8)))
    } else if id == 7 {
        Some(MessageView::Piece(be_u32_at(p, 0), be_u32_at(p, 4), p.skip(8)))
    } else if id == 8 {
        Some(MessageView::Cancel(be_u32_at(p, 0), be_u32_at(p, 4), be_u32_at(p, 8)))
    } else {
        None
    }
}

/// The message that a reader of the byte stream `bytes` takes from its front:
/// a 4-byte big-endian length, then (unless the length is zero) an id byte and
/// the payload of that id. `None` when the stream ends before the message does,
/// or the id is unknown.
pub open spec fn read_frame(bytes: Seq<u8>) -> Option<MessageView> {
    if bytes.len() < 4 {
        None
    } else if be_u32_at(bytes, 0) == 0 {
        Some(MessageView::KeepAlive)
    } else if bytes.len() < 5 {
        None
    } else {
        let msg_len = be_u32_at(bytes, 0);
        let id = bytes[4];
        if id == 7 && msg_len < 9 {
            None
        } else if bytes.len() < 5 + payload_len(msg_len, id) {
            None
        } else {
            decoded(id, bytes.subrange(5, 5 + payload_len(msg_len, id)))
        }
    }
}

/// The text of the error for an unknown message id.
pub open spec fn unknown_id_text(id: u8) -> Seq<char> {
    "Unknown message ID: "@ + decimal(id as nat)
}

/// Number of payload bytes to read after the id byte (see [`payload_len`]).
pub fn message_payload_len(msg_len: u32, id: u8) -> (r: usize)
    requires
        msg_len >= 1,
    ensures
        r == payload_len(msg_len, id),
{
    if id <= 3 {
        0
    } else if id == 4 {
        4
    } else if id == 6 || id == 8 {
        12
    } else {
        (msg_len - 1) as usize
    }
}

/// Decodes a message whose length prefix is `msg_len`: a zero length is a
/// keep-alive (with no id or payload); otherwise the message with id `id` is
/// decoded from its payload.
///
/// Fails with `InvalidMessage` exactly when the length is not zero and the id
/// is not one of the ten message ids.
pub fn decode_message(msg_len: u32, id: u8, payload: &[u8]) -> (r: Result<PeerMessage, TorrentError>)
    requires
        msg_len >= 1 ==> id == 7 ==> msg_len >= 9,
        msg_len >= 1 ==> payload@.len() == payload_len(msg_len, id),
    ensures
        msg_len == 0 ==> (r matches Ok(m) && m@ is KeepAlive),
        msg_len >= 1 ==> match r {
            Ok(m) => decoded(id, payload@) == Some(m@),
            Err(e) => decoded(id, payload@) is None && (e matches TorrentError::InvalidMessage(t)
                && t@ == unknown_id_text(id)),
        },
{
    if msg_len == 0 {
        Ok(PeerMessage::KeepAlive)
    } else if id == 0 {
        Ok(PeerMessage::Choke)
    } else if id == 1 {
        Ok(PeerMessage::Unchoke)
    } else if id == 2 {
        Ok(PeerMessage::Interested)
    } else if id == 3 {
        Ok(PeerMessage::NotInterested)
    } else if id == 4 {
        Ok(PeerMessage::Have { piece_idx: read_u32_be(payload, 0) })
    } else if id == 5 {
        let bitfield = copy_range(payload, 0, payload.len());
        assert(payload@.subrange(0, payload@.len() as int) =~= payload@);
        Ok(PeerMessage::BitField { bitfield })
    } else if id == 6 {
        Ok(
            PeerMessage::Request {
                index: read_u32_be(payload, 0),
                begin: read_u32_be(payload, 4),
                length: read_u32_be(payload, 8),
            },
        )
    } else if id == 7 {
        let block = copy_range(payload, 8, payload.len());
        assert(payload@.subrange(8, payload@.len() as int) =~= payload@.skip(8));
        Ok(
            PeerMessage::Piece {
                index: read_u32_be(payload, 0),
                begin: read_u32_be(payload, 4),
                block,
            },
        )
    } else if id == 8 {
        Ok(
            PeerMessage::Cancel {
                index: read_u32_be(payload, 0),
                begin: read_u32_be(payload, 4),
                length: read_u32_be(payload, 8),
            },
        )
    } else {
        let mut t = String::new();
        push_str(&mut t, "Unknown message ID: ");
        push_decimal(&mut t, id as u64);
        Err(TorrentError::InvalidMessage(t))
    }
}

/// The bytes of an `interested` message.
pub open spec fn interested_bytes() -> Seq<u8> {
    seq![0u8, 0u8, 0u8, 1u8, 2u8]
}

/// The bytes of a `request` message for `length` bytes at offset `begin` of piece `index`.
pub open spec fn request_bytes(index: u32, begin: u32, length: u32) -> Seq<u8> {
    u32_be_bytes(13) + seq![6u8] + u32_be_bytes(index) + u32_be_bytes(begin) + u32_be_bytes(length)
}

/// The `interested` message, framed.
pub fn interested_message() -> (r: Vec<u8>)
    ensures
        r@ == interested_bytes(),
{
    let mut r: Vec<u8> = Vec::new();
    r.push(0);
    r.push(0);
    r.push(0);
    r.push(1);
    r.push(2);
    assert(r@ =~= interested_bytes());
    r
}

/// The `request` message for `length` bytes at offset `begin` of piece `index`, framed.
pub fn piece_request(index: u32, begin: u32, length: u32) -> (r: Vec<u8>)
    ensures
        r@ == request_bytes(index, begin, length),
        r@.len() == 17,
{
    let mut r: Vec<u8> = Vec::with_capacity(17);
    push_u32_be(&mut r, 13);
    r.push(6);
    push_u32_be(&mut r, index);
    push_u32_be(&mut r, begin);
    push_u32_be(&mut r, length);
    assert(r@ =~= request_bytes(index, begin, length));
    r
}

/// Reading the `interested` message back gives `Interested`.
pub proof fn law_interested_roundtrip()
    ensures
        read_frame(interested_bytes()) == Some(MessageView::Interested),
{
    let b = interested_bytes();
    assert(be_u32_at(b, 0) == 1);
}

/// Reading a `request` message back gives the request that was framed.
pub proof fn law_request_roundtrip(index: u32, begin: u32, length: u32)
    ensures
        read_frame(request_bytes(index, begin, length)) == Some(
            MessageView::Request(index, begin, length),
        ),
{
    let b = request_bytes(index, begin, length);
    crate::wire::lemma_u32_roundtrip(13);
    crate::wire::lemma_u32_roundtrip(index);
    crate::wire::lemma_u32_roundtrip(begin);
    crate::wire::lemma_u32_roundtrip(length);
    assert(b.subrange(0, 4) =~= u32_be_bytes(13));
    assert(be_u32_at(b, 0) == be_u32_at(u32_be_bytes(13), 0));
    let p = b.subrange(5, 17);
    assert(p.subrange(0, 4) =~= u32_be_bytes(index));
    assert(p.subrange(4, 8) =~= u32_be_bytes(begin));
    assert(p.subrange(8, 12) =~= u32_be_bytes(length));
    assert(be_u32_at(p, 0) == be_u32_at(u32_be_bytes(index), 0));
    assert(be_u32_at(p, 4) == be_u32_at(u32_be_bytes(begin), 0));
    assert(be_u32_at(p, 8) == be_u32_at(u32_be_bytes(length), 0));
}


/// The bytes of the protocol name, "BitTorrent protocol".
pub open spec fn protocol_name() -> Seq<u8> {
    seq![
        66u8, 105u8, 116u8, 84u8, 111u8, 114u8, 114u8, 101u8, 110u8, 116u8, 32u8,
        112u8, 114u8, 111u8, 116u8, 111u8, 99u8, 111u8, 108u8,
    ]
}

/// The 68 bytes of the handshake for torrent `info_hash` from client `peer_id`:
/// the protocol name with its length, eight reserved zero bytes, the info hash
/// and the peer id.
pub open spec fn handshake_bytes(info_hash: Seq<u8>, peer_id: Seq<u8>) -> Seq<u8> {
    seq![19u8] + protocol_name() + Seq::new(8, |i: int| 0u8) + info_hash + peer_id
}

/// Whether a handshake response names the protocol.
pub open spec fn names_protocol(response: Seq<u8>) -> bool {
    response[0] == 19 && response.subrange(1, 20) == protocol_name()
}

/// Whether a handshake response carries the info hash `info_hash`.
pub open spec fn carries_hash(response: Seq<u8>, info_hash: Seq<u8>) -> bool {
    response.subrange(28, 48) == info_hash
}

/// The text of the error for a handshake response that does not name the protocol.
pub open spec fn bad_protocol_text(response: Seq<u8>) -> Seq<char> {
    "Invalid protocol string. Got: "@ + debug_bytes(response.take(20))
}

/// The text of the error for a handshake response with another info hash.
pub open spec fn hash_mismatch_text(response: Seq<u8>, info_hash: Seq<u8>) -> Seq<char> {
    "Info hash mismatch.\nExpected: "@ + debug_hex_bytes(info_hash) + "\nReceived: "@
        + debug_hex_bytes(response.subrange(28, 48))
}

fn protocol_name_bytes() -> (r: Vec<u8>)
    ensures
        r@ == protocol_name(),
{
    let r: Vec<u8> = vec![
        66u8, 105u8, 116u8, 84u8, 111u8, 114u8, 114u8, 101u8, 110u8, 116u8, 32u8,
        112u8, 114u8, 111u8, 116u8, 111u8, 99u8, 111u8, 108u8,
    ];
    assert(r@ =~= protocol_name());
    r
}

/// The handshake for torrent `info_hash` from client `peer_id`.
pub fn handshake_message(info_hash: &[u8; 20], peer_id: &[u8; 20]) -> (r: Vec<u8>)
    ensures
        r@ == handshake_bytes(info_hash@, peer_id@),
        r@.len() == 68,
{
    let mut r: Vec<u8> = Vec::with_capacity(68);
    r.push(19);
    let name = protocol_name_bytes();
    crate::wire::push_all(&mut r, name.as_slice());
    let mut i: usize = 0;
    while i < 8
        invariant
            i <= 8,
            r@ == seq![19u8] + protocol_name() + Seq::new(i as nat, |k: int| 0u8),
        decreases 8 - i,
    {
        r.push(0);
        i = i + 1;
        assert(r@ =~= seq![19u8] + protocol_name() + Seq::new(i as nat, |k: int| 0u8));
    }
    crate::wire::push_all(&mut r, info_hash.as_slice());
    crate::wire::push_all(&mut r, peer_id.as_slice());
    assert(r@ =~= handshake_bytes(info_hash@, peer_id@));
    r
}

/// Checks the 68-byte handshake response of a peer against the expected info hash.
pub fn check_handshake_response(response: &[u8], info_hash: &[u8; 20]) -> (r: Result<(), TorrentError>)
    requires
        response@.len() == 68,
    ensures
        match r {
            Ok(()) => names_protocol(response@) && carries_hash(response@, info_hash@),
            Err(e) => if !names_protocol(response@) {
                e matches TorrentError::InvalidHandshake(t) && t@ == bad_protocol_text(response@)
            } else {
                !carries_hash(response@, info_hash@) && (e matches TorrentError::InvalidHandshake(t)
                    && t@ == hash_mismatch_text(response@, info_hash@))
            },
        },
{
    let name = protocol_name_bytes();
    if response[0] != 19 || !crate::wire::range_equals(response, 1, name.as_slice()) {
        let mut t = String::new();
        push_str(&mut t, "Invalid protocol string. Got: ");
        let head = copy_range(response, 0, 20);
        push_debug_bytes(&mut t, head.as_slice());
        assert(response@.subrange(0, 20) =~= response@.take(20));
        return Err(TorrentError::InvalidHandshake(t));
    }
    if !crate::wire::range_equals(response, 28, info_hash.as_slice()) {
        let mut t = String::new();
        push_str(&mut t, "Info hash mismatch.\nExpected: ");
        push_debug_hex_bytes(&mut t, info_hash.as_slice());
        push_str(&mut t, "\nReceived: ");
        let got = copy_range(response, 28, 48);
        push_debug_hex_bytes(&mut t, got.as_slice());
        return Err(TorrentError::InvalidHandshake(t));
    }
    Ok(())
}

/// A peer accepts the handshake it is sent back when it names the same torrent.
pub proof fn law_handshake_accepted(info_hash: Seq<u8>, peer_id: Seq<u8>)
    requires
        info_hash.len() == 20,
        peer_id.len() == 20,
    ensures
        names_protocol(handshake_bytes(info_hash, peer_id)),
        carries_hash(handshake_bytes(info_hash, peer_id), info_hash),
{
    let b = handshake_bytes(info_hash, peer_id);
    assert(b.subrange(1, 20) =~= protocol_name());
    assert(b.subrange(28, 48) =~= info_hash);
}


/// Rust's `Debug` rendering of a message, as the error texts quote it.
pub open spec fn message_debug(m: MessageView) -> Seq<char> {
    match m {
        MessageView::KeepAlive => "KeepAlive"@,
        MessageView::Choke => "Choke"@,
        MessageView::Unchoke => "Unchoke"@,
        MessageView::Interested => "Interested"@,
        MessageView::NotInterested => "NotInterested"@,
        MessageView::Have(p) => "Have { piece_idx: "@ + decimal(p as nat) + " }"@,
        MessageView::BitField(b) => "BitField { bitfield: "@ + debug_bytes(b) + " }"@,
        MessageView::Request(i, b, l) => "Request { index: "@ + decimal(i as nat) + ", begin: "@
            + decimal(b as nat) + ", length: "@ + decimal(l as nat) + " }"@,
        MessageView::Piece(i, b, blk) => "Piece { index: "@ + decimal(i as nat) + ", begin: "@
            + decimal(b as nat) + ", block: "@ + debug_bytes(blk) + " }"@,
        MessageView::Cancel(i, b, l) => "Cancel { index: "@ + decimal(i as nat) + ", begin: "@
            + decimal(b as nat) + ", length: "@ + decimal(l as nat) + " }"@,
    }
}

fn push_triple(t: &mut String, head: &str, i: u32, b: u32, l: u32)
    ensures
        final(t)@ == old(t)@ + head@ + decimal(i as nat) + ", begin: "@
            + decimal(b as nat) + ", length: "@ + decimal(l as nat) + " }"@,
{
    push_str(t, head);
    push_decimal(t, i as u64);
    push_str(t, ", begin: ");
    push_decimal(t, b as u64);
    push_str(t, ", length: ");
    push_decimal(t, l as u64);
    push_str(t, " }");
}

impl PeerMessage {
    /// The `Debug` rendering of the message.
    pub fn debug_text(&self) -> (r: String)
        ensures
            r@ == message_debug(self@),
    {
        let mut t = String::new();
        match self {
            PeerMessage::KeepAlive => push_str(&mut t, "KeepAlive"),
            PeerMessage::Choke => push_str(&mut t, "Choke"),
            PeerMessage::Unchoke => push_str(&mut t, "Unchoke"),
            PeerMessage::Interested => push_str(&mut t, "Interested"),
            PeerMessage::NotInterested => push_str(&mut t, "NotInterested"),
            PeerMessage::Have { piece_idx } => {
                push_str(&mut t, "Have { piece_idx: ");
                push_decimal(&mut t, *piece_idx as u64);
                push_str(&mut t, " }");
            },
            PeerMessage::BitField { bitfield } => {
                push_str(&mut t, "BitField { bitfield: ");
                push_debug_bytes(&mut t, bitfield.as_slice());
                push_str(&mut t, " }");
            },
            PeerMessage::Request { index, begin, length } => {
                push_triple(&mut t, "Request { index: ", *index, *begin, *length);
            },
            PeerMessage::Piece { index, begin, block } => {
                push_str(&mut t, "Piece { index: ");
                push_decimal(&mut t, *index as u64);
                push_str(&mut t, ", begin: ");
                push_decimal(&mut t, *begin as u64);
                push_str(&mut t, ", block: ");
                push_debug_bytes(&mut t, block.as_slice());
                push_str(&mut t, " }");
            },
            PeerMessage::Cancel { index, begin, length } => {
                push_triple(&mut t, "Cancel { index: ", *index, *begin, *length);
            },
        }
        proof {
            match self@ {
                MessageView::Request(..) => {
                    assert(t@ =~= message_debug(self@));
                },
                MessageView::Cancel(..) => {
                    assert(t@ =~= message_debug(self@));
                },
                MessageView::Have(..) => {
                    assert(t@ =~= message_debug(self@));
                },
                MessageView::BitField(..) => {
                    assert(t@ =~= message_debug(self@));
                },
                MessageView::Piece(..) => {
                    assert(t@ =~= message_debug(self@));
                },
                _ => {
                    assert(t@ =~= message_debug(self@));
                },
            }
        }
        t
    }
}

/// The address of a peer.
#[derive(Debug, Default, Clone, Hash, PartialEq, Eq)]
pub struct PeerInfo {
    pub ip: String,
    pub port: u16,
}

/// What a client knows about one peer.
#[derive(Debug, Default)]
pub struct Peer {
    pub peer_info: PeerInfo,
    pub bitfields: Option<Vec<u8>>,
    pub is_choked: bool,
    pub is_interested: bool,
    pub piece_availability: HashSet<u32>,
}

/// Whether bit `j` (counted from the most significant) of `byte` is set.
pub open spec fn bit_set(byte: u8, j: u8) -> bool {
    byte & (1u8 << (7u8 - j) as u8) != 0
}

/// The piece index of bit `j` of byte `i` of a bitfield.
pub open spec fn piece_of(i: int, j: u8) -> u32 {
    (i * 8 + j) as u32
}

/// The pieces that the bits of `b` before bit `j` of byte `i` advertise.
pub open spec fn advertised_before(b: Seq<u8>, i: int, j: u8) -> Set<u32> {
    Set::new(
        |p: u32|
            exists|ii: int, jj: u8|
                0 <= ii < b.len() && jj < 8 && (ii < i || (ii == i && jj < j)) && bit_set(
                    b[ii],
                    jj,
                ) && p == piece_of(ii, jj),
    )
}

/// The pieces that a bitfield advertises: piece `8 * i + j` for every set bit `j`
/// of byte `i`.
pub open spec fn advertised(b: Seq<u8>) -> Set<u32> {
    advertised_before(b, b.len() as int, 0)
}

proof fn lemma_advertised_step(b: Seq<u8>, i: int, j: u8)
    requires
        0 <= i < b.len(),
        j < 8,
    ensures
        advertised_before(b, i, (j + 1) as u8) == (if bit_set(b[i], j) {
            advertised_before(b, i, j).insert(piece_of(i, j))
        } else {
            advertised_before(b, i, j)
        }),
{
    let next = advertised_before(b, i, (j + 1) as u8);
    let cur = advertised_before(b, i, j);
    let want = if bit_set(b[i], j) {
        cur.insert(piece_of(i, j))
    } else {
        cur
    };
    assert forall|p: u32| next.contains(p) implies want.contains(p) by {
        let (ii, jj) = choose|ii: int, jj: u8|
            0 <= ii < b.len() && jj < 8 && (ii < i || (ii == i && jj < (j + 1) as u8)) && bit_set(
                b[ii],
                jj,
            ) && p == piece_of(ii, jj);
        if !(ii == i && jj == j) {
            assert(cur.contains(p));
        }
    }
    assert forall|p: u32| want.contains(p) implies next.contains(p) by {
        if cur.contains(p) {
            let (ii, jj) = choose|ii: int, jj: u8|
                0 <= ii < b.len() && jj < 8 && (ii < i || (ii == i && jj < j)) && bit_set(b[ii], jj)
                    && p == piece_of(ii, jj);
            assert(0 <= ii < b.len() && jj < 8 && (ii < i || (ii == i && jj < (j + 1) as u8))
                && bit_set(b[ii], jj) && p == piece_of(ii, jj));
        } else {
            assert(0 <= i < b.len() && j < 8 && (i < i || (i == i && j < (j + 1) as u8)) && bit_set(
                b[i],
                j,
            ) && p == piece_of(i, j));
        }
    }
    assert(next =~= want);
}

proof fn lemma_advertised_row(b: Seq<u8>, i: int)
    ensures
        advertised_before(b, i, 8) == advertised_before(b, i + 1, 0),
{
    assert(advertised_before(b, i, 8) =~= advertised_before(b, i + 1, 0));
}

impl Peer {
    /// A peer at `ip:port` that has not unchoked us and that we have not
    /// declared interest in.
    pub fn new(ip: String, port: u16) -> (r: Peer)
        ensures
            r.peer_info.ip@ == ip@,
            r.peer_info.port == port,
            r.bitfields is None,
            r.is_choked,
            !r.is_interested,
            r.piece_availability@ == Set::<u32>::empty(),
    {
        let peer_info = PeerInfo { ip, port };
        Peer {
            peer_info,
            bitfields: None,
            is_choked: true,
            is_interested: false,
            piece_availability: HashSet::new(),
        }
    }

    /// Records the pieces that a bitfield advertises.
    pub fn parse_bitfield(&mut self, bitfield: &[u8])
        ensures
            final(self).piece_availability@ == old(self).piece_availability@.union(
                advertised(bitfield@),
            ),
            final(self).peer_info == old(self).peer_info,
            final(self).bitfields == old(self).bitfields,
            final(self).is_choked == old(self).is_choked,
            final(self).is_interested == old(self).is_interested,
    {
        broadcast use vstd::std_specs::hash::group_hash_axioms;

        let ghost start = self.piece_availability@;
        let n = bitfield.len();
        let mut byte_idx: usize = 0;
        while byte_idx < n
            invariant
                n == bitfield@.len(),
                byte_idx <= n,
                self.piece_availability@ == start.union(
                    advertised_before(bitfield@, byte_idx as int, 0),
                ),
                self.peer_info == old(self).peer_info,
                self.bitfields == old(self).bitfields,
                self.is_choked == old(self).is_choked,
                self.is_interested == old(self).is_interested,
            decreases n - byte_idx,
        {
            let byte = bitfield[byte_idx];
            let mut bit_idx: u8 = 0;
            while bit_idx < 8
                invariant
                    n == bitfield@.len(),
                    byte_idx < n,
                    byte == bitfield@[byte_idx as int],
                    bit_idx <= 8,
                    self.piece_availability@ == start.union(
                        advertised_before(bitfield@, byte_idx as int, bit_idx),
                    ),
                    self.peer_info == old(self).peer_info,
                    self.bitfields == old(self).bitfields,
                    self.is_choked == old(self).is_choked,
                    self.is_interested == old(self).is_interested,
                decreases 8 - bit_idx,
            {
                proof {
                    lemma_advertised_step(bitfield@, byte_idx as int, bit_idx);
                }
                if (byte & (1u8 << (7 - bit_idx))) != 0 {
                    let piece_idx = (byte_idx as u128 * 8 + bit_idx as u128) as u32;
                    self.piece_availability.insert(piece_idx);
                    proof {
                        assert(self.piece_availability@ =~= start.union(
                            advertised_before(bitfield@, byte_idx as int, (bit_idx + 1) as u8),
                        ));
                    }
                }
                bit_idx = bit_idx + 1;
            }
            proof {
                lemma_advertised_row(bitfield@, byte_idx as int);
            }
            byte_idx = byte_idx + 1;
        }
    }
}


/// The text of the error for a first message that is neither a bitfield nor an unchoke.
pub open spec fn unexpected_init_text(m: MessageView) -> Seq<char> {
    "expected either bitfield or unchoke msgs, got "@ + message_debug(m)
}

/// The length of the next block to request at `offset` of a piece of
/// `piece_length` bytes: 16 KiB, or what is left of the piece.
pub open spec fn block_len(piece_length: u32, offset: u32) -> u32 {
    if piece_length - offset < 16384 {
        (piece_length - offset) as u32
    } else {
        16384
    }
}

impl Peer {
    /// Handles the first message a peer sends after the handshake: a bitfield is
    /// recorded, an unchoke lifts the choke, anything else is refused.
    pub fn receive_init_msg(&mut self, msg: PeerMessage) -> (r: Result<(), TorrentError>)
        ensures
            final(self).peer_info == old(self).peer_info,
            final(self).is_interested == old(self).is_interested,
            match msg@ {
                MessageView::BitField(b) => {
                    &&& r is Ok
                    &&& final(self).bitfields matches Some(v) && v@ == b
                    &&& final(self).piece_availability@ == old(self).piece_availability@.union(
                        advertised(b),
                    )
                    &&& final(self).is_choked == old(self).is_choked
                },
                MessageView::Unchoke => {
                    &&& r is Ok
                    &&& !final(self).is_choked
                    &&& final(self).bitfields == old(self).bitfields
                    &&& final(self).piece_availability@ == old(self).piece_availability@
                },
                _ => {
                    &&& r matches Err(TorrentError::InvalidMessage(t)) && t@ == unexpected_init_text(
                        msg@,
                    )
                    &&& final(self).is_choked == old(self).is_choked
                    &&& final(self).bitfields == old(self).bitfields
                    &&& final(self).piece_availability@ == old(self).piece_availability@
                },
            },
    {
        match msg {
            PeerMessage::BitField { bitfield } => {
                self.parse_bitfield(bitfield.as_slice());
                self.bitfields = Some(bitfield);
                Ok(())
            },
            PeerMessage::Unchoke => {
                self.is_choked = false;
                Ok(())
            },
            other => {
                let mut t = String::new();
                push_str(&mut t, "expected either bitfield or unchoke msgs, got ");
                let d = other.debug_text();
                push_str(&mut t, d.as_str());
                Err(TorrentError::InvalidMessage(t))
            },
        }
    }

    /// Handles one message while waiting to be unchoked; true when the wait is
    /// over. An unchoke ends the wait (the peer stays marked as choking); a
    /// `have` records the piece; the rest is ignored.
    pub fn wait_for_unchoke_step(&mut self, msg: PeerMessage) -> (done: bool)
        ensures
            done == (msg@ is Unchoke),
            final(self).is_choked == (if done { true } else { old(self).is_choked }),
            final(self).piece_availability@ == (match msg@ {
                MessageView::Have(p) => old(self).piece_availability@.insert(p),
                _ => old(self).piece_availability@,
            }),
            final(self).peer_info == old(self).peer_info,
            final(self).bitfields == old(self).bitfields,
            final(self).is_interested == old(self).is_interested,
    {
        broadcast use vstd::std_specs::hash::group_hash_axioms;

        match msg {
            PeerMessage::Unchoke => {
                self.is_choked = true;
                true
            },
            PeerMessage::Have { piece_idx } => {
                self.piece_availability.insert(piece_idx);
                false
            },
            _ => false,
        }
    }

    /// Records that we declared our interest to the peer.
    pub fn mark_interested(&mut self)
        ensures
            final(self).is_interested,
            final(self).peer_info == old(self).peer_info,
            final(self).bitfields == old(self).bitfields,
            final(self).is_choked == old(self).is_choked,
            final(self).piece_availability@ == old(self).piece_availability@,
    {
        self.is_interested = true;
    }

    /// The outcome of a wait for an unchoke that ended without one: a timeout
    /// while the peer still chokes us.
    pub fn wait_for_unchoke_result(&self) -> (r: Result<(), TorrentError>)
        ensures
            r is Ok <==> !self.is_choked,
            r is Err ==> r matches Err(TorrentError::DownloadTimedout),
    {
        if self.is_choked {
            Err(TorrentError::DownloadTimedout)
        } else {
            Ok(())
        }
    }

    /// Handles one message while waiting for the block at `expected_offset` of
    /// piece `expected_index`: `Some(Ok(..))` hands the block over, `Some(Err(..))`
    /// ends the wait because the peer choked us, `None` keeps waiting (a `have`
    /// is recorded on the way).
    pub fn wait_for_piece_block_step(
        &mut self,
        msg: PeerMessage,
        expected_index: u32,
        expected_offset: u32,
    ) -> (r: Option<Result<PeerMessage, TorrentError>>)
        ensures
            match msg@ {
                MessageView::Piece(i, b, _) => if i == expected_index && b == expected_offset {
                    r matches Some(Ok(m)) && m@ == msg@
                } else {
                    r is None
                },
                MessageView::Choke => r matches Some(Err(TorrentError::PeerError(t))) && t@
                    == "Peer choked during download"@,
                _ => r is None,
            },
            final(self).piece_availability@ == (match msg@ {
                MessageView::Have(p) => old(self).piece_availability@.insert(p),
                _ => old(self).piece_availability@,
            }),
            final(self).peer_info == old(self).peer_info,
            final(self).bitfields == old(self).bitfields,
            final(self).is_choked == old(self).is_choked,
            final(self).is_interested == old(self).is_interested,
    {
        broadcast use vstd::std_specs::hash::group_hash_axioms;

        match msg {
            PeerMessage::Piece { index, begin, block } => {
                if index == expected_index && begin == expected_offset {
                    Some(Ok(PeerMessage::Piece { index, begin, block }))
                } else {
                    None
                }
            },
            PeerMessage::Choke => {
                let mut t = String::new();
                push_str(&mut t, "Peer choked during download");
                Some(Err(TorrentError::PeerError(t)))
            },
            PeerMessage::Have { piece_idx } => {
                self.piece_availability.insert(piece_idx);
                None
            },
            _ => None,
        }
    }
}

/// The length of the next block to request at `offset` of a piece of `piece_length` bytes.
pub fn block_length(piece_length: u32, offset: u32) -> (r: u32)
    requires
        offset < piece_length,
    ensures
        r == block_len(piece_length, offset),
        0 < r <= 16384,
        offset + r <= piece_length,
{
    if piece_length - offset < 16384 {
        piece_length - offset
    } else {
        16384
    }
}

/// The block requests for the rest of a piece: the piece's length, the offset
/// the download (re)started at, the offset of the next block, and the bytes
/// received since the start.
#[derive(Debug)]
pub struct BlockCursor {
    pub piece_length: u32,
    pub start: u32,
    pub offset: u32,
    pub downloaded: u32,
}

impl BlockCursor {
    /// The blocks received so far lie back to back from `start`, none past
    /// the end of the piece.
    pub open spec fn well_formed(&self) -> bool {
        &&& self.offset == self.start + self.downloaded
        &&& self.downloaded > 0 ==> self.offset <= self.piece_length
    }

    /// Nothing received yet of a piece of `piece_length` bytes, starting at
    /// `start_offset`.
    pub fn new(piece_length: u32, start_offset: u32) -> (r: BlockCursor)
        ensures
            r.piece_length == piece_length,
            r.start == start_offset,
            r.offset == start_offset,
            r.downloaded == 0,
            r.well_formed(),
    {
        BlockCursor { piece_length, start: start_offset, offset: start_offset, downloaded: 0 }
    }

    /// The next block to request, as its offset and length (see
    /// [`block_length`]); `None` once the piece is complete.
    pub fn next_block(&self) -> (r: Option<(u32, u32)>)
        ensures
            r is None <==> self.offset >= self.piece_length,
            r matches Some((b, l)) ==> b == self.offset && l == block_len(self.piece_length, self.offset),
    {
        if self.offset < self.piece_length {
            Some((self.offset, block_length(self.piece_length, self.offset)))
        } else {
            None
        }
    }

    /// Records that the block at the current offset arrived.
    pub fn record_block(&mut self)
        requires
            old(self).well_formed(),
            old(self).offset < old(self).piece_length,
        ensures
            final(self).offset == old(self).offset + block_len(old(self).piece_length, old(self).offset),
            final(self).downloaded == old(self).downloaded + block_len(
                old(self).piece_length,
                old(self).offset,
            ),
            final(self).piece_length == old(self).piece_length,
            final(self).start == old(self).start,
            final(self).well_formed(),
    {
        let len = block_length(self.piece_length, self.offset);
        self.offset = self.offset + len;
        self.downloaded = self.downloaded + len;
    }
}

/// Once no block is left, the blocks received cover the piece from the offset
/// the download started at to its end, exactly.
pub proof fn law_blocks_cover_piece(c: BlockCursor)
    requires
        c.well_formed(),
        c.offset >= c.piece_length,
        c.start <= c.piece_length,
    ensures
        c.start + c.downloaded == c.piece_length,
{
}

/// A piece message carries, big-endian, the piece index in the first four
/// payload bytes and the block's offset in the next four; the block is the
/// rest of the payload.
pub proof fn law_piece_fields(p: Seq<u8>)
    requires
        p.len() >= 8,
    ensures
        decoded(7, p) matches Some(MessageView::Piece(i, b, blk)) && i as int == p[0] as int
            * 16777216 + p[1] as int * 65536 + p[2] as int * 256 + p[3] as int && b as int == p[4]
            as int * 16777216 + p[5] as int * 65536 + p[6] as int * 256 + p[7] as int && blk
            == p.subrange(8, p.len() as int),
{
    assert(p.skip(8) =~= p.subrange(8, p.len() as int));
}

/// Reading back a framed piece message gives the index, offset and block that
/// were framed.
pub proof fn law_piece_roundtrip(index: u32, begin: u32, block: Seq<u8>)
    requires
        9 + block.len() <= u32::MAX,
    ensures
        read_frame(
            u32_be_bytes((9 + block.len()) as u32) + seq![7u8] + u32_be_bytes(index) + u32_be_bytes(
                begin,
            ) + block,
        ) == Some(MessageView::Piece(index, begin, block)),
{
    let n = (9 + block.len()) as u32;
    let f = u32_be_bytes(n) + seq![7u8] + u32_be_bytes(index) + u32_be_bytes(begin) + block;
    crate::wire::lemma_u32_roundtrip(n);
    crate::wire::lemma_u32_roundtrip(index);
    crate::wire::lemma_u32_roundtrip(begin);
    assert(f.subrange(0, 4) =~= u32_be_bytes(n));
    assert(be_u32_at(f, 0) == be_u32_at(u32_be_bytes(n), 0));
    assert(f[4] == 7u8);
    let p = f.subrange(5, 5 + payload_len(n, 7));
    assert(p.subrange(0, 4) =~= u32_be_bytes(index));
    assert(p.subrange(4, 8) =~= u32_be_bytes(begin));
    assert(be_u32_at(p, 0) == be_u32_at(u32_be_bytes(index), 0));
    assert(be_u32_at(p, 4) == be_u32_at(u32_be_bytes(begin), 0));
    assert(p.skip(8) =~= block);
}

/// With a bitfield of at most 2^32 bits, the pieces it advertises are exactly
/// the numbers `8 * i + j` of the bits that are set, bit `j` of byte `i`
/// counted from the most significant.
pub proof fn law_bitfield_pieces(b: Seq<u8>)
    requires
        8 * b.len() <= 0x1_0000_0000,
    ensures
        forall|i: int, j: u8|
            #![trigger b[i] & (0x80u8 >> j)]
            0 <= i < b.len() && j < 8 && (b[i] & (0x80u8 >> j)) != 0 ==> advertised(b).contains(
                (8 * i + j) as u32,
            ),
        forall|p: u32|
            #[trigger] advertised(b).contains(p) ==> p < 8 * b.len() && (b[p as int / 8] & (0x80u8
                >> (p % 8) as u8)) != 0,
{
    assert forall|j: u8| j < 8 implies (1u8 << (7u8 - j) as u8) == #[trigger] (0x80u8 >> j) by {
        assert(j < 8 ==> (1u8 << (7u8 - j) as u8) == (0x80u8 >> j)) by (bit_vector);
    }
    let n = b.len() as int;
    assert forall|i: int, j: u8|
        #![trigger b[i] & (0x80u8 >> j)]
        0 <= i < b.len() && j < 8 && (b[i] & (0x80u8 >> j)) != 0 implies advertised(b).contains(
            (8 * i + j) as u32,
        ) by {
        assert(bit_set(b[i], j));
        assert(piece_of(i, j) == (8 * i + j) as u32);
        assert(0 <= i < b.len() && j < 8 && (i < n || (i == n && j < 0u8)) && bit_set(b[i], j)
            && (8 * i + j) as u32 == piece_of(i, j));
    }
    assert forall|p: u32| #[trigger] advertised(b).contains(p) implies p < 8 * b.len() && (b[p as int
        / 8] & (0x80u8 >> (p % 8) as u8)) != 0 by {
        let (ii, jj) = choose|ii: int, jj: u8|
            0 <= ii < b.len() && jj < 8 && (ii < n || (ii == n && jj < 0u8)) && bit_set(b[ii], jj)
                && p == piece_of(ii, jj);
        assert(8 * ii + jj < 0x1_0000_0000);
        assert(p as int == 8 * ii + jj);
        assert(p as int / 8 == ii && p % 8 == jj) by (nonlinear_arith)
            requires
                p as int == 8 * ii + jj,
                0 <= jj < 8,
                0 <= ii,
        ;
        assert((1u8 << (7u8 - jj) as u8) == (0x80u8 >> jj));
    }
}

} // verus!
