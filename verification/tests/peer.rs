use torrs::error::TorrentError;
use torrs::peer::{
    block_length, check_handshake_response, decode_message, handshake_message,
    interested_message, message_payload_len, piece_request, BlockCursor, Peer, PeerMessage,
};

/// Reads one message from a byte stream, as a peer connection reads it.
fn read(bytes: &[u8]) -> Result<PeerMessage, TorrentError> {
    let msg_len = u32::from_be_bytes([bytes[0], bytes[1], bytes[2], bytes[3]]);
    if msg_len == 0 {
        return decode_message(0, 0, &[]);
    }
    let id = bytes[4];
    let n = message_payload_len(msg_len, id);
    decode_message(msg_len, id, &bytes[5..5 + n])
}

#[test]
fn interested_reads_back() {
    let m = interested_message();
    assert_eq!(m, vec![0, 0, 0, 1, 2]);
    assert!(matches!(read(&m), Ok(PeerMessage::Interested)));
}

#[test]
fn request_reads_back() {
    let m = piece_request(7, 16384, 1000);
    assert_eq!(m.len(), 17);
    assert_eq!(&m[..5], &[0, 0, 0, 13, 6]);
    match read(&m) {
        Ok(PeerMessage::Request { index, begin, length }) => {
            assert_eq!((index, begin, length), (7, 16384, 1000))
        }
        other => panic!("unexpected {:?}", other),
    }
}

#[test]
fn decode_each_kind() {
    assert!(matches!(read(&[0, 0, 0, 0]), Ok(PeerMessage::KeepAlive)));
    assert!(matches!(read(&[0, 0, 0, 1, 0]), Ok(PeerMessage::Choke)));
    assert!(matches!(read(&[0, 0, 0, 1, 1]), Ok(PeerMessage::Unchoke)));
    assert!(matches!(read(&[0, 0, 0, 1, 3]), Ok(PeerMessage::NotInterested)));
    assert!(matches!(read(&[0, 0, 0, 5, 4, 0, 0, 1, 2]), Ok(PeerMessage::Have { piece_idx: 258 })));
    match read(&[0, 0, 0, 3, 5, 0xff, 0x80]) {
        Ok(PeerMessage::BitField { bitfield }) => assert_eq!(bitfield, vec![0xff, 0x80]),
        other => panic!("unexpected {:?}", other),
    }
    match read(&[0, 0, 0, 11, 7, 0, 0, 0, 1, 0, 0, 0, 2, 9, 8]) {
        Ok(PeerMessage::Piece { index, begin, block }) => {
            assert_eq!((index, begin, block), (1, 2, vec![9, 8]))
        }
        other => panic!("unexpected {:?}", other),
    }
    assert!(matches!(
        read(&[0, 0, 0, 13, 8, 0, 0, 0, 1, 0, 0, 0, 2, 0, 0, 0, 3]),
        Ok(PeerMessage::Cancel { index: 1, begin: 2, length: 3 })
    ));
    match read(&[0, 0, 0, 3, 42, 1, 2]) {
        Err(TorrentError::InvalidMessage(t)) => assert_eq!(t, "Unknown message ID: 42"),
        other => panic!("unexpected {:?}", other),
    }
}

#[test]
fn payload_lengths() {
    assert_eq!(message_payload_len(1, 0), 0);
    assert_eq!(message_payload_len(5, 4), 4);
    assert_eq!(message_payload_len(10, 5), 9);
    assert_eq!(message_payload_len(13, 6), 12);
    assert_eq!(message_payload_len(20, 7), 19);
    assert_eq!(message_payload_len(7, 99), 6);
}

#[test]
fn handshake_round_trip() {
    let hash = [3u8; 20];
    let id = [4u8; 20];
    let h = handshake_message(&hash, &id);
    assert_eq!(h.len(), 68);
    assert_eq!(h[0], 19);
    assert_eq!(&h[1..20], b"BitTorrent protocol");
    assert_eq!(&h[20..28], &[0u8; 8]);
    assert_eq!(&h[28..48], &hash);
    assert_eq!(&h[48..68], &id);
    assert!(check_handshake_response(&h, &hash).is_ok());
}

#[test]
fn handshake_refusals() {
    let hash = [3u8; 20];
    let mut h = handshake_message(&hash, &[4u8; 20]);
    match check_handshake_response(&h, &[10u8; 20]) {
        Err(TorrentError::InvalidHandshake(t)) => assert_eq!(
            t,
            format!(
                "Info hash mismatch.\nExpected: {:02x?}\nReceived: {:02x?}",
                [10u8; 20],
                &h[28..48]
            )
        ),
        other => panic!("unexpected {:?}", other),
    }
    h[0] = 18;
    match check_handshake_response(&h, &hash) {
        Err(TorrentError::InvalidHandshake(t)) => {
            assert_eq!(t, format!("Invalid protocol string. Got: {:?}", &h[..20]))
        }
        other => panic!("unexpected {:?}", other),
    }
}

#[test]
fn bitfield_records_pieces() {
    let mut p = Peer::new("1.2.3.4".to_string(), 6881);
    assert!(p.is_choked);
    assert!(!p.is_interested);
    p.parse_bitfield(&[0b1000_0001, 0b0100_0000]);
    let mut got: Vec<u32> = p.piece_availability.iter().copied().collect();
    got.sort();
    assert_eq!(got, vec![0, 7, 9]);
}

#[test]
fn init_message_bitfield_or_unchoke() {
    let mut p = Peer::new("h".to_string(), 1);
    assert!(p.receive_init_msg(PeerMessage::BitField { bitfield: vec![0x20] }).is_ok());
    assert_eq!(p.bitfields, Some(vec![0x20]));
    assert!(p.piece_availability.contains(&2));
    assert!(p.receive_init_msg(PeerMessage::Unchoke).is_ok());
    assert!(!p.is_choked);
    match p.receive_init_msg(PeerMessage::Have { piece_idx: 4 }) {
        Err(TorrentError::InvalidMessage(t)) => assert_eq!(
            t,
            "expected either bitfield or unchoke msgs, got Have { piece_idx: 4 }"
        ),
        other => panic!("unexpected {:?}", other),
    }
}

#[test]
fn debug_text_matches_debug() {
    let msgs = vec![
        PeerMessage::KeepAlive,
        PeerMessage::NotInterested,
        PeerMessage::BitField { bitfield: vec![1, 200] },
        PeerMessage::Request { index: 1, begin: 2, length: 3 },
        PeerMessage::Piece { index: 1, begin: 2, block: vec![5] },
        PeerMessage::Cancel { index: 4, begin: 5, length: 6 },
    ];
    for m in msgs {
        assert_eq!(m.debug_text(), format!("{:?}", m));
    }
}

#[test]
fn waiting_for_unchoke() {
    let mut p = Peer::new("h".to_string(), 1);
    assert!(!p.wait_for_unchoke_step(PeerMessage::Have { piece_idx: 3 }));
    assert!(p.piece_availability.contains(&3));
    assert!(!p.wait_for_unchoke_step(PeerMessage::KeepAlive));
    assert!(p.wait_for_unchoke_step(PeerMessage::Unchoke));
    assert!(p.is_choked);
    assert!(matches!(p.wait_for_unchoke_result(), Err(TorrentError::DownloadTimedout)));
    p.is_choked = false;
    assert!(p.wait_for_unchoke_result().is_ok());
}

#[test]
fn waiting_for_a_block() {
    let mut p = Peer::new("h".to_string(), 1);
    let wrong = PeerMessage::Piece { index: 1, begin: 0, block: vec![1] };
    assert!(p.wait_for_piece_block_step(wrong, 1, 16384).is_none());
    assert!(p.wait_for_piece_block_step(PeerMessage::Have { piece_idx: 8 }, 1, 0).is_none());
    assert!(p.piece_availability.contains(&8));
    let right = PeerMessage::Piece { index: 1, begin: 16384, block: vec![1, 2] };
    match p.wait_for_piece_block_step(right, 1, 16384) {
        Some(Ok(PeerMessage::Piece { block, .. })) => assert_eq!(block, vec![1, 2]),
        other => panic!("unexpected {:?}", other),
    }
    match p.wait_for_piece_block_step(PeerMessage::Choke, 1, 0) {
        Some(Err(TorrentError::PeerError(t))) => assert_eq!(t, "Peer choked during download"),
        other => panic!("unexpected {:?}", other),
    }
}

#[test]
fn blocks_of_a_piece() {
    assert_eq!(block_length(40000, 0), 16384);
    assert_eq!(block_length(40000, 32768), 7232);
    assert_eq!(block_length(10, 9), 1);
}

#[test]
fn blocks_tile_the_piece() {
    let mut c = BlockCursor::new(40000, 0);
    let mut blocks = vec![];
    while let Some(b) = c.next_block() {
        blocks.push(b);
        c.record_block();
    }
    assert_eq!(blocks, vec![(0, 16384), (16384, 16384), (32768, 7232)]);
    assert_eq!(c.downloaded, 40000);

    let mut resumed = BlockCursor::new(40000, 32768);
    assert_eq!(resumed.next_block(), Some((32768, 7232)));
    resumed.record_block();
    assert_eq!(resumed.next_block(), None);
    assert_eq!(resumed.downloaded, 7232);

    assert_eq!(BlockCursor::new(10, 20).next_block(), None);
}

#[test]
fn zero_length_is_keep_alive() {
    assert!(matches!(decode_message(0, 0, &[]), Ok(PeerMessage::KeepAlive)));
    assert!(matches!(decode_message(0, 200, &[]), Ok(PeerMessage::KeepAlive)));
}

#[test]
fn interest_is_recorded() {
    let mut p = Peer::new("1.2.3.4".to_string(), 6881);
    assert!(!p.is_interested);
    p.mark_interested();
    assert!(p.is_interested);
    assert!(p.is_choked);
}
