use torrs::error::TorrentError;
use torrs::bencode::BencodeValue;
use torrs::mapper::{
    calculate_info_hash, extract_info_bytes, info_bytes_of, TorrentFile, TorrentInfo, TorrentMetaData,
};

/// The metainfo of the Ubuntu 26.04 desktop image torrent.
fn load_test_torrent() -> TorrentMetaData {
    TorrentMetaData {
        announce: Some("https://torrent.ubuntu.com/announce".to_string()),
        announce_list: Some(vec![
            vec!["https://torrent.ubuntu.com/announce".to_string()],
            vec!["https://ipv6.torrent.ubuntu.com/announce".to_string()],
        ]),
        azureus_properties: None,
        created_by: Some("mktorrent 1.1".to_string()),
        creation_date: Some(1_776_000_000),
        encoding: None,
        info: TorrentInfo {
            name: "ubuntu-26.04-desktop-amd64.iso".to_string(),
            piece_length: 256 * 1024,
            pieces: vec![7u8; 24868 * 20],
            files: None,
            length: Some(6518974464),
            private: 0,
        },
        publisher: None,
        publisher_url: None,
    }
}

fn multi_file_torrent() -> TorrentMetaData {
    TorrentMetaData {
        announce: None,
        announce_list: Some(vec![
            vec!["udp://a".to_string(), "http://b".to_string()],
            vec!["http://b".to_string(), "udp://c".to_string(), "udp://a".to_string()],
        ]),
        azureus_properties: Some(vec![("dht_backup_enable".to_string(), 1)]),
        created_by: None,
        creation_date: None,
        encoding: Some("UTF-8".to_string()),
        info: TorrentInfo {
            name: "album".to_string(),
            piece_length: 4,
            pieces: (0u8..40).collect(),
            files: Some(vec![
                TorrentFile { length: 3, path: vec!["cd1".to_string(), "a.flac".to_string()] },
                TorrentFile { length: 7, path: vec!["cover.jpg".to_string()] },
            ]),
            length: None,
            private: 1,
        },
        publisher: None,
        publisher_url: None,
    }
}

#[test]
fn metadata_announce() {
    let result = load_test_torrent();
    assert_eq!(&result.announce.unwrap(), "https://torrent.ubuntu.com/announce");
}

#[test]
fn metadata_total_pieces_count() {
    let result = load_test_torrent();
    let total = result.calculate_total_pieces();
    assert_eq!(total, 24868);
}

#[test]
fn metadata_piece_length() {
    assert_eq!(load_test_torrent().get_pieces_length(), 256 * 1024);
}

#[test]
fn metadata_total_size() {
    let size = load_test_torrent().get_total_size();
    assert_eq!(size, 6518974464);
}

#[test]
fn metadata_name() {
    assert_eq!(load_test_torrent().info.name, "ubuntu-26.04-desktop-amd64.iso");
}

#[test]
fn metadata_tracker_url() {
    assert_eq!(
        load_test_torrent().get_tracker_url(),
        vec![
            "https://torrent.ubuntu.com/announce",
            "https://ipv6.torrent.ubuntu.com/announce"
        ]
    );
}

#[test]
fn metadata_single_file_struct() {
    let files = load_test_torrent().get_file_structure();
    assert_eq!(files.len(), 1);
    assert_eq!(files[0].0, "ubuntu-26.04-desktop-amd64.iso");
    assert_eq!(files[0].1, 6518974464);
}

#[test]
fn metadata_pieces_hashes() {
    let hashes = load_test_torrent().get_pieces_hashes().unwrap();
    assert_eq!(hashes.len(), 24868);
}

#[test]
fn tracker_urls_keep_first_occurrences_in_order() {
    let urls = multi_file_torrent().get_tracker_url();
    assert_eq!(urls, vec!["udp://a", "http://b", "udp://c"]);
}

#[test]
fn tracker_urls_without_any_tracker() {
    let mut m = multi_file_torrent();
    m.announce_list = None;
    assert!(m.get_tracker_url().is_empty());
}

#[test]
fn pieces_hashes_are_consecutive_chunks() {
    let hashes = multi_file_torrent().get_pieces_hashes().unwrap();
    assert_eq!(hashes.len(), 2);
    assert_eq!(hashes[0].to_vec(), (0u8..20).collect::<Vec<u8>>());
    assert_eq!(hashes[1].to_vec(), (20u8..40).collect::<Vec<u8>>());
    assert_eq!(multi_file_torrent().calculate_total_pieces(), 2);
}

#[test]
fn pieces_hashes_reject_a_partial_hash() {
    let mut m = multi_file_torrent();
    m.info.pieces.push(1);
    match m.get_pieces_hashes() {
        Err(TorrentError::InvalidTorrentFile(t)) => {
            assert_eq!(t, "piece length is not a multiple of 20")
        }
        other => panic!("unexpected {:?}", other),
    }
}

#[test]
fn multi_file_structure_joins_paths() {
    let m = multi_file_torrent();
    let files = m.get_file_structure();
    assert_eq!(files, vec![("cd1/a.flac".to_string(), 3), ("cover.jpg".to_string(), 7)]);
    assert_eq!(m.get_total_size(), 10);
    let sum: i64 = files.iter().map(|f| f.1).sum();
    assert_eq!(sum, m.get_total_size());
}

#[test]
fn size_without_length_is_zero() {
    let mut m = load_test_torrent();
    m.info.length = None;
    assert_eq!(m.get_total_size(), 0);
    assert_eq!(m.get_file_structure(), vec![("ubuntu-26.04-desktop-amd64.iso".to_string(), 0)]);
}

#[test]
fn info_hash_is_sha1_of_the_canonical_info_dict() {
    // the info dictionary's keys are out of order in the file; the hash is
    // taken over its canonical (sorted) encoding
    let raw = b"d8:announce3:abc4:infod4:name1:a6:lengthi5eee";
    let info = extract_info_bytes(raw).unwrap();
    assert_eq!(info, b"d6:lengthi5e4:name1:ae".to_vec());
    let hash = calculate_info_hash(raw).unwrap();
    assert_eq!(hex::encode(hash), "525ba536945d8397fa2c220c63629c0325ffde36");
}

#[test]
fn info_hash_needs_a_dictionary() {
    match calculate_info_hash(b"li1ei2ee") {
        Err(TorrentError::InvalidTorrentFile(t)) => assert_eq!(t, "not a dict"),
        other => panic!("unexpected {:?}", other),
    }
}

#[test]
fn info_hash_needs_an_info_key() {
    match calculate_info_hash(b"d8:announce3:abce") {
        Err(TorrentError::InvalidTorrentFile(t)) => assert_eq!(t, "no info key"),
        other => panic!("unexpected {:?}", other),
    }
}

#[test]
fn info_hash_of_malformed_bencode() {
    match calculate_info_hash(b"d4:info") {
        Err(TorrentError::BencodeError(_)) => {}
        other => panic!("unexpected {:?}", other),
    }
}

#[test]
fn info_bytes_of_decoded_value() {
    let info = BencodeValue::Dict(vec![
        (b"name".to_vec(), BencodeValue::Bytes(b"a".to_vec())),
        (b"length".to_vec(), BencodeValue::Int(5)),
    ]);
    let top = BencodeValue::Dict(vec![
        (b"announce".to_vec(), BencodeValue::Bytes(b"abc".to_vec())),
        (b"info".to_vec(), info),
    ]);
    assert_eq!(info_bytes_of(top).unwrap(), b"d6:lengthi5e4:name1:ae".to_vec());
    match info_bytes_of(BencodeValue::Int(3)) {
        Err(TorrentError::InvalidTorrentFile(t)) => assert_eq!(t, "not a dict"),
        other => panic!("unexpected {:?}", other),
    }
    match info_bytes_of(BencodeValue::Dict(vec![])) {
        Err(TorrentError::InvalidTorrentFile(t)) => assert_eq!(t, "no info key"),
        other => panic!("unexpected {:?}", other),
    }
}
