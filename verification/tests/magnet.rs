use torrs::peer::PeerInfo;
use torrs::magnet::{
    check_handshake_reply, check_piece_reply, extension_message, gather_peers, metadata_piece_count,
    most_common_metadata, place_metadata_piece, verify_metadata, ExtensionHandshake, MagnetInfo,
    MetaDataMessage,
};

#[test]
fn test_magnet_parser() {
    let magnet = "magnet:?xt=urn:btih:12451f81a977a2d8bb402f21cd643422c5d4c50a&dn=The.Agency.2024.S01E05.WEB.x264-TORRENTGALAXY&tr=udp%3A%2F%2Fopen.stealth.si%3A80%2Fannounce&tr=udp%3A%2F%2Fexodus.desync.com%3A6969%2Fannounce&tr=udp%3A%2F%2Ftracker.cyberia.is%3A6969%2Fannounce&tr=udp%3A%2F%2Ftracker.opentrackr.org%3A1337%2Fannounce&tr=udp%3A%2F%2Ftracker.torrent.eu.org%3A451%2Fannounce&tr=udp%3A%2F%2Fexplodie.org%3A6969%2Fannounce&tr=udp%3A%2F%2Ftracker.birkenwald.de%3A6969%2Fannounce&tr=udp%3A%2F%2Ftracker.moeking.me%3A6969%2Fannounce&tr=udp%3A%2F%2Fipv4.tracker.harry.lu%3A80%2Fannounce&tr=udp%3A%2F%2Ftracker.tiny-vps.com%3A6969%2Fannounce";

    let result = MagnetInfo::parse(magnet).unwrap();

    assert_eq!(
        result.display_name.unwrap().as_str(),
        "The.Agency.2024.S01E05.WEB.x264-TORRENTGALAXY"
    );
}

#[test]
fn test_base32_magnet() {
    let magnet = "magnet:?xt=urn:btih:c9e15763f722f23e98a29decdfae341b98d53056&dn=Test&tr=udp%3A%2F%2Ftracker.example.org%3A6969";
    let magnet_info = MagnetInfo::parse(magnet).unwrap();
    assert!(magnet_info.info_hash.len() == 20);
}

#[test]
fn magnet_fields() {
    let magnet = "magnet:?xt=urn:btih:12451F81A977A2D8BB402F21CD643422C5D4C50A&dn=a%2520b&tr=udp%3A%2F%2Fx%3A1&x.pe=1.2.3.4%3A5&tr=http%3A%2F%2Fy&x.pe2=h%3A9";
    let m = MagnetInfo::parse(magnet).unwrap();
    assert_eq!(hex::encode(m.info_hash), "12451f81a977a2d8bb402f21cd643422c5d4c50a");
    // the query decoding gives "a%20b", which is percent-decoded once more
    assert_eq!(m.display_name.as_deref(), Some("a b"));
    assert_eq!(m.trackers, vec!["udp://x:1", "http://y"]);
    assert_eq!(m.peers, Some(vec!["1.2.3.4:5".to_string(), "h:9".to_string()]));
}

#[test]
fn magnet_base32_hash() {
    // 32 base32 characters spell 20 bytes
    let magnet = "magnet:?xt=urn:btih:CPQVOY7XEL7D5GFCTXWN7LRUDOMNKMCW";
    let m = MagnetInfo::parse(magnet).unwrap();
    let expected = data_encoding::BASE32.decode(b"CPQVOY7XEL7D5GFCTXWN7LRUDOMNKMCW").unwrap();
    assert_eq!(m.info_hash.to_vec(), expected);
    assert_eq!(m.display_name, None);
    assert!(m.trackers.is_empty());
    assert_eq!(m.peers, Some(vec![]));
}

fn magnet_error(link: &str) -> String {
    match MagnetInfo::parse(link) {
        Err(t) => t,
        other => panic!("unexpected {:?}", other),
    }
}

#[test]
fn magnet_try_parse() {
    // 31 base32 characters and a pad decode to 19 bytes: no 20-byte info hash
    assert!(MagnetInfo::try_parse("magnet:?xt=urn:btih:AAAAAAAAAAAAAAAAAAAAAAAAAAAAAAA=").is_none());
    let m = MagnetInfo::try_parse("magnet:?xt=urn:btih:CPQVOY7XEL7D5GFCTXWN7LRUDOMNKMCW")
        .unwrap()
        .unwrap();
    let expected = data_encoding::BASE32.decode(b"CPQVOY7XEL7D5GFCTXWN7LRUDOMNKMCW").unwrap();
    assert_eq!(m.info_hash.to_vec(), expected);
    assert!(matches!(
        MagnetInfo::try_parse("magnet:?dn=x"),
        Some(Err(t)) if t == "Missing xt parameter"
    ));
}

#[test]
fn magnet_errors() {
    assert_eq!(magnet_error("magnet:?dn=x"), "Missing xt parameter");
    assert_eq!(magnet_error("magnet:?xt=urn:sha1:abc"), "Invalid xt parameter");
    assert_eq!(magnet_error("magnet:?xt=urn:btih:abcd"), "Invalid info hash");
    // 40 characters that are not all hexadecimal digits: the hex crate's error
    let t = magnet_error("magnet:?xt=urn:btih:zz451f81a977a2d8bb402f21cd643422c5d4c50a");
    assert!(!t.is_empty());
    // not a url at all
    let t = magnet_error("not a magnet link");
    assert!(!t.is_empty());
}

#[test]
fn extension_framing() {
    let m = extension_message(1, b"abc");
    assert_eq!(m, vec![0, 0, 0, 5, 20, 1, b'a', b'b', b'c']);
    let h = ExtensionHandshake::metadata_request();
    assert_eq!(h.m, vec![("ut_metadata".to_string(), 1)]);
    assert_eq!(h.metadata_size, None);
    assert_eq!(h.v.as_deref(), Some("RU0001"));
    let r = MetaDataMessage::request(3);
    assert_eq!((r.msg_type, r.piece, r.total_size), (0, 3, None));
}

#[test]
fn extension_replies() {
    assert!(check_handshake_reply(&[20, 0]).is_ok());
    match check_handshake_reply(&[7]) {
        Err(t) => assert_eq!(t, "Invalid Extension message"),
        other => panic!("unexpected {:?}", other),
    }
    match check_piece_reply(&[5, 1]) {
        Err(t) => assert_eq!(t, "Invalid metadata piece response"),
        other => panic!("unexpected {:?}", other),
    }
}

#[test]
fn metadata_pieces() {
    assert_eq!(metadata_piece_count(0), 0);
    assert_eq!(metadata_piece_count(1), 1);
    assert_eq!(metadata_piece_count(16384), 1);
    assert_eq!(metadata_piece_count(16385), 2);
    let mut metadata = vec![0u8; 16390];
    let mut first = vec![20u8, 1];
    first.extend(std::iter::repeat(9u8).take(16384));
    place_metadata_piece(&mut metadata, 0, &first);
    place_metadata_piece(&mut metadata, 1, &[20, 1, 1, 2, 3, 4, 5, 6, 99]);
    assert!(metadata[..16384].iter().all(|b| *b == 9));
    assert_eq!(&metadata[16384..], &[1, 2, 3, 4, 5, 6]);
}

#[test]
fn metadata_verification() {
    let data = b"hello".to_vec();
    let mut hash = [0u8; 20];
    hex::decode_to_slice("aaf4c61ddcc5e8a2dabede0f3b482cd9aea9434d", &mut hash).unwrap();
    assert!(verify_metadata(&data, &hash).is_ok());
    hash[0] ^= 1;
    match verify_metadata(&data, &hash) {
        Err(t) => assert_eq!(t, "Metadata hash mismatch"),
        other => panic!("unexpected {:?}", other),
    }
}

#[test]
fn most_common_metadata_wins() {
    assert_eq!(most_common_metadata(vec![]), None);
    let picked = most_common_metadata(vec![b"x".to_vec(), b"y".to_vec(), b"y".to_vec()]);
    assert_eq!(picked, Some(b"y".to_vec()));
    // a tie goes to the first
    let picked = most_common_metadata(vec![b"a".to_vec(), b"b".to_vec()]);
    assert_eq!(picked, Some(b"a".to_vec()));
}

#[test]
fn extension_dictionaries_bencoded() {
    assert_eq!(
        ExtensionHandshake::metadata_request().to_bencode(),
        b"d1:md11:ut_metadatai1ee1:v6:RU0001e".to_vec()
    );
    let h = ExtensionHandshake {
        m: vec![("zz".to_string(), 2), ("ut_metadata".to_string(), 1), ("zz".to_string(), 3)],
        metadata_size: Some(31235),
        v: None,
    };
    assert_eq!(h.to_bencode(), b"d1:md11:ut_metadatai1e2:zzi3ee13:metadata_sizei31235ee".to_vec());
    assert_eq!(MetaDataMessage::request(3).to_bencode(), b"d8:msg_typei0e5:piecei3ee".to_vec());
    let m = MetaDataMessage { msg_type: 1, piece: 0, total_size: Some(-7) };
    assert_eq!(m.to_bencode(), b"d8:msg_typei1e5:piecei0e10:total_sizei-7ee".to_vec());
}

#[test]
fn peers_gathered_in_order() {
    let p = |ip: &str, port: u16| PeerInfo { ip: ip.to_string(), port };
    let answers = vec![vec![p("a", 1), p("b", 2)], vec![], vec![p("c", 3)]];
    assert_eq!(gather_peers(answers), Ok(vec![p("a", 1), p("b", 2), p("c", 3)]));
    assert_eq!(
        gather_peers(vec![vec![], vec![]]),
        Err("Could not get any peers from any tracker".to_string())
    );
    assert!(gather_peers(vec![]).is_err());
}

#[test]
fn plain_values_kept() {
    let m = MagnetInfo::parse("magnet:?xt=urn:btih:12451f81a977a2d8bb402f21cd643422c5d4c50a&dn=plain&tr=udp://t:1&x.pe=h:2")
        .unwrap();
    assert_eq!(m.display_name.as_deref(), Some("plain"));
    assert_eq!(m.trackers, vec!["udp://t:1"]);
    assert_eq!(m.peers, Some(vec!["h:2".to_string()]));
}

#[test]
fn metadata_fetch_limit() {
    assert_eq!(torrs::magnet::metadata_fetch_count(3), 3);
    assert_eq!(torrs::magnet::metadata_fetch_count(10), 10);
    assert_eq!(torrs::magnet::metadata_fetch_count(25), 10);
}

#[test]
fn magnet_from_query_pairs() {
    let pairs = vec![
        ("tr".to_string(), "udp%3A%2F%2Fa".to_string()),
        ("xt".to_string(), "urn:btih:12451f81a977a2d8bb402f21cd643422c5d4c50a".to_string()),
        ("dn".to_string(), "x".to_string()),
        ("xt".to_string(), "ignored".to_string()),
    ];
    let m = MagnetInfo::from_query_pairs(&pairs).unwrap();
    assert_eq!(hex::encode(m.info_hash), "12451f81a977a2d8bb402f21cd643422c5d4c50a");
    assert_eq!(m.trackers, vec!["udp://a"]);
    assert_eq!(m.display_name.as_deref(), Some("x"));
    assert_eq!(MagnetInfo::from_query_pairs(&vec![]).unwrap_err(), "Missing xt parameter");
}
