use torrs::peer::PeerInfo;
use torrs::tracker::{
    peer_id_from,
    announce_request, announce_url, classify_announce_response, connection_request,
    generate_peer_id, http_trackers, parse_binary_peers, parse_connection_response,
    parse_scrape_retry_response, scrape_retry_request, select_peers, tracker_kind, urlencode,
    AnnounceAction, AnnounceReply, TrackerKind, TrackerResponse, UdpAttempts,
};

#[test]
fn peer_id_prefix() {
    let id = generate_peer_id();
    assert_eq!(&id[..6], b"-RU001");
}

#[test]
fn urlencode_bytes() {
    assert_eq!(urlencode(&[0x00, 0xab, 0x7f]), "%00%AB%7F");
    assert_eq!(urlencode(&[]), "");
}

#[test]
fn compact_peers() {
    let peers = parse_binary_peers(&[192, 168, 0, 1, 0x1a, 0xe1, 10, 0, 0, 255, 0, 80, 1, 2]);
    assert_eq!(
        peers,
        vec![
            PeerInfo { ip: "192.168.0.1".to_string(), port: 6881 },
            PeerInfo { ip: "10.0.0.255".to_string(), port: 80 },
        ]
    );
}

#[test]
fn tracker_kinds() {
    assert_eq!(tracker_kind("udp://t:1"), TrackerKind::Udp);
    assert_eq!(tracker_kind("http://t"), TrackerKind::Http);
    assert_eq!(tracker_kind("https://t"), TrackerKind::Http);
    assert_eq!(tracker_kind("wss://t"), TrackerKind::Unsupported);
    let all = vec!["udp://a".to_string(), "http://b".to_string(), "https://c".to_string()];
    assert_eq!(http_trackers(&all), vec!["http://b", "https://c"]);
}

#[test]
fn udp_connect() {
    let (tid, req) = connection_request();
    assert_eq!(req.len(), 16);
    assert_eq!(&req[..8], &0x0000041727101980u64.to_be_bytes());
    assert_eq!(&req[8..12], &[0, 0, 0, 0]);
    assert_eq!(&req[12..], &tid.to_be_bytes());
    let mut resp = vec![0u8; 16];
    resp[4..8].copy_from_slice(&tid.to_be_bytes());
    resp[8..].copy_from_slice(&0x0102030405060708u64.to_be_bytes());
    assert_eq!(parse_connection_response(&resp, 16, tid).unwrap(), 0x0102030405060708);
    let msg = |r: Result<u64, String>| match r {
        Err(t) => t,
        other => panic!("unexpected {:?}", other),
    };
    assert_eq!(msg(parse_connection_response(&resp, 12, tid)), "Invalid connection response size: 12");
    assert_eq!(
        msg(parse_connection_response(&resp, 16, tid.wrapping_add(1))),
        "Transaction ID mismatch in connection response"
    );
    resp[3] = 3;
    assert_eq!(msg(parse_connection_response(&resp, 16, tid)), "Invalid action in connection response: 3");
}

#[test]
fn udp_announce() {
    let hash: [u8; 20] = core::array::from_fn(|i| i as u8);
    let id = [9u8; 20];
    let (tid, req) = announce_request(77, &hash, &id, 1000);
    assert_eq!(req.len(), 98);
    assert_eq!(&req[..8], &77u64.to_be_bytes());
    assert_eq!(&req[8..12], &2u32.to_be_bytes());
    assert_eq!(&req[12..16], &tid.to_be_bytes());
    assert_eq!(&req[16..36], &hash);
    assert_eq!(&req[36..56], &id);
    assert_eq!(&req[64..72], &1000i64.to_be_bytes());
    assert_eq!(&req[92..96], &(-1i32).to_be_bytes());
    assert_eq!(&req[96..], &6881u16.to_be_bytes());
    let retry = scrape_retry_request(77, tid, &hash, &id, -5);
    assert_eq!(&retry[8..12], &1u32.to_be_bytes());
    let reversed: Vec<u8> = hash.iter().rev().copied().collect();
    assert_eq!(&retry[16..36], reversed.as_slice());
    assert_eq!(&retry[64..72], &(-5i64).to_be_bytes());
}

#[test]
fn udp_announce_replies() {
    let tid = 0xdeadbeefu32;
    let mut resp = Vec::new();
    resp.extend_from_slice(&1u32.to_be_bytes());
    resp.extend_from_slice(&tid.to_be_bytes());
    resp.extend_from_slice(&1800u32.to_be_bytes());
    resp.extend_from_slice(&3u32.to_be_bytes());
    resp.extend_from_slice(&4u32.to_be_bytes());
    resp.extend_from_slice(&[1, 2, 3, 4, 0, 1]);
    match classify_announce_response(&resp, tid) {
        AnnounceReply::Peers { interval, leechers, seeders, peers } => {
            assert_eq!((interval, leechers, seeders), (1800, 3, 4));
            assert_eq!(peers, vec![PeerInfo { ip: "1.2.3.4".to_string(), port: 1 }]);
        }
        other => panic!("unexpected {:?}", other),
    }
    assert!(matches!(classify_announce_response(&resp[..19], tid), AnnounceReply::TooShort));
    assert!(matches!(classify_announce_response(&resp, 1), AnnounceReply::TransactionMismatch));
    resp[3] = 2;
    assert!(matches!(classify_announce_response(&resp, tid), AnnounceReply::Scrape));
    resp[3] = 3;
    match classify_announce_response(&resp[..20], tid) {
        AnnounceReply::Failure { message } => {
            assert_eq!(message, String::from_utf8_lossy(&resp[8..20]))
        }
        other => panic!("unexpected {:?}", other),
    }
    resp[3] = 9;
    assert!(matches!(
        classify_announce_response(&resp, tid),
        AnnounceReply::UnexpectedAction { action: 9 }
    ));
    resp[3] = 1;
    assert_eq!(parse_scrape_retry_response(&resp).unwrap().len(), 1);
    resp[3] = 5;
    match parse_scrape_retry_response(&resp) {
        Err(t) => {
            assert_eq!(t, "Failed to get proper announce response after scrape")
        }
        other => panic!("unexpected {:?}", other),
    }
}

#[test]
fn http_announce_url() {
    let hash = [0xabu8; 20];
    let mut id = [b'x'; 20];
    id[..6].copy_from_slice(b"-RU001");
    let url = announce_url("http://tracker.example/announce", &hash, &id, -12).unwrap();
    let expected_hash = "%25AB".repeat(20);
    assert_eq!(
        url,
        format!(
            "http://tracker.example/announce?info_hash={}&peer_id=-RU001xxxxxxxxxxxxxx&port=6881&uploaded=0&downloaded=0&left=-12&compact=1&event=started",
            expected_hash
        )
    );
    assert_eq!(announce_url("not a url", &hash, &id, 0), Err("relative URL without a base".to_string()));
}

#[test]
fn peers_of_a_response() {
    let listed = vec![PeerInfo { ip: "h".to_string(), port: 1 }];
    assert_eq!(select_peers(listed.clone(), Some(vec![1, 2, 3, 4, 5, 6])).unwrap(), listed);
    assert_eq!(select_peers(vec![], Some(vec![1, 2, 3, 4, 0, 2])).unwrap()[0].port, 2);
    let msg = |r: Result<Vec<PeerInfo>, String>| match r {
        Err(t) => t,
        other => panic!("unexpected {:?}", other),
    };
    assert_eq!(msg(select_peers(vec![], None)), "No peers found in response");
    assert_eq!(msg(select_peers(vec![], Some(vec![1, 2]))), "Tracker returned no peers");
    let r = TrackerResponse { interval: Some(60), peer: vec![], peers_binary: Some(vec![8, 8, 8, 8, 0, 53]) };
    assert_eq!(r.into_peers().unwrap(), vec![PeerInfo { ip: "8.8.8.8".to_string(), port: 53 }]);
}

#[test]
fn udp_exchange_tried_twice() {
    let mut attempts = UdpAttempts::new();
    assert_eq!(attempts.left, 2);
    assert!(attempts.fail());
    assert!(!attempts.fail());
    assert_eq!(attempts.left, 0);
}

#[test]
fn announce_reply_decisions() {
    let mut attempts = UdpAttempts::new();
    assert!(matches!(attempts.on_reply(AnnounceReply::Scrape), AnnounceAction::ScrapeRetry));
    assert_eq!(attempts.left, 2);
    assert!(matches!(attempts.on_reply(AnnounceReply::TooShort), AnnounceAction::Retry));
    assert_eq!(attempts.left, 1);
    let peers = vec![PeerInfo { ip: "1.2.3.4".to_string(), port: 80 }];
    let reply = AnnounceReply::Peers { interval: 1, leechers: 2, seeders: 3, peers: peers.clone() };
    match attempts.on_reply(reply) {
        AnnounceAction::Done(p) => assert_eq!(p, peers),
        other => panic!("unexpected {:?}", other),
    }
    assert_eq!(attempts.left, 1);
    assert!(matches!(
        attempts.on_reply(AnnounceReply::UnexpectedAction { action: 9 }),
        AnnounceAction::GiveUp
    ));
}

#[test]
fn peer_id_keeps_the_random_tail() {
    let random: [u8; 20] = core::array::from_fn(|i| 100 + i as u8);
    let id = peer_id_from(random);
    assert_eq!(&id[..6], b"-RU001");
    assert_eq!(&id[6..], &random[6..]);
}
