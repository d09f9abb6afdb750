use std::collections::HashSet;
use torrs::download::{
    actual_piece_length, piece_position, segment_length, Assembly, PieceDownloader, PieceFetch,
    ProgressStep, TorrentProgress,
};
use torrs::download::PeerSetup;
use torrs::error::TorrentError;
use torrs::mapper::{TorrentInfo, TorrentMetaData};
use torrs::peer::PeerInfo;

fn torrent(length: i64, piece_length: i64, pieces: usize) -> TorrentMetaData {
    TorrentMetaData {
        announce: None,
        announce_list: None,
        azureus_properties: None,
        created_by: None,
        creation_date: None,
        encoding: None,
        info: TorrentInfo {
            name: "f".to_string(),
            piece_length,
            pieces: vec![0; 20 * pieces],
            files: None,
            length: Some(length),
            private: 0,
        },
        publisher: None,
        publisher_url: None,
    }
}

#[test]
fn downloader_starts_fresh() {
    let infos = vec![
        PeerInfo { ip: "a".to_string(), port: 1 },
        PeerInfo { ip: "b".to_string(), port: 2 },
    ];
    let d = PieceDownloader::new(infos.clone(), [1; 20], [2; 20]);
    assert_eq!(d.peers.len(), 2);
    assert_eq!(d.peers[1].peer_info, infos[1]);
    assert!(d.peers.iter().all(|p| p.is_choked && !p.is_interested && p.bitfields.is_none()));
    assert_eq!(d.current_peer_idx, 0);
    assert_eq!(d.hash_info, [1; 20]);
    assert_eq!(d.peer_id, [2; 20]);
}

#[test]
fn availability_per_piece() {
    let infos = vec![
        PeerInfo { ip: "a".to_string(), port: 1 },
        PeerInfo { ip: "b".to_string(), port: 2 },
        PeerInfo { ip: "c".to_string(), port: 3 },
    ];
    let mut d = PieceDownloader::new(infos, [0; 20], [0; 20]);
    d.peers[0].piece_availability = HashSet::from([0, 2, 9]);
    d.peers[2].piece_availability = HashSet::from([2]);
    let map = d.get_piece_availability(4);
    assert_eq!(map.len(), 2);
    assert_eq!(map[&0], vec![0]);
    assert_eq!(map[&2], vec![0, 2]);
    assert!(!map.contains_key(&1));
    assert!(!map.contains_key(&9));
}

#[test]
fn last_piece_is_short() {
    let t = torrent(10, 4, 3);
    assert_eq!(actual_piece_length(&t, 0, 3), 4);
    assert_eq!(actual_piece_length(&t, 2, 3), 2);
    let even = torrent(12, 4, 3);
    assert_eq!(actual_piece_length(&even, 2, 3), 4);
}

#[test]
fn retries_then_next_peer() {
    let mut f = PieceFetch::new();
    assert!(!f.record_failure());
    assert_eq!(f.retries_with_same_peer, 1);
    assert!(f.record_failure());
    assert_eq!((f.retries_with_same_peer, f.peer_pos), (0, 1));
    assert!(!f.record_success(16384, 20000));
    assert!(f.record_success(3616, 20000));
    assert_eq!(f.offset, 20000);
    f.restart_round();
    assert_eq!(f.peer_pos, 0);
}

#[test]
fn assembly_segments() {
    assert_eq!(piece_position(10, 4), (2, 2));
    assert_eq!(segment_length(4, 2, 100, 0), 2);
    assert_eq!(segment_length(4, 0, 3, 1), 2);
}

#[test]
fn progress_walks_pieces_and_peers() {
    let infos = vec![
        PeerInfo { ip: "a".to_string(), port: 1 },
        PeerInfo { ip: "b".to_string(), port: 2 },
        PeerInfo { ip: "c".to_string(), port: 3 },
    ];
    let mut d = PieceDownloader::new(infos, [0; 20], [1; 20]);
    d.peers[0].piece_availability = HashSet::from([0u32]);
    d.peers[1].piece_availability = HashSet::from([0u32, 1]);
    d.peers[2].piece_availability = HashSet::from([1u32]);
    let availability = d.get_piece_availability(2);

    let mut progress = TorrentProgress::new(2);
    assert!(matches!(progress.next_step(&availability), ProgressStep::Fetch { piece: 0, peer: 0 }));
    progress.piece_failed();
    assert!(matches!(progress.next_step(&availability), ProgressStep::Fetch { piece: 0, peer: 1 }));
    progress.piece_done();
    assert!(matches!(progress.next_step(&availability), ProgressStep::Fetch { piece: 1, peer: 1 }));
    progress.piece_failed();
    assert!(matches!(progress.next_step(&availability), ProgressStep::Fetch { piece: 1, peer: 2 }));
    progress.piece_failed();
    assert!(matches!(
        progress.next_step(&availability),
        ProgressStep::Fail(TorrentError::DownloadTimedout)
    ));
    let mut done = TorrentProgress::new(2);
    done.piece_done();
    done.piece_done();
    assert!(matches!(done.next_step(&availability), ProgressStep::Assemble));
}

#[test]
fn progress_fails_on_unoffered_piece() {
    let infos = vec![PeerInfo { ip: "a".to_string(), port: 1 }];
    let mut d = PieceDownloader::new(infos, [0; 20], [1; 20]);
    d.peers[0].piece_availability = HashSet::from([0u32]);
    let availability = d.get_piece_availability(3);
    let mut progress = TorrentProgress::new(3);
    progress.piece_done();
    assert!(matches!(
        progress.next_step(&availability),
        ProgressStep::Fail(TorrentError::NoAvailablePeers(1))
    ));
    assert!(matches!(TorrentProgress::new(0).next_step(&availability), ProgressStep::Assemble));
}

#[test]
fn assembly_walks_files() {
    // content of 9 bytes in pieces of 4: files of 3, 0 and 6 bytes
    let mut a = Assembly::new(4, vec![3, 0, 6]);
    assert_eq!(a.next_source(), Some((0, 0)));
    assert_eq!(a.copy_length(4), 3);
    a.advance(3);
    assert_eq!(a.next_source(), None);
    a.next_file();
    assert_eq!(a.next_source(), None);
    a.next_file();
    assert_eq!(a.next_source(), Some((0, 3)));
    assert_eq!(a.copy_length(4), 1);
    a.advance(1);
    assert_eq!(a.next_source(), Some((1, 0)));
    assert_eq!(a.copy_length(4), 4);
    a.advance(4);
    assert_eq!(a.next_source(), Some((2, 0)));
    assert_eq!(a.copy_length(1), 1);
    a.advance(1);
    assert_eq!(a.next_source(), None);
    assert_eq!((a.file, a.bytes_written, a.absolute_offset), (2, 6, 9));
    a.next_file();
    assert_eq!(a.file, 3);
}

#[test]
fn fetch_walks_holders_and_setup_counts() {
    let holders = vec![4usize, 7];
    let mut f = PieceFetch::new();
    assert_eq!(f.next_peer(&holders), Some(4));
    assert!(!f.record_failure());
    assert_eq!(f.next_peer(&holders), Some(4));
    assert!(f.record_failure());
    assert_eq!(f.next_peer(&holders), Some(7));
    f.record_failure();
    f.record_failure();
    assert_eq!(f.next_peer(&holders), None);
    f.restart_round();
    assert_eq!(f.next_peer(&holders), Some(4));
    assert!(!f.is_complete(10));
    f.record_success(10, 10);
    assert!(f.is_complete(10));

    let mut s = PeerSetup::new();
    assert!(matches!(s.outcome(), Err(TorrentError::PeerError(t)) if t == "couldnt connect to any peer"));
    s.record_ready();
    assert!(s.outcome().is_ok());
}
