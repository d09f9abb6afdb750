use torrs::cli::{validate_input, validate_output};
use torrs::error::{IoFailure, TorrentError};

#[test]
fn input_paths() {
    assert_eq!(validate_input("rel/x", true), Err("path must be absolute: rel/x".to_string()));
    assert_eq!(validate_input("/x.torrent", false), Err("file doesnt exist: /x.torrent".to_string()));
    assert_eq!(validate_input("/x.torrent", true), Ok("/x.torrent".to_string()));
    assert_eq!(validate_input("", true), Err("path must be absolute: ".to_string()));
}

#[test]
fn output_paths() {
    assert_eq!(validate_output("out"), Err("path must be absolute: out".to_string()));
    assert_eq!(validate_output("/out"), Ok("/out".to_string()));
}

#[test]
fn error_texts() {
    assert_eq!(TorrentError::PeerError("x".to_string()).to_string(), "Peer error: x");
    assert_eq!(TorrentError::PieceVerificationFailed(12).to_string(), "Piece 12 verification failed");
    assert_eq!(TorrentError::NoAvailablePeers(0).to_string(), "No available peers for piece 0");
    assert_eq!(TorrentError::DiskFull.to_string(), "Disk is full.");
    assert_eq!(TorrentError::InsufficientSeeds.to_string(), "Insufficient seeds");
    let e = serde_bencode::from_bytes::<serde_bencode::value::Value>(b"i1").unwrap_err();
    let text = format!("Bencode error: {}", e);
    assert_eq!(TorrentError::BencodeError(e).to_string(), text);
}

#[test]
fn error_conversions() {
    let t = || "boom".to_string();
    assert!(matches!(TorrentError::from_io(IoFailure::NotFound, t()), TorrentError::FileNotFound(m) if m == "boom"));
    assert!(matches!(TorrentError::from_io(IoFailure::PermissionDenied, t()), TorrentError::PermissionDenied(_)));
    assert!(matches!(TorrentError::from_io(IoFailure::TimedOut, t()), TorrentError::ConnectionTimedOut(_)));
    assert_eq!(TorrentError::from_io(IoFailure::Other, t()).to_string(), "IO error: boom");
    assert!(matches!(
        TorrentError::from_io(IoFailure::BrokenPipe, t()),
        TorrentError::IoError(IoFailure::BrokenPipe, m) if m == "boom"
    ));
    assert!(matches!(
        TorrentError::from_io(IoFailure::UnexpectedEof, t()),
        TorrentError::IoError(IoFailure::UnexpectedEof, _)
    ));
    assert!(matches!(TorrentError::from_http(true, true, t()), TorrentError::ConnectionTimedOut(_)));
    assert!(matches!(TorrentError::from_http(false, true, t()), TorrentError::ConnectionFailed(_)));
    assert_eq!(TorrentError::from_http(false, false, t()).to_string(), "Tracker error: boom");
    let e = serde_bencode::from_bytes::<serde_bencode::value::Value>(b"x").unwrap_err();
    assert!(matches!(TorrentError::from(e), TorrentError::BencodeError(_)));
}
