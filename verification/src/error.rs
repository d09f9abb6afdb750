//! The errors of the library.

use crate::text::{decimal, push_decimal, push_str};
use vstd::prelude::*;

verus! {

/// `serde_bencode::Error`, the error of the bencode decoder and encoder.
#[verifier::external_type_specification]
#[verifier::external_body]
pub struct ExBencodeError(serde_bencode::Error);

/// Renders a bencode error with its `Display` implementation.
///
/// Calls `<serde_bencode::Error as Display>::fmt` through `to_string`; nothing is
/// claimed of the text, which comes from the outside crate.
#[verifier::external_body]
fn bencode_error_text(e: &serde_bencode::Error) -> String {
    e.to_string()
}

/// Everything that can go wrong while fetching a torrent.
#[derive(Debug)]
pub enum TorrentError {
    // network errors
    ConnectionTimedOut(String),
    ConnectionFailed(String),
    TrackerError(String),
    PeerError(String),
    // protocol errors
    InvalidHandshake(String),
    InvalidMessage(String),
    ProtocolViolation(String),
    // file and I/O errors
    FileNotFound(String),
    PermissionDenied(String),
    DiskFull,
    IoError(IoFailure, String),
    // parsing errors
    InvalidTorrentFile(String),
    InvalidMagnetLink(String),
    BencodeError(serde_bencode::Error),
    // download errors
    PieceVerificationFailed(u32),
    NoAvailablePeers(u32),
    DownloadTimedout,
    InsufficientSeeds,
    // configuration errors
    InvalidConfigs(String),
}

/// The text of an error, for every variant but `BencodeError`, whose detail
/// comes from the bencode crate.
pub open spec fn error_message(e: TorrentError) -> Seq<char> {
    match e {
        TorrentError::ConnectionTimedOut(m) => "Connection Timed Out: "@ + m@,
        TorrentError::ConnectionFailed(m) => "Connection failed: "@ + m@,
        TorrentError::TrackerError(m) => "Tracker error: "@ + m@,
        TorrentError::PeerError(m) => "Peer error: "@ + m@,
        TorrentError::InvalidHandshake(m) => "Invalid Handshake: "@ + m@,
        TorrentError::InvalidMessage(m) => "Invalid message: "@ + m@,
        TorrentError::ProtocolViolation(m) => "Protocol violation: "@ + m@,
        TorrentError::FileNotFound(m) => "File not found: "@ + m@,
        TorrentError::PermissionDenied(m) => "Permission denied: "@ + m@,
        TorrentError::DiskFull => "Disk is full."@,
        TorrentError::IoError(_, m) => "IO error: "@ + m@,
        TorrentError::InvalidTorrentFile(m) => "Invalid torrent file: "@ + m@,
        TorrentError::InvalidMagnetLink(m) => "Invalid magnet link: "@ + m@,
        TorrentError::BencodeError(_) => "Bencode error: "@,
        TorrentError::PieceVerificationFailed(p) => "Piece "@ + decimal(p as nat)
            + " verification failed"@,
        TorrentError::NoAvailablePeers(p) => "No available peers for piece "@ + decimal(p as nat),
        TorrentError::DownloadTimedout => "Download timed out"@,
        TorrentError::InsufficientSeeds => "Insufficient seeds"@,
        TorrentError::InvalidConfigs(m) => "Invalid configurations: "@ + m@,
    }
}

fn labelled(label: &str, m: &String) -> (r: String)
    ensures
        r@ == label@ + m@,
{
    let mut r = String::new();
    push_str(&mut r, label);
    push_str(&mut r, m.as_str());
    r
}

fn plain(label: &str) -> (r: String)
    ensures
        r@ == label@,
{
    let mut r = String::new();
    push_str(&mut r, label);
    r
}

impl TorrentError {
    /// The human-readable text of the error (what `Display` prints).
    pub fn to_string(&self) -> (r: String)
        ensures
            self is BencodeError ==> error_message(*self).is_prefix_of(r@),
            !(self is BencodeError) ==> r@ == error_message(*self),
    {
        match self {
            TorrentError::ConnectionTimedOut(m) => labelled("Connection Timed Out: ", m),
            TorrentError::ConnectionFailed(m) => labelled("Connection failed: ", m),
            TorrentError::TrackerError(m) => labelled("Tracker error: ", m),
            TorrentError::PeerError(m) => labelled("Peer error: ", m),
            TorrentError::InvalidHandshake(m) => labelled("Invalid Handshake: ", m),
            TorrentError::InvalidMessage(m) => labelled("Invalid message: ", m),
            TorrentError::ProtocolViolation(m) => labelled("Protocol violation: ", m),
            TorrentError::FileNotFound(m) => labelled("File not found: ", m),
            TorrentError::PermissionDenied(m) => labelled("Permission denied: ", m),
            TorrentError::DiskFull => plain("Disk is full."),
            TorrentError::IoError(_, m) => labelled("IO error: ", m),
            TorrentError::InvalidTorrentFile(m) => labelled("Invalid torrent file: ", m),
            TorrentError::InvalidMagnetLink(m) => labelled("Invalid magnet link: ", m),
            TorrentError::BencodeError(e) => {
                let detail = bencode_error_text(e);
                labelled("Bencode error: ", &detail)
            },
            TorrentError::PieceVerificationFailed(p) => {
                let mut r = plain("Piece ");
                push_decimal(&mut r, *p as u64);
                push_str(&mut r, " verification failed");
                r
            },
            TorrentError::NoAvailablePeers(p) => {
                let mut r = plain("No available peers for piece ");
                push_decimal(&mut r, *p as u64);
                r
            },
            TorrentError::DownloadTimedout => plain("Download timed out"),
            TorrentError::InsufficientSeeds => plain("Insufficient seeds"),
            TorrentError::InvalidConfigs(m) => labelled("Invalid configurations: ", m),
        }
    }
}

/// The kind of a failed I/O operation, one variant for each kind of
/// `std::io::ErrorKind`; `Uncategorized` for a kind that has none here.
#[derive(Debug, Clone, Copy, PartialEq, Eq, Structural)]
pub enum IoFailure {
    NotFound,
    PermissionDenied,
    ConnectionRefused,
    ConnectionReset,
    HostUnreachable,
    NetworkUnreachable,
    ConnectionAborted,
    NotConnected,
    AddrInUse,
    AddrNotAvailable,
    NetworkDown,
    BrokenPipe,
    AlreadyExists,
    WouldBlock,
    NotADirectory,
    IsADirectory,
    DirectoryNotEmpty,
    ReadOnlyFilesystem,
    StaleNetworkFileHandle,
    InvalidInput,
    InvalidData,
    TimedOut,
    WriteZero,
    StorageFull,
    NotSeekable,
    QuotaExceeded,
    FileTooLarge,
    ResourceBusy,
    ExecutableFileBusy,
    Deadlock,
    CrossesDevices,
    TooManyLinks,
    InvalidFilename,
    ArgumentListTooLong,
    Interrupted,
    Unsupported,
    UnexpectedEof,
    OutOfMemory,
    Other,
    Uncategorized,
}

impl TorrentError {
    /// The error for a failed I/O operation of kind `kind`, whose text is
    /// `text`: a missing file, a refused permission and a timeout have variants
    /// of their own; any other kind is kept in `IoError` beside the text.
    pub fn from_io(kind: IoFailure, text: String) -> (r: TorrentError)
        ensures
            r == (match kind {
                IoFailure::NotFound => TorrentError::FileNotFound(text),
                IoFailure::PermissionDenied => TorrentError::PermissionDenied(text),
                IoFailure::TimedOut => TorrentError::ConnectionTimedOut(text),
                _ => TorrentError::IoError(kind, text),
            }),
    {
        match kind {
            IoFailure::NotFound => TorrentError::FileNotFound(text),
            IoFailure::PermissionDenied => TorrentError::PermissionDenied(text),
            IoFailure::TimedOut => TorrentError::ConnectionTimedOut(text),
            _ => TorrentError::IoError(kind, text),
        }
    }

    /// The error for a failed HTTP request whose text is `text`: a timeout, a
    /// failed connection, or else a tracker error.
    pub fn from_http(is_timeout: bool, is_connect: bool, text: String) -> (r: TorrentError)
        ensures
            r == (if is_timeout {
                TorrentError::ConnectionTimedOut(text)
            } else if is_connect {
                TorrentError::ConnectionFailed(text)
            } else {
                TorrentError::TrackerError(text)
            }),
    {
        if is_timeout {
            TorrentError::ConnectionTimedOut(text)
        } else if is_connect {
            TorrentError::ConnectionFailed(text)
        } else {
            TorrentError::TrackerError(text)
        }
    }
}

/// A bencode error is a `BencodeError`.
impl From<serde_bencode::Error> for TorrentError {
    fn from(value: serde_bencode::Error) -> (r: TorrentError) {
        TorrentError::BencodeError(value)
    }
}

impl vstd::std_specs::convert::FromSpecImpl<serde_bencode::Error> for TorrentError {
    open spec fn obeys_from_spec() -> bool {
        true
    }

    open spec fn from_spec(v: serde_bencode::Error) -> TorrentError {
        TorrentError::BencodeError(v)
    }
}

} // verus!
