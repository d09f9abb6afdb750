//! A BitTorrent client library: torrent metainfo, magnet links, tracker and
//! peer wire protocol codecs, and the decisions of the download process.

pub mod text;
pub mod error;
pub mod wire;
pub mod peer;
pub mod mapper;
pub mod download;
pub mod bencode;
pub mod digest;
pub mod tracker;
pub mod magnet;
pub mod cli;
