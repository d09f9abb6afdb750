//! The decisions of the download: which peers offer which piece, how long each
//! piece is, when to retry or move to another peer, and how pieces map onto the
//! files of the torrent.

use crate::error::TorrentError;
use crate::mapper::{total_size, sums_fit, TorrentMetaData};
use crate::peer::{Peer, PeerInfo};
use std::collections::{HashMap, HashSet};
use vstd::prelude::*;

verus! {

/// A download in progress: the peers, the one being used, and who we are.
#[derive(Debug)]
pub struct PieceDownloader {
    pub peers: Vec<Peer>,
    pub current_peer_idx: usize,
    pub hash_info: [u8; 20],
    pub peer_id: [u8; 20],
}

/// Whether `p` is a fresh peer at `info`: choking us, not interesting to us,
/// with nothing known of its pieces.
pub open spec fn fresh_peer(p: Peer, info: PeerInfo) -> bool {
    &&& p.peer_info == info
    &&& p.bitfields is None
    &&& p.is_choked
    &&& !p.is_interested
    &&& p.piece_availability@ == Set::<u32>::empty()
}

/// The indices, in order, of the first `n` peers that offer piece `piece`.
pub open spec fn holders(peers: Seq<Peer>, piece: u32, n: int) -> Seq<usize>
    decreases n,
{
    if n <= 0 {
        Seq::empty()
    } else if peers[n - 1].piece_availability@.contains(piece) {
        holders(peers, piece, n - 1).push((n - 1) as usize)
    } else {
        holders(peers, piece, n - 1)
    }
}

/// Rust's remainder of `a` by `b`: the sign of `a`, the magnitude of `|a| mod |b|`.
pub open spec fn trunc_rem(a: int, b: int) -> int {
    let m = if b < 0 {
        -b
    } else {
        b
    };
    if a >= 0 {
        a % m
    } else {
        -((-a) % m)
    }
}

/// The length of piece `piece_index` of `total_pieces`: the nominal piece
/// length, except for the last piece, which holds what remains of the content
/// when the content is not a whole number of pieces.
pub open spec fn piece_size(m: TorrentMetaData, piece_index: u32, total_pieces: u32) -> u32 {
    if piece_index == total_pieces - 1 {
        let remainder = trunc_rem(total_size(m), m.info.piece_length as int);
        if remainder == 0 {
            m.info.piece_length as u32
        } else {
            remainder as u32
        }
    } else {
        m.info.piece_length as u32
    }
}

impl PieceDownloader {
    /// A downloader over `peers`, all fresh, starting with the first one.
    pub fn new(peers: Vec<PeerInfo>, info_hash: [u8; 20], peer_id: [u8; 20]) -> (r: PieceDownloader)
        ensures
            r.peers@.len() == peers@.len(),
            forall|i: int| 0 <= i < peers@.len() ==> fresh_peer(#[trigger] r.peers@[i], peers@[i]),
            r.current_peer_idx == 0,
            r.hash_info == info_hash,
            r.peer_id == peer_id,
    {
        let mut out: Vec<Peer> = Vec::new();
        for peer_info in it: peers
            invariant
                out@.len() == it.index(),
                it.seq() == peers@,
                forall|i: int| 0 <= i < out@.len() ==> fresh_peer(#[trigger] out@[i], peers@[i]),
        {
            out.push(
                Peer {
                    peer_info,
                    bitfields: None,
                    is_choked: true,
                    is_interested: false,
                    piece_availability: HashSet::new(),
                },
            );
        }
        PieceDownloader { peers: out, current_peer_idx: 0, hash_info: info_hash, peer_id }
    }

    /// For each piece below `total_pieces` that some peer offers, the indices
    /// of the peers that offer it, in order.
    pub fn get_piece_availability(&self, total_pieces: u32) -> (r: HashMap<u32, Vec<usize>>)
        ensures
            forall|p: u32|
                #![trigger r@.contains_key(p)]
                r@.contains_key(p) <==> (p < total_pieces && holders(
                    self.peers@,
                    p,
                    self.peers@.len() as int,
                ).len() > 0),
            forall|p: u32|
                #![trigger r@[p]]
                r@.contains_key(p) ==> r@[p]@ == holders(self.peers@, p, self.peers@.len() as int),
    {
        broadcast use vstd::std_specs::hash::group_hash_axioms;

        let mut result: HashMap<u32, Vec<usize>> = HashMap::new();
        let n = self.peers.len();
        let mut piece: u32 = 0;
        while piece < total_pieces
            invariant
                piece <= total_pieces,
                n == self.peers@.len(),
                forall|p: u32|
                    #![trigger result@.contains_key(p)]
                    result@.contains_key(p) <==> (p < piece && holders(self.peers@, p, n as int).len()
                        > 0),
                forall|p: u32|
                    #![trigger result@[p]]
                    result@.contains_key(p) ==> result@[p]@ == holders(self.peers@, p, n as int),
            decreases total_pieces - piece,
        {
            let mut with_piece: Vec<usize> = Vec::new();
            let mut idx: usize = 0;
            while idx < n
                invariant
                    idx <= n,
                    n == self.peers@.len(),
                    with_piece@ == holders(self.peers@, piece, idx as int),
                decreases n - idx,
            {
                if self.peers[idx].piece_availability.contains(&piece) {
                    with_piece.push(idx);
                }
                idx = idx + 1;
            }
            if with_piece.len() > 0 {
                result.insert(piece, with_piece);
            }
            piece = piece + 1;
        }
        result
    }
}

/// The length of piece `piece_index`, as the download requests it (see [`piece_size`]).
pub fn actual_piece_length(torrent: &TorrentMetaData, piece_index: u32, total_pieces: u32) -> (r: u32)
    requires
        total_pieces >= 1,
        piece_index == total_pieces - 1 ==> {
            &&& torrent.info.files matches Some(files) ==> sums_fit(files@)
            &&& torrent.info.piece_length != 0
            &&& !(total_size(*torrent) == i64::MIN && torrent.info.piece_length == -1)
        },
    ensures
        r == piece_size(*torrent, piece_index, total_pieces),
{
    let piece_length = torrent.get_pieces_length() as u32;
    if piece_index == total_pieces - 1 {
        let total_size = torrent.get_total_size();
        let pl = torrent.get_pieces_length();
        // `a % b` and `a % |b|` agree in Rust; the divisor is made positive in
        // a wider type so that its absolute value always fits.
        let divisor: i128 = if pl < 0 {
            0i128 - (pl as i128)
        } else {
            pl as i128
        };
        let remainder = ((total_size as i128) % divisor) as i64;
        assert(remainder == trunc_rem(total_size as int, pl as int));
        if remainder == 0 {
            piece_length
        } else {
            remainder as u32
        }
    } else {
        piece_length
    }
}

/// When there are as many pieces as the content needs, the pieces before the
/// last are full and the last holds the rest: their lengths add up to the
/// size of the content.
pub proof fn law_piece_lengths_add_up(m: TorrentMetaData, total_pieces: u32)
    requires
        0 < m.info.piece_length <= u32::MAX,
        0 < total_size(m),
        total_pieces == (total_size(m) + m.info.piece_length - 1) / (m.info.piece_length as int),
    ensures
        (total_pieces - 1) * m.info.piece_length + piece_size(m, (total_pieces - 1) as u32, total_pieces)
            == total_size(m),
{
    let t = total_size(m);
    let p = m.info.piece_length as int;
    let q = t / p;
    let r = t % p;
    assert(t == q * p + r && 0 <= r < p) by (nonlinear_arith)
        requires
            p > 0,
            q == t / p,
            r == t % p,
    ;
    assert(trunc_rem(t, p) == r);
    if r == 0 {
        assert(total_pieces == q) by (nonlinear_arith)
            requires
                p > 0,
                t == q * p,
                total_pieces == (t + p - 1) / p,
        ;
        assert((total_pieces - 1) * p + p == t) by (nonlinear_arith)
            requires
                total_pieces == q,
                t == q * p,
        ;
    } else {
        assert(total_pieces == q + 1) by (nonlinear_arith)
            requires
                p > 0,
                t == q * p + r,
                0 < r < p,
                total_pieces == (t + p - 1) / p,
        ;
        assert((total_pieces - 1) * p + r == t) by (nonlinear_arith)
            requires
                total_pieces == q + 1,
                t == q * p + r,
        ;
    }
}

/// Where the download stands on one piece: the bytes of the piece received so
/// far, the failed attempts with the current peer, and the position of that
/// peer among those that offer the piece.
#[derive(Debug)]
pub struct PieceFetch {
    pub offset: u32,
    pub retries_with_same_peer: i32,
    pub peer_pos: usize,
}

/// How many failed attempts with one peer make the download move on.
pub const MAX_RETRIES_PER_PEER: i32 = 2;

impl PieceFetch {
    /// Whether the retry count is within its range.
    pub open spec fn well_formed(&self) -> bool {
        0 <= self.retries_with_same_peer < MAX_RETRIES_PER_PEER
    }

    /// Nothing received yet, first peer.
    pub fn new() -> (r: PieceFetch)
        ensures
            r.offset == 0,
            r.retries_with_same_peer == 0,
            r.peer_pos == 0,
            r.well_formed(),
    {
        PieceFetch { offset: 0, retries_with_same_peer: 0, peer_pos: 0 }
    }

    /// The peer to try next in this round, among `holders` (the peers that
    /// offer the piece, in order); `None` when the round is over.
    pub fn next_peer(&self, holders: &Vec<usize>) -> (r: Option<usize>)
        ensures
            self.peer_pos < holders@.len() ==> r == Some(holders@[self.peer_pos as int]),
            self.peer_pos >= holders@.len() ==> r is None,
    {
        if self.peer_pos < holders.len() {
            Some(holders[self.peer_pos])
        } else {
            None
        }
    }

    /// Whether the piece of `piece_length` bytes is complete.
    pub fn is_complete(&self, piece_length: u32) -> (r: bool)
        ensures
            r == (self.offset >= piece_length),
    {
        self.offset >= piece_length
    }

    /// Starts another round over the peers that offer the piece.
    pub fn restart_round(&mut self)
        ensures
            final(self).peer_pos == 0,
            final(self).offset == old(self).offset,
            final(self).retries_with_same_peer == old(self).retries_with_same_peer,
    {
        self.peer_pos = 0;
    }

    /// Records that the current peer delivered `bytes_downloaded` more bytes;
    /// true when the piece is complete.
    pub fn record_success(&mut self, bytes_downloaded: u32, piece_length: u32) -> (done: bool)
        requires
            old(self).offset + bytes_downloaded <= u32::MAX,
        ensures
            final(self).offset == old(self).offset + bytes_downloaded,
            final(self).retries_with_same_peer == 0,
            final(self).peer_pos == old(self).peer_pos,
            final(self).well_formed(),
            done == (final(self).offset >= piece_length),
    {
        self.offset = self.offset + bytes_downloaded;
        self.retries_with_same_peer = 0;
        self.offset >= piece_length
    }

    /// Records a failed attempt with the current peer; true when the download
    /// moves to the next peer (after `MAX_RETRIES_PER_PEER` failures), false when
    /// it tries the same peer again after a pause.
    pub fn record_failure(&mut self) -> (next_peer: bool)
        requires
            old(self).well_formed(),
            old(self).peer_pos < usize::MAX,
        ensures
            final(self).well_formed(),
            final(self).offset == old(self).offset,
            next_peer == (old(self).retries_with_same_peer + 1 >= MAX_RETRIES_PER_PEER),
            next_peer ==> final(self).retries_with_same_peer == 0 && final(self).peer_pos == old(
                self,
            ).peer_pos + 1,
            !next_peer ==> final(self).retries_with_same_peer == old(self).retries_with_same_peer + 1
                && final(self).peer_pos == old(self).peer_pos,
    {
        self.retries_with_same_peer = self.retries_with_same_peer + 1;
        if self.retries_with_same_peer >= MAX_RETRIES_PER_PEER {
            self.retries_with_same_peer = 0;
            self.peer_pos = self.peer_pos + 1;
            true
        } else {
            false
        }
    }
}

/// The piece that holds byte `absolute_offset` of the content, and the offset of
/// that byte within the piece.
pub fn piece_position(absolute_offset: u64, piece_length: u64) -> (r: (u32, u64))
    requires
        piece_length > 0,
    ensures
        r.0 == (absolute_offset / piece_length) as u32,
        r.1 == absolute_offset % piece_length,
{
    ((absolute_offset / piece_length) as u32, absolute_offset % piece_length)
}

/// How many bytes to copy from a piece of `piece_data_len` bytes, starting at
/// `offset_in_piece`, into a file of `file_length` bytes of which
/// `bytes_written` are written: what remains of the piece or of the file,
/// whichever is less.
pub fn segment_length(piece_data_len: u64, offset_in_piece: u64, file_length: u64, bytes_written: u64) -> (r: u64)
    requires
        offset_in_piece <= piece_data_len,
        bytes_written <= file_length,
    ensures
        r == if piece_data_len - offset_in_piece < file_length - bytes_written {
            piece_data_len - offset_in_piece
        } else {
            file_length - bytes_written
        },
{
    let in_piece = piece_data_len - offset_in_piece;
    let in_file = file_length - bytes_written;
    if in_piece < in_file {
        in_piece
    } else {
        in_file
    }
}

/// Every index that `holders` lists is that of a peer, among the first `n`, that
/// offers the piece; and the indices come in increasing order.
pub proof fn lemma_holders_offer(peers: Seq<Peer>, piece: u32, n: int)
    requires
        0 <= n <= peers.len(),
        n <= usize::MAX,
    ensures
        forall|k: int|
            0 <= k < holders(peers, piece, n).len() ==> #[trigger] holders(peers, piece, n)[k] < n
                && peers[holders(peers, piece, n)[k] as int].piece_availability@.contains(piece),
        forall|k: int, l: int|
            0 <= k < l < holders(peers, piece, n).len() ==> #[trigger] holders(peers, piece, n)[k]
                < #[trigger] holders(peers, piece, n)[l],
    decreases n,
{
    if n > 0 {
        lemma_holders_offer(peers, piece, n - 1);
        let prev = holders(peers, piece, n - 1);
        if peers[n - 1].piece_availability@.contains(piece) {
            let cur = prev.push((n - 1) as usize);
            assert(holders(peers, piece, n) == cur);
            assert forall|k: int| 0 <= k < prev.len() implies #[trigger] cur[k] == prev[k] by {}
        }
    }
}

/// Where the download of a whole torrent stands: the pieces before `piece` are
/// downloaded, and for `piece`, the peers that offer it before position
/// `holder_pos` have failed to deliver it.
#[derive(Debug)]
pub struct TorrentProgress {
    pub piece: u32,
    pub total_pieces: u32,
    pub holder_pos: usize,
}

/// What the download does next.
#[derive(Debug)]
pub enum ProgressStep {
    /// Download piece `piece` from the peer at index `peer`.
    Fetch { piece: u32, peer: usize },
    /// Every piece is downloaded: assemble the files.
    Assemble,
    /// Give up with this error.
    Fail(TorrentError),
}

impl TorrentProgress {
    /// Whether the state is within its range.
    pub open spec fn well_formed(&self) -> bool {
        &&& self.piece <= self.total_pieces
        &&& self.piece == self.total_pieces ==> self.holder_pos == 0
    }

    /// The step that the state calls for, given which peers offer which piece
    /// (as `get_piece_availability` gives it): the next piece from the next
    /// peer that offers it; the assembly once every piece is in; a piece that
    /// no peer offers fails with `NoAvailablePeers`, one that every peer that
    /// offers it failed to deliver with `DownloadTimedout`.
    pub open spec fn step_spec(&self, availability: Map<u32, Vec<usize>>) -> ProgressStep {
        if self.piece >= self.total_pieces {
            ProgressStep::Assemble
        } else if !availability.contains_key(self.piece) {
            ProgressStep::Fail(TorrentError::NoAvailablePeers(self.piece))
        } else if self.holder_pos < availability[self.piece]@.len() {
            ProgressStep::Fetch {
                piece: self.piece,
                peer: availability[self.piece]@[self.holder_pos as int],
            }
        } else {
            ProgressStep::Fail(TorrentError::DownloadTimedout)
        }
    }

    /// The start of a download of `total_pieces` pieces.
    pub fn new(total_pieces: u32) -> (r: TorrentProgress)
        ensures
            r.piece == 0,
            r.total_pieces == total_pieces,
            r.holder_pos == 0,
            r.well_formed(),
    {
        TorrentProgress { piece: 0, total_pieces, holder_pos: 0 }
    }

    /// What to do next (see [`TorrentProgress::step_spec`]).
    pub fn next_step(&self, availability: &HashMap<u32, Vec<usize>>) -> (r: ProgressStep)
        ensures
            r == self.step_spec(availability@),
    {
        broadcast use vstd::std_specs::hash::group_hash_axioms;

        if self.piece >= self.total_pieces {
            return ProgressStep::Assemble;
        }
        match availability.get(&self.piece) {
            None => ProgressStep::Fail(TorrentError::NoAvailablePeers(self.piece)),
            Some(peers) => {
                if self.holder_pos < peers.len() {
                    ProgressStep::Fetch { piece: self.piece, peer: peers[self.holder_pos] }
                } else {
                    ProgressStep::Fail(TorrentError::DownloadTimedout)
                }
            },
        }
    }

    /// Records that the current piece is downloaded: the next piece, from its
    /// first peer.
    pub fn piece_done(&mut self)
        requires
            old(self).well_formed(),
            old(self).piece < old(self).total_pieces,
        ensures
            final(self).piece == old(self).piece + 1,
            final(self).total_pieces == old(self).total_pieces,
            final(self).holder_pos == 0,
            final(self).well_formed(),
    {
        self.piece = self.piece + 1;
        self.holder_pos = 0;
    }

    /// Records that the current peer failed to deliver the current piece: the
    /// same piece, from the next peer that offers it.
    pub fn piece_failed(&mut self)
        requires
            old(self).well_formed(),
            old(self).piece < old(self).total_pieces,
            old(self).holder_pos < usize::MAX,
        ensures
            final(self).piece == old(self).piece,
            final(self).total_pieces == old(self).total_pieces,
            final(self).holder_pos == old(self).holder_pos + 1,
            final(self).well_formed(),
    {
        self.holder_pos = self.holder_pos + 1;
    }
}

/// With the availability that `get_piece_availability` computes, a piece is
/// only ever fetched from a peer that offers it, and the peers that offer a
/// piece are tried in the order of the list of peers.
pub proof fn law_fetch_only_from_holders(
    d: PieceDownloader,
    availability: Map<u32, Vec<usize>>,
    progress: TorrentProgress,
)
    requires
        progress.well_formed(),
        d.peers@.len() <= usize::MAX,
        forall|p: u32|
            #![trigger availability.contains_key(p)]
            availability.contains_key(p) <==> (p < progress.total_pieces && holders(
                d.peers@,
                p,
                d.peers@.len() as int,
            ).len() > 0),
        forall|p: u32|
            #![trigger availability[p]]
            availability.contains_key(p) ==> availability[p]@ == holders(
                d.peers@,
                p,
                d.peers@.len() as int,
            ),
    ensures
        progress.step_spec(availability) matches ProgressStep::Fetch { piece, peer } ==> {
            &&& piece == progress.piece
            &&& peer < d.peers@.len()
            &&& d.peers@[peer as int].piece_availability@.contains(piece)
            &&& forall|k: int|
                0 <= k < progress.holder_pos ==> #[trigger] availability[piece]@[k] < peer
        },
        progress.step_spec(availability) matches ProgressStep::Fail(TorrentError::NoAvailablePeers(
            piece,
        )) ==> piece == progress.piece && forall|i: int|
            0 <= i < d.peers@.len() ==> !(#[trigger] d.peers@[i].piece_availability@.contains(piece)),
{
    let n = d.peers@.len() as int;
    lemma_holders_offer(d.peers@, progress.piece, n);
    if progress.piece < progress.total_pieces && !availability.contains_key(progress.piece) {
        assert forall|i: int| 0 <= i < n implies !(#[trigger] d.peers@[i].piece_availability@.contains(
            progress.piece,
        )) by {
            if d.peers@[i].piece_availability@.contains(progress.piece) {
                lemma_holders_complete(d.peers@, progress.piece, n, i);
            }
        }
    }
}

/// A peer among the first `n` that offers the piece is listed by `holders`.
pub proof fn lemma_holders_complete(peers: Seq<Peer>, piece: u32, n: int, i: int)
    requires
        0 <= i < n <= peers.len(),
        peers[i].piece_availability@.contains(piece),
    ensures
        holders(peers, piece, n).len() > 0,
    decreases n,
{
    if i < n - 1 {
        lemma_holders_complete(peers, piece, n - 1, i);
    }
}

/// Where file `f` starts in the content: the sum of the lengths of the files
/// before it.
pub open spec fn file_start(lengths: Seq<u64>, f: int) -> int
    decreases f,
{
    if f <= 0 {
        0
    } else {
        file_start(lengths, f - 1) + lengths[f - 1]
    }
}

/// Where the assembly of the files from the downloaded pieces stands: the file
/// being written, the bytes of it written so far, and the offset in the
/// content of the next byte to copy.
#[derive(Debug)]
pub struct Assembly {
    pub piece_length: u64,
    pub file_lengths: Vec<u64>,
    pub file: usize,
    pub bytes_written: u64,
    pub absolute_offset: u64,
}

impl Assembly {
    /// The files before `file` are complete, `file` has `bytes_written` bytes,
    /// and the next byte to copy is the next byte of `file` in the content.
    pub open spec fn well_formed(&self) -> bool {
        &&& self.file <= self.file_lengths@.len()
        &&& self.file < self.file_lengths@.len() ==> self.bytes_written
            <= self.file_lengths@[self.file as int]
        &&& self.file == self.file_lengths@.len() ==> self.bytes_written == 0
        &&& self.absolute_offset == file_start(self.file_lengths@, self.file as int)
            + self.bytes_written
    }

    /// How many bytes to copy from a piece of `piece_data_len` bytes into the
    /// current file: what remains of the piece after the next byte's offset in
    /// it, or what remains of the file, whichever is less.
    pub open spec fn copy_len(&self, piece_data_len: u64) -> int {
        let in_piece = piece_data_len - self.absolute_offset % self.piece_length;
        let in_file = self.file_lengths@[self.file as int] - self.bytes_written;
        if in_piece < in_file {
            in_piece
        } else {
            in_file
        }
    }

    /// The start of the assembly of files of `file_lengths` bytes from pieces of
    /// `piece_length` bytes.
    pub fn new(piece_length: u64, file_lengths: Vec<u64>) -> (r: Assembly)
        ensures
            r.piece_length == piece_length,
            r.file_lengths@ == file_lengths@,
            r.file == 0,
            r.bytes_written == 0,
            r.absolute_offset == 0,
            r.well_formed(),
    {
        Assembly { piece_length, file_lengths, file: 0, bytes_written: 0, absolute_offset: 0 }
    }

    /// Where the next byte of the current file comes from: the piece that
    /// holds it and its offset in that piece (see [`piece_position`]); `None`
    /// when the file is complete. The piece and offset locate byte
    /// `file_start + bytes_written` of the content.
    pub fn next_source(&self) -> (r: Option<(u32, u64)>)
        requires
            self.well_formed(),
            self.file < self.file_lengths@.len(),
            self.bytes_written < self.file_lengths@[self.file as int] ==> self.piece_length > 0,
        ensures
            r is None <==> self.bytes_written == self.file_lengths@[self.file as int],
            r matches Some((p, o)) ==> {
                &&& p == (self.absolute_offset / self.piece_length) as u32
                &&& o == self.absolute_offset % self.piece_length
                &&& self.absolute_offset / self.piece_length <= u32::MAX ==> p * self.piece_length + o
                    == file_start(self.file_lengths@, self.file as int) + self.bytes_written
            },
    {
        if self.bytes_written >= self.file_lengths[self.file] {
            return None;
        }
        let (p, o) = piece_position(self.absolute_offset, self.piece_length);
        proof {
            let a = self.absolute_offset as int;
            let l = self.piece_length as int;
            assert(a == (a / l) * l + a % l) by (nonlinear_arith)
                requires
                    l > 0,
            ;
            assert((a / l) * l == l * (a / l)) by (nonlinear_arith);
        }
        Some((p, o))
    }

    /// How many bytes of a piece of `piece_data_len` bytes go into the current
    /// file (see [`Assembly::copy_len`]).
    pub fn copy_length(&self, piece_data_len: u64) -> (n: u64)
        requires
            self.well_formed(),
            self.file < self.file_lengths@.len(),
            self.piece_length > 0,
            self.absolute_offset % self.piece_length <= piece_data_len,
        ensures
            n == self.copy_len(piece_data_len),
    {
        segment_length(
            piece_data_len,
            self.absolute_offset % self.piece_length,
            self.file_lengths[self.file],
            self.bytes_written,
        )
    }

    /// Records that `n` more bytes of the current file were written.
    pub fn advance(&mut self, n: u64)
        requires
            old(self).well_formed(),
            old(self).file < old(self).file_lengths@.len(),
            old(self).bytes_written + n <= old(self).file_lengths@[old(self).file as int],
            old(self).absolute_offset + n <= u64::MAX,
        ensures
            final(self).bytes_written == old(self).bytes_written + n,
            final(self).absolute_offset == old(self).absolute_offset + n,
            final(self).file == old(self).file,
            final(self).file_lengths@ == old(self).file_lengths@,
            final(self).piece_length == old(self).piece_length,
            final(self).well_formed(),
    {
        self.bytes_written = self.bytes_written + n;
        self.absolute_offset = self.absolute_offset + n;
    }

    /// Moves on to the next file once the current one is complete.
    pub fn next_file(&mut self)
        requires
            old(self).well_formed(),
            old(self).file < old(self).file_lengths@.len(),
            old(self).bytes_written == old(self).file_lengths@[old(self).file as int],
        ensures
            final(self).file == old(self).file + 1,
            final(self).bytes_written == 0,
            final(self).absolute_offset == old(self).absolute_offset,
            final(self).file_lengths@ == old(self).file_lengths@,
            final(self).piece_length == old(self).piece_length,
            final(self).well_formed(),
    {
        assert(self.file < self.file_lengths.len());
        self.file = self.file + 1;
        self.bytes_written = 0;
    }
}

/// Each copy of the assembly moves content bytes into their place: the copy
/// from a piece of `piece_data_len` bytes takes bytes `o .. o + n` of piece
/// `p`, which are bytes `p * piece_length + o ..` of the content, and writes
/// them at offset `bytes_written` of the current file, which starts at
/// `file_start` in the content; the copy stays within the piece and within
/// the file.
pub proof fn law_assembly_copies_content(a: Assembly, piece_data_len: u64)
    requires
        a.well_formed(),
        a.file < a.file_lengths@.len(),
        a.bytes_written < a.file_lengths@[a.file as int],
        a.piece_length > 0,
        a.absolute_offset % a.piece_length <= piece_data_len,
    ensures
        ({
            let p = a.absolute_offset / a.piece_length;
            let o = a.absolute_offset % a.piece_length;
            let n = a.copy_len(piece_data_len);
            &&& p * a.piece_length + o == file_start(a.file_lengths@, a.file as int) + a.bytes_written
            &&& o + n <= piece_data_len
            &&& a.bytes_written + n <= a.file_lengths@[a.file as int]
            &&& n > 0 <== o < piece_data_len
        }),
{
    let x = a.absolute_offset as int;
    let l = a.piece_length as int;
    assert(x == (x / l) * l + x % l) by (nonlinear_arith)
        requires
            l > 0,
    ;
}

/// The count of peers that the start of a download could set up (connect,
/// handshake, first message).
#[derive(Debug)]
pub struct PeerSetup {
    pub ready: usize,
}

impl PeerSetup {
    /// No peer set up yet.
    pub fn new() -> (r: PeerSetup)
        ensures
            r.ready == 0,
    {
        PeerSetup { ready: 0 }
    }

    /// Records a peer whose first message was taken.
    pub fn record_ready(&mut self)
        requires
            old(self).ready < usize::MAX,
        ensures
            final(self).ready == old(self).ready + 1,
    {
        self.ready = self.ready + 1;
    }

    /// The outcome of the setup: an error when no peer could be set up.
    pub fn outcome(&self) -> (r: Result<(), TorrentError>)
        ensures
            self.ready > 0 ==> r is Ok,
            self.ready == 0 ==> (r matches Err(TorrentError::PeerError(t)) && t@
                == "couldnt connect to any peer"@),
    {
        if self.ready == 0 {
            Err(TorrentError::PeerError(crate::text::owned("couldnt connect to any peer")))
        } else {
            Ok(())
        }
    }
}

/// A peer among the first `n` that offers the piece is listed by `holders`.
pub proof fn lemma_holders_contains(peers: Seq<Peer>, piece: u32, n: int, i: int)
    requires
        0 <= i < n <= peers.len(),
        n <= usize::MAX,
        peers[i].piece_availability@.contains(piece),
    ensures
        holders(peers, piece, n).contains(i as usize),
    decreases n,
{
    if i < n - 1 {
        lemma_holders_contains(peers, piece, n - 1, i);
        let prev = holders(peers, piece, n - 1);
        let k = choose|k: int| 0 <= k < prev.len() && prev[k] == i as usize;
        if peers[n - 1].piece_availability@.contains(piece) {
            assert(holders(peers, piece, n) == prev.push((n - 1) as usize));
            assert(holders(peers, piece, n)[k] == i as usize);
        }
    } else {
        let cur = holders(peers, piece, n);
        assert(cur == holders(peers, piece, n - 1).push((n - 1) as usize));
        assert(cur[cur.len() - 1] == i as usize);
    }
}

/// The availability that `get_piece_availability` computes lists, for each
/// piece below `total_pieces`, exactly the peers that offer it, each once, in
/// the order of the list of peers; no other piece has an entry.
pub proof fn law_availability_exact(
    d: PieceDownloader,
    availability: Map<u32, Vec<usize>>,
    total_pieces: u32,
)
    requires
        d.peers@.len() <= usize::MAX,
        forall|p: u32|
            #![trigger availability.contains_key(p)]
            availability.contains_key(p) <==> (p < total_pieces && holders(
                d.peers@,
                p,
                d.peers@.len() as int,
            ).len() > 0),
        forall|p: u32|
            #![trigger availability[p]]
            availability.contains_key(p) ==> availability[p]@ == holders(
                d.peers@,
                p,
                d.peers@.len() as int,
            ),
    ensures
        forall|p: u32, i: int|
            #![trigger d.peers@[i].piece_availability@.contains(p)]
            p < total_pieces && 0 <= i < d.peers@.len() && d.peers@[i].piece_availability@.contains(p)
                ==> availability.contains_key(p) && availability[p]@.contains(i as usize),
        forall|p: u32, k: int|
            #![trigger availability[p]@[k]]
            availability.contains_key(p) && 0 <= k < availability[p]@.len() ==> availability[p]@[k]
                < d.peers@.len() && d.peers@[availability[p]@[k] as int].piece_availability@.contains(p),
        forall|p: u32, k: int, l: int|
            #![trigger availability[p]@[k], availability[p]@[l]]
            availability.contains_key(p) && 0 <= k < l < availability[p]@.len() ==> availability[p]@[k]
                < availability[p]@[l],
        forall|p: u32| #[trigger] availability.contains_key(p) ==> p < total_pieces,
{
    let n = d.peers@.len() as int;
    assert forall|p: u32, i: int|
        #![trigger d.peers@[i].piece_availability@.contains(p)]
        p < total_pieces && 0 <= i < d.peers@.len() && d.peers@[i].piece_availability@.contains(
            p,
        ) implies availability.contains_key(p) && availability[p]@.contains(i as usize) by {
        lemma_holders_contains(d.peers@, p, n, i);
    }
    assert forall|p: u32, k: int|
        #![trigger availability[p]@[k]]
        availability.contains_key(p) && 0 <= k < availability[p]@.len() implies availability[p]@[k]
            < d.peers@.len() && d.peers@[availability[p]@[k] as int].piece_availability@.contains(
            p,
        ) by {
        lemma_holders_offer(d.peers@, p, n);
        assert(holders(d.peers@, p, n)[k] == availability[p]@[k]);
    }
    assert forall|p: u32, k: int, l: int|
        #![trigger availability[p]@[k], availability[p]@[l]]
        availability.contains_key(p) && 0 <= k < l < availability[p]@.len() implies availability[p]@[k]
            < availability[p]@[l] by {
        lemma_holders_offer(d.peers@, p, n);
        assert(holders(d.peers@, p, n)[k] == availability[p]@[k]);
        assert(holders(d.peers@, p, n)[l] == availability[p]@[l]);
    }
}

/// A piece is given up with `DownloadTimedout` only once every peer that
/// offers it has been tried; while an untried peer offers it, the next step
/// fetches it from that peer, the untried peers in the order they are listed.
pub proof fn law_every_holder_tried(progress: TorrentProgress, availability: Map<u32, Vec<usize>>)
    ensures
        progress.step_spec(availability) matches ProgressStep::Fail(TorrentError::DownloadTimedout)
            ==> progress.piece < progress.total_pieces && availability.contains_key(progress.piece)
            && progress.holder_pos >= availability[progress.piece]@.len(),
        progress.piece < progress.total_pieces && availability.contains_key(progress.piece)
            && progress.holder_pos < availability[progress.piece]@.len() ==> progress.step_spec(
            availability,
        ) == (ProgressStep::Fetch {
            piece: progress.piece,
            peer: availability[progress.piece]@[progress.holder_pos as int],
        }),
        progress.step_spec(availability) is Assemble <==> progress.piece >= progress.total_pieces,
        progress.step_spec(availability) matches ProgressStep::Fail(TorrentError::NoAvailablePeers(q))
            ==> q == progress.piece && progress.piece < progress.total_pieces
            && !availability.contains_key(progress.piece),
{
}

} // verus!
