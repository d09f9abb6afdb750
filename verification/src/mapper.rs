//! The metainfo of a torrent and what the client derives from it.

use crate::error::TorrentError;
use crate::text::{join, join_strings, push_str, string_views};
use crate::bencode::{
    bencode_decoding, bencoding, decode_value, dict_value, encode_value, Bencode, BencodeValue,
};
use crate::digest::{sha1, sha1_digest};
use vstd::prelude::*;

verus! {

/// Length in bytes of the SHA-1 hash of one piece.
pub const PIECE_HASH_LEN: usize = 20;

/// One file of a multi-file torrent: its length and its path components.
#[derive(Debug)]
pub struct TorrentFile {
    pub length: i64,
    pub path: Vec<String>,
}

/// The `info` dictionary of a torrent.
#[derive(Debug)]
pub struct TorrentInfo {
    pub name: String,
    pub piece_length: i64,
    pub pieces: Vec<u8>,
    pub files: Option<Vec<TorrentFile>>,
    pub length: Option<i64>,
    pub private: i64,
}

/// The metainfo of a torrent file.
#[derive(Debug)]
pub struct TorrentMetaData {
    pub announce: Option<String>,
    pub announce_list: Option<Vec<Vec<String>>>,
    pub azureus_properties: Option<Vec<(String, i64)>>,
    pub created_by: Option<String>,
    pub creation_date: Option<i64>,
    pub encoding: Option<String>,
    pub info: TorrentInfo,
    pub publisher: Option<String>,
    pub publisher_url: Option<String>,
}

/// The tracker urls of a tier list, tier by tier.
pub open spec fn tiers_view(tiers: Seq<Vec<String>>) -> Seq<Seq<Seq<char>>> {
    tiers.map_values(|t: Vec<String>| string_views(t@))
}

/// Every tracker url the metainfo names, in order: `announce`, then the urls
/// of `announce-list`, tier after tier.
pub open spec fn tracker_candidates(m: TorrentMetaData) -> Seq<Seq<char>> {
    let head = match m.announce {
        Some(a) => seq![a@],
        None => Seq::empty(),
    };
    let rest = match m.announce_list {
        Some(l) => tiers_view(l@).flatten_alt(),
        None => Seq::empty(),
    };
    head + rest
}

/// The first occurrence of each element of `s`, in order.
pub open spec fn first_occurrences<A>(s: Seq<A>) -> Seq<A>
    decreases s.len(),
{
    if s.len() == 0 {
        Seq::empty()
    } else {
        let d = first_occurrences(s.drop_last());
        if d.contains(s.last()) {
            d
        } else {
            d.push(s.last())
        }
    }
}

/// The 20-byte chunks of `pieces`.
pub open spec fn hash_chunks(pieces: Seq<u8>) -> Seq<Seq<u8>> {
    Seq::new((pieces.len() / 20) as nat, |i: int| pieces.subrange(20 * i, 20 * i + 20))
}

/// The sum of the lengths of `files`.
pub open spec fn sum_lengths(files: Seq<TorrentFile>) -> int
    decreases files.len(),
{
    if files.len() == 0 {
        0
    } else {
        sum_lengths(files.drop_last()) + files.last().length
    }
}

/// Whether every running sum of the lengths of `files` fits in an `i64`.
pub open spec fn sums_fit(files: Seq<TorrentFile>) -> bool {
    forall|k: int|
        0 <= k <= files.len() ==> i64::MIN <= #[trigger] sum_lengths(files.take(k)) <= i64::MAX
}

/// The total size of the torrent's content.
pub open spec fn total_size(m: TorrentMetaData) -> int {
    match m.info.files {
        Some(files) => sum_lengths(files@),
        None => match m.info.length {
            Some(l) => l as int,
            None => 0,
        },
    }
}

/// The path (components joined with `/`) and length of each file of the torrent;
/// a single-file torrent is one file named after the torrent.
pub open spec fn file_structure(m: TorrentMetaData) -> Seq<(Seq<char>, i64)> {
    match m.info.files {
        Some(files) => files_structure(files@),
        None => seq![
            (m.info.name@, match m.info.length {
                Some(l) => l,
                None => 0,
            }),
        ],
    }
}

/// The path (components joined with `/`) and length of each of `files`.
pub open spec fn files_structure(files: Seq<TorrentFile>) -> Seq<(Seq<char>, i64)> {
    files.map_values(|f: TorrentFile| (join(string_views(f.path@), "/"@), f.length))
}

/// The sum of the lengths of a file structure.
pub open spec fn structure_size(s: Seq<(Seq<char>, i64)>) -> int
    decreases s.len(),
{
    if s.len() == 0 {
        0
    } else {
        structure_size(s.drop_last()) + s.last().1
    }
}

/// The views of a file structure.
pub open spec fn structure_view(s: Seq<(String, i64)>) -> Seq<(Seq<char>, i64)> {
    s.map_values(|e: (String, i64)| (e.0@, e.1))
}

fn contains_string(v: &Vec<String>, s: &String) -> (r: bool)
    ensures
        r == string_views(v@).contains(s@),
{
    let mut i: usize = 0;
    while i < v.len()
        invariant
            i <= v@.len(),
            forall|j: int| 0 <= j < i ==> v@[j]@ != s@,
        decreases v@.len() - i,
    {
        if v[i] == *s {
            assert(string_views(v@)[i as int] == s@);
            return true;
        }
        i = i + 1;
    }
    assert forall|j: int| 0 <= j < string_views(v@).len() implies string_views(v@)[j] != s@ by {
        assert(v@[j]@ != s@);
    }
    false
}

/// Appends `url` to `seen` unless it is already there.
fn add_url(seen: &mut Vec<String>, url: &String, ghost_done: Ghost<Seq<Seq<char>>>)
    requires
        string_views(old(seen)@) == first_occurrences(ghost_done@),
    ensures
        string_views(final(seen)@) == first_occurrences(ghost_done@.push(url@)),
{
    let ghost done = ghost_done@;
    assert(done.push(url@).drop_last() =~= done);
    if !contains_string(seen, url) {
        seen.push(url.clone());
        assert(string_views(seen@) =~= string_views(old(seen)@).push(url@));
    }
}

impl TorrentMetaData {
    /// The number of pieces, one per 20 bytes of piece hashes.
    pub fn calculate_total_pieces(&self) -> (r: u32)
        ensures
            r == (self.info.pieces@.len() / 20) as u32,
    {
        (self.info.pieces.len() / PIECE_HASH_LEN) as u32
    }

    /// The tracker urls: `announce` first, then those of `announce-list`, each
    /// url once, where it first occurs.
    pub fn get_tracker_url(&self) -> (r: Vec<String>)
        ensures
            string_views(r@) == first_occurrences(tracker_candidates(*self)),
    {
        let mut seen: Vec<String> = Vec::new();
        let ghost mut done: Seq<Seq<char>> = Seq::empty();
        assert(string_views(seen@) =~= first_occurrences(done));
        if let Some(a) = &self.announce {
            add_url(&mut seen, a, Ghost(done));
            proof {
                done = done.push(a@);
            }
        }
        assert(done =~= match self.announce {
            Some(a) => seq![a@],
            None => Seq::<Seq<char>>::empty(),
        });
        let ghost head = done;
        if let Some(list) = &self.announce_list {
            let ghost tiers = tiers_view(list@);
            let mut i: usize = 0;
            while i < list.len()
                invariant
                    i <= list@.len(),
                    tiers == tiers_view(list@),
                    done == head + tiers.take(i as int).flatten_alt(),
                    string_views(seen@) == first_occurrences(done),
                decreases list@.len() - i,
            {
                let tier = &list[i];
                let ghost before = done;
                let mut j: usize = 0;
                while j < tier.len()
                    invariant
                        j <= tier@.len(),
                        i < list@.len(),
                        *tier == list@[i as int],
                        done == before + string_views(tier@).take(j as int),
                        string_views(seen@) == first_occurrences(done),
                    decreases tier@.len() - j,
                {
                    add_url(&mut seen, &tier[j], Ghost(done));
                    proof {
                        done = done.push(tier@[j as int]@);
                        assert(done =~= before + string_views(tier@).take(j + 1));
                    }
                    j = j + 1;
                }
                proof {
                    assert(string_views(tier@).take(tier@.len() as int) =~= tiers[i as int]);
                    assert(tiers.take(i + 1).drop_last() =~= tiers.take(i as int));
                    assert(done =~= head + tiers.take(i + 1).flatten_alt());
                }
                i = i + 1;
            }
            proof {
                assert(tiers.take(list@.len() as int) =~= tiers);
            }
        }
        assert(done =~= tracker_candidates(*self));
        seen
    }

    /// The length of each piece.
    pub fn get_pieces_length(&self) -> (r: i64)
        ensures
            r == self.info.piece_length,
    {
        self.info.piece_length
    }

    /// The SHA-1 hash of each piece, as 20-byte chunks of `pieces`; an error when
    /// `pieces` is not a whole number of hashes.
    pub fn get_pieces_hashes(&self) -> (r: Result<Vec<[u8; 20]>, TorrentError>)
        ensures
            match r {
                Ok(hashes) => self.info.pieces@.len() % 20 == 0 && hashes@.map_values(
                    |h: [u8; 20]| h@,
                ) == hash_chunks(self.info.pieces@),
                Err(e) => self.info.pieces@.len() % 20 != 0 && (e matches TorrentError::InvalidTorrentFile(t)
                    && t@ == "piece length is not a multiple of 20"@),
            },
    {
        let pieces = &self.info.pieces;
        if pieces.len() % 20 != 0 {
            let mut t = String::new();
            push_str(&mut t, "piece length is not a multiple of 20");
            return Err(TorrentError::InvalidTorrentFile(t));
        }
        let n = pieces.len() / 20;
        let mut hashes: Vec<[u8; 20]> = Vec::with_capacity(n);
        let mut i: usize = 0;
        while i < n
            invariant
                n == pieces@.len() / 20,
                pieces@.len() % 20 == 0,
                i <= n,
                *pieces == self.info.pieces,
                hashes@.map_values(|h: [u8; 20]| h@) == hash_chunks(pieces@).take(i as int),
            decreases n - i,
        {
            let mut h: [u8; 20] = [0u8; 20];
            let mut j: usize = 0;
            proof {
                assert(20 * i + 20 <= pieces@.len()) by (nonlinear_arith)
                    requires
                        i < n,
                        n == pieces@.len() / 20,
                ;
            }
            let ghost prev = hashes@;
            while j < 20
                invariant
                    i < n,
                    n == pieces@.len() / 20,
                    20 * i + 20 <= pieces.len(),
                    j <= 20,
                    forall|k: int| 0 <= k < j ==> h@[k] == pieces@[20 * i + k],
                decreases 20 - j,
            {
                h[j] = pieces[20 * i + j];
                j = j + 1;
            }
            hashes.push(h);
            proof {
                assert(h@ =~= hash_chunks(pieces@)[i as int]);
                assert(hashes@ == prev.push(h));
                assert(hashes@.map_values(|h: [u8; 20]| h@) =~= prev.map_values(|h: [u8; 20]| h@).push(h@));
                assert(hashes@.map_values(|h: [u8; 20]| h@) =~= hash_chunks(pieces@).take(i + 1));
            }
            i = i + 1;
        }
        assert(hash_chunks(pieces@).take(n as int) =~= hash_chunks(pieces@));
        Ok(hashes)
    }

    /// The total size of the content: the sum of the file lengths, or the length
    /// of the single file, or zero.
    pub fn get_total_size(&self) -> (r: i64)
        requires
            self.info.files matches Some(files) ==> sums_fit(files@),
        ensures
            r == total_size(*self),
    {
        match &self.info.files {
            Some(files) => {
                let mut sum: i64 = 0;
                let mut i: usize = 0;
                while i < files.len()
                    invariant
                        i <= files@.len(),
                        sums_fit(files@),
                        sum == sum_lengths(files@.take(i as int)),
                    decreases files@.len() - i,
                {
                    proof {
                        assert(files@.take(i + 1).drop_last() =~= files@.take(i as int));
                        assert(i64::MIN <= sum_lengths(files@.take(i + 1)) <= i64::MAX);
                    }
                    sum = sum + files[i].length;
                    i = i + 1;
                }
                assert(files@.take(files@.len() as int) =~= files@);
                sum
            },
            None => match self.info.length {
                Some(l) => l,
                None => 0,
            },
        }
    }

    /// The path and length of each file (see [`file_structure`]).
    pub fn get_file_structure(&self) -> (r: Vec<(String, i64)>)
        ensures
            structure_view(r@) == file_structure(*self),
    {
        match &self.info.files {
            Some(files) => {
                let mut r: Vec<(String, i64)> = Vec::new();
                let mut i: usize = 0;
                while i < files.len()
                    invariant
                        i <= files@.len(),
                        structure_view(r@) == files_structure(files@.take(i as int)),
                    decreases files@.len() - i,
                {
                    let joined = join_strings(&files[i].path, "/");
                    let ghost prev = r@;
                    r.push((joined, files[i].length));
                    proof {
                        assert(r@ == prev.push((joined, files@[i as int].length)));
                        assert(structure_view(r@) =~= structure_view(prev).push((joined@, files@[i as int].length)));
                        assert(structure_view(r@) =~= files_structure(files@.take(i + 1)));
                    }
                    i = i + 1;
                }
                assert(files@.take(files@.len() as int) =~= files@);
                r
            },
            None => {
                let length = match self.info.length {
                    Some(l) => l,
                    None => 0,
                };
                let mut r: Vec<(String, i64)> = Vec::new();
                r.push((self.info.name.clone(), length));
                assert(structure_view(r@) =~= file_structure(*self));
                r
            },
        }
    }
}


/// Each tracker url is listed once.
pub proof fn law_tracker_urls_unique<A>(s: Seq<A>)
    ensures
        first_occurrences(s).no_duplicates(),
    decreases s.len(),
{
    if s.len() > 0 {
        law_tracker_urls_unique(s.drop_last());
    }
}

/// Every url the metainfo names is listed, and no other.
pub proof fn law_tracker_urls_complete<A>(s: Seq<A>)
    ensures
        first_occurrences(s).to_set() == s.to_set(),
    decreases s.len(),
{
    if s.len() > 0 {
        law_tracker_urls_complete(s.drop_last());
        let d = first_occurrences(s.drop_last());
        assert(s =~= s.drop_last().push(s.last()));
        broadcast use vstd::seq_lib::group_seq_properties;
        assert(s.to_set() =~= s.drop_last().to_set().insert(s.last()));
        if d.contains(s.last()) {
            assert(d.to_set().contains(s.last()));
            assert(d.to_set() =~= d.to_set().insert(s.last()));
        } else {
            assert(d.push(s.last()).to_set() =~= d.to_set().insert(s.last()));
        }
    }
}

proof fn lemma_structure_of_files(files: Seq<TorrentFile>)
    ensures
        structure_size(files_structure(files)) == sum_lengths(files),
    decreases files.len(),
{
    if files.len() > 0 {
        lemma_structure_of_files(files.drop_last());
        assert(files_structure(files).drop_last() =~= files_structure(files.drop_last()));
    }
}

/// The file structure accounts for the whole content: its lengths add up to
/// the total size.
pub proof fn law_structure_adds_up_to_total_size(m: TorrentMetaData)
    ensures
        structure_size(file_structure(m)) == total_size(m),
{
    match m.info.files {
        Some(files) => {
            lemma_structure_of_files(files@);
            assert(file_structure(m) == files_structure(files@));
            assert(total_size(m) == sum_lengths(files@));
        },
        None => {
            let s = file_structure(m);
            assert(s.drop_last() =~= Seq::<(Seq<char>, i64)>::empty());
            assert(structure_size(s.drop_last()) == 0);
            assert(structure_size(s) == s.last().1);
        },
    }
}

/// There is one piece hash per piece.
pub proof fn law_one_hash_per_piece(pieces: Seq<u8>)
    requires
        pieces.len() / 20 <= u32::MAX,
    ensures
        hash_chunks(pieces).len() == (pieces.len() / 20) as u32,
{
}

proof fn lemma_chunks_flatten(pieces: Seq<u8>, k: int)
    requires
        0 <= k <= pieces.len() / 20,
    ensures
        hash_chunks(pieces).take(k).flatten_alt() == pieces.take(20 * k),
    decreases k,
{
    if k > 0 {
        lemma_chunks_flatten(pieces, k - 1);
        let c = hash_chunks(pieces);
        assert(c.take(k).drop_last() =~= c.take(k - 1));
        assert(20 * k <= pieces.len()) by (nonlinear_arith)
            requires
                k <= pieces.len() / 20,
                k > 0,
        ;
        assert(pieces.take(20 * k) =~= pieces.take(20 * (k - 1)) + c[k - 1]);
    }
}

/// The piece hashes, one after the other, are the `pieces` field.
pub proof fn law_hashes_concatenate_to_pieces(pieces: Seq<u8>)
    requires
        pieces.len() % 20 == 0,
    ensures
        hash_chunks(pieces).flatten_alt() == pieces,
{
    let n: int = (pieces.len() / 20) as int;
    lemma_chunks_flatten(pieces, n);
    assert(hash_chunks(pieces).take(n) =~= hash_chunks(pieces));
    assert(20 * n == pieces.len());
    assert(pieces.take(20 * n) =~= pieces);
}


/// The key of the `info` dictionary, the bytes of "info".
pub open spec fn info_key() -> Seq<u8> {
    seq![105u8, 110u8, 102u8, 111u8]
}

/// What [`info_bytes_of`] gives for the decoded torrent file `v`: the
/// bencoding of the value under `info` in the top-level dictionary.
pub open spec fn value_info_bytes(v: Bencode, r: Result<Vec<u8>, TorrentError>) -> bool {
    match v {
        Bencode::Dict(d) => if d.contains_key(info_key()) {
            r matches Ok(b) && b@ == bencoding(d[info_key()])
        } else {
            r matches Err(TorrentError::InvalidTorrentFile(t)) && t@ == "no info key"@
        },
        _ => r matches Err(TorrentError::InvalidTorrentFile(t)) && t@ == "not a dict"@,
    }
}

/// What [`extract_info_bytes`] gives for the torrent file `raw`: a bencode
/// error where it does not decode, else what [`value_info_bytes`] says.
pub open spec fn info_bytes_result(raw: Seq<u8>, r: Result<Vec<u8>, TorrentError>) -> bool {
    match bencode_decoding(raw) {
        None => r matches Err(TorrentError::BencodeError(_)),
        Some(v) => value_info_bytes(v, r),
    }
}

proof fn lemma_dict_tail(s: Seq<(Vec<u8>, BencodeValue)>, j: int, k: Seq<u8>)
    requires
        0 <= j <= s.len(),
        forall|i: int| j <= i < s.len() ==> s[i].0@ != k,
    ensures
        dict_value(s).contains_key(k) == dict_value(s.take(j)).contains_key(k),
        dict_value(s).contains_key(k) ==> dict_value(s)[k] == dict_value(s.take(j))[k],
    decreases s.len() - j,
{
    if j < s.len() {
        lemma_dict_tail(s.drop_last(), j, k);
        assert(s.drop_last().take(j) =~= s.take(j));
    } else {
        assert(s.take(j) =~= s);
    }
}

fn is_info_key(k: &Vec<u8>) -> (r: bool)
    ensures
        r == (k@ == info_key()),
{
    let r = k.len() == 4 && k[0] == 105 && k[1] == 110 && k[2] == 102 && k[3] == 111;
    proof {
        if r {
            assert(k@ =~= info_key());
        }
    }
    r
}

/// The bencoding of the `info` dictionary of the torrent file `raw`, as the
/// info hash is computed over it.
pub fn extract_info_bytes(raw: &[u8]) -> (r: Result<Vec<u8>, TorrentError>)
    ensures
        info_bytes_result(raw@, r),
{
    match decode_value(raw) {
        Ok(v) => info_bytes_of(v),
        Err(e) => Err(TorrentError::BencodeError(e)),
    }
}

/// The bencoding of the value under `info` in the decoded torrent file
/// `value`, which must be a dictionary.
pub fn info_bytes_of(value: BencodeValue) -> (r: Result<Vec<u8>, TorrentError>)
    ensures
        value_info_bytes(value.value(), r),
{
    let ghost decoded = value.value();
    let entries = match value {
        BencodeValue::Dict(entries) => entries,
        _ => {
            let mut t = String::new();
            push_str(&mut t, "not a dict");
            return Err(TorrentError::InvalidTorrentFile(t));
        },
    };
    assert(decoded == Bencode::Dict(dict_value(entries@)));
    let mut j = entries.len();
    while j > 0
        invariant
            j <= entries@.len(),
            decoded == value.value(),
            decoded == Bencode::Dict(dict_value(entries@)),
            forall|i: int| j <= i < entries@.len() ==> entries@[i].0@ != info_key(),
        decreases j,
    {
        if is_info_key(&entries[j - 1].0) {
            proof {
                lemma_dict_tail(entries@, j as int, info_key());
                let t = entries@.take(j as int);
                assert(t.drop_last() =~= entries@.take(j - 1));
                assert(t.last() == entries@[j - 1]);
                assert(dict_value(t) == dict_value(t.drop_last()).insert(
                    t.last().0@,
                    t.last().1.value(),
                ));
                assert(dict_value(entries@).contains_key(info_key()));
                assert(dict_value(entries@)[info_key()] == entries@[j - 1].1.value());
            }
            match encode_value(&entries[j - 1].1) {
                Ok(b) => {
                    return Ok(b);
                },
                Err(e) => return Err(TorrentError::BencodeError(e)),
            }
        }
        j = j - 1;
    }
    proof {
        lemma_dict_tail(entries@, 0, info_key());
    }
    let mut t = String::new();
    push_str(&mut t, "no info key");
    Err(TorrentError::InvalidTorrentFile(t))
}

/// The info hash of the torrent file `raw`: the SHA-1 digest of the bencoding
/// of its `info` dictionary.
pub fn calculate_info_hash(raw: &[u8]) -> (r: Result<[u8; 20], TorrentError>)
    ensures
        match bencode_decoding(raw@) {
            None => r matches Err(TorrentError::BencodeError(_)),
            Some(Bencode::Dict(d)) => if d.contains_key(info_key()) {
                r matches Ok(h) && h@ == sha1(bencoding(d[info_key()]))
            } else {
                r matches Err(TorrentError::InvalidTorrentFile(t)) && t@ == "no info key"@
            },
            Some(_) => r matches Err(TorrentError::InvalidTorrentFile(t)) && t@ == "not a dict"@,
        },
{
    let info_bytes = extract_info_bytes(raw)?;
    Ok(sha1_digest(info_bytes.as_slice()))
}

proof fn lemma_flatten_alt_contains<A>(ss: Seq<Seq<A>>, t: int, k: int)
    requires
        0 <= t < ss.len(),
        0 <= k < ss[t].len(),
    ensures
        ss.flatten_alt().contains(ss[t][k]),
    decreases ss.len(),
{
    let f = ss.flatten_alt();
    if t < ss.len() - 1 {
        lemma_flatten_alt_contains(ss.drop_last(), t, k);
        let g = ss.drop_last().flatten_alt();
        assert(f == g + ss.last());
        let w = choose|w: int| 0 <= w < g.len() && g[w] == ss[t][k];
        assert(f[w] == ss[t][k]);
    } else {
        let g = ss.drop_last().flatten_alt();
        assert(f == g + ss.last());
        assert(f[g.len() + k] == ss[t][k]);
    }
}

proof fn lemma_flatten_alt_member<A>(ss: Seq<Seq<A>>, x: A)
    requires
        ss.flatten_alt().contains(x),
    ensures
        exists|t: int, k: int| 0 <= t < ss.len() && 0 <= k < ss[t].len() && ss[t][k] == x,
    decreases ss.len(),
{
    if ss.len() > 0 {
        let g = ss.drop_last().flatten_alt();
        let f = ss.flatten_alt();
        assert(f == g + ss.last());
        let w = choose|w: int| 0 <= w < f.len() && f[w] == x;
        if w < g.len() {
            assert(g[w] == x);
            lemma_flatten_alt_member(ss.drop_last(), x);
            let (t, k) = choose|t: int, k: int|
                0 <= t < ss.drop_last().len() && 0 <= k < ss.drop_last()[t].len()
                    && ss.drop_last()[t][k] == x;
            assert(ss[t][k] == x);
        } else {
            assert(ss.last()[w - g.len()] == x);
            assert(ss[ss.len() - 1][w - g.len()] == x);
        }
    }
}

/// The tracker urls (as [`TorrentMetaData::get_tracker_url`] lists them) are
/// exactly `announce` and every url of every tier of `announce-list`: each of
/// them is listed, and nothing else is.
pub proof fn law_tracker_urls_listed(m: TorrentMetaData)
    ensures
        m.announce matches Some(a) ==> first_occurrences(tracker_candidates(m)).contains(a@),
        m.announce_list matches Some(l) ==> forall|t: int, k: int|
            0 <= t < l@.len() && 0 <= k < l@[t]@.len() ==> first_occurrences(
                tracker_candidates(m),
            ).contains(#[trigger] l@[t]@[k]@),
        forall|u: Seq<char>|
            #[trigger] first_occurrences(tracker_candidates(m)).contains(u) ==> (m.announce matches Some(
                a,
            ) && a@ == u) || (m.announce_list matches Some(l) && exists|t: int, k: int|
                0 <= t < l@.len() && 0 <= k < l@[t]@.len() && #[trigger] l@[t]@[k]@ == u),
{
    let c = tracker_candidates(m);
    law_tracker_urls_complete(c);
    let head = match m.announce {
        Some(a) => seq![a@],
        None => Seq::<Seq<char>>::empty(),
    };
    let rest = match m.announce_list {
        Some(l) => tiers_view(l@).flatten_alt(),
        None => Seq::<Seq<char>>::empty(),
    };
    assert(c == head + rest);
    if let Some(a) = m.announce {
        assert(c[0] == a@);
        assert(c.to_set().contains(a@));
        assert(first_occurrences(c).to_set().contains(a@));
    }
    if let Some(l) = m.announce_list {
        let tv = tiers_view(l@);
        assert forall|t: int, k: int|
            0 <= t < l@.len() && 0 <= k < l@[t]@.len() implies first_occurrences(c).contains(
            #[trigger] l@[t]@[k]@,
        ) by {
            assert(tv[t] == string_views(l@[t]@));
            assert(tv[t][k] == l@[t]@[k]@);
            lemma_flatten_alt_contains(tv, t, k);
            let w = choose|w: int| 0 <= w < rest.len() && rest[w] == l@[t]@[k]@;
            assert(c[head.len() + w] == l@[t]@[k]@);
            assert(c.to_set().contains(l@[t]@[k]@));
            assert(first_occurrences(c).to_set().contains(l@[t]@[k]@));
        }
    }
    assert forall|u: Seq<char>| #[trigger] first_occurrences(c).contains(u) implies (
    m.announce matches Some(a) && a@ == u) || (m.announce_list matches Some(l) && exists|
        t: int,
        k: int,
    | 0 <= t < l@.len() && 0 <= k < l@[t]@.len() && #[trigger] l@[t]@[k]@ == u) by {
        assert(first_occurrences(c).to_set().contains(u));
        assert(c.to_set().contains(u));
        let w = choose|w: int| 0 <= w < c.len() && c[w] == u;
        if w < head.len() {
            assert(head[w] == u);
        } else {
            assert(rest[w - head.len()] == u);
            if let Some(l) = m.announce_list {
                let tv = tiers_view(l@);
                lemma_flatten_alt_member(tv, u);
                let (t, k) = choose|t: int, k: int|
                    0 <= t < tv.len() && 0 <= k < tv[t].len() && tv[t][k] == u;
                assert(tv[t] == string_views(l@[t]@));
                assert(l@[t]@[k]@ == u);
            }
        }
    }
}

} // verus!
