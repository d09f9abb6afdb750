//! Magnet links, and the metadata exchange (BEP 9) that turns one into a torrent.

use crate::bencode::{bencoding, dict_value, encode_value, Bencode, BencodeValue};
use crate::digest::{sha1, sha1_digest};
use crate::peer::PeerInfo;
use crate::text::{owned, push_str, str_equal, str_starts_with, str_suffix, string_views};
use crate::tracker::pair_views;
use crate::wire::{copy_range, push_all, push_u32_be, u32_be_bytes};
use vstd::prelude::*;

verus! {

/// Size of a metadata piece: the metadata is exchanged in 16 KiB pieces.
pub const METADATA_PIECE_SIZE: usize = 16384;

/// Extension message id of the extension handshake.
pub const EXTENSION_HANDSHAKE_ID: u8 = 0;

/// Extension message id this client gives `ut_metadata`.
pub const METADATA_EXTENSION_ID: u8 = 1;

/// What a magnet link says: the info hash, and optionally a name, trackers and peers.
#[derive(Debug, Clone)]
pub struct MagnetInfo {
    pub info_hash: [u8; 20],
    pub display_name: Option<String>,
    pub trackers: Vec<String>,
    pub peers: Option<Vec<String>>,
}

/// The payload of an extension handshake.
#[derive(Debug)]
pub struct ExtensionHandshake {
    pub m: Vec<(String, i64)>,
    pub metadata_size: Option<i64>,
    pub v: Option<String>,
}

/// The dictionary of a `ut_metadata` message.
#[derive(Debug)]
pub struct MetaDataMessage {
    pub msg_type: i64,
    pub piece: i64,
    pub total_size: Option<i64>,
}

/// The query pairs of the url `url`, as `url::Url::parse` and `query_pairs`
/// give them (form-decoded, duplicates kept, in order); `None` when `url` does
/// not parse.
pub uninterp spec fn query_pairs_of(url: Seq<char>) -> Option<Seq<(Seq<char>, Seq<char>)>>;

/// What `percent_encoding::percent_decode_str(s).decode_utf8_lossy()` makes of `s`.
pub uninterp spec fn percent_decoded(s: Seq<char>) -> Seq<char>;

/// What `data_encoding::BASE32.decode` makes of `b`; `None` when it fails.
pub uninterp spec fn base32_decoded(b: Seq<u8>) -> Option<Seq<u8>>;

/// Parses `url` with `url::Url::parse` and collects its `query_pairs`.
///
/// Claims that the pairs depend on `url` alone. The text of the error is left
/// unsaid.
#[verifier::external_body]
fn url_query_pairs(url: &str) -> (r: Result<Vec<(String, String)>, String>)
    ensures
        match r {
            Ok(p) => query_pairs_of(url@) == Some(pair_views(p@)),
            Err(_) => query_pairs_of(url@) is None,
        },
{
    let url = url::Url::parse(url).map_err(|e| e.to_string())?;
    Ok(url.query_pairs().map(|(k, v)| (k.into_owned(), v.into_owned())).collect())
}

/// Percent-decodes `s` with `percent_encoding::percent_decode_str`, then
/// decodes the bytes as UTF-8 with `decode_utf8_lossy`.
///
/// Claims that the result depends on `s` alone and, as the documentation of
/// both steps says, that a text without `%` comes back unchanged.
#[verifier::external_body]
fn percent_decode_lossy(s: &str) -> (r: String)
    ensures
        r@ == percent_decoded(s@),
        !s@.contains('%') ==> r@ == s@,
{
    percent_encoding::percent_decode_str(s).decode_utf8_lossy().into_owned()
}

/// The value of a hexadecimal digit (either case), or -1.
pub open spec fn hex_val(c: u8) -> int {
    if 65 <= c <= 70 {
        c - 55
    } else if 97 <= c <= 102 {
        c - 87
    } else if 48 <= c <= 57 {
        c - 48
    } else {
        -1
    }
}

/// Whether `b` is 40 hexadecimal digits.
pub open spec fn is_hex_hash(b: Seq<u8>) -> bool {
    b.len() == 40 && forall|i: int| 0 <= i < 40 ==> hex_val(#[trigger] b[i]) >= 0
}

/// The 20 bytes that 40 hexadecimal digits spell.
pub open spec fn hex_hash(b: Seq<u8>) -> Seq<u8> {
    Seq::new(20, |i: int| (hex_val(b[2 * i]) * 16 + hex_val(b[2 * i + 1])) as u8)
}

/// Decodes hexadecimal digits into 20 bytes with `hex::decode_to_slice`.
///
/// Claims what the crate's source shows: success exactly for 40 digits of
/// either case, each byte from a pair of digits, high digit first.
#[verifier::external_body]
fn hex_decode_hash(data: &[u8]) -> (r: Result<[u8; 20], String>)
    ensures
        r is Ok <==> is_hex_hash(data@),
        r matches Ok(h) ==> h@ == hex_hash(data@),
{
    let mut out = [0u8; 20];
    hex::decode_to_slice(data, &mut out).map_err(|e| e.to_string())?;
    Ok(out)
}

/// Decodes `data` with `data_encoding::BASE32` (padded RFC 4648 base32).
///
/// Claims that the outcome depends on `data` alone; the text of the error is
/// left unsaid.
#[verifier::external_body]
fn base32_decode(data: &[u8]) -> (r: Result<Vec<u8>, String>)
    ensures
        match r {
            Ok(v) => base32_decoded(data@) == Some(v@),
            Err(_) => base32_decoded(data@) is None,
        },
{
    data_encoding::BASE32.decode(data).map_err(|e| e.to_string())
}

/// The position of the first pair with key `key`.
pub open spec fn first_with(pairs: Seq<(Seq<char>, Seq<char>)>, key: Seq<char>) -> Option<int>
    decreases pairs.len(),
{
    if pairs.len() == 0 {
        None
    } else {
        match first_with(pairs.drop_last(), key) {
            Some(i) => Some(i),
            None => if pairs.last().0 == key {
                Some(pairs.len() - 1)
            } else {
                None
            },
        }
    }
}

/// Whether a key is selected: equal to `key`, or (when `by_prefix`) starting with it.
pub open spec fn key_selected(k: Seq<char>, key: Seq<char>, by_prefix: bool) -> bool {
    if by_prefix {
        key.is_prefix_of(k)
    } else {
        k == key
    }
}

/// The percent-decoded values of the pairs whose key is selected by `key` and
/// `by_prefix` (see [`key_selected`]), in order.
pub open spec fn decoded_values(
    pairs: Seq<(Seq<char>, Seq<char>)>,
    key: Seq<char>,
    by_prefix: bool,
) -> Seq<Seq<char>>
    decreases pairs.len(),
{
    if pairs.len() == 0 {
        Seq::empty()
    } else if key_selected(pairs.last().0, key, by_prefix) {
        decoded_values(pairs.drop_last(), key, by_prefix).push(percent_decoded(pairs.last().1))
    } else {
        decoded_values(pairs.drop_last(), key, by_prefix)
    }
}

/// The raw values of the pairs whose key is selected by `key` and
/// `by_prefix` (see [`key_selected`]), in order.
pub open spec fn raw_values(
    pairs: Seq<(Seq<char>, Seq<char>)>,
    key: Seq<char>,
    by_prefix: bool,
) -> Seq<Seq<char>>
    decreases pairs.len(),
{
    if pairs.len() == 0 {
        Seq::empty()
    } else if key_selected(pairs.last().0, key, by_prefix) {
        raw_values(pairs.drop_last(), key, by_prefix).push(pairs.last().1)
    } else {
        raw_values(pairs.drop_last(), key, by_prefix)
    }
}

/// Whether each of `decoded` is the value at its position in `raw` where that
/// value holds no `%`: percent-decoding leaves such a value unchanged.
pub open spec fn plain_kept(decoded: Seq<Seq<char>>, raw: Seq<Seq<char>>) -> bool {
    &&& decoded.len() == raw.len()
    &&& forall|j: int| 0 <= j < raw.len() && !(#[trigger] raw[j]).contains('%') ==> decoded[j] == raw[j]
}

/// The info hash a magnet link's query names: the first `xt` must read
/// `urn:btih:` and 40 hexadecimal digits or 32 base32 characters.
/// `Err(Some(text))` for a refusal with this library's text, `Err(None)` for one
/// with the text of a decoding crate.
pub open spec fn magnet_hash(pairs: Seq<(Seq<char>, Seq<char>)>) -> Result<Seq<u8>, Option<Seq<char>>> {
    match first_with(pairs, "xt"@) {
        None => Err(Some("Missing xt parameter"@)),
        Some(i) => {
            let xt = pairs[i].1;
            if !"urn:btih:"@.is_prefix_of(xt) {
                Err(Some("Invalid xt parameter"@))
            } else {
                let hash = vstd::utf8::encode_utf8(xt.skip(9));
                if hash.len() == 40 {
                    if is_hex_hash(hash) {
                        Ok(hex_hash(hash))
                    } else {
                        Err(None)
                    }
                } else if hash.len() == 32 {
                    match base32_decoded(hash) {
                        Some(v) => Ok(v),
                        None => Err(None),
                    }
                } else {
                    Err(Some("Invalid info hash"@))
                }
            }
        },
    }
}

/// Whether the first `xt` of a magnet link's query gives its info hash as 32
/// base32 characters that decode to other than 20 bytes: the one query that
/// the info hash, an array of 20 bytes, cannot be taken from.
pub open spec fn base32_hash_misfit(pairs: Seq<(Seq<char>, Seq<char>)>) -> bool {
    match first_with(pairs, "xt"@) {
        None => false,
        Some(i) => {
            let xt = pairs[i].1;
            let hash = vstd::utf8::encode_utf8(xt.skip(9));
            &&& "urn:btih:"@.is_prefix_of(xt)
            &&& hash.len() == 32
            &&& base32_decoded(hash) matches Some(v) && v.len() != 20
        },
    }
}

/// Whether the magnet link `url` can be parsed: it is no link whose query is a
/// [`base32_hash_misfit`].
pub open spec fn parsable(url: Seq<char>) -> bool {
    query_pairs_of(url) matches Some(pairs) ==> !base32_hash_misfit(pairs)
}

/// What taking a magnet link's query pairs `pairs` apart gives (see
/// [`MagnetInfo::from_query_pairs`]).
pub open spec fn pairs_outcome(pairs: Seq<(Seq<char>, Seq<char>)>, r: Result<MagnetInfo, String>) -> bool {
    match magnet_hash(pairs) {
        Ok(h) => r matches Ok(m) && m.info_hash@ == h && opt_view(m.display_name) == (
        match first_with(pairs, "dn"@) {
            Some(i) => Some(percent_decoded(pairs[i].1)),
            None => None,
        }) && string_views(m.trackers@) == decoded_values(pairs, "tr"@, false) && (
        m.peers matches Some(p) && string_views(p@) == decoded_values(pairs, "x.pe"@, true)
            && plain_kept(string_views(p@), raw_values(pairs, "x.pe"@, true))) && plain_kept(
            string_views(m.trackers@),
            raw_values(pairs, "tr"@, false),
        ) && (match first_with(pairs, "dn"@) {
            Some(i) => !pairs[i].1.contains('%') ==> opt_view(m.display_name) == Some(
                pairs[i].1,
            ),
            None => true,
        }),
        Err(Some(t)) => r matches Err(e) && e@ == t,
        Err(None) => r matches Err(_),
    }
}

/// What parsing the magnet link `url` gives (see [`MagnetInfo::parse`]).
pub open spec fn parse_outcome(url: Seq<char>, r: Result<MagnetInfo, String>) -> bool {
    match query_pairs_of(url) {
        None => r matches Err(_),
        Some(pairs) => pairs_outcome(pairs, r),
    }
}

/// The views of an optional string.
pub open spec fn opt_view(s: Option<String>) -> Option<Seq<char>> {
    match s {
        Some(v) => Some(v@),
        None => None,
    }
}

proof fn lemma_first_with_valid(pairs: Seq<(Seq<char>, Seq<char>)>, key: Seq<char>)
    ensures
        first_with(pairs, key) matches Some(i) ==> 0 <= i < pairs.len() && pairs[i].0 == key,
    decreases pairs.len(),
{
    if pairs.len() > 0 {
        lemma_first_with_valid(pairs.drop_last(), key);
    }
}

fn find_key(pairs: &Vec<(String, String)>, key: &str) -> (r: Option<usize>)
    ensures
        match first_with(pair_views(pairs@), key@) {
            Some(i) => r == Some(i as usize),
            None => r is None,
        },
        r matches Some(i) ==> i < pairs@.len() && pairs@[i as int].0@ == key@ && first_with(
            pair_views(pairs@),
            key@,
        ) == Some(i as int),
{
    proof {
        lemma_first_with_valid(pair_views(pairs@), key@);
    }
    let ghost pv = pair_views(pairs@);
    let mut i: usize = 0;
    while i < pairs.len()
        invariant
            i <= pairs@.len(),
            pv == pair_views(pairs@),
            first_with(pv.take(i as int), key@) is None,
        decreases pairs@.len() - i,
    {
        proof {
            assert(pv.take(i + 1).drop_last() =~= pv.take(i as int));
        }
        if str_equal(pairs[i].0.as_str(), key) {
            proof {
                lemma_first_with_prefix(pv, i as int + 1, key@);
            }
            return Some(i);
        }
        i = i + 1;
    }
    assert(pv.take(pairs@.len() as int) =~= pv);
    None
}

proof fn lemma_first_with_prefix(pairs: Seq<(Seq<char>, Seq<char>)>, k: int, key: Seq<char>)
    requires
        0 <= k <= pairs.len(),
        first_with(pairs.take(k), key) is Some,
    ensures
        first_with(pairs, key) == first_with(pairs.take(k), key),
    decreases pairs.len() - k,
{
    if k < pairs.len() {
        assert(pairs.drop_last().take(k) =~= pairs.take(k));
        lemma_first_with_prefix(pairs.drop_last(), k, key);
    } else {
        assert(pairs.take(k) =~= pairs);
    }
}

fn collect_decoded(pairs: &Vec<(String, String)>, key: &str, by_prefix: bool) -> (r: Vec<String>)
    ensures
        string_views(r@) == decoded_values(pair_views(pairs@), key@, by_prefix),
        plain_kept(string_views(r@), raw_values(pair_views(pairs@), key@, by_prefix)),
{
    let ghost pv = pair_views(pairs@);
    let mut r: Vec<String> = Vec::new();
    let mut i: usize = 0;
    while i < pairs.len()
        invariant
            i <= pairs@.len(),
            pv == pair_views(pairs@),
            string_views(r@) == decoded_values(pv.take(i as int), key@, by_prefix),
            plain_kept(string_views(r@), raw_values(pv.take(i as int), key@, by_prefix)),
        decreases pairs@.len() - i,
    {
        proof {
            assert(pv.take(i + 1).drop_last() =~= pv.take(i as int));
        }
        let k = pairs[i].0.as_str();
        let hit = if by_prefix {
            str_starts_with(k, key)
        } else {
            str_equal(k, key)
        };
        if hit {
            let d = percent_decode_lossy(pairs[i].1.as_str());
            let ghost before = string_views(r@);
            r.push(d);
            proof {
                assert(string_views(r@) =~= decoded_values(pv.take(i + 1), key@, by_prefix));
                assert(string_views(r@) =~= before.push(d@));
                assert(pv[i as int].1 == pairs@[i as int].1@);
                assert(raw_values(pv.take(i + 1), key@, by_prefix) =~= raw_values(
                    pv.take(i as int),
                    key@,
                    by_prefix,
                ).push(pairs@[i as int].1@));
            }
        }
        i = i + 1;
    }
    assert(pv.take(pairs@.len() as int) =~= pv);
    r
}


impl MagnetInfo {
    /// Parses a magnet link: its query pairs, then the magnet's fields taken
    /// from them (see [`MagnetInfo::from_query_pairs`]).
    pub fn parse(magnet_url: &str) -> (r: Result<MagnetInfo, String>)
        requires
            parsable(magnet_url@),
        ensures
            parse_outcome(magnet_url@, r),
    {
        let params = match url_query_pairs(magnet_url) {
            Ok(p) => p,
            Err(e) => return Err(e),
        };
        MagnetInfo::from_query_pairs(&params)
    }

    /// The magnet's fields, taken from the query pairs of its link: the info
    /// hash of the first `xt`, the name of the first `dn`, every `tr` tracker
    /// and every `x.pe` peer, the values percent-decoded.
    pub fn from_query_pairs(params: &Vec<(String, String)>) -> (r: Result<MagnetInfo, String>)
        requires
            !base32_hash_misfit(pair_views(params@)),
        ensures
            pairs_outcome(pair_views(params@), r),
    {
        let ghost pairs = pair_views(params@);
        let xt_idx = match find_key(params, "xt") {
            Some(i) => i,
            None => return Err(owned("Missing xt parameter")),
        };
        let xt = params[xt_idx].1.as_str();
        assert(pairs[xt_idx as int] == (params@[xt_idx as int].0@, params@[xt_idx as int].1@));
        proof {
            reveal_strlit("urn:btih:");
        }
        if !str_starts_with(xt, "urn:btih:") {
            return Err(owned("Invalid xt parameter"));
        }
        let hash = str_suffix(xt, 9);
        let hash_bytes = hash.as_bytes();
        let info_hash: [u8; 20] = if hash_bytes.len() == 40 {
            match hex_decode_hash(hash_bytes) {
                Ok(h) => h,
                Err(e) => return Err(e),
            }
        } else if hash_bytes.len() == 32 {
            let decoded = match base32_decode(hash_bytes) {
                Ok(v) => v,
                Err(e) => return Err(e),
            };
            assert(decoded@.len() == 20);
            let mut result: [u8; 20] = [0u8; 20];
            let mut k: usize = 0;
            while k < 20
                invariant
                    k <= 20,
                    decoded@.len() == 20,
                    forall|j: int| 0 <= j < k ==> result@[j] == decoded@[j],
                decreases 20 - k,
            {
                result[k] = decoded[k];
                k = k + 1;
            }
            assert(result@ =~= decoded@);
            result
        } else {
            return Err(owned("Invalid info hash"));
        };
        let display_name = match find_key(params, "dn") {
            Some(i) => Some(percent_decode_lossy(params[i].1.as_str())),
            None => None,
        };
        let trackers = collect_decoded(params, "tr", false);
        let peers = Some(collect_decoded(params, "x.pe", true));
        Ok(MagnetInfo { info_hash, display_name, trackers, peers })
    }

    /// Parses a magnet link where it can be parsed (see [`parsable`]); `None`
    /// for a link whose base32 info hash does not decode to 20 bytes.
    pub fn try_parse(magnet_url: &str) -> (r: Option<Result<MagnetInfo, String>>)
        ensures
            r is None <==> !parsable(magnet_url@),
            r matches Some(x) ==> parse_outcome(magnet_url@, x),
    {
        if let Ok(params) = url_query_pairs(magnet_url) {
            if let Some(i) = find_key(&params, "xt") {
                let xt = params[i].1.as_str();
                proof {
                    reveal_strlit("urn:btih:");
                }
                if str_starts_with(xt, "urn:btih:") {
                    let hash = str_suffix(xt, 9);
                    let hash_bytes = hash.as_bytes();
                    if hash_bytes.len() == 32 {
                        if let Ok(decoded) = base32_decode(hash_bytes) {
                            if decoded.len() != 20 {
                                return None;
                            }
                        }
                    }
                }
            }
        }
        Some(MagnetInfo::parse(magnet_url))
    }
}


/// The UTF-8 bytes of `s`.
fn text_bytes(s: &str) -> (r: Vec<u8>)
    ensures
        r@ == vstd::utf8::encode_utf8(s@),
{
    let b = s.as_bytes();
    let r = copy_range(b, 0, b.len());
    assert(b@.subrange(0, b@.len() as int) =~= b@);
    r
}

/// The dictionary from extension names to ids (the `m` of a handshake); a
/// later entry for a name replaces an earlier one.
pub open spec fn ids_value(s: Seq<(String, i64)>) -> Map<Seq<u8>, Bencode>
    decreases s.len(),
{
    if s.len() == 0 {
        Map::empty()
    } else {
        ids_value(s.drop_last()).insert(vstd::utf8::encode_utf8(s.last().0@), Bencode::Int(s.last().1))
    }
}

/// `m` with the entry `key` added when there is a value for it.
pub open spec fn with_entry(m: Map<Seq<u8>, Bencode>, key: Seq<char>, v: Option<Bencode>) -> Map<
    Seq<u8>,
    Bencode,
> {
    match v {
        Some(x) => m.insert(vstd::utf8::encode_utf8(key), x),
        None => m,
    }
}

/// An optional integer as an optional bencoded value.
pub open spec fn opt_int(v: Option<i64>) -> Option<Bencode> {
    match v {
        Some(i) => Some(Bencode::Int(i)),
        None => None,
    }
}

impl ExtensionHandshake {
    /// The extension handshake this client sends: it speaks `ut_metadata` as
    /// extension 1 and names itself "RU0001".
    pub fn metadata_request() -> (r: ExtensionHandshake)
        ensures
            r.m@.len() == 1,
            r.m@[0].0@ == "ut_metadata"@,
            r.m@[0].1 == METADATA_EXTENSION_ID as i64,
            r.metadata_size is None,
            r.v matches Some(v) && v@ == "RU0001"@,
    {
        let mut m: Vec<(String, i64)> = Vec::new();
        m.push((owned("ut_metadata"), METADATA_EXTENSION_ID as i64));
        ExtensionHandshake { m, metadata_size: None, v: Some(owned("RU0001")) }
    }

    /// The bencoded value of the handshake, as it is sent: a dictionary with
    /// `m` (names to ids), `metadata_size` and `v` where they are present.
    pub open spec fn bencode_spec(&self) -> Bencode {
        Bencode::Dict(
            with_entry(
                with_entry(
                    Map::empty().insert(
                        vstd::utf8::encode_utf8("m"@),
                        Bencode::Dict(ids_value(self.m@)),
                    ),
                    "metadata_size"@,
                    opt_int(self.metadata_size),
                ),
                "v"@,
                match self.v {
                    Some(v) => Some(Bencode::Bytes(vstd::utf8::encode_utf8(v@))),
                    None => None,
                },
            ),
        )
    }

    /// The bencoding of the handshake, with `serde_bencode`.
    pub fn to_bencode(&self) -> (r: Vec<u8>)
        ensures
            r@ == bencoding(self.bencode_spec()),
    {
        let mut ids: Vec<(Vec<u8>, BencodeValue)> = Vec::new();
        let mut i: usize = 0;
        while i < self.m.len()
            invariant
                i <= self.m@.len(),
                dict_value(ids@) == ids_value(self.m@.take(i as int)),
            decreases self.m@.len() - i,
        {
            let name = text_bytes(self.m[i].0.as_str());
            let ghost prev = ids@;
            let ghost key = name@;
            let entry = (name, BencodeValue::Int(self.m[i].1));
            assert(entry.1.value() == Bencode::Int(self.m@[i as int].1));
            ids.push(entry);
            proof {
                assert(ids@.drop_last() =~= prev);
                assert(ids@.last() == entry);
                assert(dict_value(ids@) == dict_value(prev).insert(key, Bencode::Int(self.m@[i as int].1)));
                let t = self.m@.take(i + 1);
                assert(t.drop_last() =~= self.m@.take(i as int));
                assert(t.last() == self.m@[i as int]);
            }
            i = i + 1;
        }
        assert(self.m@.take(self.m@.len() as int) =~= self.m@);
        let ghost ids_map = dict_value(ids@);
        let mut entries: Vec<(Vec<u8>, BencodeValue)> = Vec::new();
        let first = (text_bytes("m"), BencodeValue::Dict(ids));
        assert(first.1.value() == Bencode::Dict(ids_value(self.m@)));
        entries.push(first);
        let ghost e1 = entries@;
        let ghost m1 = Map::<Seq<u8>, Bencode>::empty().insert(
            vstd::utf8::encode_utf8("m"@),
            Bencode::Dict(ids_value(self.m@)),
        );
        assert(dict_value(e1) == m1) by {
            assert(e1.drop_last() =~= Seq::<(Vec<u8>, BencodeValue)>::empty());
            assert(dict_value(e1.drop_last()) == Map::<Seq<u8>, Bencode>::empty());
            assert(e1.last() == first);
        }
        let ghost m2 = with_entry(m1, "metadata_size"@, opt_int(self.metadata_size));
        if let Some(size) = self.metadata_size {
            let entry = (text_bytes("metadata_size"), BencodeValue::Int(size));
            assert(entry.1.value() == Bencode::Int(size));
            entries.push(entry);
            assert(entries@.drop_last() =~= e1);
            assert(entries@.last() == entry);
        }
        let ghost e2 = entries@;
        assert(dict_value(e2) == m2);
        match &self.v {
            Some(v) => {
                let entry = (text_bytes("v"), BencodeValue::Bytes(text_bytes(v.as_str())));
                assert(entry.1.value() == Bencode::Bytes(vstd::utf8::encode_utf8(v@)));
                entries.push(entry);
                assert(entries@.drop_last() =~= e2);
                assert(entries@.last() == entry);
            },
            None => {},
        }
        assert(dict_value(entries@) == with_entry(
            m2,
            "v"@,
            match self.v {
                Some(v) => Some(Bencode::Bytes(vstd::utf8::encode_utf8(v@))),
                None => None,
            },
        ));
        let value = BencodeValue::Dict(entries);
        assert(value.value() == self.bencode_spec());
        match encode_value(&value) {
            Ok(b) => b,
            Err(_) => {
                proof {
                    assert(false);
                }
                Vec::new()
            },
        }
    }
}

impl MetaDataMessage {
    /// The request (message type 0) for metadata piece `piece`.
    pub fn request(piece: i64) -> (r: MetaDataMessage)
        ensures
            r.msg_type == 0,
            r.piece == piece,
            r.total_size is None,
    {
        MetaDataMessage { msg_type: 0, piece, total_size: None }
    }

    /// The bencoded value of the message, as it is sent: a dictionary with
    /// `msg_type`, `piece`, and `total_size` where it is present.
    pub open spec fn bencode_spec(&self) -> Bencode {
        Bencode::Dict(
            with_entry(
                Map::empty().insert(vstd::utf8::encode_utf8("msg_type"@), Bencode::Int(self.msg_type)).insert(
                    vstd::utf8::encode_utf8("piece"@),
                    Bencode::Int(self.piece),
                ),
                "total_size"@,
                opt_int(self.total_size),
            ),
        )
    }

    /// The bencoding of the message, with `serde_bencode`.
    pub fn to_bencode(&self) -> (r: Vec<u8>)
        ensures
            r@ == bencoding(self.bencode_spec()),
    {
        let mut entries: Vec<(Vec<u8>, BencodeValue)> = Vec::new();
        let a = (text_bytes("msg_type"), BencodeValue::Int(self.msg_type));
        assert(a.1.value() == Bencode::Int(self.msg_type));
        entries.push(a);
        let ghost e1 = entries@;
        assert(e1.drop_last() =~= Seq::<(Vec<u8>, BencodeValue)>::empty());
        assert(e1.last() == a);
        assert(dict_value(e1.drop_last()) == Map::<Seq<u8>, Bencode>::empty());
        let ghost m1 = Map::<Seq<u8>, Bencode>::empty().insert(
            vstd::utf8::encode_utf8("msg_type"@),
            Bencode::Int(self.msg_type),
        );
        assert(dict_value(e1) == m1);
        let b = (text_bytes("piece"), BencodeValue::Int(self.piece));
        assert(b.1.value() == Bencode::Int(self.piece));
        entries.push(b);
        let ghost e2 = entries@;
        assert(e2.drop_last() =~= e1);
        assert(e2.last() == b);
        let ghost m2 = m1.insert(vstd::utf8::encode_utf8("piece"@), Bencode::Int(self.piece));
        assert(dict_value(e2) == m2);
        if let Some(size) = self.total_size {
            let c = (text_bytes("total_size"), BencodeValue::Int(size));
            assert(c.1.value() == Bencode::Int(size));
            entries.push(c);
            assert(entries@.drop_last() =~= e2);
            assert(entries@.last() == c);
        }
        assert(dict_value(entries@) == with_entry(m2, "total_size"@, opt_int(self.total_size)));
        let value = BencodeValue::Dict(entries);
        assert(value.value() == self.bencode_spec());
        match encode_value(&value) {
            Ok(b) => b,
            Err(_) => {
                proof {
                    assert(false);
                }
                Vec::new()
            },
        }
    }
}

/// The bytes of an extension message: its length, message id 20, the
/// extension id, and the payload.
pub open spec fn extension_bytes(extension_id: u8, payload: Seq<u8>) -> Seq<u8> {
    u32_be_bytes((payload.len() + 2) as u32) + seq![20u8, extension_id] + payload
}

/// Frames `payload` as an extension message with id `extension_id`.
pub fn extension_message(extension_id: u8, payload: &[u8]) -> (r: Vec<u8>)
    requires
        payload@.len() + 6 <= usize::MAX,
    ensures
        r@ == extension_bytes(extension_id, payload@),
{
    let msg_len = 2 + payload.len();
    let mut message: Vec<u8> = Vec::with_capacity(4 + msg_len);
    push_u32_be(&mut message, msg_len as u32);
    message.push(20);
    message.push(extension_id);
    push_all(&mut message, payload);
    assert(message@ =~= extension_bytes(extension_id, payload@));
    message
}

/// Checks that a reply to the extension handshake is an extension message.
pub fn check_handshake_reply(reply: &[u8]) -> (r: Result<(), String>)
    requires
        reply@.len() >= 1,
    ensures
        reply@[0] == 20 ==> r is Ok,
        reply@[0] != 20 ==> (r matches Err(t) && t@
            == "Invalid Extension message"@),
{
    if reply[0] != 20 {
        return Err(owned("Invalid Extension message"));
    }
    Ok(())
}

/// Checks that a reply to a metadata request is an extension message.
pub fn check_piece_reply(reply: &[u8]) -> (r: Result<(), String>)
    requires
        reply@.len() >= 1,
    ensures
        reply@[0] == 20 ==> r is Ok,
        reply@[0] != 20 ==> (r matches Err(t) && t@
            == "Invalid metadata piece response"@),
{
    if reply[0] != 20 {
        return Err(owned("Invalid metadata piece response"));
    }
    Ok(())
}

/// The number of 16 KiB pieces metadata of `metadata_size` bytes comes in.
pub open spec fn piece_count(metadata_size: int) -> int {
    (metadata_size + 16383) / 16384
}

/// The number of metadata pieces to request.
pub fn metadata_piece_count(metadata_size: i64) -> (r: i64)
    requires
        0 <= metadata_size <= i64::MAX - 16384,
    ensures
        r == piece_count(metadata_size as int),
{
    (metadata_size + METADATA_PIECE_SIZE as i64 - 1) / (METADATA_PIECE_SIZE as i64)
}

/// The first byte of metadata piece `piece`.
pub open spec fn piece_start(piece: int) -> int {
    piece * 16384
}

/// One past the last byte of metadata piece `piece` of metadata of `size` bytes.
pub open spec fn piece_end(piece: int, size: int) -> int {
    if piece * 16384 + 16384 < size {
        piece * 16384 + 16384
    } else {
        size
    }
}

/// The pieces cover the metadata: every byte lies in exactly one piece, the
/// last piece being the only short one.
pub proof fn law_pieces_cover_metadata(size: int, byte: int)
    requires
        0 <= byte < size,
    ensures
        0 <= byte / 16384 < piece_count(size),
        piece_start(byte / 16384) <= byte < piece_end(byte / 16384, size),
{
}

/// Copies the data of metadata piece `piece`, which follows the two header
/// bytes of `piece_data`, into its place in `metadata`.
pub fn place_metadata_piece(metadata: &mut Vec<u8>, piece: i64, piece_data: &[u8])
    requires
        0 <= piece < piece_count(old(metadata)@.len() as int),
        piece_data@.len() >= piece_end(piece as int, old(metadata)@.len() as int) - piece_start(
            piece as int,
        ) + 2,
    ensures
        final(metadata)@ == old(metadata)@.take(piece_start(piece as int)) + piece_data@.subrange(
            2,
            piece_end(piece as int, old(metadata)@.len() as int) - piece_start(piece as int) + 2,
        ) + old(metadata)@.skip(piece_end(piece as int, old(metadata)@.len() as int)),
{
    let size = metadata.len();
    assert(piece * 16384 < size) by (nonlinear_arith)
        requires
            0 <= piece < (size + 16383) / 16384,
    ;
    let start = piece as usize * METADATA_PIECE_SIZE;
    let end = if size - start > METADATA_PIECE_SIZE {
        start + METADATA_PIECE_SIZE
    } else {
        size
    };
    let mut k: usize = start;
    while k < end
        invariant
            start <= k <= end <= size,
            end - start <= 16384,
            metadata@.len() == size,
            piece_data@.len() >= end - start + 2,
            forall|j: int| 0 <= j < start ==> metadata@[j] == old(metadata)@[j],
            forall|j: int| start <= j < k ==> metadata@[j] == piece_data@[j - start + 2],
            forall|j: int| end <= j < size ==> metadata@[j] == old(metadata)@[j],
        decreases end - k,
    {
        metadata.set(k, piece_data[k - start + 2]);
        k = k + 1;
    }
    assert(metadata@ =~= old(metadata)@.take(start as int) + piece_data@.subrange(
        2,
        end - start + 2,
    ) + old(metadata)@.skip(end as int));
}

/// Checks the assembled metadata against the info hash of the magnet link.
pub fn verify_metadata(metadata: &[u8], info_hash: &[u8; 20]) -> (r: Result<(), String>)
    ensures
        sha1(metadata@) == info_hash@ ==> r is Ok,
        sha1(metadata@) != info_hash@ ==> (r matches Err(t) && t@
            == "Metadata hash mismatch"@),
{
    let hash = sha1_digest(metadata);
    if !crate::wire::range_equals(hash.as_slice(), 0, info_hash.as_slice()) {
        assert(hash@.subrange(0, 20) =~= hash@);
        return Err(owned("Metadata hash mismatch"));
    }
    assert(hash@.subrange(0, 20) =~= hash@);
    Ok(())
}

/// How many of `digests` equal `d`.
pub open spec fn count_equal(digests: Seq<Seq<u8>>, d: Seq<u8>) -> nat
    decreases digests.len(),
{
    if digests.len() == 0 {
        0
    } else {
        count_equal(digests.drop_last(), d) + if digests.last() == d {
            1nat
        } else {
            0nat
        }
    }
}

/// The SHA-1 digests of the candidates.
pub open spec fn digests_of(candidates: Seq<Vec<u8>>) -> Seq<Seq<u8>> {
    candidates.map_values(|c: Vec<u8>| sha1(c@))
}

/// Whether candidate `i` is the first of those whose digest is shared by the
/// most candidates.
pub open spec fn is_first_most_common(digests: Seq<Seq<u8>>, i: int) -> bool {
    &&& 0 <= i < digests.len()
    &&& forall|j: int|
        0 <= j < digests.len() ==> count_equal(digests, #[trigger] digests[j]) <= count_equal(
            digests,
            digests[i],
        )
    &&& forall|j: int|
        0 <= j < i ==> count_equal(digests, #[trigger] digests[j]) < count_equal(
            digests,
            digests[i],
        )
}

fn count_digest(digests: &Vec<[u8; 20]>, d: &[u8; 20]) -> (r: usize)
    ensures
        r == count_equal(digests@.map_values(|h: [u8; 20]| h@), d@),
{
    let ghost ds = digests@.map_values(|h: [u8; 20]| h@);
    let mut n: usize = 0;
    let mut i: usize = 0;
    while i < digests.len()
        invariant
            i <= digests@.len(),
            ds == digests@.map_values(|h: [u8; 20]| h@),
            n == count_equal(ds.take(i as int), d@),
            n <= i,
        decreases digests@.len() - i,
    {
        proof {
            assert(ds.take(i + 1).drop_last() =~= ds.take(i as int));
        }
        let same = crate::wire::range_equals(digests[i].as_slice(), 0, d.as_slice());
        proof {
            assert(digests@[i as int]@.subrange(0, 20) =~= digests@[i as int]@);
        }
        if same {
            n = n + 1;
        }
        i = i + 1;
    }
    assert(ds.take(digests@.len() as int) =~= ds);
    n
}

/// Of the metadata fetched from several peers, the one that the most peers
/// agree on (by SHA-1 digest), the first such when several are as common;
/// `None` when there is none.
pub fn most_common_metadata(candidates: Vec<Vec<u8>>) -> (r: Option<Vec<u8>>)
    ensures
        candidates@.len() == 0 ==> r is None,
        candidates@.len() > 0 ==> (r matches Some(m) && exists|i: int|
            is_first_most_common(digests_of(candidates@), i) && #[trigger] candidates@[i]@ == m@),
{
    if candidates.len() == 0 {
        return None;
    }
    let mut digests: Vec<[u8; 20]> = Vec::new();
    let mut i: usize = 0;
    while i < candidates.len()
        invariant
            i <= candidates@.len(),
            digests@.map_values(|h: [u8; 20]| h@) == digests_of(candidates@).take(i as int),
        decreases candidates@.len() - i,
    {
        let d = sha1_digest(candidates[i].as_slice());
        let ghost prev = digests@;
        digests.push(d);
        proof {
            assert(digests@ == prev.push(d));
            assert(digests@.map_values(|h: [u8; 20]| h@) =~= prev.map_values(|h: [u8; 20]| h@).push(d@));
            assert(digests_of(candidates@).take(i + 1) =~= digests_of(candidates@).take(i as int).push(
                sha1(candidates@[i as int]@),
            ));
            assert(digests@.map_values(|h: [u8; 20]| h@) =~= digests_of(candidates@).take(i + 1));
        }
        i = i + 1;
    }
    let ghost ds = digests_of(candidates@);
    assert(digests@.map_values(|h: [u8; 20]| h@) =~= ds);
    let mut best: usize = 0;
    let mut best_count = count_digest(&digests, &digests[0]);
    let mut j: usize = 1;
    while j < digests.len()
        invariant
            digests@.len() == candidates@.len(),
            ds == digests_of(candidates@),
            digests@.map_values(|h: [u8; 20]| h@) == ds,
            1 <= j <= digests@.len(),
            best < j,
            best_count == count_equal(ds, ds[best as int]),
            forall|k: int| 0 <= k < j ==> count_equal(ds, #[trigger] ds[k]) <= best_count,
            forall|k: int| 0 <= k < best ==> count_equal(ds, #[trigger] ds[k]) < best_count,
        decreases digests@.len() - j,
    {
        let c = count_digest(&digests, &digests[j]);
        if c > best_count {
            best = j;
            best_count = c;
        }
        j = j + 1;
    }
    assert(is_first_most_common(ds, best as int));
    let mut candidates = candidates;
    let chosen = candidates.swap_remove(best);
    Some(chosen)
}

/// The peers that the trackers of a magnet link answered with, tracker after
/// tracker (a tracker that failed answers nothing).
pub open spec fn gathered(answers: Seq<Vec<PeerInfo>>) -> Seq<PeerInfo> {
    answers.map_values(|v: Vec<PeerInfo>| v@).flatten()
}

/// Gathers the peers of all the trackers' answers, in order; an error when
/// no tracker named any peer.
pub fn gather_peers(answers: Vec<Vec<PeerInfo>>) -> (r: Result<Vec<PeerInfo>, String>)
    ensures
        gathered(answers@).len() > 0 ==> (r matches Ok(p) && p@ == gathered(answers@)),
        gathered(answers@).len() == 0 ==> (r matches Err(t) && t@
            == "Could not get any peers from any tracker"@),
{
    let ghost views = answers@.map_values(|v: Vec<PeerInfo>| v@);
    let mut all: Vec<PeerInfo> = Vec::new();
    for answer in it: answers
        invariant
            it.seq() == answers@,
            views == answers@.map_values(|v: Vec<PeerInfo>| v@),
            all@ == views.take(it.index() as int).flatten(),
    {
        let ghost k = it.index() as int;
        let ghost before = all@;
        let mut peers = answer;
        all.append(&mut peers);
        proof {
            assert(views.take(k + 1) =~= views.take(k).push(views[k]));
            views.take(k).lemma_flatten_push(views[k]);
            assert(all@ =~= before + views[k]);
        }
    }
    assert(views.take(views.len() as int) =~= views);
    if all.len() == 0 {
        Err(owned("Could not get any peers from any tracker"))
    } else {
        Ok(all)
    }
}

/// At most this many peers are asked for the metadata at once.
pub const MAX_CONCURRENT_FETCHES: usize = 10;

/// How many of `n` peers are asked for the metadata: the first ten.
pub fn metadata_fetch_count(n: usize) -> (r: usize)
    ensures
        r == if n < MAX_CONCURRENT_FETCHES {
            n
        } else {
            MAX_CONCURRENT_FETCHES
        },
{
    if n < MAX_CONCURRENT_FETCHES {
        n
    } else {
        MAX_CONCURRENT_FETCHES
    }
}

} // verus!
