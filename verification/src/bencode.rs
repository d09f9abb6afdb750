//! Bencoded values, decoded and encoded with `serde_bencode`.

use crate::text::{decimal, signed_decimal};
use vstd::prelude::*;

verus! {

/// A bencoded value: a byte string, an integer, a list, or a dictionary from
/// byte strings to values.
#[derive(Debug)]
pub enum BencodeValue {
    Bytes(Vec<u8>),
    Int(i64),
    List(Vec<BencodeValue>),
    Dict(Vec<(Vec<u8>, BencodeValue)>),
}

/// The mathematical value of a [`BencodeValue`]; a dictionary is a map, so the
/// order of its entries does not matter.
pub enum Bencode {
    Bytes(Seq<u8>),
    Int(i64),
    List(Seq<Bencode>),
    Dict(Map<Seq<u8>, Bencode>),
}

impl BencodeValue {
    /// The mathematical value of this value.
    pub open spec fn value(self) -> Bencode
        decreases self,
    {
        match self {
            BencodeValue::Bytes(b) => Bencode::Bytes(b@),
            BencodeValue::Int(i) => Bencode::Int(i),
            BencodeValue::List(items) => Bencode::List(list_value(items@)),
            BencodeValue::Dict(entries) => Bencode::Dict(dict_value(entries@)),
        }
    }
}

/// The values of a list.
pub open spec fn list_value(s: Seq<BencodeValue>) -> Seq<Bencode>
    decreases s,
{
    if s.len() == 0 {
        Seq::empty()
    } else {
        list_value(s.drop_last()).push(s.last().value())
    }
}

/// The map of a dictionary's entries; a later entry for a key replaces an
/// earlier one.
pub open spec fn dict_value(s: Seq<(Vec<u8>, BencodeValue)>) -> Map<Seq<u8>, Bencode>
    decreases s,
{
    if s.len() == 0 {
        Map::empty()
    } else {
        dict_value(s.drop_last()).insert(s.last().0@, s.last().1.value())
    }
}

/// What `serde_bencode` decodes from `raw` as a `serde_bencode::value::Value`,
/// or `None` where it fails.
pub uninterp spec fn bencode_decoding(raw: Seq<u8>) -> Option<Bencode>;

/// The bytes of ASCII text.
pub open spec fn ascii(s: Seq<char>) -> Seq<u8> {
    s.map_values(|c: char| c as u8)
}

/// Whether `a` comes before `b`, or equals it, in lexicographic byte order.
pub open spec fn lex_le(a: Seq<u8>, b: Seq<u8>) -> bool
    decreases a.len(),
{
    if a.len() == 0 {
        true
    } else if b.len() == 0 {
        false
    } else if a[0] != b[0] {
        a[0] < b[0]
    } else {
        lex_le(a.drop_first(), b.drop_first())
    }
}

/// The keys of a dictionary in increasing byte order.
pub open spec fn sorted_keys(m: Map<Seq<u8>, Bencode>) -> Seq<Seq<u8>> {
    choose|s: Seq<Seq<u8>>|
        s.to_set() == m.dom() && s.no_duplicates() && forall|i: int, j: int|
            0 <= i < j < s.len() ==> lex_le(#[trigger] s[i], #[trigger] s[j])
}

/// A bencoded byte string: its length in decimal, a colon, the bytes.
pub open spec fn bencoded_bytes(b: Seq<u8>) -> Seq<u8> {
    ascii(decimal(b.len())) + seq![58u8] + b
}

/// The bencoding of a value: `i<decimal>e` for an integer, `<length>:<bytes>`
/// for a byte string, `l...e` around the items of a list, `d...e` around the
/// entries of a dictionary, each key (as a byte string) before its value, in
/// increasing key order.
pub open spec fn bencoding(v: Bencode) -> Seq<u8>
    decreases v, 0nat,
{
    match v {
        Bencode::Bytes(b) => bencoded_bytes(b),
        Bencode::Int(i) => seq![105u8] + ascii(signed_decimal(i as int)) + seq![101u8],
        Bencode::List(items) => seq![108u8] + items_bencoding(items) + seq![101u8],
        Bencode::Dict(m) => seq![100u8] + entries_bencoding(m, sorted_keys(m)) + seq![101u8],
    }
}

/// The bencodings of `items`, one after the other.
pub open spec fn items_bencoding(items: Seq<Bencode>) -> Seq<u8>
    decreases items, 0nat,
{
    if items.len() == 0 {
        Seq::empty()
    } else {
        items_bencoding(items.drop_last()) + bencoding(items.last())
    }
}

/// The entries of `m` under `keys`, each key (as a byte string) before its
/// value, one after the other.
pub open spec fn entries_bencoding(m: Map<Seq<u8>, Bencode>, keys: Seq<Seq<u8>>) -> Seq<u8>
    decreases m, keys.len(),
{
    if keys.len() == 0 {
        Seq::empty()
    } else {
        let k = keys.last();
        let entry = if m.dom().finite() && m.dom().contains(k) {
            bencoded_bytes(k) + bencoding(m[k])
        } else {
            Seq::empty()
        };
        entries_bencoding(m, keys.drop_last()) + entry
    }
}

/// `serde_bencode::value::Value`, the decoder's own representation of a value.
#[verifier::external_type_specification]
#[verifier::external_body]
pub struct ExSerdeValue(serde_bencode::value::Value);

/// Moves a decoded `serde_bencode` value into a [`BencodeValue`], variant for
/// variant (the entries of a dictionary in the order its map yields them).
#[verifier::external_body]
fn value_from_serde(v: serde_bencode::value::Value) -> BencodeValue {
    match v {
        serde_bencode::value::Value::Bytes(b) => BencodeValue::Bytes(b),
        serde_bencode::value::Value::Int(i) => BencodeValue::Int(i),
        serde_bencode::value::Value::List(l) => BencodeValue::List(
            l.into_iter().map(value_from_serde).collect(),
        ),
        serde_bencode::value::Value::Dict(d) => BencodeValue::Dict(
            d.into_iter().map(|(k, v)| (k, value_from_serde(v))).collect(),
        ),
    }
}

/// Copies a [`BencodeValue`] into a `serde_bencode` value, variant for variant
/// (the entries of a dictionary inserted into its map in order).
#[verifier::external_body]
fn value_to_serde(v: &BencodeValue) -> serde_bencode::value::Value {
    match v {
        BencodeValue::Bytes(b) => serde_bencode::value::Value::Bytes(b.clone()),
        BencodeValue::Int(i) => serde_bencode::value::Value::Int(*i),
        BencodeValue::List(l) => serde_bencode::value::Value::List(
            l.iter().map(value_to_serde).collect(),
        ),
        BencodeValue::Dict(d) => serde_bencode::value::Value::Dict(
            d.iter().map(|(k, v)| (k.clone(), value_to_serde(v))).collect(),
        ),
    }
}

/// Decodes `raw` with `serde_bencode::from_bytes::<serde_bencode::value::Value>`.
///
/// Claims that the decoder succeeds or fails as a function of `raw` alone, and
/// that on success the value depends on `raw` alone (up to the order of
/// dictionary entries, which the view forgets). What the decoder accepts is
/// named, not stated.
#[verifier::external_body]
pub(crate) fn decode_value(raw: &[u8]) -> (r: Result<BencodeValue, serde_bencode::Error>)
    ensures
        match r {
            Ok(v) => bencode_decoding(raw@) == Some(v.value()),
            Err(_) => bencode_decoding(raw@) is None,
        },
{
    serde_bencode::from_bytes::<serde_bencode::value::Value>(raw).map(value_from_serde)
}

/// Encodes `v` with `serde_bencode::to_bytes`.
///
/// Claims what the serializer's source shows: encoding a
/// `serde_bencode::value::Value` always succeeds and writes its bencoding (see
/// [`bencoding`]), dictionary entries sorted by key.
#[verifier::external_body]
pub(crate) fn encode_value(v: &BencodeValue) -> (r: Result<Vec<u8>, serde_bencode::Error>)
    ensures
        r is Ok,
        match r {
            Ok(b) => b@ == bencoding(v.value()),
            Err(_) => true,
        },
{
    serde_bencode::to_bytes(&value_to_serde(v))
}

} // verus!
