//! CBOR items of the `dcbor` crate, as the parser builds them.
//!
//! An item is opaque here. Contracts speak of it through its deterministic
//! encoding, the bytes that `CBOR::to_cbor_data` gives: dCBOR encodes
//! equivalent items to the same bytes, so the encoding stands for the item.
//! Nothing in this file is proved; each contract restates what the named
//! function of the outside crate does.

use vstd::prelude::*;
use dcbor::CBOR;

verus! {

/// The CBOR item of `dcbor`, of which nothing but its encoding is spoken.
#[verifier::external_type_specification]
#[verifier::external_body]
pub struct ExCbor(dcbor::CBOR);

/// A `dcbor::Map` under construction. Verus cannot take the declaration of
/// that type itself, so the map is kept behind this struct.
#[verifier::external_body]
pub struct ItemMap {
    inner: dcbor::Map,
}

/// The deterministic encoding of an item: what `CBOR::to_cbor_data` returns.
pub uninterp spec fn encoding_of(item: CBOR) -> Seq<u8>;

/// What the `dcbor::Map` holds: the encoding of each value under the encoding
/// of its key.
pub uninterp spec fn map_entries(map: ItemMap) -> Map<Seq<u8>, Seq<u8>>;

/// The encoding of a map item with the given entries: the head of major type
/// 5 with their number, then each key and value in ascending order of the
/// keys' bytes.
pub uninterp spec fn map_encoding(entries: Map<Seq<u8>, Seq<u8>>) -> Seq<u8>;

/// The encoding of the text item made from the given UTF-8: the head of
/// major type 3, then the text in normalization form C.
pub uninterp spec fn text_encoding(utf8: Seq<u8>) -> Seq<u8>;

/// The encoding of the number that a literal denotes: the literal read as a
/// 64-bit float, then reduced to the shortest integer or float that holds
/// the same value; `None` where the float parser of std rejects the text.
pub uninterp spec fn number_encoding(text: Seq<u8>) -> Option<Seq<u8>>;

/// The encoding of the date that an ISO-8601 text denotes, tag 1 around its
/// seconds since the epoch; `None` where the text is no date.
pub uninterp spec fn date_encoding(text: Seq<u8>) -> Option<Seq<u8>>;

/// The encoding of the item that a single-part UR text carries, or the
/// message of the failure to decode it.
pub uninterp spec fn ur_decoded(text: Seq<u8>) -> Result<Seq<u8>, Seq<char>>;

/// The bytes that a standard base64 text with padding denotes; `None` where
/// the text is not well-formed.
pub uninterp spec fn base64_decoded(text: Seq<u8>) -> Option<Seq<u8>>;

/// The value of a hexadecimal digit; 16 for any other byte.
pub open spec fn hex_digit_value(b: u8) -> int {
    if 0x30 <= b <= 0x39 {
        b - 0x30
    } else if 0x41 <= b <= 0x46 {
        b - 0x41 + 10
    } else if 0x61 <= b <= 0x66 {
        b - 0x61 + 10
    } else {
        16
    }
}

/// An even number of hexadecimal digits.
pub open spec fn is_hex_text(text: Seq<u8>) -> bool {
    &&& text.len() % 2 == 0
    &&& forall|i: int| 0 <= i < text.len() ==> hex_digit_value(#[trigger] text[i]) < 16
}

/// The bytes that an even number of hexadecimal digits denote.
pub open spec fn hex_decoded(text: Seq<u8>) -> Seq<u8> {
    Seq::new(
        text.len() / 2,
        |i: int| (16 * hex_digit_value(text[2 * i]) + hex_digit_value(text[2 * i + 1])) as u8,
    )
}

/// The initial byte and argument of an encoded item: major type `major` with
/// the unsigned argument `n` in its shortest form.
pub open spec fn head(major: u8, n: u64) -> Seq<u8> {
    let m = major as int * 32;
    if n <= 23 {
        seq![(m + n) as u8]
    } else if n <= 0xff {
        seq![(m + 24) as u8, n as u8]
    } else if n <= 0xffff {
        seq![(m + 25) as u8, (n / 0x100) as u8, (n % 0x100) as u8]
    } else if n <= 0xffff_ffff {
        seq![
            (m + 26) as u8,
            (n / 0x100_0000) as u8,
            (n / 0x1_0000 % 0x100) as u8,
            (n / 0x100 % 0x100) as u8,
            (n % 0x100) as u8,
        ]
    } else {
        seq![
            (m + 27) as u8,
            (n / 0x100_0000_0000_0000) as u8,
            (n / 0x1_0000_0000_0000 % 0x100) as u8,
            (n / 0x100_0000_0000 % 0x100) as u8,
            (n / 0x1_0000_0000 % 0x100) as u8,
            (n / 0x100_0000 % 0x100) as u8,
            (n / 0x1_0000 % 0x100) as u8,
            (n / 0x100 % 0x100) as u8,
            (n % 0x100) as u8,
        ]
    }
}

/// The encodings of a sequence of items, in order.
pub open spec fn encodings(items: Seq<CBOR>) -> Seq<Seq<u8>> {
    items.map_values(|c: CBOR| encoding_of(c))
}

/// The encoding of an array of items with the given encodings.
pub open spec fn array_encoding(items: Seq<Seq<u8>>) -> Seq<u8> {
    head(4, items.len() as u64) + items.flatten()
}

/// The encoding of a byte string.
pub open spec fn byte_string_encoding(bytes: Seq<u8>) -> Seq<u8> {
    head(2, bytes.len() as u64) + bytes
}

/// The encoding of a tagged item.
pub open spec fn tagged_encoding(tag: u64, inner: Seq<u8>) -> Seq<u8> {
    head(6, tag) + inner
}

/// The encoding of the known value with the given number: tag 40000 around
/// the unsigned integer.
pub open spec fn known_value_encoding(value: u64) -> Seq<u8> {
    tagged_encoding(40000, head(0, value))
}

/// A map without entries.
pub open spec fn no_entries() -> Map<Seq<u8>, Seq<u8>> {
    Map::empty()
}

/// What decoding a UR gave, with the item taken by its encoding and the
/// message by its characters.
pub open spec fn ur_outcome(outcome: Result<CBOR, String>) -> Result<Seq<u8>, Seq<char>> {
    match outcome {
        Ok(item) => Ok(encoding_of(item)),
        Err(message) => Err(message@),
    }
}

/// `CBOR::from(bool)`: the simple value 21 for `true`, 20 for `false`.
#[verifier::external_body]
pub(crate) fn bool_item(b: bool) -> (item: CBOR)
    ensures
        encoding_of(item) == seq![if b { 0xf5u8 } else { 0xf4u8 }],
{
    CBOR::from(b)
}

/// `CBOR::null`: the simple value 22.
#[verifier::external_body]
pub(crate) fn null_item() -> (item: CBOR)
    ensures
        encoding_of(item) == seq![0xf6u8],
{
    CBOR::null()
}

/// `CBOR::to_byte_string`: the byte string that holds `bytes`.
#[verifier::external_body]
pub(crate) fn byte_string_item(bytes: &[u8]) -> (item: CBOR)
    ensures
        encoding_of(item) == byte_string_encoding(bytes@),
{
    CBOR::to_byte_string(bytes)
}

/// `CBOR::from(&str)`: the text item of the given UTF-8. Bytes that are no
/// UTF-8 are replaced as `String::from_utf8_lossy` does.
#[verifier::external_body]
pub(crate) fn text_item(utf8: &[u8]) -> (item: CBOR)
    ensures
        encoding_of(item) == text_encoding(utf8@),
{
    CBOR::from(&*String::from_utf8_lossy(utf8))
}

/// `CBOR::to_tagged_value`: `item` under the tag `tag`.
#[verifier::external_body]
pub(crate) fn tagged_item(tag: u64, item: CBOR) -> (tagged: CBOR)
    ensures
        encoding_of(tagged) == tagged_encoding(tag, encoding_of(item)),
{
    CBOR::to_tagged_value(tag, item)
}

/// `CBOR::from(Vec<CBOR>)`: the array of the items, in order.
#[verifier::external_body]
pub(crate) fn array_item(items: Vec<CBOR>) -> (item: CBOR)
    ensures
        encoding_of(item) == array_encoding(encodings(items@)),
{
    CBOR::from(items)
}

/// `KnownValue::new` and its conversion to CBOR: tag 40000 around `value`.
#[verifier::external_body]
pub(crate) fn known_value_item(value: u64) -> (item: CBOR)
    ensures
        encoding_of(item) == known_value_encoding(value),
{
    CBOR::from(known_values::KnownValue::new(value))
}

/// `str::parse` to a 64-bit float and `CBOR::from` of that float, which
/// reduces it to an integer where it holds one; `None` where the float
/// parser rejects the text. The parser of std takes every decimal literal of
/// the notation and the three words `NaN`, `Infinity` and `-Infinity`. The
/// type to parse to is given by `Simple::Float`, whose field it is.
#[verifier::external_body]
pub(crate) fn number_item(text: &[u8]) -> (item: Option<CBOR>)
    ensures
        item is Some <==> number_encoding(text@) is Some,
        item matches Some(c) ==> Some(encoding_of(c)) == number_encoding(text@),
{
    match dcbor::Simple::Float(String::from_utf8_lossy(text).parse().ok()?) {
        dcbor::Simple::Float(value) => Some(CBOR::from(value)),
        _ => None,
    }
}

/// `Date::from_string` and the date's conversion to CBOR.
#[verifier::external_body]
pub(crate) fn date_item(text: &[u8]) -> (item: Option<CBOR>)
    ensures
        item is Some <==> date_encoding(text@) is Some,
        item matches Some(c) ==> Some(encoding_of(c)) == date_encoding(text@),
{
    let date = dcbor::Date::from_string(String::from_utf8_lossy(text)).ok()?;
    Some(CBOR::from(date))
}

/// `UR::from_ur_string` and `UR::cbor`: the item that the UR text carries, or
/// the message of the error.
#[verifier::external_body]
pub(crate) fn ur_item(text: &[u8]) -> (item: Result<CBOR, String>)
    ensures
        ur_outcome(item) == ur_decoded(text@),
{
    match bc_ur::UR::from_ur_string(String::from_utf8_lossy(text)) {
        Ok(ur) => Ok(ur.cbor()),
        Err(e) => Err(e.to_string()),
    }
}

/// `Map::new`: a map without entries.
#[verifier::external_body]
pub(crate) fn map_new() -> (map: ItemMap)
    ensures
        map_entries(map) == no_entries(),
{
    ItemMap { inner: dcbor::Map::new() }
}

/// `Map::contains_key`: whether an entry stands under the key's encoding.
#[verifier::external_body]
pub(crate) fn map_contains_key(map: &ItemMap, key: &CBOR) -> (found: bool)
    ensures
        found == map_entries(*map).dom().contains(encoding_of(*key)),
{
    map.inner.contains_key(key.clone())
}

/// `Map::insert`: the value stands under the key's encoding, in place of an
/// earlier entry there; the other entries stay.
#[verifier::external_body]
pub(crate) fn map_insert(map: &mut ItemMap, key: CBOR, value: CBOR)
    ensures
        map_entries(*final(map)) == map_entries(*old(map)).insert(
            encoding_of(key),
            encoding_of(value),
        ),
{
    map.inner.insert(key, value);
}

/// `CBOR::from(Map)`: the map item with the map's entries.
#[verifier::external_body]
pub(crate) fn map_item(map: ItemMap) -> (item: CBOR)
    ensures
        encoding_of(item) == map_encoding(map_entries(map)),
{
    CBOR::from(map.inner)
}

/// `hex::decode`: the bytes that the hexadecimal digits denote, two digits
/// to a byte; `None` for an odd number of digits or a byte that is no digit.
#[verifier::external_body]
pub(crate) fn hex_decode(text: &[u8]) -> (bytes: Option<Vec<u8>>)
    ensures
        bytes is Some <==> is_hex_text(text@),
        bytes matches Some(v) ==> v@ == hex_decoded(text@),
{
    hex::decode(text).ok()
}

/// `Engine::decode` of base64's `STANDARD` engine.
#[verifier::external_body]
pub(crate) fn base64_decode(text: &[u8]) -> (bytes: Option<Vec<u8>>)
    ensures
        bytes is Some <==> base64_decoded(text@) is Some,
        bytes matches Some(v) ==> Some(v@) == base64_decoded(text@),
{
    base64::Engine::decode(&base64::engine::general_purpose::STANDARD, text).ok()
}

/// `TagsStore::tag_for_name` on dcbor's process-wide store: the value of the
/// tag registered under the name, if any. What is registered can change
/// between two calls, so nothing is stated of the result.
#[verifier::external_body]
pub(crate) fn registered_tag(name: &[u8]) -> Option<u64> {
    let store = dcbor::GLOBAL_TAGS.get();
    let tag = dcbor::TagsStoreTrait::tag_for_name(store.as_ref()?, &String::from_utf8_lossy(name))?;
    Some(tag.value())
}

/// `KnownValuesStore::known_value_named` on the process-wide store of
/// `known_values`: the number of the known value registered under the name,
/// if any. Nothing is stated of the result, as for tags.
#[verifier::external_body]
pub(crate) fn registered_known_value(name: &[u8]) -> Option<u64> {
    let store = known_values::KNOWN_VALUES.get();
    let known = store.as_ref()?.known_value_named(&String::from_utf8_lossy(name))?;
    Some(known.value())
}

/// `String::from_utf8_lossy`: for bytes that are UTF-8, the text that they
/// encode. Of other bytes nothing is stated.
#[verifier::external_body]
pub(crate) fn text_of(utf8: &[u8]) -> (text: String)
    ensures
        vstd::utf8::valid_utf8(utf8@) ==> vstd::utf8::encode_utf8(text@) == utf8@,
{
    String::from_utf8_lossy(utf8).into_owned()
}

} // verus!
