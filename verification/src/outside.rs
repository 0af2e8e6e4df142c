//! The outside world, as far as the library relies on it: declarations of
//! types from other crates, and calls whose contracts are taken on trust.
//!
//! Nothing in this file is proved. Each item says which function it stands
//! for and what is claimed of it.

use dashmap::DashMap;
use std::collections::hash_map::DefaultHasher;
use std::hash::{BuildHasher, BuildHasherDefault};
use vstd::prelude::*;
use vstd::utf8::*;

verus! {

/// `chrono::NaiveDate`: a calendar date, carried through unread.
#[verifier::external_type_specification]
#[verifier::external_body]
pub struct ExNaiveDate(chrono::NaiveDate);

/// `chrono::NaiveDateTime`: a point in time in UTC, carried through unread.
#[verifier::external_type_specification]
#[verifier::external_body]
pub struct ExNaiveDateTime(chrono::NaiveDateTime);

/// `serde_json::Value`: a JSON document, carried through unread.
#[verifier::external_type_specification]
#[verifier::external_body]
pub struct ExJsonValue(serde_json::Value);

/// `bytes::Bytes`: a shared, immutable run of bytes.
#[verifier::external_type_specification]
#[verifier::external_body]
pub struct ExBytes(bytes::Bytes);

/// `dashmap::DashMap`: a hash map.
#[verifier::external_type_specification]
#[verifier::external_body]
#[verifier::reject_recursive_types(K)]
#[verifier::reject_recursive_types(V)]
#[verifier::reject_recursive_types(S)]
pub struct ExDashMap<K, V, S>(DashMap<K, V, S>);

/// What an index from byte strings to positions holds.
pub uninterp spec fn index_contents(m: DashMap<Vec<u8>, usize>) -> Map<Seq<u8>, usize>;

/// `DashMap::new`: a new map holds nothing.
#[verifier::external_body]
pub(crate) fn index_new() -> (m: DashMap<Vec<u8>, usize>)
    ensures
        index_contents(m).dom() == Set::<Seq<u8>>::empty(),
{
    DashMap::new()
}

/// `DashMap::get`: finds the value under a key, if the key is there.
#[verifier::external_body]
pub(crate) fn index_get(m: &DashMap<Vec<u8>, usize>, key: &[u8]) -> (found: Option<usize>)
    ensures
        match found {
            Some(at) => index_contents(*m).contains_key(key@) && index_contents(*m)[key@] == at,
            None => !index_contents(*m).contains_key(key@),
        },
{
    m.get(key).map(|found| *found)
}

/// `DashMap::insert`: sets the value under one key and leaves the others.
#[verifier::external_body]
pub(crate) fn index_insert(m: &mut DashMap<Vec<u8>, usize>, key: Vec<u8>, at: usize)
    ensures
        index_contents(*final(m)) == index_contents(*old(m)).insert(key@, at),
{
    m.insert(key, at);
}

/// `DashMap::remove`: drops one key, if it is there, and leaves the others.
#[verifier::external_body]
pub(crate) fn index_remove(m: &mut DashMap<Vec<u8>, usize>, key: &[u8])
    ensures
        index_contents(*final(m)) == index_contents(*old(m)).remove(key@),
{
    m.remove(key);
}

/// `DashMap::len`: the number of keys.
#[verifier::external_body]
pub(crate) fn index_len(m: &DashMap<Vec<u8>, usize>) -> (n: usize)
    ensures
        n == index_contents(*m).dom().len(),
{
    m.len()
}

/// The bytes that a `Bytes` value shows.
pub uninterp spec fn bytes_content(b: bytes::Bytes) -> Seq<u8>;

/// `Bytes::new`: no bytes.
pub assume_specification[ bytes::Bytes::new ]() -> (b: bytes::Bytes)
    ensures
        bytes_content(b) == Seq::<u8>::empty(),
;

/// `Bytes::len`: the number of bytes.
pub assume_specification[ bytes::Bytes::len ](b: &bytes::Bytes) -> (n: usize)
    ensures
        n == bytes_content(*b).len(),
;

/// `Bytes::clone`: another handle on the same bytes.
pub assume_specification[ <bytes::Bytes as Clone>::clone ](b: &bytes::Bytes) -> (c: bytes::Bytes)
    ensures
        bytes_content(c) == bytes_content(*b),
;

/// `Bytes::from` of a `Vec<u8>`: the bytes of the vector.
pub assume_specification[ <bytes::Bytes as From<Vec<u8>>>::from ](v: Vec<u8>) -> (b: bytes::Bytes)
    ensures
        bytes_content(b) == v@,
;

/// The text that stands for bytes that are not UTF-8.
pub uninterp spec fn repaired_text(b: Seq<u8>) -> Seq<char>;

/// `String::from_utf8_lossy`: the text that the bytes encode. Where they are
/// not UTF-8, nothing but that the text is a function of the bytes is claimed.
#[verifier::external_body]
pub(crate) fn lossy_text(b: &bytes::Bytes) -> (text: String)
    ensures
        text@ == if valid_utf8(bytes_content(*b)) {
            decode_utf8(bytes_content(*b))
        } else {
            repaired_text(bytes_content(*b))
        },
{
    String::from_utf8_lossy(b).to_string()
}

/// `serde_json::Value::clone`: the same document again.
pub assume_specification[ <serde_json::Value as Clone>::clone ](v: &serde_json::Value) -> (c:
    serde_json::Value)
    ensures
        c == *v,
;

/// `chrono::Utc::now`: the time of the call, of which nothing is claimed. The
/// call panics where the system clock is before 1970.
#[verifier::external_body]
pub(crate) fn utc_now() -> chrono::NaiveDateTime {
    chrono::Utc::now().naive_utc()
}

/// A lower-case hexadecimal digit.
pub open spec fn is_hex_digit(c: char) -> bool {
    ||| '0' <= c <= '9'
    ||| 'a' <= c <= 'f'
}

/// The shape of a random (version 4) UUID in hyphenated notation.
pub open spec fn is_uuid_text(s: Seq<char>) -> bool {
    &&& s.len() == 36
    &&& forall|i: int| #![trigger s[i]]
        0 <= i < 36 ==> if i == 8 || i == 13 || i == 18 || i == 23 {
            s[i] == '-'
        } else {
            is_hex_digit(s[i])
        }
    &&& s[14] == '4'
    &&& (s[19] == '8' || s[19] == '9' || s[19] == 'a' || s[19] == 'b')
}

/// `uuid::Uuid::new_v4`, in hyphenated notation. The value is random: only its
/// shape is claimed, not that it differs from an earlier one. The call panics
/// where the system has no source of random numbers.
#[verifier::external_body]
pub(crate) fn fresh_uuid() -> (text: String)
    ensures
        is_uuid_text(text@),
{
    uuid::Uuid::new_v4().to_string()
}

/// The debug notation of a span of `secs` seconds and `nanos` nanoseconds.
pub uninterp spec fn duration_debug(secs: u64, nanos: u32) -> Seq<char>;

/// The `Debug` notation of `std::time::Duration`, such as `1.5s`.
#[verifier::external_body]
pub(crate) fn duration_text(secs: u64, nanos: u32) -> (text: String)
    requires
        nanos < 1_000_000_000,
    ensures
        text@ == duration_debug(secs, nanos),
{
    format!("{:?}", std::time::Duration::new(secs, nanos))
}

/// The debug notation of a text: in double quotes, with escapes.
pub uninterp spec fn text_debug(s: Seq<char>) -> Seq<char>;

/// The `Debug` notation of `str`.
#[verifier::external_body]
pub(crate) fn quoted_text(s: &str) -> (text: String)
    ensures
        text@ == text_debug(s@),
{
    format!("{:?}", s)
}

/// The hash of a text with the hasher of `DefaultHasher::new`.
pub uninterp spec fn default_hash(s: Seq<char>) -> u64;

/// `BuildHasher::hash_one` over `DefaultHasher`. That hasher starts from fixed
/// keys, so that the hash is a function of the text, in one release of the
/// standard library.
#[verifier::external_body]
pub(crate) fn hash_of_text(s: &str) -> (hash: u64)
    ensures
        hash == default_hash(s@),
{
    BuildHasherDefault::<DefaultHasher>::default().hash_one(s)
}

/// The compact notation of a JSON document.
pub uninterp spec fn json_content(v: serde_json::Value) -> Seq<char>;

/// `serde_json::Value::to_string`: the compact notation of a document.
#[verifier::external_body]
pub(crate) fn json_text(v: &serde_json::Value) -> (text: String)
    ensures
        text@ == json_content(*v),
{
    v.to_string()
}

/// The members of a JSON object by their names; a document of another kind has
/// none.
pub uninterp spec fn json_members(v: serde_json::Value) -> Map<Seq<char>, serde_json::Value>;

/// `serde_json::Value::get` with a name: the member of that name.
#[verifier::external_body]
pub(crate) fn json_get<'a>(v: &'a serde_json::Value, name: &str) -> (found: Option<
    &'a serde_json::Value,
>)
    ensures
        match found {
            Some(m) => json_members(*v).contains_key(name@) && json_members(*v)[name@] == *m,
            None => !json_members(*v).contains_key(name@),
        },
{
    v.get(name)
}

/// The elements of a JSON array; `None` for a document of another kind.
pub uninterp spec fn json_elements(v: serde_json::Value) -> Option<Seq<serde_json::Value>>;

/// `serde_json::Value::as_array`: the elements of an array.
#[verifier::external_body]
pub(crate) fn json_array(v: &serde_json::Value) -> (found: Option<&Vec<serde_json::Value>>)
    ensures
        match found {
            Some(elements) => json_elements(*v) == Some(elements@),
            None => json_elements(*v) is None,
        },
{
    v.as_array()
}

} // verus!
